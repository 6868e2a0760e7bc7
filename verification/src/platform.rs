//! Glue source generation.
//!
//! Given a signature, emit the source text of the external-toolchain
//! platform module whose single exported entry point matches that
//! signature positionally and forwards to the plugin's own declared
//! function. Generation is a pure function of the signature: identical
//! signatures produce byte-identical glue source.

use vstd::prelude::*;
use vstd::string::*;

use crate::dtype::{DType, dtype_token};
use crate::header::{Meta, MetaV, arrow_sep, colon_sep, comma_sep};

verus! {

/// The fixed, ABI-stable symbol under which the compiled artifact exports
/// its single entry point: the external toolchain's name for the `entry`
/// binding every platform module provides. The loader resolves exactly
/// this name, whatever the plugin's own declared name was.
pub fn entry_symbol() -> (r: &'static str)
    ensures
        r@ == "roc__entry_1_exposed_generic"@,
{
    "roc__entry_1_exposed_generic"
}

/// Opening of the platform module, up to the plugin's name.
pub open spec fn pf_pre() -> Seq<char> {
    "\nplatform \"plugin\"\n    requires {} { "@
}

/// Middle of the platform module: from the end of the declared signature
/// to the right-hand side of the `entry` binding.
pub open spec fn pf_post() -> Seq<char> {
    " }\n    exposes []\n    packages {}\n    imports []\n    provides [entry]\n\nentry = "@
}

/// The declared argument types joined with `", "`.
pub open spec fn args_join(args: Seq<DType>) -> Seq<char>
    decreases args.len(),
{
    if args.len() == 0 {
        Seq::empty()
    } else if args.len() == 1 {
        dtype_token(args[0])
    } else {
        dtype_token(args[0]) + comma_sep() + args_join(args.drop_first())
    }
}

/// The lambda parameter names, one letter per argument position.
pub open spec fn alphabet() -> Seq<char> {
    "abcdefghijklmnopqrstuvwxyz"@
}

/// Name of the lambda parameter standing for argument position `i`.
pub open spec fn var_name(i: int) -> Seq<char> {
    alphabet().subrange(i, i + 1)
}

/// The parameter names of positions `lo` to `hi` joined with `sep`.
pub open spec fn vars_join(lo: int, hi: int, sep: Seq<char>) -> Seq<char>
    decreases hi - lo,
{
    if hi - lo <= 0 {
        Seq::empty()
    } else if hi - lo == 1 {
        var_name(lo)
    } else {
        var_name(lo) + sep + vars_join(lo + 1, hi, sep)
    }
}

/// The whole platform module for signature `mv`. For a zero-argument
/// plugin the entry point is the declared function itself; otherwise it is
/// a lambda forwarding each positional parameter.
pub open spec fn platform_code_seq(mv: MetaV) -> Seq<char> {
    if mv.args.len() == 0 {
        pf_pre() + mv.name + colon_sep() + dtype_token(mv.ret) + pf_post() + mv.name
    } else {
        pf_pre() + mv.name + colon_sep() + args_join(mv.args) + arrow_sep() + dtype_token(mv.ret)
            + pf_post() + seq!['\\'] + vars_join(0, mv.args.len() as int, comma_sep())
            + arrow_sep() + mv.name + seq![' '] + vars_join(
            0,
            mv.args.len() as int,
            seq![' '],
        )
    }
}

fn render_args_join(args: &Vec<DType>, i: usize) -> (r: String)
    requires
        i <= args@.len(),
    ensures
        r@ == args_join(args@.skip(i as int)),
    decreases args@.len() - i,
{
    if i == args.len() {
        let r = String::new();
        proof {
            assert(args@.skip(i as int) =~= Seq::<DType>::empty());
        }
        r
    } else if i + 1 == args.len() {
        let r = args[i].as_str().to_owned();
        proof {
            let sk = args@.skip(i as int);
            assert(sk.len() == 1);
            assert(sk[0] == args@[i as int]);
        }
        r
    } else {
        let rest = render_args_join(args, i + 1);
        let mut out = args[i].as_str().to_owned();
        out.append(", ");
        out.append(rest.as_str());
        proof {
            reveal_strlit(", ");
            assert(", "@ =~= comma_sep());
            let sk = args@.skip(i as int);
            assert(sk.len() >= 2);
            assert(sk[0] == args@[i as int]);
            assert(sk.drop_first() =~= args@.skip(i as int + 1));
        }
        out
    }
}

fn render_vars(i: usize, k: usize, comma: bool) -> (r: String)
    requires
        i <= k,
        k <= 26,
    ensures
        r@ == vars_join(
            i as int,
            k as int,
            if comma {
                comma_sep()
            } else {
                seq![' ']
            },
        ),
    decreases k - i,
{
    if i == k {
        String::new()
    } else {
        let al: &str = "abcdefghijklmnopqrstuvwxyz";
        proof {
            reveal_strlit("abcdefghijklmnopqrstuvwxyz");
            assert(al@.len() == 26);
        }
        let v = al.substring_char(i, i + 1);
        let mut out = v.to_owned();
        proof {
            assert(out@ == var_name(i as int));
        }
        if i + 1 == k {
            out
        } else {
            if comma {
                out.append(", ");
                proof {
                    reveal_strlit(", ");
                    assert(", "@ =~= comma_sep());
                }
            } else {
                out.append(" ");
                proof {
                    reveal_strlit(" ");
                    assert(" "@ =~= seq![' ']);
                }
            }
            let rest = render_vars(i + 1, k, comma);
            out.append(rest.as_str());
            out
        }
    }
}

/// Emit the platform module source for signature `m`: the only code that
/// re-exports the plugin's declared function under the fixed entry symbol
/// the host later resolves. A pure function of the signature. The
/// one-letter parameter naming scheme covers at most 26 argument
/// positions.
pub fn gen_platform_code(m: &Meta) -> (r: String)
    requires
        m@.args.len() <= 26,
    ensures
        r@ == platform_code_seq(m@),
{
    let mut out: String = "\nplatform \"plugin\"\n    requires {} { ".to_owned();
    out.append(m.name.as_str());
    out.append(" : ");
    proof {
        reveal_strlit(" : ");
        assert(" : "@ =~= colon_sep());
    }
    if m.arg_types.len() == 0 {
        out.append(m.return_type.as_str());
        out.append(
            " }\n    exposes []\n    packages {}\n    imports []\n    provides [entry]\n\nentry = ",
        );
        out.append(m.name.as_str());
    } else {
        let aj = render_args_join(&m.arg_types, 0);
        out.append(aj.as_str());
        out.append(" -> ");
        proof {
            reveal_strlit(" -> ");
            assert(" -> "@ =~= arrow_sep());
            assert(m.arg_types@.skip(0) =~= m.arg_types@);
        }
        out.append(m.return_type.as_str());
        out.append(
            " }\n    exposes []\n    packages {}\n    imports []\n    provides [entry]\n\nentry = ",
        );
        out.append("\\");
        proof {
            reveal_strlit("\\");
            assert("\\"@ =~= seq!['\\']);
        }
        let vc = render_vars(0, m.arg_types.len(), true);
        out.append(vc.as_str());
        out.append(" -> ");
        out.append(m.name.as_str());
        out.append(" ");
        proof {
            reveal_strlit(" ");
            assert(" "@ =~= seq![' ']);
        }
        let vs = render_vars(0, m.arg_types.len(), false);
        out.append(vs.as_str());
    }
    out
}

} // verus!
