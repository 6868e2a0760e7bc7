//! The minimal scalar type system of plugin signatures.

use vstd::prelude::*;
use vstd::string::*;

verus! {

/// The closed scalar type system a plugin interface may be expressed in.
/// Every signature position resolves to one of these two; there is no
/// subtyping or coercion between them.
#[derive(Clone, Copy, Debug, PartialEq, Eq, Structural)]
pub enum DType {
    Str,
    U64,
}

/// Canonical token of a scalar type, as it appears both in plugin headers
/// and in generated glue source. A fixed bijection.
pub open spec fn dtype_token(t: DType) -> Seq<char> {
    match t {
        DType::Str => seq!['S', 't', 'r'],
        DType::U64 => seq!['U', '6', '4'],
    }
}

/// The token map is injective: distinct scalar types render to distinct
/// tokens.
pub proof fn lemma_dtype_token_inj(t1: DType, t2: DType)
    ensures
        dtype_token(t1) == dtype_token(t2) ==> t1 == t2,
{
    if dtype_token(t1) == dtype_token(t2) && t1 != t2 {
        assert(dtype_token(DType::Str)[0] == 'S');
        assert(dtype_token(DType::U64)[0] == 'U');
    }
}

impl DType {
    /// Render the type to its canonical external-toolchain name.
    pub fn as_str(&self) -> (r: &str)
        ensures
            r@ == dtype_token(*self),
    {
        match self {
            DType::Str => {
                let s = "Str";
                proof {
                    reveal_strlit("Str");
                    assert(s@ =~= dtype_token(DType::Str));
                }
                s
            }
            DType::U64 => {
                let s = "U64";
                proof {
                    reveal_strlit("U64");
                    assert(s@ =~= dtype_token(DType::U64));
                }
                s
            }
        }
    }

    /// Resolve one type token against the scalar type system. Exactly the
    /// two canonical tokens are accepted; any other text comes back
    /// unchanged as the error.
    pub fn from_token(s: &str) -> (r: Result<DType, String>)
        ensures
            match r {
                Ok(d) => s@ == dtype_token(d),
                Err(t) => t@ == s@ && (forall|d: DType| s@ != dtype_token(d)),
            },
    {
        let n = s.unicode_len();
        if n == 3 {
            let c0 = s.get_char(0);
            let c1 = s.get_char(1);
            let c2 = s.get_char(2);
            if c0 == 'S' && c1 == 't' && c2 == 'r' {
                proof {
                    assert(s@ =~= dtype_token(DType::Str));
                }
                return Ok(DType::Str);
            }
            if c0 == 'U' && c1 == '6' && c2 == '4' {
                proof {
                    assert(s@ =~= dtype_token(DType::U64));
                }
                return Ok(DType::U64);
            }
            proof {
                assert forall|d: DType| s@ != dtype_token(d) by {
                    if s@ == dtype_token(d) {
                        if d == DType::Str {
                            assert(c0 == 'S' && c1 == 't' && c2 == 'r');
                        } else {
                            assert(c0 == 'U' && c1 == '6' && c2 == '4');
                        }
                    }
                }
            }
            return Err(s.to_owned());
        }
        proof {
            assert forall|d: DType| s@ != dtype_token(d) by {
                if s@ == dtype_token(d) {
                    assert(s@.len() == 3);
                }
            }
        }
        Err(s.to_owned())
    }
}

} // verus!
