//! Plugin headers: the signature model, its textual header form, the strict
//! parser for that form, and the round-trip theorem tying the two together.
//!
//! Grammar of a header line, anchored at both ends:
//!
//! ```text
//! #[plugin] NAME : RET
//! #[plugin] NAME : T1 -> RET
//! #[plugin] NAME : T1, T2 -> RET
//! ```
//!
//! `NAME` is a nonempty identifier; every type token must name a scalar
//! type. No arity cap is enforced here — a header with three or more
//! argument types parses; the cap is the invoker's capability limit.

use vstd::prelude::*;
use vstd::string::*;

use crate::dtype::{DType, dtype_token, lemma_dtype_token_inj};
use crate::error::ParseError;

verus! {

/// A plugin's declared interface: exported name, ordered argument types and
/// return type. Created once per plugin file by parsing; immutable after.
#[derive(Debug, PartialEq, Eq)]
pub struct Meta {
    pub name: String,
    pub arg_types: Vec<DType>,
    pub return_type: DType,
}

/// Mathematical view of a `Meta`.
pub struct MetaV {
    pub name: Seq<char>,
    pub args: Seq<DType>,
    pub ret: DType,
}

impl View for Meta {
    type V = MetaV;

    open spec fn view(&self) -> MetaV {
        MetaV { name: self.name@, args: self.arg_types@, ret: self.return_type }
    }
}

/// Characters an identifier may consist of.
pub open spec fn word_char(c: char) -> bool {
    ('a' <= c && c <= 'z') || ('A' <= c && c <= 'Z') || ('0' <= c && c <= '9') || c == '_'
}

pub open spec fn word_seq(s: Seq<char>) -> bool {
    forall|i: int| 0 <= i < s.len() ==> word_char(#[trigger] s[i])
}

/// A well-formed plugin name: a nonempty identifier.
pub open spec fn wf_name(s: Seq<char>) -> bool {
    s.len() > 0 && word_seq(s)
}

impl MetaV {
    pub open spec fn wf(self) -> bool {
        wf_name(self.name)
    }
}

/// The marker that opens every header line, trailing space included.
pub open spec fn marker_seq() -> Seq<char> {
    seq!['#', '[', 'p', 'l', 'u', 'g', 'i', 'n', ']', ' ']
}

/// `" : "`, between the name and the signature.
pub open spec fn colon_sep() -> Seq<char> {
    seq![' ', ':', ' ']
}

/// `" -> "`, between the argument list and the return type.
pub open spec fn arrow_sep() -> Seq<char> {
    seq![' ', '-', '>', ' ']
}

/// `", "`, between argument types.
pub open spec fn comma_sep() -> Seq<char> {
    seq![',', ' ']
}

/// The text after `" : "`: the argument list (if any) with `" -> "`, then
/// the return type token.
pub open spec fn tail_seq(args: Seq<DType>, ret: DType) -> Seq<char>
    decreases args.len(),
{
    if args.len() == 0 {
        dtype_token(ret)
    } else if args.len() == 1 {
        dtype_token(args[0]) + arrow_sep() + dtype_token(ret)
    } else {
        dtype_token(args[0]) + comma_sep() + tail_seq(args.drop_first(), ret)
    }
}

/// The canonical textual header form of a signature.
pub open spec fn render_seq(mv: MetaV) -> Seq<char> {
    marker_seq() + mv.name + colon_sep() + tail_seq(mv.args, mv.ret)
}

/// `s` is exactly the header form of the well-formed signature `mv`.
pub open spec fn parses_to(s: Seq<char>, mv: MetaV) -> bool {
    mv.wf() && s == render_seq(mv)
}

/// Specification-level parse: the signature whose header form `s` is, if
/// there is one. `lemma_render_inj` shows there is at most one.
pub open spec fn spec_parse(s: Seq<char>) -> Option<MetaV> {
    if exists|mv: MetaV| parses_to(s, mv) {
        Some(choose|mv: MetaV| parses_to(s, mv))
    } else {
        None
    }
}

/// `t` is a nonempty identifier out of `s` that names no scalar type.
pub open spec fn unknown_token_in(t: Seq<char>, s: Seq<char>) -> bool {
    &&& t.len() > 0
    &&& word_seq(t)
    &&& (forall|d: DType| t != dtype_token(d))
    &&& (exists|lo: int, hi: int| 0 <= lo <= hi <= s.len() && t == s.subrange(lo, hi))
}

/// What each parse-error variant is owed to say about the input.
pub open spec fn err_wf(e: ParseError, s: Seq<char>) -> bool {
    match e {
        ParseError::Malformed => true,
        ParseError::UnknownType(t) => unknown_token_in(t@, s),
    }
}

// ------------------------------------------------------------------
// shape and injectivity lemmas
// ------------------------------------------------------------------

/// Length of the post-colon text, a function of the arity alone.
pub open spec fn tail_len(n_args: int) -> int {
    if n_args == 0 {
        3
    } else {
        5 * n_args + 5
    }
}

/// Scalar type tokens are three identifier characters.
proof fn lemma_token_word(t: DType)
    ensures
        dtype_token(t).len() == 3,
        forall|i: int| 0 <= i < 3 ==> word_char(#[trigger] dtype_token(t)[i]),
{
    let tk = dtype_token(t);
    match t {
        DType::Str => {
            assert(word_char(tk[0]) && word_char(tk[1]) && word_char(tk[2]));
        }
        DType::U64 => {
            assert(word_char(tk[0]) && word_char(tk[1]) && word_char(tk[2]));
        }
    }
}

/// Structure of the post-colon text: its length, its leading token, and
/// what follows that token for each arity class.
proof fn lemma_tail_shape(args: Seq<DType>, ret: DType)
    ensures
        tail_seq(args, ret).len() == tail_len(args.len() as int),
        tail_seq(args, ret).subrange(0, 3) == dtype_token(
            if args.len() == 0 {
                ret
            } else {
                args[0]
            },
        ),
        args.len() == 1 ==> tail_seq(args, ret)[3] == ' ' && tail_seq(args, ret)[4] == '-'
            && tail_seq(args, ret)[5] == '>' && tail_seq(args, ret)[6] == ' ' && tail_seq(
            args,
            ret,
        ).subrange(7, 10) == dtype_token(ret),
        args.len() >= 2 ==> tail_seq(args, ret)[3] == ',' && tail_seq(args, ret)[4] == ' '
            && tail_seq(args, ret).subrange(5, tail_seq(args, ret).len() as int) == tail_seq(
            args.drop_first(),
            ret,
        ),
    decreases args.len(),
{
    let t = tail_seq(args, ret);
    lemma_token_word(ret);
    if args.len() == 0 {
        assert(t.subrange(0, 3) =~= dtype_token(ret));
    } else if args.len() == 1 {
        lemma_token_word(args[0]);
        assert(t.len() == 10);
        assert(t.subrange(0, 3) =~= dtype_token(args[0]));
        assert(t.subrange(7, 10) =~= dtype_token(ret));
    } else {
        lemma_token_word(args[0]);
        lemma_tail_shape(args.drop_first(), ret);
        assert(t.subrange(0, 3) =~= dtype_token(args[0]));
        assert(t.subrange(5, t.len() as int) =~= tail_seq(args.drop_first(), ret));
    }
}

/// The header form of the post-colon text is unambiguous.
proof fn lemma_tail_inj(a1: Seq<DType>, r1: DType, a2: Seq<DType>, r2: DType)
    requires
        tail_seq(a1, r1) == tail_seq(a2, r2),
    ensures
        a1 == a2,
        r1 == r2,
    decreases a1.len(),
{
    lemma_tail_shape(a1, r1);
    lemma_tail_shape(a2, r2);
    let t = tail_seq(a1, r1);
    if a1.len() == 0 {
        assert(a2.len() == 0);
        assert(a1 =~= a2);
        lemma_dtype_token_inj(r1, r2);
    } else if a1.len() == 1 {
        assert(a2.len() == 1);
        lemma_dtype_token_inj(a1[0], a2[0]);
        lemma_dtype_token_inj(r1, r2);
        assert(a1 =~= a2);
    } else {
        assert(a2.len() == a1.len());
        lemma_dtype_token_inj(a1[0], a2[0]);
        lemma_tail_inj(a1.drop_first(), r1, a2.drop_first(), r2);
        assert(a1 =~= a2) by {
            assert forall|i: int| 0 <= i < a1.len() implies a1[i] == a2[i] by {
                if i >= 1 {
                    assert(a1[i] == a1.drop_first()[i - 1]);
                    assert(a2[i] == a2.drop_first()[i - 1]);
                }
            }
        }
    }
}

/// Structure of a whole header line: marker, name, `" : "`, post-colon
/// text, each at its fixed place.
proof fn lemma_render_shape(mv: MetaV)
    requires
        mv.wf(),
    ensures
        ({
            let r = render_seq(mv);
            let k = mv.name.len() as int;
            &&& r.len() == 13 + k + tail_len(mv.args.len() as int)
            &&& r.len() >= 17
            &&& r.subrange(0, 10) == marker_seq()
            &&& r.subrange(10, 10 + k) == mv.name
            &&& r[10 + k] == ' '
            &&& r[11 + k] == ':'
            &&& r[12 + k] == ' '
            &&& r.subrange(13 + k, r.len() as int) == tail_seq(mv.args, mv.ret)
        }),
{
    lemma_tail_shape(mv.args, mv.ret);
    let r = render_seq(mv);
    let k = mv.name.len() as int;
    assert(r.subrange(0, 10) =~= marker_seq());
    assert(r.subrange(10, 10 + k) =~= mv.name);
    assert(r.subrange(13 + k, r.len() as int) =~= tail_seq(mv.args, mv.ret));
    assert(r[10 + k] == colon_sep()[0]);
    assert(r[11 + k] == colon_sep()[1]);
    assert(r[12 + k] == colon_sep()[2]);
}

/// Helper for `lemma_render_inj`: equal header forms force equal name
/// lengths (an identifier cannot run into the `" : "` separator).
proof fn lemma_name_len(m1: MetaV, m2: MetaV)
    requires
        m1.wf(),
        m2.wf(),
        render_seq(m1) == render_seq(m2),
        m1.name.len() <= m2.name.len(),
    ensures
        m1.name.len() == m2.name.len(),
{
    if m1.name.len() < m2.name.len() {
        lemma_render_shape(m1);
        lemma_render_shape(m2);
        let r = render_seq(m1);
        let k1 = m1.name.len() as int;
        let k2 = m2.name.len() as int;
        assert(r[10 + k1] == ' ');
        assert(r.subrange(10, 10 + k2)[k1] == m2.name[k1]);
        assert(word_char(m2.name[k1]));
        assert(false);
    }
}

/// Rendering is injective on well-formed signatures: a header line is the
/// header form of at most one signature.
pub proof fn lemma_render_inj(m1: MetaV, m2: MetaV)
    requires
        m1.wf(),
        m2.wf(),
        render_seq(m1) == render_seq(m2),
    ensures
        m1 == m2,
{
    if m1.name.len() <= m2.name.len() {
        lemma_name_len(m1, m2);
    } else {
        lemma_name_len(m2, m1);
    }
    lemma_render_shape(m1);
    lemma_render_shape(m2);
    let k = m1.name.len() as int;
    let r = render_seq(m1);
    assert(m1.name == r.subrange(10, 10 + k));
    assert(m1.name == m2.name);
    assert(tail_seq(m1.args, m1.ret) == tail_seq(m2.args, m2.ret));
    lemma_tail_inj(m1.args, m1.ret, m2.args, m2.ret);
}

/// If `s` is the header form of `mv`, the specification-level parse of `s`
/// finds exactly `mv`.
pub proof fn lemma_spec_parse_some(s: Seq<char>, mv: MetaV)
    requires
        parses_to(s, mv),
    ensures
        spec_parse(s) == Some(mv),
{
    let picked = choose|m: MetaV| parses_to(s, m);
    assert(parses_to(s, picked));
    lemma_render_inj(picked, mv);
}

proof fn lemma_spec_parse_none(s: Seq<char>)
    requires
        forall|mv: MetaV| !(#[trigger] parses_to(s, mv)),
    ensures
        spec_parse(s) is None,
{
    if exists|mv: MetaV| parses_to(s, mv) {
        let mv = choose|mv: MetaV| parses_to(s, mv);
        assert(!parses_to(s, mv));
    }
}

/// Header round-trip: rendering a well-formed signature to its textual
/// header form and parsing that form back yields the same signature. The
/// statement holds for every arity, in particular for arities 0, 1 and 2.
pub proof fn lemma_header_round_trip(mv: MetaV)
    requires
        mv.wf(),
    ensures
        spec_parse(render_seq(mv)) == Some(mv),
{
    lemma_spec_parse_some(render_seq(mv), mv);
}

// ------------------------------------------------------------------
// the parser
// ------------------------------------------------------------------

fn is_word_char(c: char) -> (b: bool)
    ensures
        b == word_char(c),
{
    ('a' <= c && c <= 'z') || ('A' <= c && c <= 'Z') || ('0' <= c && c <= '9') || c == '_'
}

/// First position at or after `start` that does not hold an identifier
/// character (or the end of the text).
fn scan_word_run(s: &str, start: usize, n: usize) -> (e: usize)
    requires
        n == s@.len(),
        start <= n,
    ensures
        start <= e <= n,
        forall|j: int| start <= j < e ==> word_char(#[trigger] s@[j]),
        e < n ==> !word_char(s@[e as int]),
{
    let mut i = start;
    while i < n
        invariant
            start <= i <= n,
            n == s@.len(),
            forall|j: int| start <= j < i ==> word_char(#[trigger] s@[j]),
        decreases n - i,
    {
        if !is_word_char(s.get_char(i)) {
            return i;
        }
        i = i + 1;
    }
    i
}

/// If the text from `pos` on is a post-colon text, the maximal identifier
/// run at `pos` is exactly its leading three-character type token, and what
/// follows is pinned by the arity.
proof fn lemma_tail_at(s: Seq<char>, pos: int, n: int, ag: Seq<DType>, rt: DType, e: int)
    requires
        0 <= pos <= n,
        n == s.len(),
        s.subrange(pos, n) == tail_seq(ag, rt),
        pos <= e <= n,
        forall|j: int| pos <= j < e ==> word_char(#[trigger] s[j]),
        e < n ==> !word_char(s[e]),
    ensures
        e == pos + 3,
        n - pos == tail_len(ag.len() as int),
        s.subrange(pos, pos + 3) == dtype_token(
            if ag.len() == 0 {
                rt
            } else {
                ag[0]
            },
        ),
        ag.len() == 0 ==> n == pos + 3,
        ag.len() == 1 ==> n == pos + 10 && s[pos + 3] == ' ' && s[pos + 4] == '-' && s[pos + 5]
            == '>' && s[pos + 6] == ' ' && s.subrange(pos + 7, pos + 10) == dtype_token(rt),
        ag.len() >= 2 ==> s[pos + 3] == ',' && s[pos + 4] == ' ' && s.subrange(pos + 5, n)
            == tail_seq(ag.drop_first(), rt),
{
    lemma_tail_shape(ag, rt);
    let first = if ag.len() == 0 {
        rt
    } else {
        ag[0]
    };
    lemma_token_word(first);
    let sub = s.subrange(pos, n);
    assert(s.subrange(pos, pos + 3) =~= sub.subrange(0, 3));
    if e < pos + 3 {
        if e < n {
            assert(sub[e - pos] == sub.subrange(0, 3)[e - pos]);
            assert(word_char(sub[e - pos]));
            assert(s[e] == sub[e - pos]);
        }
        assert(false);
    }
    if e > pos + 3 {
        assert(word_char(s[pos + 3]));
        if ag.len() == 0 {
            assert(n == pos + 3);
        } else if ag.len() == 1 {
            assert(s[pos + 3] == sub[3]);
        } else {
            assert(s[pos + 3] == sub[3]);
        }
        assert(false);
    }
    if ag.len() == 1 {
        assert(s.subrange(pos + 7, pos + 10) =~= sub.subrange(7, 10));
        assert(s[pos + 3] == sub[3] && s[pos + 4] == sub[4] && s[pos + 5] == sub[5] && s[pos + 6]
            == sub[6]);
    }
    if ag.len() >= 2 {
        assert(s.subrange(pos + 5, n) =~= sub.subrange(5, sub.len() as int));
        assert(s[pos + 3] == sub[3] && s[pos + 4] == sub[4]);
    }
}

/// Parse the post-colon text of a header from position `pos` to the end:
/// the argument type list (if any), `" -> "`, and the return type token.
#[verifier::rlimit(100)]
fn parse_tail(s: &str, pos: usize, n: usize) -> (r: Result<(Vec<DType>, DType), ParseError>)
    requires
        n == s@.len(),
        pos <= n,
    ensures
        match r {
            Ok(p) => s@.subrange(pos as int, n as int) == tail_seq(p.0@, p.1),
            Err(e) => (forall|ag: Seq<DType>, rt: DType|
                s@.subrange(pos as int, n as int) != #[trigger] tail_seq(ag, rt)) && err_wf(
                e,
                s@,
            ),
        },
    decreases n - pos,
{
    let ghost sub = s@.subrange(pos as int, n as int);
    let e = scan_word_run(s, pos, n);
    if e == pos || e - pos != 3 {
        // no token, or a token that cannot be a type token
        proof {
            assert forall|ag: Seq<DType>, rt: DType| sub != #[trigger] tail_seq(ag, rt) by {
                if sub == tail_seq(ag, rt) {
                    lemma_tail_at(s@, pos as int, n as int, ag, rt, e as int);
                }
            }
        }
        if e == pos {
            return Err(ParseError::Malformed);
        }
        let tok = s.substring_char(pos, e).to_owned();
        proof {
            assert(tok@ == s@.subrange(pos as int, e as int));
            assert forall|i: int| 0 <= i < tok@.len() implies word_char(#[trigger] tok@[i]) by {
                assert(tok@[i] == s@[pos + i]);
            }
            assert forall|d: DType| tok@ != dtype_token(d) by {
                lemma_token_word(d);
            }
        }
        return Err(ParseError::UnknownType(tok));
    }
    // e == pos + 3: a three-character identifier token
    let c0 = s.get_char(pos);
    let c1 = s.get_char(pos + 1);
    let c2 = s.get_char(pos + 2);
    let d_opt: Option<DType> = if c0 == 'S' && c1 == 't' && c2 == 'r' {
        Some(DType::Str)
    } else if c0 == 'U' && c1 == '6' && c2 == '4' {
        Some(DType::U64)
    } else {
        None
    };
    let d = match d_opt {
        Some(d) => d,
        None => {
            proof {
                assert forall|ag: Seq<DType>, rt: DType| sub != #[trigger] tail_seq(ag, rt) by {
                    if sub == tail_seq(ag, rt) {
                        lemma_tail_at(s@, pos as int, n as int, ag, rt, e as int);
                        let first = if ag.len() == 0 {
                            rt
                        } else {
                            ag[0]
                        };
                        assert(s@[pos as int] == s@.subrange(pos as int, pos as int + 3)[0]);
                        assert(s@[pos as int + 1] == s@.subrange(pos as int, pos as int + 3)[1]);
                        assert(s@[pos as int + 2] == s@.subrange(pos as int, pos as int + 3)[2]);
                        if first == DType::Str {
                            assert(c0 == 'S' && c1 == 't' && c2 == 'r');
                        } else {
                            assert(c0 == 'U' && c1 == '6' && c2 == '4');
                        }
                    }
                }
            }
            let tok = s.substring_char(pos, e).to_owned();
            proof {
                assert(tok@ == s@.subrange(pos as int, e as int));
                assert forall|i: int| 0 <= i < tok@.len() implies word_char(#[trigger] tok@[i]) by {
                    assert(tok@[i] == s@[pos + i]);
                }
                assert forall|dd: DType| tok@ != dtype_token(dd) by {
                    if tok@ == dtype_token(dd) {
                        assert(tok@[0] == c0 && tok@[1] == c1 && tok@[2] == c2);
                        if dd == DType::Str {
                            assert(dtype_token(dd)[0] == 'S' && dtype_token(dd)[1] == 't'
                                && dtype_token(dd)[2] == 'r');
                        } else {
                            assert(dtype_token(dd)[0] == 'U' && dtype_token(dd)[1] == '6'
                                && dtype_token(dd)[2] == '4');
                        }
                    }
                }
            }
            return Err(ParseError::UnknownType(tok));
        },
    };
    proof {
        assert(s@.subrange(pos as int, pos as int + 3) =~= dtype_token(d));
    }
    if e == n {
        // a bare return type: the zero-argument form
        let v: Vec<DType> = Vec::new();
        proof {
            assert(sub =~= dtype_token(d));
            assert(tail_seq(v@, d) == dtype_token(d));
        }
        return Ok((v, d));
    }
    let c = s.get_char(e);
    let rem = n - e;
    if c == ',' {
        if rem >= 2 && s.get_char(e + 1) == ' ' {
            match parse_tail(s, e + 2, n) {
                Err(err) => {
                    proof {
                        assert forall|ag: Seq<DType>, rt: DType| sub != #[trigger] tail_seq(
                            ag,
                            rt,
                        ) by {
                            if sub == tail_seq(ag, rt) {
                                lemma_tail_at(s@, pos as int, n as int, ag, rt, e as int);
                            }
                        }
                    }
                    Err(err)
                },
                Ok((rest_args, rt)) => {
                    if rest_args.len() == 0 {
                        proof {
                            assert forall|ag: Seq<DType>, rt2: DType| sub != #[trigger] tail_seq(
                                ag,
                                rt2,
                            ) by {
                                if sub == tail_seq(ag, rt2) {
                                    lemma_tail_at(s@, pos as int, n as int, ag, rt2, e as int);
                                    assert(ag.len() >= 2);
                                    lemma_tail_inj(ag.drop_first(), rt2, rest_args@, rt);
                                }
                            }
                        }
                        Err(ParseError::Malformed)
                    } else {
                        let ghost ra = rest_args@;
                        let mut args = rest_args;
                        args.insert(0, d);
                        proof {
                            assert(args@ == ra.insert(0, d));
                            assert(args@[0] == d);
                            assert(args@.drop_first() =~= ra);
                            assert(args@.len() >= 2);
                            assert(tail_seq(args@, rt) == dtype_token(d) + comma_sep() + tail_seq(
                                ra,
                                rt,
                            ));
                            assert(sub =~= dtype_token(d) + comma_sep() + s@.subrange(
                                pos as int + 5,
                                n as int,
                            ));
                        }
                        Ok((args, rt))
                    }
                },
            }
        } else {
            proof {
                assert forall|ag: Seq<DType>, rt: DType| sub != #[trigger] tail_seq(ag, rt) by {
                    if sub == tail_seq(ag, rt) {
                        lemma_tail_at(s@, pos as int, n as int, ag, rt, e as int);
                    }
                }
            }
            Err(ParseError::Malformed)
        }
    } else if c == ' ' {
        if rem >= 5 && s.get_char(e + 1) == '-' && s.get_char(e + 2) == '>' && s.get_char(e + 3)
            == ' ' {
            let e2 = scan_word_run(s, e + 4, n);
            if e2 == e + 4 || e2 < n {
                proof {
                    assert forall|ag: Seq<DType>, rt: DType| sub != #[trigger] tail_seq(ag, rt) by {
                        if sub == tail_seq(ag, rt) {
                            lemma_tail_at(s@, pos as int, n as int, ag, rt, e as int);
                            assert(ag.len() == 1);
                            lemma_token_word(rt);
                            assert forall|j: int| pos + 7 <= j < pos + 10 implies word_char(
                                s@[j],
                            ) by {
                                assert(s@[j] == s@.subrange(pos as int + 7, pos as int + 10)[j
                                    - pos - 7]);
                            }
                            if e2 < pos + 10 {
                                assert(word_char(s@[e2 as int]));
                            }
                        }
                    }
                }
                return Err(ParseError::Malformed);
            }
            // e2 == n: the return token runs to the end of the line
            if e2 - (e + 4) != 3 {
                proof {
                    assert forall|ag: Seq<DType>, rt: DType| sub != #[trigger] tail_seq(ag, rt) by {
                        if sub == tail_seq(ag, rt) {
                            lemma_tail_at(s@, pos as int, n as int, ag, rt, e as int);
                        }
                    }
                }
                let tok = s.substring_char(e + 4, e2).to_owned();
                proof {
                    assert(tok@ == s@.subrange(e as int + 4, e2 as int));
                    assert forall|i: int| 0 <= i < tok@.len() implies word_char(
                        #[trigger] tok@[i],
                    ) by {
                        assert(tok@[i] == s@[e + 4 + i]);
                    }
                    assert forall|dd: DType| tok@ != dtype_token(dd) by {
                        lemma_token_word(dd);
                    }
                }
                return Err(ParseError::UnknownType(tok));
            }
            let r0 = s.get_char(e + 4);
            let r1 = s.get_char(e + 5);
            let r2 = s.get_char(e + 6);
            let rt_opt: Option<DType> = if r0 == 'S' && r1 == 't' && r2 == 'r' {
                Some(DType::Str)
            } else if r0 == 'U' && r1 == '6' && r2 == '4' {
                Some(DType::U64)
            } else {
                None
            };
            match rt_opt {
                Some(rt) => {
                    let mut v: Vec<DType> = Vec::new();
                    v.push(d);
                    proof {
                        assert(v@ =~= seq![d]);
                        assert(s@.subrange(e as int + 4, e as int + 7) =~= dtype_token(rt));
                        assert(tail_seq(v@, rt) == dtype_token(d) + arrow_sep() + dtype_token(rt));
                        assert(sub =~= dtype_token(d) + arrow_sep() + dtype_token(rt));
                    }
                    Ok((v, rt))
                },
                None => {
                    proof {
                        assert forall|ag: Seq<DType>, rt: DType| sub != #[trigger] tail_seq(
                            ag,
                            rt,
                        ) by {
                            if sub == tail_seq(ag, rt) {
                                lemma_tail_at(s@, pos as int, n as int, ag, rt, e as int);
                                assert(ag.len() == 1);
                                assert(s@[e as int + 4] == s@.subrange(
                                    pos as int + 7,
                                    pos as int + 10,
                                )[0]);
                                assert(s@[e as int + 5] == s@.subrange(
                                    pos as int + 7,
                                    pos as int + 10,
                                )[1]);
                                assert(s@[e as int + 6] == s@.subrange(
                                    pos as int + 7,
                                    pos as int + 10,
                                )[2]);
                                if rt == DType::Str {
                                    assert(r0 == 'S' && r1 == 't' && r2 == 'r');
                                } else {
                                    assert(r0 == 'U' && r1 == '6' && r2 == '4');
                                }
                            }
                        }
                    }
                    let tok = s.substring_char(e + 4, e2).to_owned();
                    proof {
                        assert(tok@ == s@.subrange(e as int + 4, e2 as int));
                        assert forall|i: int| 0 <= i < tok@.len() implies word_char(
                            #[trigger] tok@[i],
                        ) by {
                            assert(tok@[i] == s@[e + 4 + i]);
                        }
                        assert forall|dd: DType| tok@ != dtype_token(dd) by {
                            if tok@ == dtype_token(dd) {
                                assert(tok@[0] == r0 && tok@[1] == r1 && tok@[2] == r2);
                                if dd == DType::Str {
                                    assert(dtype_token(dd)[0] == 'S' && dtype_token(dd)[1] == 't'
                                        && dtype_token(dd)[2] == 'r');
                                } else {
                                    assert(dtype_token(dd)[0] == 'U' && dtype_token(dd)[1] == '6'
                                        && dtype_token(dd)[2] == '4');
                                }
                            }
                        }
                    }
                    Err(ParseError::UnknownType(tok))
                },
            }
        } else {
            proof {
                assert forall|ag: Seq<DType>, rt: DType| sub != #[trigger] tail_seq(ag, rt) by {
                    if sub == tail_seq(ag, rt) {
                        lemma_tail_at(s@, pos as int, n as int, ag, rt, e as int);
                    }
                }
            }
            Err(ParseError::Malformed)
        }
    } else {
        proof {
            assert forall|ag: Seq<DType>, rt: DType| sub != #[trigger] tail_seq(ag, rt) by {
                if sub == tail_seq(ag, rt) {
                    lemma_tail_at(s@, pos as int, n as int, ag, rt, e as int);
                }
            }
        }
        Err(ParseError::Malformed)
    }
}

/// If the whole line is the header form of `mv` and the maximal identifier
/// run from position 10 ends at `e`, then `e` is exactly the end of the
/// name, and the `" : "` separator and the post-colon text follow.
proof fn lemma_scan_pins_name(s: Seq<char>, mv: MetaV, e: int)
    requires
        parses_to(s, mv),
        10 <= e <= s.len(),
        forall|j: int| 10 <= j < e ==> word_char(#[trigger] s[j]),
        e < s.len() ==> !word_char(s[e]),
    ensures
        e == 10 + mv.name.len(),
        e + 6 <= s.len(),
        s[e] == ' ',
        s[e + 1] == ':',
        s[e + 2] == ' ',
        s.subrange(e + 3, s.len() as int) == tail_seq(mv.args, mv.ret),
{
    lemma_render_shape(mv);
    let k = mv.name.len() as int;
    if e < 10 + k {
        assert(s[e] == s.subrange(10, 10 + k)[e - 10]);
        assert(word_char(mv.name[e - 10]));
        assert(false);
    }
    if e > 10 + k {
        assert(word_char(s[10 + k]));
        assert(s[10 + k] == ' ');
        assert(false);
    }
}

/// Parse one header line. Returns the declared signature exactly when the
/// line is the header form of a well-formed signature (`spec_parse`); any
/// deviation from the grammar is `Malformed`, and an identifier standing in
/// a type position that names no scalar type is reported as `UnknownType`.
pub fn parse_header(s: &str) -> (r: Result<Meta, ParseError>)
    ensures
        match r {
            Ok(m) => m@.wf() && spec_parse(s@) == Some(m@),
            Err(e) => spec_parse(s@) is None && err_wf(e, s@),
        },
{
    let n = s.unicode_len();
    if n < 17 {
        proof {
            assert forall|mv: MetaV| !(#[trigger] parses_to(s@, mv)) by {
                if parses_to(s@, mv) {
                    lemma_render_shape(mv);
                }
            }
            lemma_spec_parse_none(s@);
        }
        return Err(ParseError::Malformed);
    }
    let m_ok = s.get_char(0) == '#' && s.get_char(1) == '[' && s.get_char(2) == 'p' && s.get_char(
        3,
    ) == 'l' && s.get_char(4) == 'u' && s.get_char(5) == 'g' && s.get_char(6) == 'i' && s.get_char(
        7,
    ) == 'n' && s.get_char(8) == ']' && s.get_char(9) == ' ';
    if !m_ok {
        proof {
            assert forall|mv: MetaV| !(#[trigger] parses_to(s@, mv)) by {
                if parses_to(s@, mv) {
                    lemma_render_shape(mv);
                    let r = render_seq(mv);
                    assert forall|i: int| 0 <= i < 10 implies s@[i] == marker_seq()[i] by {
                        assert(s@[i] == r.subrange(0, 10)[i]);
                    }
                    assert(s@[0] == '#' && s@[1] == '[' && s@[2] == 'p' && s@[3] == 'l' && s@[4]
                        == 'u' && s@[5] == 'g' && s@[6] == 'i' && s@[7] == 'n' && s@[8] == ']'
                        && s@[9] == ' ');
                }
            }
            lemma_spec_parse_none(s@);
        }
        return Err(ParseError::Malformed);
    }
    let e = scan_word_run(s, 10, n);
    if e == 10 {
        proof {
            assert forall|mv: MetaV| !(#[trigger] parses_to(s@, mv)) by {
                if parses_to(s@, mv) {
                    lemma_render_shape(mv);
                    assert(s@[10] == s@.subrange(10, 10 + mv.name.len() as int)[0]);
                    assert(word_char(mv.name[0]));
                }
            }
            lemma_spec_parse_none(s@);
        }
        return Err(ParseError::Malformed);
    }
    if n - e < 3 || !(s.get_char(e) == ' ' && s.get_char(e + 1) == ':' && s.get_char(e + 2)
        == ' ') {
        proof {
            assert forall|mv: MetaV| !(#[trigger] parses_to(s@, mv)) by {
                if parses_to(s@, mv) {
                    lemma_scan_pins_name(s@, mv, e as int);
                }
            }
            lemma_spec_parse_none(s@);
        }
        return Err(ParseError::Malformed);
    }
    match parse_tail(s, e + 3, n) {
        Err(err) => {
            proof {
                assert forall|mv: MetaV| !(#[trigger] parses_to(s@, mv)) by {
                    if parses_to(s@, mv) {
                        lemma_scan_pins_name(s@, mv, e as int);
                    }
                }
                lemma_spec_parse_none(s@);
            }
            Err(err)
        },
        Ok((args, ret)) => {
            let name = s.substring_char(10, e).to_owned();
            let m = Meta { name, arg_types: args, return_type: ret };
            proof {
                assert(m@.name == s@.subrange(10, e as int));
                assert(m@.name.len() > 0);
                assert forall|i: int| 0 <= i < m@.name.len() implies word_char(
                    #[trigger] m@.name[i],
                ) by {
                    assert(m@.name[i] == s@[10 + i]);
                }
                assert(s@.subrange(0, 10) =~= marker_seq());
                assert(s@.subrange(e as int, e as int + 3) =~= colon_sep());
                assert(s@ =~= s@.subrange(0, 10) + s@.subrange(10, e as int) + s@.subrange(
                    e as int,
                    e as int + 3,
                ) + s@.subrange(e as int + 3, n as int));
                assert(s@ == render_seq(m@));
                assert(parses_to(s@, m@));
                lemma_spec_parse_some(s@, m@);
            }
            Ok(m)
        },
    }
}

// ------------------------------------------------------------------
// the renderer
// ------------------------------------------------------------------

fn render_tail_from(args: &Vec<DType>, i: usize, ret: DType) -> (r: String)
    requires
        i <= args@.len(),
    ensures
        r@ == tail_seq(args@.skip(i as int), ret),
    decreases args@.len() - i,
{
    if i == args.len() {
        let r = ret.as_str().to_owned();
        proof {
            assert(args@.skip(i as int) =~= Seq::<DType>::empty());
        }
        r
    } else if i + 1 == args.len() {
        let mut out = args[i].as_str().to_owned();
        out.append(" -> ");
        out.append(ret.as_str());
        proof {
            reveal_strlit(" -> ");
            assert(" -> "@ =~= arrow_sep());
            let sk = args@.skip(i as int);
            assert(sk.len() == 1);
            assert(sk[0] == args@[i as int]);
        }
        out
    } else {
        let rest = render_tail_from(args, i + 1, ret);
        let mut out = args[i].as_str().to_owned();
        out.append(", ");
        out.append(rest.as_str());
        proof {
            reveal_strlit(", ");
            assert(", "@ =~= comma_sep());
            let sk = args@.skip(i as int);
            assert(sk.len() >= 2);
            assert(sk[0] == args@[i as int]);
            assert(sk.drop_first() =~= args@.skip(i as int + 1));
        }
        out
    }
}

/// Render a signature to its canonical textual header form. Exact inverse
/// of `parse_header` on well-formed signatures (`lemma_header_round_trip`).
pub fn render_header(m: &Meta) -> (r: String)
    ensures
        r@ == render_seq(m@),
{
    let mut out: String = "#[plugin] ".to_owned();
    proof {
        reveal_strlit("#[plugin] ");
        assert("#[plugin] "@ =~= marker_seq());
    }
    out.append(m.name.as_str());
    out.append(" : ");
    proof {
        reveal_strlit(" : ");
        assert(" : "@ =~= colon_sep());
    }
    let tail = render_tail_from(&m.arg_types, 0, m.return_type);
    out.append(tail.as_str());
    proof {
        assert(m.arg_types@.skip(0) =~= m.arg_types@);
    }
    out
}

} // verus!
