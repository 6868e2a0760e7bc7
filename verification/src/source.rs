//! Plugin source-file content: splitting the header line off the body,
//! and the application-module text handed to the external compiler.

use vstd::prelude::*;
use vstd::string::*;

use crate::header::Meta;

verus! {

/// Split a plugin source text at its first line break: the header line
/// (without the break) and everything after it, the body. `None` when the
/// text has no line break at all.
pub fn split_first_line(text: &str) -> (r: Option<(String, String)>)
    ensures
        match r {
            Some(p) => {
                &&& forall|i: int| 0 <= i < p.0@.len() ==> p.0@[i] != '\n'
                &&& text@ == p.0@ + seq!['\n'] + p.1@
            },
            None => forall|i: int| 0 <= i < text@.len() ==> text@[i] != '\n',
        },
{
    let n = text.unicode_len();
    let mut i: usize = 0;
    while i < n
        invariant
            i <= n,
            n == text@.len(),
            forall|j: int| 0 <= j < i ==> text@[j] != '\n',
        decreases n - i,
    {
        if text.get_char(i) == '\n' {
            let head = text.substring_char(0, i).to_owned();
            let tail = text.substring_char(i + 1, n).to_owned();
            proof {
                assert(text@ =~= text@.subrange(0, i as int) + seq!['\n'] + text@.subrange(
                    i as int + 1,
                    n as int,
                ));
            }
            return Some((head, tail));
        }
        i = i + 1;
    }
    None
}

/// The application-module text for a plugin: one line declaring the
/// plugin's exported name and its platform module by filesystem reference,
/// then the raw body text, verbatim and uninterpreted.
pub open spec fn app_source_seq(name: Seq<char>, platform_path: Seq<char>, body: Seq<char>)
    -> Seq<char> {
    "app ["@ + name + "] { pf: platform \""@ + platform_path + "\" }"@ + seq!['\n'] + body
}

/// Emit the application-module text for signature `m`, the path its glue
/// module was written to, and the plugin body.
pub fn gen_app_source(m: &Meta, platform_path: &str, body: &str) -> (r: String)
    ensures
        r@ == app_source_seq(m@.name, platform_path@, body@),
{
    let mut out: String = "app [".to_owned();
    out.append(m.name.as_str());
    out.append("] { pf: platform \"");
    out.append(platform_path);
    out.append("\" }");
    out.append("\n");
    proof {
        reveal_strlit("\n");
        assert("\n"@ =~= seq!['\n']);
    }
    out.append(body);
    out
}

} // verus!
