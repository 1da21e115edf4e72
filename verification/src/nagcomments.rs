use vstd::prelude::*;
use crate::strutil::{chars_of, string_from_chars, push_all, push_decimal, decimal};

verus! {

// Comments typed for a move.

/// A character of a typed comment as the move text can hold it: braces
/// become brackets, double quotes single quotes, line breaks spaces.
pub open spec fn comment_char(c: char) -> char {
    if c == '{' { '[' } else if c == '}' { ']' } else if c == '"' { '\'' } else if c == '\n' { ' ' } else { c }
}

/// The comment after the comment dialog: the text typed (`edited`, when
/// the dialog was accepted) with its characters made safe (see
/// `comment_char`), or the old comment `texto` when it was cancelled.
pub fn mod_comment(texto: String, edited: Option<String>) -> (r: String)
    ensures
        r@ == match edited {
            Some(e) => e@.map_values(|c: char| comment_char(c)),
            None => texto@,
        },
{
    match edited {
        None => texto,
        Some(e) => {
            let v = chars_of(e.as_str());
            let mut out: Vec<char> = Vec::new();
            let mut i: usize = 0;
            while i < v.len()
                invariant
                    i <= v.len(),
                    out@ == v@.take(i as int).map_values(|c: char| comment_char(c)),
                decreases v.len() - i,
            {
                let c = v[i];
                out.push(if c == '{' { '[' } else if c == '}' { ']' } else if c == '"' { '\'' } else if c == '\n' {
                    ' '
                } else {
                    c
                });
                i = i + 1;
                assert(out@ =~= v@.take(i as int).map_values(|c: char| comment_char(c)));
            }
            assert(v@.take(v.len() as int) =~= v@);
            string_from_chars(&out)
        },
    }
}

/// The NAG text of a move after the NAG numbered `nag` is chosen for it:
/// the old text followed by "$" and the number.
pub fn full_nag(old_nag: &str, nag: usize) -> (r: String)
    ensures
        r@ == old_nag@ + seq!['$'] + decimal(nag as nat),
{
    let old = chars_of(old_nag);
    let mut v: Vec<char> = Vec::new();
    push_all(&mut v, &old);
    v.push('$');
    push_decimal(&mut v, nag as u64);
    assert(v@ =~= old_nag@ + seq!['$'] + decimal(nag as nat));
    string_from_chars(&v)
}

}
