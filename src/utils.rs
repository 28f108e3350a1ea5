use vstd::prelude::*;
use crate::text::{chars_of, string_of};
use crate::sql::{ascii_letter, ascii_digit};

verus! {

/// Whether the character at index `i` of a path component is kept: ASCII
/// letters and digits, space, `-`, `_`, and `.` except at the start (which
/// would make a hidden file).
pub open spec fn kept_char(c: char, i: int) -> bool {
    ascii_letter(c) || ascii_digit(c) || c == ' ' || c == '-' || c == '_' || (c == '.' && i != 0)
}

/// The kept characters of `s`, in order.
pub open spec fn sanitize(s: Seq<char>) -> Seq<char>
    decreases s.len(),
{
    if s.len() == 0 {
        seq![]
    } else if kept_char(s.last(), s.len() - 1) {
        sanitize(s.drop_last()).push(s.last())
    } else {
        sanitize(s.drop_last())
    }
}

/// `component` with every character dropped that does not belong in a file name.
pub fn sanitized(component: &str) -> (r: String)
    ensures
        r@ == sanitize(component@),
{
    let cs = chars_of(component);
    let mut out: Vec<char> = Vec::new();
    let mut i: usize = 0;
    while i < cs.len()
        invariant
            i <= cs.len(),
            cs@ == component@,
            out@ == sanitize(cs@.take(i as int)),
        decreases cs.len() - i,
    {
        assert(cs@.take(i + 1).drop_last() =~= cs@.take(i as int));
        let c = cs[i];
        let is_letter = ('a' <= c && c <= 'z') || ('A' <= c && c <= 'Z');
        let is_number = '0' <= c && c <= '9';
        let is_period = c == '.' && i != 0;
        if is_letter || is_number || c == ' ' || c == '-' || c == '_' || is_period {
            out.push(c);
        }
        i = i + 1;
    }
    assert(cs@.take(cs@.len() as int) =~= cs@);
    string_of(out.as_slice())
}

} // verus!
