//! Building outbound frames as JSON text.
//!
//! Outbound requests are small objects with a fixed shape, so the library
//! writes them out directly: fixed punctuation around quoted, escaped
//! field values.  The escaping is the standard JSON one — quote,
//! backslash and control characters are escaped, everything else is
//! written as it is.

use vstd::prelude::*;

use crate::text::push_char;

verus! {

/// The lower-case hexadecimal digit for a value below sixteen.
pub open spec fn hex_lower(d: nat) -> char {
    if d == 0 {
        '0'
    } else if d == 1 {
        '1'
    } else if d == 2 {
        '2'
    } else if d == 3 {
        '3'
    } else if d == 4 {
        '4'
    } else if d == 5 {
        '5'
    } else if d == 6 {
        '6'
    } else if d == 7 {
        '7'
    } else if d == 8 {
        '8'
    } else if d == 9 {
        '9'
    } else if d == 10 {
        'a'
    } else if d == 11 {
        'b'
    } else if d == 12 {
        'c'
    } else if d == 13 {
        'd'
    } else if d == 14 {
        'e'
    } else {
        'f'
    }
}

/// What one character contributes to a JSON string body: itself, or its
/// escape.  Control characters without a short escape become `\u00..`.
pub open spec fn esc_char(c: char) -> Seq<char> {
    let u = c as u32;
    if u == 34 {
        seq!['\\', '"']
    } else if u == 92 {
        seq!['\\', '\\']
    } else if u == 8 {
        seq!['\\', 'b']
    } else if u == 9 {
        seq!['\\', 't']
    } else if u == 10 {
        seq!['\\', 'n']
    } else if u == 12 {
        seq!['\\', 'f']
    } else if u == 13 {
        seq!['\\', 'r']
    } else if u < 32 {
        seq!['\\', 'u', '0', '0', hex_lower((u / 16) as nat), hex_lower((u % 16) as nat)]
    } else {
        seq![c]
    }
}

/// The body of a JSON string: every character escaped as needed.
pub open spec fn json_escaped(s: Seq<char>) -> Seq<char>
    decreases s.len(),
{
    if s.len() == 0 {
        Seq::empty()
    } else {
        json_escaped(s.drop_last()) + esc_char(s.last())
    }
}

/// A full JSON string: quotes around the escaped body.
pub open spec fn quoted(s: Seq<char>) -> Seq<char> {
    seq!['"'] + json_escaped(s) + seq!['"']
}

/// The lower-case hexadecimal digit, as a value.
pub(crate) fn hex_lower_exec(d: u32) -> (c: char)
    requires
        d < 16,
    ensures
        c == hex_lower(d as nat),
{
    if d == 0 {
        '0'
    } else if d == 1 {
        '1'
    } else if d == 2 {
        '2'
    } else if d == 3 {
        '3'
    } else if d == 4 {
        '4'
    } else if d == 5 {
        '5'
    } else if d == 6 {
        '6'
    } else if d == 7 {
        '7'
    } else if d == 8 {
        '8'
    } else if d == 9 {
        '9'
    } else if d == 10 {
        'a'
    } else if d == 11 {
        'b'
    } else if d == 12 {
        'c'
    } else if d == 13 {
        'd'
    } else if d == 14 {
        'e'
    } else {
        'f'
    }
}

/// Appends one character's contribution to a JSON string body.
fn push_esc_char(out: &mut String, c: char)
    ensures
        final(out)@ == old(out)@ + esc_char(c),
{
    let u: u32 = c as u32;
    if u == 34 {
        push_char(out, '\\');
        push_char(out, '"');
    } else if u == 92 {
        push_char(out, '\\');
        push_char(out, '\\');
    } else if u == 8 {
        push_char(out, '\\');
        push_char(out, 'b');
    } else if u == 9 {
        push_char(out, '\\');
        push_char(out, 't');
    } else if u == 10 {
        push_char(out, '\\');
        push_char(out, 'n');
    } else if u == 12 {
        push_char(out, '\\');
        push_char(out, 'f');
    } else if u == 13 {
        push_char(out, '\\');
        push_char(out, 'r');
    } else if u < 32 {
        push_char(out, '\\');
        push_char(out, 'u');
        push_char(out, '0');
        push_char(out, '0');
        push_char(out, hex_lower_exec(u / 16));
        push_char(out, hex_lower_exec(u % 16));
    } else {
        push_char(out, c);
    }
    proof {
        assert(out@ =~= old(out)@ + esc_char(c));
    }
}

/// Appends the escaped body of a string.
pub fn append_escaped(out: &mut String, s: &str)
    ensures
        final(out)@ == old(out)@ + json_escaped(s@),
{
    let ghost out0 = out@;
    let n: usize = s.unicode_len();
    let mut i: usize = 0;
    while i < n
        invariant
            i <= n,
            n == s@.len(),
            out@ == out0 + json_escaped(s@.take(i as int)),
        decreases n - i,
    {
        let c = s.get_char(i);
        push_esc_char(out, c);
        i += 1;
        proof {
            assert(s@.take(i as int).drop_last() =~= s@.take(i as int - 1));
            assert(s@.take(i as int).last() == s@[i as int - 1]);
            assert(out@ =~= out0 + json_escaped(s@.take(i as int)));
        }
    }
    proof {
        assert(s@.take(n as int) =~= s@);
    }
}

/// Appends a whole JSON string: quotes around the escaped value.
pub fn append_quoted(out: &mut String, s: &str)
    ensures
        final(out)@ == old(out)@ + quoted(s@),
{
    push_char(out, '"');
    append_escaped(out, s);
    push_char(out, '"');
    proof {
        assert(out@ =~= old(out)@ + quoted(s@));
    }
}

} // verus!
