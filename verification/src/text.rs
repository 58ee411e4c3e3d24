//! Small verified helpers on strings and characters shared by the rest of
//! the library.

use vstd::prelude::*;

verus! {

/// Relies on String::push: appends exactly the one character to the end of
/// the string.
#[verifier::external_body]
pub fn push_char(s: &mut String, c: char)
    ensures
        final(s)@ == old(s)@.push(c),
{
    s.push(c);
}

/// Builds the string holding exactly the given characters, in order.
pub fn chars_to_string(v: &Vec<char>) -> (r: String)
    ensures
        r@ == v@,
{
    let mut r = String::new();
    let mut i: usize = 0;
    while i < v.len()
        invariant
            i <= v.len(),
            r@ == v@.take(i as int),
        decreases v.len() - i,
    {
        push_char(&mut r, v[i]);
        i += 1;
        proof {
            assert(r@ =~= v@.take(i as int));
        }
    }
    proof {
        assert(v@.take(v@.len() as int) =~= v@);
    }
    r
}

/// Character-for-character string equality.
pub fn str_eq(a: &str, b: &str) -> (r: bool)
    ensures
        r == (a@ == b@),
{
    let na = a.unicode_len();
    let nb = b.unicode_len();
    if na != nb {
        return false;
    }
    let mut i: usize = 0;
    while i < na
        invariant
            i <= na,
            na == a@.len(),
            na == b@.len(),
            forall|k: int| 0 <= k < i ==> a@[k] == b@[k],
        decreases na - i,
    {
        if a.get_char(i) != b.get_char(i) {
            return false;
        }
        i += 1;
    }
    proof {
        assert(a@ =~= b@);
    }
    true
}

/// Copies the first `m` characters of a vector.
pub fn vec_prefix(v: &Vec<char>, m: usize) -> (r: Vec<char>)
    requires
        m <= v.len(),
    ensures
        r@ == v@.take(m as int),
{
    let mut r: Vec<char> = Vec::new();
    let mut i: usize = 0;
    while i < m
        invariant
            i <= m <= v.len(),
            r@ == v@.take(i as int),
        decreases m - i,
    {
        r.push(v[i]);
        i += 1;
        proof {
            assert(r@ =~= v@.take(i as int));
        }
    }
    r
}

/// Character-vector equality.
pub fn chars_eq(a: &Vec<char>, b: &Vec<char>) -> (r: bool)
    ensures
        r == (a@ == b@),
{
    if a.len() != b.len() {
        return false;
    }
    let mut i: usize = 0;
    while i < a.len()
        invariant
            i <= a@.len(),
            a@.len() == b@.len(),
            forall|k: int| 0 <= k < i ==> a@[k] == b@[k],
        decreases a@.len() - i,
    {
        if a[i] != b[i] {
            return false;
        }
        i += 1;
    }
    proof {
        assert(a@ =~= b@);
    }
    true
}

} // verus!
