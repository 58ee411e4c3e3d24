//! Verified reading and writing of numbers as text.
//!
//! The library never touches machine floating point: a numeric state value
//! arrives as text, and all it is used for is typed equality against a
//! configured comparison value and nearest-integer display.  Both are done
//! here on decimal numerals directly: a numeral is brought to a canonical
//! form (no leading integer zeros, no trailing fraction zeros, no sign on
//! zero), two numerals denote the same number exactly when their canonical
//! forms coincide, and rounding is digit arithmetic on the numeral.

use vstd::prelude::*;

use crate::text::chars_to_string;
use crate::text::chars_eq;
use crate::text::vec_prefix;

verus! {

/// An ASCII decimal digit.
pub open spec fn is_digit(c: char) -> bool {
    48 <= c as u32 <= 57
}

/// The numeric value of one digit character.
pub open spec fn digit_val(c: char) -> nat {
    (c as u32 - 48) as nat
}

/// Every character of the sequence is a digit.
pub open spec fn all_digits(s: Seq<char>) -> bool {
    forall|i: int| 0 <= i < s.len() ==> is_digit(#[trigger] s[i])
}

/// The value of a digit string read in base ten.
pub open spec fn digits_val(s: Seq<char>) -> nat
    decreases s.len(),
{
    if s.len() == 0 {
        0
    } else {
        digits_val(s.drop_last()) * 10 + digit_val(s.last())
    }
}

/// The sequence with one leading sign character removed.
pub open spec fn sign_body(s: Seq<char>) -> Seq<char> {
    if s.len() > 0 && (s[0] == '+' || s[0] == '-') {
        s.skip(1)
    } else {
        s
    }
}

/// Whether the text carries a leading minus sign.
pub open spec fn sign_neg(s: Seq<char>) -> bool {
    s.len() > 0 && s[0] == '-'
}

/// The shape of a signed integer numeral: an optional sign and then at
/// least one digit, nothing else.
pub open spec fn is_int_format(s: Seq<char>) -> bool {
    sign_body(s).len() > 0 && all_digits(sign_body(s))
}

/// The magnitude a signed integer numeral denotes.
pub open spec fn int_mag(s: Seq<char>) -> nat {
    digits_val(sign_body(s))
}

/// The signed value a signed integer numeral denotes.
pub open spec fn int_value(s: Seq<char>) -> int {
    if sign_neg(s) {
        -(int_mag(s) as int)
    } else {
        int_mag(s) as int
    }
}

/// What reading a 64-bit signed integer out of the text yields: the
/// denoted value when the text is a well-formed numeral and the value
/// fits, nothing otherwise.
pub open spec fn spec_parse_i64(s: Seq<char>) -> Option<i64> {
    if is_int_format(s) && -9223372036854775808 <= int_value(s) <= 9223372036854775807 {
        Some(int_value(s) as i64)
    } else {
        None
    }
}

/// Reads a signed 64-bit integer out of the text, exactly as
/// `spec_parse_i64` describes.
pub fn parse_i64(s: &str) -> (r: Option<i64>)
    ensures
        r == spec_parse_i64(s@),
{
    let n: usize = s.unicode_len();
    if n == 0 {
        return None;
    }
    let c0: char = s.get_char(0);
    let neg: bool = c0 == '-';
    let start: usize = if c0 == '-' || c0 == '+' {
        1
    } else {
        0
    };
    if start == n {
        return None;
    }
    let ghost body = s@.skip(start as int);
    proof {
        assert(body =~= sign_body(s@));
        assert(body.len() > 0);
    }
    let mut i: usize = start;
    let mut acc: u64 = 0;
    let mut over: bool = false;
    while i < n
        invariant
            start <= i <= n,
            n == s@.len(),
            start < n,
            body == s@.skip(start as int),
            body == sign_body(s@),
            neg == sign_neg(s@),
            all_digits(s@.subrange(start as int, i as int)),
            !over ==> acc == digits_val(s@.subrange(start as int, i as int)),
            over ==> digits_val(s@.subrange(start as int, i as int)) > u64::MAX,
        decreases n - i,
    {
        let c: char = s.get_char(i);
        let u: u32 = c as u32;
        if u < 48 || u > 57 {
            proof {
                assert(body[i - start] == s@[i as int]);
                assert(!is_digit(body[i - start]));
                assert(!all_digits(body));
            }
            return None;
        }
        let d: u64 = (u - 48) as u64;
        proof {
            assert(s@.subrange(start as int, i as int + 1).drop_last() =~= s@.subrange(
                start as int,
                i as int,
            ));
            assert(s@.subrange(start as int, i as int + 1).last() == s@[i as int]);
        }
        if !over {
            match acc.checked_mul(10) {
                Some(t) => {
                    match t.checked_add(d) {
                        Some(t2) => {
                            acc = t2;
                        },
                        None => {
                            over = true;
                        },
                    }
                },
                None => {
                    over = true;
                },
            }
        }
        i += 1;
    }
    proof {
        assert(s@.subrange(start as int, n as int) =~= body);
        assert(is_int_format(s@));
    }
    if over {
        proof {
            assert(int_mag(s@) > u64::MAX);
        }
        return None;
    }
    proof {
        assert(acc == int_mag(s@));
    }
    if neg {
        if acc <= 9223372036854775807u64 {
            Some(-(acc as i64))
        } else if acc == 9223372036854775808u64 {
            Some(i64::MIN)
        } else {
            None
        }
    } else {
        if acc <= 9223372036854775807u64 {
            Some(acc as i64)
        } else {
            None
        }
    }
}

/// The digit character for a value below ten.
pub open spec fn digit_char(d: nat) -> char {
    if d == 0 {
        '0'
    } else if d == 1 {
        '1'
    } else if d == 2 {
        '2'
    } else if d == 3 {
        '3'
    } else if d == 4 {
        '4'
    } else if d == 5 {
        '5'
    } else if d == 6 {
        '6'
    } else if d == 7 {
        '7'
    } else if d == 8 {
        '8'
    } else {
        '9'
    }
}

/// The base-ten numeral of a natural number, most significant digit
/// first, with no leading zeros (and `0` written as one digit).
pub open spec fn dec_digits(n: nat) -> Seq<char>
    decreases n,
{
    if n < 10 {
        seq![digit_char(n)]
    } else {
        dec_digits(n / 10).push(digit_char(n % 10))
    }
}

/// The one-character string for a digit value.
fn digit_to_str(d: u64) -> (r: &'static str)
    requires
        d < 10,
    ensures
        r@ == seq![digit_char(d as nat)],
{
    let r: &'static str = if d == 0 {
        "0"
    } else if d == 1 {
        "1"
    } else if d == 2 {
        "2"
    } else if d == 3 {
        "3"
    } else if d == 4 {
        "4"
    } else if d == 5 {
        "5"
    } else if d == 6 {
        "6"
    } else if d == 7 {
        "7"
    } else if d == 8 {
        "8"
    } else {
        "9"
    };
    proof {
        reveal_strlit("0");
        reveal_strlit("1");
        reveal_strlit("2");
        reveal_strlit("3");
        reveal_strlit("4");
        reveal_strlit("5");
        reveal_strlit("6");
        reveal_strlit("7");
        reveal_strlit("8");
        reveal_strlit("9");
        assert(r@ =~= seq![digit_char(d as nat)]);
    }
    r
}

/// Writes a natural number in base ten.
pub fn u64_to_string(n: u64) -> (r: String)
    ensures
        r@ == dec_digits(n as nat),
    decreases n,
{
    if n < 10 {
        let d = digit_to_str(n);
        d.to_owned()
    } else {
        let mut r = u64_to_string(n / 10);
        let d = digit_to_str(n % 10);
        r.append(d);
        proof {
            assert(r@ =~= dec_digits((n / 10) as nat).push(digit_char((n % 10) as nat)));
        }
        r
    }
}

/// A decimal point sits at `d`, with digits and nothing else around it.
pub open spec fn has_dot_at(t: Seq<char>, d: int) -> bool {
    0 <= d < t.len() && t[d] == '.' && all_digits(t.take(d)) && all_digits(t.skip(d + 1))
}

/// The unsigned part contains exactly one decimal point.
pub open spec fn dotted(t: Seq<char>) -> bool {
    exists|d: int| has_dot_at(t, d)
}

/// The shape of an unsigned decimal numeral: digits with at most one
/// decimal point, and at least one digit overall.
pub open spec fn is_dec_body(t: Seq<char>) -> bool {
    (all_digits(t) && t.len() >= 1) || (dotted(t) && t.len() >= 2)
}

/// The position of the decimal point.
pub open spec fn dec_dot(t: Seq<char>) -> int {
    choose|d: int| has_dot_at(t, d)
}

/// The digits before the decimal point (all of them when there is none).
pub open spec fn dec_int_part(t: Seq<char>) -> Seq<char> {
    if all_digits(t) {
        t
    } else {
        t.take(dec_dot(t))
    }
}

/// The digits after the decimal point.
pub open spec fn dec_frac_part(t: Seq<char>) -> Seq<char> {
    if all_digits(t) {
        Seq::empty()
    } else {
        t.skip(dec_dot(t) + 1)
    }
}

/// A well-formed numeral has only one candidate position for its point.
proof fn lemma_dot_unique(t: Seq<char>, d1: int, d2: int)
    requires
        has_dot_at(t, d1),
        has_dot_at(t, d2),
    ensures
        d1 == d2,
{
    if d1 < d2 {
        assert(is_digit(t.take(d2)[d1]));
    }
    if d2 < d1 {
        assert(is_digit(t.take(d1)[d2]));
    }
}

/// The numeral with leading zeros removed.
pub open spec fn strip_leading_zeros(s: Seq<char>) -> Seq<char>
    decreases s.len(),
{
    if s.len() > 0 && s[0] == '0' {
        strip_leading_zeros(s.skip(1))
    } else {
        s
    }
}

/// The numeral with trailing zeros removed.
pub open spec fn strip_trailing_zeros(s: Seq<char>) -> Seq<char>
    decreases s.len(),
{
    if s.len() > 0 && s.last() == '0' {
        strip_trailing_zeros(s.drop_last())
    } else {
        s
    }
}

/// The canonical form of a signed decimal numeral: its sign, its integer
/// digits without leading zeros, and its fraction digits without trailing
/// zeros; zero loses its sign.  Two numerals denote the same number
/// exactly when their canonical forms coincide.
pub open spec fn dec_canon(s: Seq<char>) -> Option<(bool, Seq<char>, Seq<char>)> {
    let t = sign_body(s);
    if is_dec_body(t) {
        let ci = strip_leading_zeros(dec_int_part(t));
        let cf = strip_trailing_zeros(dec_frac_part(t));
        let z = ci.len() == 0 && cf.len() == 0;
        Some(((if z { false } else { sign_neg(s) }), ci, cf))
    } else {
        None
    }
}

/// Numeric equality of two decimal texts: both are well-formed numerals
/// and they denote the same number.
pub open spec fn dec_eq(a: Seq<char>, b: Seq<char>) -> bool {
    match (dec_canon(a), dec_canon(b)) {
        (Some(x), Some(y)) => x == y,
        _ => false,
    }
}

/// A signed decimal numeral taken apart: sign, integer digits, fraction
/// digits.
pub struct DecParts {
    pub neg: bool,
    pub int_part: Vec<char>,
    pub frac_part: Vec<char>,
}

/// Takes a decimal text apart, exactly when it is a well-formed signed
/// numeral.
pub fn dec_parse(s: &str) -> (r: Option<DecParts>)
    ensures
        match r {
            Some(p) => is_dec_body(sign_body(s@)) && p.neg == sign_neg(s@) && p.int_part@
                == dec_int_part(sign_body(s@)) && p.frac_part@ == dec_frac_part(sign_body(s@))
                && all_digits(p.int_part@) && all_digits(p.frac_part@),
            None => !is_dec_body(sign_body(s@)),
        },
{
    let n: usize = s.unicode_len();
    if n == 0 {
        return None;
    }
    let c0: char = s.get_char(0);
    let neg: bool = c0 == '-';
    let start: usize = if c0 == '-' || c0 == '+' {
        1
    } else {
        0
    };
    let ghost t = s@.skip(start as int);
    proof {
        assert(t =~= sign_body(s@));
    }
    let mut i: usize = start;
    let mut ip: Vec<char> = Vec::new();
    loop
        invariant
            start <= i <= n,
            n == s@.len(),
            t == s@.skip(start as int),
            t == sign_body(s@),
            ip@ == s@.subrange(start as int, i as int),
            all_digits(ip@),
        ensures
            start <= i <= n,
            ip@ == s@.subrange(start as int, i as int),
            all_digits(ip@),
            i < n ==> !is_digit(s@[i as int]),
        decreases n - i,
    {
        if i >= n {
            break;
        }
        let c = s.get_char(i);
        let u: u32 = c as u32;
        if u < 48 || u > 57 {
            break;
        }
        ip.push(c);
        i += 1;
        proof {
            assert(ip@ =~= s@.subrange(start as int, i as int));
        }
    }
    if i == n {
        // no decimal point: every character after the sign is a digit
        if n == start {
            proof {
                assert(t.len() == 0);
                assert(forall|d: int| !has_dot_at(t, d));
            }
            return None;
        }
        proof {
            assert(t =~= s@.subrange(start as int, n as int));
            assert(all_digits(t));
            assert(dec_int_part(t) == t);
        }
        return Some(DecParts { neg, int_part: ip, frac_part: Vec::new() });
    }
    // a non-digit stopped the scan
    let cdot = s.get_char(i);
    if cdot != '.' {
        proof {
            assert(t[i - start] == s@[i as int]);
            assert(!is_digit(t[i - start]));
            assert(t[i - start] != '.');
            assert(!all_digits(t));
            assert forall|d: int| !has_dot_at(t, d) by {
                if has_dot_at(t, d) {
                    if d < i - start {
                        assert(t[d] == s@[d + start]);
                        assert(is_digit(s@.subrange(start as int, i as int)[d]));
                    } else if d == i - start {
                        assert(t[d] == '.');
                    } else {
                        assert(is_digit(t.take(d)[i - start]));
                    }
                }
            }
        }
        return None;
    }
    let dd: usize = i;
    let mut j: usize = i + 1;
    let mut fp: Vec<char> = Vec::new();
    loop
        invariant
            start <= dd < n,
            dd + 1 <= j <= n,
            n == s@.len(),
            t == s@.skip(start as int),
            t == sign_body(s@),
            s@[dd as int] == '.',
            ip@ == s@.subrange(start as int, dd as int),
            all_digits(ip@),
            fp@ == s@.subrange(dd as int + 1, j as int),
            all_digits(fp@),
        ensures
            j == n,
            fp@ == s@.subrange(dd as int + 1, n as int),
            all_digits(fp@),
        decreases n - j,
    {
        if j >= n {
            break;
        }
        let c = s.get_char(j);
        let u: u32 = c as u32;
        if u < 48 || u > 57 {
            proof {
                assert(t[j - start] == s@[j as int]);
                assert(!is_digit(t[j - start]));
                assert(t[dd - start] == '.');
                assert(!is_digit(t[dd - start]));
                assert(!all_digits(t));
                assert forall|d: int| !has_dot_at(t, d) by {
                    if has_dot_at(t, d) {
                        if d < dd - start {
                            assert(is_digit(t.take(dd - start)[d]));
                            assert(t.take(dd - start) =~= s@.subrange(start as int, dd as int));
                        } else if d == dd - start {
                            assert(is_digit(t.skip(d + 1)[j - start - d - 1]));
                        } else {
                            assert(is_digit(t.take(d)[dd - start]));
                        }
                    }
                }
            }
            return None;
        }
        fp.push(c);
        j += 1;
        proof {
            assert(fp@ =~= s@.subrange(dd as int + 1, j as int));
        }
    }
    if n - start < 2 {
        // the unsigned part is the point alone
        proof {
            assert(t.len() == 1 && t[0] == '.');
            assert(t[0] == s@[i as int]);
            assert(!is_digit(t[0]));
            assert(!all_digits(t));
            assert(forall|d: int| has_dot_at(t, d) ==> d == 0);
        }
        return None;
    }
    proof {
        let di: int = dd - start;
        assert(t[di] == s@[dd as int]);
        assert(t.take(di) =~= s@.subrange(start as int, dd as int));
        assert(t.skip(di + 1) =~= s@.subrange(dd as int + 1, n as int));
        assert(has_dot_at(t, di));
        assert(dotted(t));
        assert(t.len() >= 2);
        assert(is_dec_body(t));
        assert(t[di] == s@[i as int]);
        assert(!is_digit(t[di]));
        assert(!all_digits(t));
        lemma_dot_unique(t, dec_dot(t), di);
        assert(dec_int_part(t) == ip@);
        assert(dec_frac_part(t) == fp@);
    }
    Some(DecParts { neg, int_part: ip, frac_part: fp })
}

/// Drops leading zero characters.
pub fn strip_lead(v: &Vec<char>) -> (r: Vec<char>)
    ensures
        r@ == strip_leading_zeros(v@),
{
    let mut k: usize = 0;
    while k < v.len() && v[k] == '0'
        invariant
            k <= v@.len(),
            forall|p: int| 0 <= p < k ==> v@[p] == '0',
        decreases v@.len() - k,
    {
        k += 1;
    }
    let mut r: Vec<char> = Vec::new();
    let mut i: usize = k;
    while i < v.len()
        invariant
            k <= i <= v@.len(),
            r@ == v@.subrange(k as int, i as int),
        decreases v@.len() - i,
    {
        r.push(v[i]);
        i += 1;
        proof {
            assert(r@ =~= v@.subrange(k as int, i as int));
        }
    }
    proof {
        assert(r@ =~= v@.skip(k as int));
        lemma_strip_lead_skip(v@, k as int);
    }
    r
}

/// Stripping leading zeros is skipping past the first non-zero position.
proof fn lemma_strip_lead_skip(s: Seq<char>, k: int)
    requires
        0 <= k <= s.len(),
        forall|p: int| 0 <= p < k ==> s[p] == '0',
        k < s.len() ==> s[k] != '0',
    ensures
        strip_leading_zeros(s) == s.skip(k),
    decreases k,
{
    if k == 0 {
        assert(s.skip(0) =~= s);
    } else {
        assert(s[0] == '0');
        let s1 = s.skip(1);
        assert(forall|p: int| 0 <= p < k - 1 ==> s1[p] == '0');
        lemma_strip_lead_skip(s1, k - 1);
        assert(s1.skip(k - 1) =~= s.skip(k));
    }
}

/// Drops trailing zero characters.
pub fn strip_trail(v: &Vec<char>) -> (r: Vec<char>)
    ensures
        r@ == strip_trailing_zeros(v@),
{
    let mut m: usize = v.len();
    while m > 0 && v[m - 1] == '0'
        invariant
            m <= v@.len(),
            forall|p: int| m <= p < v@.len() ==> v@[p] == '0',
        decreases m,
    {
        m -= 1;
    }
    let r = vec_prefix(v, m);
    proof {
        lemma_strip_trail_take(v@, m as int);
    }
    r
}

/// Stripping trailing zeros is cutting at the last non-zero position.
proof fn lemma_strip_trail_take(s: Seq<char>, m: int)
    requires
        0 <= m <= s.len(),
        forall|p: int| m <= p < s.len() ==> s[p] == '0',
        m > 0 ==> s[m - 1] != '0',
    ensures
        strip_trailing_zeros(s) == s.take(m),
    decreases s.len() - m,
{
    if m == s.len() {
        if s.len() == 0 {
            assert(s.take(m) =~= s);
        } else {
            assert(s.last() != '0');
            assert(s.take(m) =~= s);
        }
    } else {
        assert(s.last() == '0');
        let s1 = s.drop_last();
        assert(forall|p: int| m <= p < s1.len() ==> s1[p] == s[p]);
        lemma_strip_trail_take(s1, m);
        assert(s1.take(m) =~= s.take(m));
    }
}

/// Numeric equality of two decimal texts, exactly as `dec_eq` describes:
/// true when both are well-formed numerals denoting the same number.
pub fn dec_matches(a: &str, b: &str) -> (r: bool)
    ensures
        r == dec_eq(a@, b@),
{
    let pa = dec_parse(a);
    let pb = dec_parse(b);
    match (pa, pb) {
        (Some(x), Some(y)) => {
            let xi = strip_lead(&x.int_part);
            let xf = strip_trail(&x.frac_part);
            let yi = strip_lead(&y.int_part);
            let yf = strip_trail(&y.frac_part);
            let xz = xi.len() == 0 && xf.len() == 0;
            let yz = yi.len() == 0 && yf.len() == 0;
            let xneg: bool = if xz {
                false
            } else {
                x.neg
            };
            let yneg: bool = if yz {
                false
            } else {
                y.neg
            };
            xneg == yneg && chars_eq(&xi, &yi) && chars_eq(&xf, &yf)
        },
        _ => false,
    }
}

/// A digit string plus one: schoolbook carry from the right.
pub open spec fn inc_digits(ds: Seq<char>) -> Seq<char>
    decreases ds.len(),
{
    if ds.len() == 0 {
        seq!['1']
    } else if digit_val(ds.last()) == 9 {
        inc_digits(ds.drop_last()).push('0')
    } else {
        ds.drop_last().push(digit_char(digit_val(ds.last()) + 1))
    }
}

/// The integer digits after rounding half away from zero: one is carried
/// in exactly when the first fraction digit weighs five or more.
pub open spec fn round_mag(ip: Seq<char>, fp: Seq<char>) -> Seq<char> {
    if fp.len() > 0 && digit_val(fp[0]) >= 5 {
        inc_digits(ip)
    } else {
        ip
    }
}

/// The text of the integer nearest to a decimal numeral (half away from
/// zero), keeping the numeral's sign; nothing when the text is not a
/// well-formed numeral.
pub open spec fn spec_round_decimal(s: Seq<char>) -> Option<Seq<char>> {
    let t = sign_body(s);
    if is_dec_body(t) {
        let ds = strip_leading_zeros(round_mag(dec_int_part(t), dec_frac_part(t)));
        let ds2: Seq<char> = if ds.len() == 0 {
            seq!['0']
        } else {
            ds
        };
        Some(
            if sign_neg(s) {
                seq!['-'] + ds2
            } else {
                ds2
            },
        )
    } else {
        None
    }
}

/// The digit character below ten, as a value.
fn digit_char_exec(d: u32) -> (c: char)
    requires
        d < 10,
    ensures
        c == digit_char(d as nat),
{
    if d == 0 {
        '0'
    } else if d == 1 {
        '1'
    } else if d == 2 {
        '2'
    } else if d == 3 {
        '3'
    } else if d == 4 {
        '4'
    } else if d == 5 {
        '5'
    } else if d == 6 {
        '6'
    } else if d == 7 {
        '7'
    } else if d == 8 {
        '8'
    } else {
        '9'
    }
}

/// Adds one to a digit string.
fn inc_digits_exec(v: &Vec<char>) -> (r: Vec<char>)
    requires
        all_digits(v@),
    ensures
        r@ == inc_digits(v@),
    decreases v.len(),
{
    if v.len() == 0 {
        let mut r: Vec<char> = Vec::new();
        r.push('1');
        proof {
            assert(r@ =~= inc_digits(v@));
        }
        r
    } else {
        let lastc = v[v.len() - 1];
        let u: u32 = lastc as u32;
        let pre = vec_prefix(v, v.len() - 1);
        proof {
            assert(pre@ =~= v@.drop_last());
            assert(all_digits(pre@));
            assert(is_digit(v@.last()));
        }
        if u == 57 {
            let mut r = inc_digits_exec(&pre);
            r.push('0');
            r
        } else {
            proof {
                assert(digit_val(v@.last()) < 9);
            }
            let mut r = pre;
            r.push(digit_char_exec(u - 48 + 1));
            r
        }
    }
}

/// Rounds a decimal text to the nearest integer, half away from zero,
/// exactly as `spec_round_decimal` describes; `None` when the text is not
/// a well-formed numeral.
pub fn round_decimal(s: &str) -> (r: Option<String>)
    ensures
        r is Some <==> spec_round_decimal(s@) is Some,
        r is Some ==> r->Some_0@ == spec_round_decimal(s@)->Some_0,
{
    match dec_parse(s) {
        None => None,
        Some(p) => {
            let carry: bool = if p.frac_part.len() > 0 {
                let c = p.frac_part[0];
                (c as u32) >= 53
            } else {
                false
            };
            proof {
                if p.frac_part@.len() > 0 {
                    assert(is_digit(p.frac_part@[0]));
                }
            }
            let mag: Vec<char> = if carry {
                inc_digits_exec(&p.int_part)
            } else {
                p.int_part
            };
            let stripped = strip_lead(&mag);
            let mut out: Vec<char> = Vec::new();
            if p.neg {
                out.push('-');
            }
            if stripped.len() == 0 {
                out.push('0');
            } else {
                let mut k: usize = 0;
                let base: usize = out.len();
                while k < stripped.len()
                    invariant
                        k <= stripped@.len(),
                        base == if p.neg { 1int } else { 0int },
                        out@.len() == base + k,
                        out@ == (if p.neg { seq!['-'] } else { Seq::<char>::empty() })
                            + stripped@.take(k as int),
                    decreases stripped@.len() - k,
                {
                    out.push(stripped[k]);
                    k += 1;
                    proof {
                        assert(out@ =~= (if p.neg { seq!['-'] } else { Seq::<char>::empty() })
                            + stripped@.take(k as int));
                    }
                }
            }
            proof {
                let t = sign_body(s@);
                let ds = strip_leading_zeros(round_mag(dec_int_part(t), dec_frac_part(t)));
                assert(stripped@ == ds);
                if stripped@.len() == 0 {
                    assert(out@ =~= spec_round_decimal(s@)->Some_0);
                } else {
                    assert(stripped@.take(stripped@.len() as int) =~= stripped@);
                    assert(out@ =~= spec_round_decimal(s@)->Some_0);
                }
            }
            Some(chars_to_string(&out))
        },
    }
}

/// The digit character of a value below ten carries that value.
proof fn lemma_digit_char_val(d: nat)
    requires
        d <= 9,
    ensures
        is_digit(digit_char(d)),
        digit_val(digit_char(d)) == d,
{
}

/// Adding one to a digit string adds one to its value.
pub proof fn lemma_inc_digits_val(ds: Seq<char>)
    requires
        all_digits(ds),
    ensures
        all_digits(inc_digits(ds)),
        digits_val(inc_digits(ds)) == digits_val(ds) + 1,
    decreases ds.len(),
{
    if ds.len() == 0 {
        assert(digits_val(seq!['1']) == 1) by {
            let r = seq!['1'];
            assert(r.len() == 1);
            assert(r.last() == '1');
            assert(r.drop_last() =~= Seq::<char>::empty());
            assert(digits_val(Seq::<char>::empty()) == 0);
            assert(digit_val('1') == 1);
            assert(digits_val(r) == digits_val(r.drop_last()) * 10 + digit_val(r.last()));
        }
        assert(all_digits(seq!['1']));
    } else {
        let dl = ds.drop_last();
        assert(all_digits(dl));
        if digit_val(ds.last()) == 9 {
            lemma_inc_digits_val(dl);
            let r = inc_digits(dl).push('0');
            assert(r.drop_last() =~= inc_digits(dl));
            assert(r.last() == '0');
            assert(digit_val('0') == 0);
            assert(all_digits(r)) by {
                assert(forall|i: int|
                    0 <= i < r.len() - 1 ==> r[i] == inc_digits(dl)[i]);
            }
        } else {
            assert(is_digit(ds.last()));
            let d2 = (digit_val(ds.last()) + 1) as nat;
            lemma_digit_char_val(d2);
            let r = dl.push(digit_char(d2));
            assert(r.drop_last() =~= dl);
            assert(all_digits(r)) by {
                assert(forall|i: int| 0 <= i < r.len() - 1 ==> r[i] == dl[i]);
            }
        }
    }
}

/// Powers of ten.
pub open spec fn pow10(n: nat) -> nat
    decreases n,
{
    if n == 0 {
        1
    } else {
        10 * pow10((n - 1) as nat)
    }
}

proof fn lemma_pow10_add(m: nat, n: nat)
    ensures
        pow10(m + n) == pow10(m) * pow10(n),
    decreases n,
{
    if n == 0 {
        assert(pow10(m + 0) == pow10(m) * 1);
    } else {
        lemma_pow10_add(m, (n - 1) as nat);
        assert(pow10(m + n) == 10 * pow10((m + n - 1) as nat));
        assert(10 * (pow10(m) * pow10((n - 1) as nat)) == pow10(m) * (10 * pow10(
            (n - 1) as nat,
        ))) by (nonlinear_arith);
    }
}

/// Concatenating digit strings weights the left part by ten to the
/// length of the right part.
proof fn lemma_digits_val_concat(a: Seq<char>, b: Seq<char>)
    ensures
        digits_val(a + b) == digits_val(a) * pow10(b.len()) + digits_val(b),
    decreases b.len(),
{
    if b.len() == 0 {
        assert(a + b =~= a);
        assert(pow10(0) == 1);
        assert(digits_val(a) * 1 == digits_val(a));
    } else {
        let b1 = b.drop_last();
        lemma_digits_val_concat(a, b1);
        assert((a + b).drop_last() =~= a + b1);
        assert((a + b).last() == b.last());
        assert(digits_val(a + b) == digits_val(a + b1) * 10 + digit_val(b.last()));
        assert(digits_val(b) == digits_val(b1) * 10 + digit_val(b.last()));
        assert((digits_val(a) * pow10(b1.len()) + digits_val(b1)) * 10 == digits_val(a) * (pow10(
            b1.len(),
        ) * 10) + digits_val(b1) * 10) by (nonlinear_arith);
        assert(pow10(b.len()) == 10 * pow10(b1.len()));
    }
}

/// A leading zero carries no value.
proof fn lemma_skip_zero(s: Seq<char>)
    requires
        s.len() > 0,
        s[0] == '0',
    ensures
        digits_val(s) == digits_val(s.skip(1)),
    decreases s.len(),
{
    if s.len() == 1 {
        assert(s.drop_last() =~= Seq::<char>::empty());
        assert(s.last() == '0');
        assert(s.skip(1) =~= Seq::<char>::empty());
        assert(digit_val('0') == 0);
    } else {
        let dl = s.drop_last();
        assert(dl[0] == '0');
        lemma_skip_zero(dl);
        assert(s.skip(1).drop_last() =~= dl.skip(1));
        assert(s.skip(1).last() == s.last());
    }
}

/// Stripping leading zeros keeps the value.
proof fn lemma_strip_lead_val(s: Seq<char>)
    ensures
        digits_val(strip_leading_zeros(s)) == digits_val(s),
        strip_leading_zeros(s).len() <= s.len(),
    decreases s.len(),
{
    if s.len() > 0 && s[0] == '0' {
        lemma_skip_zero(s);
        lemma_strip_lead_val(s.skip(1));
    }
}

/// Stripping trailing zeros divides the value by ten per zero removed.
proof fn lemma_strip_trail_val(s: Seq<char>)
    ensures
        strip_trailing_zeros(s).len() <= s.len(),
        digits_val(s) == digits_val(strip_trailing_zeros(s)) * pow10(
            (s.len() - strip_trailing_zeros(s).len()) as nat,
        ),
    decreases s.len(),
{
    if s.len() > 0 && s.last() == '0' {
        let dl = s.drop_last();
        lemma_strip_trail_val(dl);
        let st = strip_trailing_zeros(s);
        let k = (dl.len() - st.len()) as nat;
        assert(digit_val('0') == 0);
        assert(digits_val(s) == digits_val(dl) * 10);
        lemma_pow10_add(k, 1);
        assert(pow10(0) == 1);
        assert(pow10(1) == 10);
        assert(digits_val(st) * pow10(k) * 10 == digits_val(st) * (pow10(k) * 10))
            by (nonlinear_arith);
    } else {
        assert(digits_val(s) * 1 == digits_val(s));
    }
}

/// The numerator of a decimal numeral over the denominator ten to the
/// given scale.
pub open spec fn dec_scaled(s: Seq<char>, scale: nat) -> int {
    let t = sign_body(s);
    let mag = digits_val(dec_int_part(t) + dec_frac_part(t)) * pow10(
        (scale - dec_frac_part(t).len()) as nat,
    );
    if sign_neg(s) {
        -(mag as int)
    } else {
        mag as int
    }
}

/// Canonicalizing a numeral keeps its scaled numerator.
proof fn lemma_canon_scaled(s: Seq<char>, scale: nat)
    requires
        dec_canon(s) is Some,
        dec_frac_part(sign_body(s)).len() <= scale,
    ensures
        ({
            let c = dec_canon(s)->Some_0;
            let mag = digits_val(c.1 + c.2) * pow10((scale - c.2.len()) as nat);
            dec_scaled(s, scale) == if c.0 {
                -(mag as int)
            } else {
                mag as int
            }
        }),
{
    let t = sign_body(s);
    let ip = dec_int_part(t);
    let fp = dec_frac_part(t);
    let ci = strip_leading_zeros(ip);
    let cf = strip_trailing_zeros(fp);
    lemma_strip_lead_val(ip);
    lemma_strip_trail_val(fp);
    let k = (fp.len() - cf.len()) as nat;
    lemma_digits_val_concat(ip, fp);
    lemma_digits_val_concat(ci, cf);
    lemma_pow10_add(fp.len(), (scale - fp.len()) as nat);
    lemma_pow10_add(cf.len(), (scale - cf.len()) as nat);
    lemma_pow10_add(k, (scale - fp.len()) as nat);
    let pfs = pow10((scale - fp.len()) as nat);
    let vci = digits_val(ci);
    let vcf = digits_val(cf);
    assert(digits_val(ip + fp) == vci * pow10(fp.len()) + vcf * pow10(k));
    assert((vci * pow10(fp.len()) + vcf * pow10(k)) * pfs == vci * (pow10(fp.len()) * pfs) + vcf
        * (pow10(k) * pfs)) by (nonlinear_arith);
    assert(pow10(fp.len()) * pfs == pow10(scale));
    assert(pow10(k) * pfs == pow10((scale - cf.len()) as nat));
    assert((vci * pow10(cf.len()) + vcf) * pow10((scale - cf.len()) as nat) == vci * (pow10(
        cf.len(),
    ) * pow10((scale - cf.len()) as nat)) + vcf * pow10((scale - cf.len()) as nat))
        by (nonlinear_arith);
    assert(pow10(cf.len()) * pow10((scale - cf.len()) as nat) == pow10(scale));
    assert(digits_val(ip + fp) * pfs == digits_val(ci + cf) * pow10((scale - cf.len()) as nat));
}

/// Soundness of the canonical comparison: two numerals it calls equal
/// denote the same number — over any common denominator ten to a
/// sufficient scale, their numerators coincide.
pub proof fn lemma_dec_eq_sound(a: Seq<char>, b: Seq<char>, scale: nat)
    requires
        dec_eq(a, b),
        dec_frac_part(sign_body(a)).len() <= scale,
        dec_frac_part(sign_body(b)).len() <= scale,
    ensures
        dec_scaled(a, scale) == dec_scaled(b, scale),
{
    lemma_canon_scaled(a, scale);
    lemma_canon_scaled(b, scale);
}

} // verus!
