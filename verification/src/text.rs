//! Conversions between `String` and `Vec<char>`.
//!
//! Verified code in this crate assembles and inspects text as `Vec<char>`;
//! these two conversions are the only places where `String`s are built
//! from or taken apart into characters.

use vstd::prelude::*;

verus! {

/// Relies on `std::iter::Iterator::collect` for `String`: collecting
/// characters yields the string of exactly those characters in order.
#[verifier::external_body]
pub fn chars_to_string(v: &Vec<char>) -> (s: String)
    ensures
        s@ == v@,
{
    v.iter().collect()
}

/// Relies on `str::chars` followed by `std::iter::Iterator::collect` for
/// `Vec<char>`: the characters of the string, in order.
#[verifier::external_body]
pub fn str_to_chars(s: &str) -> (v: Vec<char>)
    ensures
        v@ == s@,
{
    s.chars().collect()
}

/// The digit character for one decimal digit.
pub open spec fn digit_char(d: int) -> char {
    if d == 0 {
        '0'
    } else if d == 1 {
        '1'
    } else if d == 2 {
        '2'
    } else if d == 3 {
        '3'
    } else if d == 4 {
        '4'
    } else if d == 5 {
        '5'
    } else if d == 6 {
        '6'
    } else if d == 7 {
        '7'
    } else if d == 8 {
        '8'
    } else {
        '9'
    }
}

/// The decimal digit characters of a non-negative number, most
/// significant first.
pub open spec fn dec_spec(n: int) -> Seq<char>
    decreases n,
{
    if n < 10 {
        seq![digit_char(n)]
    } else {
        dec_spec(n / 10).push(digit_char(n % 10))
    }
}

/// Render a number in decimal.
pub fn u64_digits(n: u64) -> (r: Vec<char>)
    ensures
        r@ == dec_spec(n as int),
{
    if n < 10 {
        let mut out: Vec<char> = Vec::new();
        out.push(digit_of(n));
        proof {
            assert(out@ =~= dec_spec(n as int));
        }
        return out;
    }
    let mut rev: Vec<char> = Vec::new();
    let mut m: u64 = n;
    while m > 0
        invariant
            m >= 0,
            (m > 0 ==> dec_spec(n as int) == dec_spec(m as int) + rev@.reverse()),
            (m == 0 ==> dec_spec(n as int) == rev@.reverse()),
        decreases m,
    {
        let ghost pre = rev@;
        let d = digit_of(m % 10);
        rev.push(d);
        proof {
            assert(rev@.reverse() =~= seq![d] + pre.reverse());
        }
        let ghost mo = m as int;
        m = m / 10;
        proof {
            if mo >= 10 {
                assert(dec_spec(mo) == dec_spec(mo / 10).push(digit_char(mo % 10)));
                assert(dec_spec(mo) + pre.reverse() =~= dec_spec(mo / 10) + (seq![d]
                    + pre.reverse()));
            } else {
                assert(dec_spec(mo) =~= seq![d]);
                assert(dec_spec(mo) + pre.reverse() =~= seq![d] + pre.reverse());
            }
        }
    }
    let mut out: Vec<char> = Vec::new();
    let mut i: usize = 0;
    while i < rev.len()
        invariant
            0 <= i <= rev@.len(),
            out@ =~= rev@.reverse().take(i as int),
        decreases rev@.len() - i,
    {
        out.push(rev[rev.len() - 1 - i]);
        proof {
            assert(out@ =~= rev@.reverse().take(i + 1));
        }
        i = i + 1;
    }
    proof {
        assert(rev@.reverse().take(rev@.len() as int) =~= rev@.reverse());
    }
    out
}

/// The digit character of a value below ten.
pub fn digit_of(d: u64) -> (r: char)
    requires
        d < 10,
    ensures
        r == digit_char(d as int),
{
    if d == 0 {
        '0'
    } else if d == 1 {
        '1'
    } else if d == 2 {
        '2'
    } else if d == 3 {
        '3'
    } else if d == 4 {
        '4'
    } else if d == 5 {
        '5'
    } else if d == 6 {
        '6'
    } else if d == 7 {
        '7'
    } else if d == 8 {
        '8'
    } else {
        '9'
    }
}

/// Append all characters of `src` to `dst`.
pub fn push_all(dst: &mut Vec<char>, src: &Vec<char>)
    ensures
        final(dst)@ == old(dst)@ + src@,
{
    let mut i: usize = 0;
    while i < src.len()
        invariant
            0 <= i <= src@.len(),
            dst@ =~= old(dst)@ + src@.take(i as int),
        decreases src@.len() - i,
    {
        dst.push(src[i]);
        proof {
            assert(dst@ =~= old(dst)@ + src@.take(i + 1));
        }
        i = i + 1;
    }
    proof {
        assert(old(dst)@ + src@.take(src@.len() as int) =~= old(dst)@ + src@);
    }
}

/// Append a literal to a character buffer.
pub fn push_str_chars(dst: &mut Vec<char>, s: &str)
    ensures
        final(dst)@ == old(dst)@ + s@,
{
    let v = str_to_chars(s);
    push_all(dst, &v);
}

} // verus!
