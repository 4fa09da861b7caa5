//! Small text helpers: conversions between strings and character vectors,
//! and decimal / hexadecimal renderings of integers.

use vstd::prelude::*;

verus! {

/// Relies on str::chars: it yields exactly the characters of the slice, in
/// order.
#[verifier::external_body]
pub fn str_to_chars(s: &str) -> (r: Vec<char>)
    ensures
        r@ == s@,
{
    s.chars().collect()
}

/// Relies on String's FromIterator over char: collecting characters builds
/// the string with exactly that character sequence.
#[verifier::external_body]
pub fn chars_to_string(v: &Vec<char>) -> (r: String)
    ensures
        r@ == v@,
{
    v.iter().collect()
}

/// Relies on alloc::string::String::push: it appends exactly one character.
#[verifier::external_body]
pub fn push_char(s: &mut String, c: char)
    ensures
        final(s)@ == old(s)@.push(c),
{
    s.push(c);
}

/// Decimal digits of a non-negative number, most significant first.
pub open spec fn dec_str(n: int) -> Seq<char>
    decreases n,
{
    if n < 0 {
        Seq::empty()
    } else if n < 10 {
        seq![(('0' as u32) + n as u32) as char]
    } else {
        dec_str(n / 10).push((('0' as u32) + (n % 10) as u32) as char)
    }
}

/// Lowercase hexadecimal digits of a non-negative number, no leading zeros.
pub open spec fn hex_str(n: int) -> Seq<char>
    decreases n,
{
    if n < 0 {
        Seq::empty()
    } else if n < 16 {
        seq![hex_digit(n)]
    } else {
        hex_str(n / 16).push(hex_digit(n % 16))
    }
}

pub open spec fn hex_digit(d: int) -> char {
    if d < 10 {
        (('0' as u32) + d as u32) as char
    } else {
        (('a' as u32) + (d - 10) as u32) as char
    }
}

fn dec_digit(d: u64) -> (c: char)
    requires
        d < 10,
    ensures
        c == (('0' as u32) + d as u32) as char,
{
    (48u8 + d as u8) as char
}

/// Append the decimal rendering of `n` to `out`.
pub fn push_dec_u64(out: &mut String, n: u64)
    ensures
        final(out)@ == old(out)@ + dec_str(n as int),
    decreases n,
{
    if n < 10 {
        push_char(out, dec_digit(n));
        proof {
            assert(old(out)@.push((('0' as u32) + n as u32) as char) =~= old(out)@ + dec_str(
                n as int,
            ));
        }
    } else {
        push_dec_u64(out, n / 10);
        push_char(out, dec_digit(n % 10));
        proof {
            assert((old(out)@ + dec_str(n as int / 10)).push(
                (('0' as u32) + (n as int % 10) as u32) as char,
            ) =~= old(out)@ + dec_str(n as int));
        }
    }
}

fn hex_digit_exec(d: u16) -> (c: char)
    requires
        d < 16,
    ensures
        c == hex_digit(d as int),
{
    if d < 10 {
        (48u8 + d as u8) as char
    } else {
        (97u8 + (d - 10) as u8) as char
    }
}

/// Append the lowercase hexadecimal rendering of `n` to `out`.
pub fn push_hex_u16(out: &mut String, n: u16)
    ensures
        final(out)@ == old(out)@ + hex_str(n as int),
    decreases n,
{
    if n < 16 {
        push_char(out, hex_digit_exec(n));
        proof {
            assert(old(out)@.push(hex_digit(n as int)) =~= old(out)@ + hex_str(n as int));
        }
    } else {
        push_hex_u16(out, n / 16);
        push_char(out, hex_digit_exec(n % 16));
        proof {
            assert((old(out)@ + hex_str(n as int / 16)).push(hex_digit(n as int % 16)) =~= old(
                out,
            )@ + hex_str(n as int));
        }
    }
}

} // verus!
