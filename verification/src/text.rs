//! Decimal rendering of integers, as `format!` prints them.

use vstd::prelude::*;

verus! {

/// The ASCII character of a decimal digit.
pub open spec fn digit_char(d: nat) -> char {
    (48 + d) as char
}

/// The decimal digits of `n`, most significant first, without leading zeros.
pub open spec fn dec(n: nat) -> Seq<char>
    decreases n,
{
    if n < 10 {
        seq![digit_char(n)]
    } else {
        dec(n / 10).push(digit_char(n % 10))
    }
}

/// `n` as `{:02}` prints it: at least two digits, padded with a leading zero.
pub open spec fn pad2(n: nat) -> Seq<char> {
    if n < 10 {
        seq!['0'] + dec(n)
    } else {
        dec(n)
    }
}

/// `n` as `{:<2}` prints it: at least two characters, padded with a trailing space.
pub open spec fn left2(n: nat) -> Seq<char> {
    if n < 10 {
        dec(n) + seq![' ']
    } else {
        dec(n)
    }
}

/// A signed integer as `{}` prints it.
pub open spec fn int_text(i: int) -> Seq<char> {
    if i < 0 {
        seq!['-'] + dec((-i) as nat)
    } else {
        dec(i as nat)
    }
}

/// Appends `c` to `s`; `String::push` from std.
#[verifier::external_body]
pub fn push_char(s: &mut String, c: char)
    ensures
        final(s)@ == old(s)@.push(c),
{
    s.push(c);
}

/// The character of a decimal digit.
pub fn digit(d: u64) -> (c: char)
    requires
        d < 10,
    ensures
        c == digit_char(d as nat),
{
    let b: u8 = 48u8 + (d as u8);
    b as char
}

/// Appends the decimal digits of `n` to `s`.
pub fn push_dec(s: &mut String, n: u64)
    ensures
        final(s)@ == old(s)@ + dec(n as nat),
    decreases n,
{
    if n >= 10 {
        push_dec(s, n / 10);
    }
    push_char(s, digit(n % 10));
    assert(s@ =~= old(s)@ + dec(n as nat));
}

/// Appends `n` padded to two digits, as `{:02}` prints it.
pub fn push_pad2(s: &mut String, n: u64)
    ensures
        final(s)@ == old(s)@ + pad2(n as nat),
{
    if n < 10 {
        push_char(s, '0');
    }
    push_dec(s, n);
    assert(s@ =~= old(s)@ + pad2(n as nat));
}

/// Appends `n` padded on the right to two characters, as `{:<2}` prints it.
pub fn push_left2(s: &mut String, n: u64)
    ensures
        final(s)@ == old(s)@ + left2(n as nat),
{
    push_dec(s, n);
    if n < 10 {
        push_char(s, ' ');
    }
    assert(s@ =~= old(s)@ + left2(n as nat));
}

/// Appends a signed integer as `{}` prints it.
pub fn push_int(s: &mut String, i: i64)
    ensures
        final(s)@ == old(s)@ + int_text(i as int),
{
    if i < 0 {
        push_char(s, '-');
        let m: u64 = (-(i as i128)) as u64;
        push_dec(s, m);
    } else {
        push_dec(s, i as u64);
    }
    assert(s@ =~= old(s)@ + int_text(i as int));
}

/// A signed integer as `to_string` renders it.
pub fn int_to_string(i: i64) -> (r: String)
    ensures
        r@ == int_text(i as int),
{
    let mut r = String::new();
    push_int(&mut r, i);
    assert(r@ =~= int_text(i as int));
    r
}

} // verus!
