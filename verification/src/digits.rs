//! Decimal rendering of small unsigned numbers.

use vstd::prelude::*;

use crate::text::push_char;

verus! {

/// The character for one decimal digit value.
pub open spec fn digit_char(d: int) -> char {
    if d == 0 {
        '0'
    } else if d == 1 {
        '1'
    } else if d == 2 {
        '2'
    } else if d == 3 {
        '3'
    } else if d == 4 {
        '4'
    } else if d == 5 {
        '5'
    } else if d == 6 {
        '6'
    } else if d == 7 {
        '7'
    } else if d == 8 {
        '8'
    } else {
        '9'
    }
}

/// Decimal digits of a positive number, most significant first; empty for 0.
pub open spec fn dec_digits(n: int) -> Seq<char>
    decreases n,
{
    if n <= 0 {
        Seq::empty()
    } else {
        dec_digits(n / 10).push(digit_char(n % 10))
    }
}

/// Decimal notation of a non-negative number, without leading zeros.
pub open spec fn dec_of(n: int) -> Seq<char> {
    if n == 0 {
        seq!['0']
    } else {
        dec_digits(n)
    }
}

/// Appends the character for one digit value.
pub fn push_digit(s: &mut String, d: u8)
    requires
        d < 10,
    ensures
        final(s)@ == old(s)@.push(digit_char(d as int)),
{
    let c: char = if d == 0 {
        '0'
    } else if d == 1 {
        '1'
    } else if d == 2 {
        '2'
    } else if d == 3 {
        '3'
    } else if d == 4 {
        '4'
    } else if d == 5 {
        '5'
    } else if d == 6 {
        '6'
    } else if d == 7 {
        '7'
    } else if d == 8 {
        '8'
    } else {
        '9'
    };
    push_char(s, c);
}

/// Appends the digits of a positive number, most significant first.
pub fn push_dec_digits(s: &mut String, n: u16)
    ensures
        final(s)@ == old(s)@ + dec_digits(n as int),
    decreases n,
{
    if n == 0 {
        assert(old(s)@ + dec_digits(0) =~= old(s)@);
    } else {
        push_dec_digits(s, n / 10);
        push_digit(s, (n % 10) as u8);
        assert(old(s)@ + dec_digits(n as int) =~= (old(s)@ + dec_digits(n as int / 10)).push(
            digit_char(n as int % 10),
        ));
    }
}

/// Appends the decimal notation of a number.
pub fn push_dec(s: &mut String, n: u16)
    ensures
        final(s)@ == old(s)@ + dec_of(n as int),
{
    if n == 0 {
        push_digit(s, 0);
        assert(old(s)@ + dec_of(0) =~= old(s)@.push(digit_char(0)));
    } else {
        push_dec_digits(s, n);
    }
}

} // verus!
