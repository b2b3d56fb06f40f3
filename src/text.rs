//! Appending characters and numbers to strings.
use vstd::prelude::*;
use crate::style::{dec, digit_char};

verus! {

/// Relies on `String::push`: appends exactly the one character given.
#[verifier::external_body]
pub(crate) fn push_char(s: &mut String, c: char)
    ensures
        final(s)@ == old(s)@.push(c),
{
    s.push(c)
}

/// The character of a decimal digit.
pub(crate) fn digit(d: u8) -> (c: char)
    requires
        d < 10,
    ensures
        c == digit_char(d as nat),
{
    (d + 48) as char
}

/// Appends the decimal digits of `n`, without leading zeros.
pub(crate) fn push_decimal(out: &mut String, n: u8)
    ensures
        final(out)@ == old(out)@ + dec(n as nat),
{
    if n >= 100 {
        push_char(out, digit(n / 100));
        push_char(out, digit((n / 10) % 10));
        push_char(out, digit(n % 10));
        assert(dec((n / 100) as nat) == seq![digit_char((n / 100) as nat)]);
        assert(dec((n / 10) as nat) == dec((n / 100) as nat).push(digit_char(((n / 10) % 10) as nat)));
    } else if n >= 10 {
        push_char(out, digit(n / 10));
        push_char(out, digit(n % 10));
        assert(dec((n / 10) as nat) == seq![digit_char((n / 10) as nat)]);
    } else {
        push_char(out, digit(n));
    }
    assert(final(out)@ =~= old(out)@ + dec(n as nat));
}

} // verus!
