//! Numbers as text: decimal numbers, and hexadecimal numbers without
//! leading zeros.

use crate::hex::{digit_text, hex_digit_char};
use vstd::prelude::*;

verus! {

/// The decimal digits of `n`, without leading zeros; `0` for zero.
pub open spec fn decimal_text(n: nat) -> Seq<char>
    decreases n,
{
    if n < 10 {
        seq![hex_digit_char(n)]
    } else {
        decimal_text(n / 10).push(hex_digit_char(n % 10))
    }
}

/// The lower-case hexadecimal digits of `n`, without leading zeros; `0` for
/// zero.
pub open spec fn short_hex_text(n: nat) -> Seq<char>
    decreases n,
{
    if n < 16 {
        seq![hex_digit_char(n)]
    } else {
        short_hex_text(n / 16).push(hex_digit_char(n % 16))
    }
}

/// Appends the decimal digits of `n` to `out`.
pub fn push_decimal(out: &mut String, n: u64)
    ensures
        final(out)@ == old(out)@ + decimal_text(n as nat),
    decreases n,
{
    if n >= 10 {
        push_decimal(out, n / 10);
    }
    out.append(digit_text((n % 10) as u8));
}

/// Appends the hexadecimal digits of `n` to `out`, in lower case and without
/// leading zeros.
pub fn push_short_hex(out: &mut String, n: u16)
    ensures
        final(out)@ == old(out)@ + short_hex_text(n as nat),
    decreases n,
{
    if n >= 16 {
        push_short_hex(out, n / 16);
    }
    out.append(digit_text((n % 16) as u8));
}

} // verus!
