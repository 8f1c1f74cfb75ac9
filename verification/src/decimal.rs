//! The calls this library makes into `rust_decimal`.
use std::str::FromStr;

use rust_decimal::Decimal;
use vstd::prelude::*;

use crate::digits::{fixed_point_text, pow10};

verus! {

/// The largest magnitude of a `rust_decimal` mantissa: its 96 bits all set.
pub const MAX_MANTISSA: i128 = 79228162514264337593543950335;

/// The largest scale (digits after the point) that `rust_decimal` represents.
pub const MAX_SCALE: u32 = 28;

/// What `rust_decimal::Decimal::from_str` reads a text as: the mantissa and
/// the scale of the decimal, or `None` where it refuses the text.
pub uninterp spec fn decimal_from_str(text: Seq<char>) -> Option<(i128, u32)>;

/// The magnitude of an integer.
pub open spec fn magnitude(m: int) -> nat {
    if m < 0 {
        (-m) as nat
    } else {
        m as nat
    }
}

/// `m / d` rounded to the nearest integer, a half away from zero (`d > 0`).
pub open spec fn round_half_away(m: int, d: int) -> int {
    let a = magnitude(m) as int;
    let q = if 2 * (a % d) >= d {
        a / d + 1
    } else {
        a / d
    };
    if m < 0 {
        -q
    } else {
        q
    }
}

/// How many times, at most `room`, the magnitude `a` can be multiplied by ten
/// and still fit in 96 bits.
pub open spec fn scale_up_steps(a: nat, room: nat) -> nat
    decreases room,
{
    if room == 0 || a * 10 > MAX_MANTISSA {
        0
    } else {
        1 + scale_up_steps(a * 10, (room - 1) as nat)
    }
}

/// The mantissa and scale of the decimal `m / 10^s` rescaled to scale `new`:
/// to a smaller scale it is rounded a half away from zero; to a larger one it
/// keeps its value, taking the largest scale up to `new` that 96 bits hold;
/// zero takes the new scale.
pub open spec fn rescaled(m: int, s: nat, new: nat) -> (int, nat) {
    if m == 0 {
        (0, new)
    } else if new <= s {
        (round_half_away(m, pow10((s - new) as nat)), new)
    } else {
        let k = scale_up_steps(magnitude(m), (new - s) as nat);
        (m * pow10(k), s + k)
    }
}

/// Parses `text` with `rust_decimal::Decimal::from_str`, giving back the
/// `Decimal::mantissa` and `Decimal::scale` of the value read.
///
/// Claimed of the outside code: the result depends on the text alone; a
/// mantissa fits in 96 bits and a scale is at most 28. Which texts `from_str`
/// accepts, and how it reads them, is left to the name.
#[verifier::external_body]
pub(crate) fn parse_decimal(text: &str) -> (r: Option<(i128, u32)>)
    ensures
        r == decimal_from_str(text@),
        r matches Some((m, s)) ==> -MAX_MANTISSA <= m <= MAX_MANTISSA && s <= MAX_SCALE,
{
    match Decimal::from_str(text) {
        Ok(value) => Some((value.mantissa(), value.scale())),
        Err(_) => None,
    }
}

/// Builds the decimal `mantissa / 10^scale` with
/// `rust_decimal::Decimal::from_i128_with_scale`, applies `Decimal::rescale`
/// with `new_scale`, and gives back the mantissa and scale of the result.
///
/// Claimed of the outside code, as `rescale`'s documentation and
/// `ops::array::rescale_internal` show: going down in scale rounds a half away
/// from zero; going up keeps the value and stops at the largest scale that 96
/// bits hold; zero takes the new scale.
#[verifier::external_body]
pub(crate) fn rescale_decimal(mantissa: i128, scale: u32, new_scale: u32) -> (r: (i128, u32))
    requires
        -MAX_MANTISSA <= mantissa <= MAX_MANTISSA,
        scale <= MAX_SCALE,
        new_scale <= MAX_SCALE,
    ensures
        (r.0 as int, r.1 as nat) == rescaled(mantissa as int, scale as nat, new_scale as nat),
{
    let mut value = Decimal::from_i128_with_scale(mantissa, scale);
    value.rescale(new_scale);
    (value.mantissa(), value.scale())
}

/// Writes the decimal `mantissa / 10^scale`, built with
/// `rust_decimal::Decimal::from_i128_with_scale`, through its `Display` impl at a
/// precision of `scale` digits (`format!("{:.*}", scale, value)`).
///
/// Claimed of the outside code, as its `to_str_internal` and `Display` show:
/// the text is an optional `-` (for a negative value), the integer part without
/// leading zeros (`0` when it is zero), a `.` and exactly `scale` fractional digits.
/// `from_i128_with_scale` panics beyond 96 bits or above the maximal scale, which
/// `requires` leaves out.
#[verifier::external_body]
pub(crate) fn format_decimal(mantissa: i128, scale: u32) -> (r: String)
    requires
        -MAX_MANTISSA <= mantissa <= MAX_MANTISSA,
        1 <= scale <= MAX_SCALE,
    ensures
        r@ == fixed_point_text(mantissa as int, scale as nat),
{
    format!("{:.*}", scale as usize, Decimal::from_i128_with_scale(mantissa, scale))
}

} // verus!
