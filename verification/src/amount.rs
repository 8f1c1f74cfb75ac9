//! Money as a fixed-point number of ten-thousandths.
use vstd::prelude::*;

use crate::decimal::{
    decimal_from_str, format_decimal, magnitude, parse_decimal, rescale_decimal, rescaled,
    round_half_away, scale_up_steps, MAX_MANTISSA,
};
use crate::digits::{fixed_point_text, pow10};

verus! {

/// The number of digits kept after the decimal point.
pub const SCALE: u32 = 4;

/// The largest balance, in ten-thousandths, that a 96-bit decimal mantissa holds
/// at four decimal places; balances stay within it.
pub const MAX_BALANCE: i128 = 79228162514264337593543950335;

/// An amount of money, counted in ten-thousandths of a unit.
#[derive(Clone, Copy, Debug, PartialEq, Eq, Hash, Structural)]
pub struct Amount {
    pub units: i128,
}

impl View for Amount {
    type V = int;

    open spec fn view(&self) -> int {
        self.units as int
    }
}

/// The ten-thousandths that a `rust_decimal` value `mantissa / 10^scale`
/// (with `scale <= 4`) amounts to.
pub open spec fn units_of(mantissa: int, scale: nat) -> int {
    mantissa * pow10((SCALE - scale) as nat)
}

/// The ten-thousandths that the decimal `m / 10^s` comes to once rounded to
/// four places, a half away from zero.
pub open spec fn round_to_units(m: int, s: nat) -> int {
    if s <= SCALE {
        m * pow10((SCALE - s) as nat)
    } else {
        round_half_away(m, pow10((s - SCALE) as nat))
    }
}

/// What `Amount::parse` makes of a text: the decimal that `rust_decimal`
/// reads, rounded to four places.
pub open spec fn parsed_amount(text: Seq<char>) -> Option<int> {
    match decimal_from_str(text) {
        Some((m, s)) => Some(round_to_units(m as int, s as nat)),
        None => None,
    }
}

proof fn lemma_pow10_positive(e: nat)
    ensures
        pow10(e) >= 1,
    decreases e,
{
    if e > 0 {
        lemma_pow10_positive((e - 1) as nat);
    }
}

proof fn lemma_pow10_add(a: nat, b: nat)
    ensures
        pow10(a + b) == pow10(a) * pow10(b),
    decreases a,
{
    if a > 0 {
        lemma_pow10_add((a - 1) as nat, b);
        assert(pow10(a + b) == 10 * pow10((a - 1 + b) as nat));
        assert(10 * (pow10((a - 1) as nat) * pow10(b)) == (10 * pow10((a - 1) as nat)) * pow10(b))
            by (nonlinear_arith);
    }
}

proof fn lemma_scale_up_steps(a: nat, room: nat)
    requires
        a <= MAX_MANTISSA,
    ensures
        scale_up_steps(a, room) <= room,
        a * pow10(scale_up_steps(a, room)) <= MAX_MANTISSA,
    decreases room,
{
    if !(room == 0 || a * 10 > MAX_MANTISSA) {
        let k = scale_up_steps(a * 10, (room - 1) as nat);
        lemma_scale_up_steps(a * 10, (room - 1) as nat);
        assert(pow10(k + 1) == 10 * pow10(k));
        assert(a * pow10(k + 1) == (a * 10) * pow10(k)) by (nonlinear_arith)
            requires
                pow10(k + 1) == 10 * pow10(k),
        ;
    }
}

proof fn lemma_round_half_away_bound(m: int, d: int)
    requires
        d >= 1,
    ensures
        magnitude(round_half_away(m, d)) <= magnitude(m),
{
    let a = magnitude(m) as int;
    if 2 * (a % d) >= d {
        assert(a / d + 1 <= a) by (nonlinear_arith)
            requires
                d >= 1,
                a >= 0,
                2 * (a % d) >= d,
        {
            assert(a == d * (a / d) + a % d);
            assert(0 <= a % d < d);
            assert(d >= 2);
            assert(a / d >= 0);
        }
    } else {
        assert(a / d <= a) by (nonlinear_arith)
            requires
                d >= 1,
                a >= 0,
        ;
    }
}

/// Rescaling a parsed decimal to four places gives a mantissa that still fits
/// in 96 bits, a scale of at most four, and the rounded value in ten-thousandths.
proof fn lemma_rescale_to_units(m: int, s: nat)
    requires
        -MAX_MANTISSA <= m <= MAX_MANTISSA,
    ensures
        -MAX_MANTISSA <= rescaled(m, s, SCALE as nat).0 <= MAX_MANTISSA,
        rescaled(m, s, SCALE as nat).1 <= SCALE,
        units_of(rescaled(m, s, SCALE as nat).0, rescaled(m, s, SCALE as nat).1) == round_to_units(
            m,
            s,
        ),
{
    let (m2, s2) = rescaled(m, s, SCALE as nat);
    if m == 0 {
        assert(pow10(0) == 1);
        if s <= SCALE {
            lemma_pow10_positive((SCALE - s) as nat);
            assert(0 * pow10((SCALE - s) as nat) == 0);
        } else {
            lemma_pow10_positive((s - SCALE) as nat);
        }
    } else if SCALE <= s {
        lemma_pow10_positive((s - SCALE) as nat);
        lemma_round_half_away_bound(m, pow10((s - SCALE) as nat));
        assert(pow10(0) == 1);
        if s == SCALE {
            assert(round_half_away(m, 1) == m);
        }
    } else {
        let k = scale_up_steps(magnitude(m), (SCALE - s) as nat);
        lemma_scale_up_steps(magnitude(m), (SCALE - s) as nat);
        lemma_pow10_positive(k);
        lemma_pow10_add(k, (SCALE - s - k) as nat);
        assert(magnitude(m) * pow10(k) <= MAX_MANTISSA);
        assert(-MAX_MANTISSA <= m * pow10(k) <= MAX_MANTISSA) by (nonlinear_arith)
            requires
                magnitude(m) * pow10(k) <= MAX_MANTISSA,
                magnitude(m) == (if m < 0 {
                    -m
                } else {
                    m
                }),
                pow10(k) >= 1,
        ;
        assert((m * pow10(k)) * pow10((SCALE - s - k) as nat) == m * (pow10(k) * pow10(
            (SCALE - s - k) as nat,
        ))) by (nonlinear_arith);
    }
}

/// What `rust_decimal` reads fits its 96-bit mantissa, as the call's own
/// contract promises of every result.
pub open spec fn decimal_read_in_range(text: Seq<char>) -> bool {
    decimal_from_str(text) matches Some((m, _)) ==> -MAX_MANTISSA <= m <= MAX_MANTISSA
}

/// A parsed amount fits in an `i128` of ten-thousandths.
pub proof fn lemma_parsed_amount_fits(text: Seq<char>)
    requires
        decimal_read_in_range(text),
    ensures
        parsed_amount(text) matches Some(v) ==> i128::MIN <= v <= i128::MAX,
{
    if let Some((m, s)) = decimal_from_str(text) {
        lemma_rescale_to_units(m as int, s as nat);
        let (m2, s2) = rescaled(m as int, s as nat, SCALE as nat);
        assert(pow10((SCALE - s2) as nat) <= 10000) by {
            reveal_with_fuel(pow10, 5);
        }
        lemma_pow10_positive((SCALE - s2) as nat);
        assert(-MAX_MANTISSA * 10000 <= m2 * pow10((SCALE - s2) as nat) <= MAX_MANTISSA * 10000)
            by (nonlinear_arith)
            requires
                -MAX_MANTISSA <= m2 <= MAX_MANTISSA,
                1 <= pow10((SCALE - s2) as nat) <= 10000,
        ;
    }
}

/// Law: a text that `rust_decimal` reads with at most four decimal places is
/// read by `Amount::parse` at its exact value: the mantissa `m` at scale `s`
/// comes to `m * 10^(4 - s)` ten-thousandths, sign included.
pub proof fn lemma_parse_keeps_short_decimals(text: Seq<char>, m: i128, s: u32)
    requires
        decimal_from_str(text) == Some((m, s)),
        s <= SCALE,
    ensures
        parsed_amount(text) == Some(m * pow10((SCALE - s) as nat)),
{
}

/// Law: a text that `rust_decimal` reads with more than four decimal places
/// is read by `Amount::parse` as the nearest number of ten-thousandths, a half
/// going away from zero: with `d = 10^(s - 4)`, the result `u` leaves
/// `m - u * d` within half of `d`, and exactly half of `d` only towards zero.
pub proof fn lemma_parse_rounds_to_nearest(text: Seq<char>, m: i128, s: u32)
    requires
        decimal_from_str(text) == Some((m, s)),
        s > SCALE,
    ensures
        parsed_amount(text) is Some,
        ({
            let u = parsed_amount(text)->Some_0;
            let d = pow10((s - SCALE) as nat);
            &&& -d <= 2 * (m - u * d) <= d
            &&& 2 * (m - u * d) == d ==> m < 0
            &&& 2 * (m - u * d) == -d ==> m > 0
        }),
{
    let d = pow10((s - SCALE) as nat);
    lemma_pow10_positive((s - SCALE) as nat);
    let a = magnitude(m as int) as int;
    let q = a / d;
    let r = a % d;
    assert(a == q * d + r && 0 <= r < d) by (nonlinear_arith)
        requires
            d >= 1,
            a >= 0,
            q == a / d,
            r == a % d,
    ;
    let big_q = if 2 * r >= d {
        q + 1
    } else {
        q
    };
    assert(round_half_away(m as int, d) == if m < 0 {
        -big_q
    } else {
        big_q
    });
    assert((m as int) - round_half_away(m as int, d) * d == if m < 0 {
        -(a - big_q * d)
    } else {
        a - big_q * d
    }) by (nonlinear_arith)
        requires
            round_half_away(m as int, d) == (if m < 0 {
                -big_q
            } else {
                big_q
            }),
            a == (if m < 0 {
                -(m as int)
            } else {
                m as int
            }),
    ;
    assert(a - big_q * d == if 2 * r >= d {
        r - d
    } else {
        r
    }) by (nonlinear_arith)
        requires
            a == q * d + r,
            big_q == (if 2 * r >= d {
                q + 1
            } else {
                q
            }),
    ;
}

impl Amount {
    /// Zero.
    pub fn zero() -> (r: Amount)
        ensures
            r@ == 0,
    {
        Amount { units: 0 }
    }

    /// The amount of `units` ten-thousandths.
    pub fn from_units(units: i128) -> (r: Amount)
        ensures
            r@ == units,
    {
        Amount { units }
    }

    /// The amount that the decimal `mantissa / 10^scale` stands for, where
    /// `scale` is at most four and the mantissa fits in 96 bits (as a parsed and
    /// rescaled decimal is).
    pub fn from_decimal_parts(mantissa: i128, scale: u32) -> (r: Amount)
        requires
            -MAX_MANTISSA <= mantissa <= MAX_MANTISSA,
            scale <= SCALE,
        ensures
            r@ == units_of(mantissa as int, scale as nat),
    {
        let factor: i128 = if scale == 0 {
            10000
        } else if scale == 1 {
            1000
        } else if scale == 2 {
            100
        } else if scale == 3 {
            10
        } else {
            1
        };
        assert(factor == pow10((SCALE - scale) as nat)) by {
            reveal_with_fuel(pow10, 5);
        }
        assert(-MAX_MANTISSA * 10000 <= mantissa * factor <= MAX_MANTISSA * 10000)
            by (nonlinear_arith)
            requires
                -MAX_MANTISSA <= mantissa <= MAX_MANTISSA,
                1 <= factor <= 10000,
        ;
        let units = mantissa * factor;
        Amount { units }
    }

    /// Reads an amount from text with `rust_decimal`, rounded to four decimal
    /// places; `None` where `rust_decimal` does not read the text as a decimal.
    pub fn parse(text: &str) -> (r: Option<Amount>)
        ensures
            r matches Some(a) ==> parsed_amount(text@) == Some(a@),
            r is None <==> parsed_amount(text@) is None,
    {
        match parse_decimal(text) {
            Some((mantissa, scale)) => {
                let (m, s) = rescale_decimal(mantissa, scale, SCALE);
                proof {
                    lemma_rescale_to_units(mantissa as int, scale as nat);
                }
                Some(Amount::from_decimal_parts(m, s))
            },
            None => None,
        }
    }

    /// The text of the amount with exactly four decimal places, as
    /// `rust_decimal` writes it.
    pub fn to_text(&self) -> (r: String)
        requires
            -MAX_BALANCE <= self@ <= MAX_BALANCE,
        ensures
            r@ == fixed_point_text(self@, SCALE as nat),
    {
        format_decimal(self.units, SCALE)
    }
}

} // verus!
