//! Mathematical descriptions of decimal digit strings.
use vstd::prelude::*;

verus! {

/// The character of a decimal digit `d` (`0 <= d < 10`).
pub open spec fn digit_char(d: int) -> char {
    (48 + d) as char
}

/// Whether `c` is one of the ASCII digits `0`..`9`.
pub open spec fn is_digit(c: char) -> bool {
    '0' <= c && c <= '9'
}

/// The value of a character that is a decimal digit.
pub open spec fn digit_value(c: char) -> int {
    c as int - 48
}

/// The value of a sequence of decimal digits, most significant first.
pub open spec fn digits_value(s: Seq<char>) -> int
    decreases s.len(),
{
    if s.len() == 0 {
        0
    } else {
        digits_value(s.drop_last()) * 10 + digit_value(s.last())
    }
}

/// Every character of `s` is a decimal digit.
pub open spec fn all_digits(s: Seq<char>) -> bool {
    forall|i: int| 0 <= i < s.len() ==> is_digit(#[trigger] s[i])
}

/// The value of the text of an unsigned integer as the standard library reads it:
/// an optional `+` sign followed by one or more decimal digits, and nothing else.
pub open spec fn unsigned_text_value(s: Seq<char>) -> Option<int> {
    let body = if s.len() > 0 && s[0] == '+' {
        s.drop_first()
    } else {
        s
    };
    if body.len() > 0 && all_digits(body) {
        Some(digits_value(body))
    } else {
        None
    }
}

/// `10` to the power `e`.
pub open spec fn pow10(e: nat) -> int
    decreases e,
{
    if e == 0 {
        1
    } else {
        10 * pow10((e - 1) as nat)
    }
}

/// The shortest decimal representation of `n` (`"0"` for zero).
pub open spec fn decimal_text(n: nat) -> Seq<char>
    decreases n,
{
    if n < 10 {
        seq![digit_char(n as int)]
    } else {
        decimal_text(n / 10).push(digit_char((n % 10) as int))
    }
}

/// The last `width` decimal digits of `n`, padded with leading zeros.
pub open spec fn padded_digits(n: nat, width: nat) -> Seq<char>
    decreases width,
{
    if width == 0 {
        Seq::empty()
    } else {
        padded_digits(n / 10, (width - 1) as nat).push(digit_char((n % 10) as int))
    }
}

/// The text of the fixed-point number `m / 10^scale` with exactly `scale`
/// digits after the point: an optional `-`, the integer part, `.` and the
/// fractional digits.
pub open spec fn fixed_point_text(m: int, scale: nat) -> Seq<char> {
    let a: nat = if m < 0 {
        (-m) as nat
    } else {
        m as nat
    };
    let p = pow10(scale);
    let body = decimal_text(a / p as nat) + seq!['.'] + padded_digits(a % p as nat, scale);
    if m < 0 {
        seq!['-'] + body
    } else {
        body
    }
}

} // verus!
