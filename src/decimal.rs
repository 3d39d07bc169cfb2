use rust_decimal::Decimal;
use vstd::prelude::*;

verus! {

/// The largest magnitude a decimal can hold: 2^96 - 1.
pub const MAX_MAGNITUDE: u128 = 0xffff_ffff_ffff_ffff_ffff_ffffu128;

/// The largest number of fractional digits a decimal can hold.
pub const MAX_SCALE: u32 = 28;

/// A signed fixed-point decimal: `(-1)^negative * magnitude / 10^scale`.
///
/// The sign is a flag of its own, so a negative zero can be written down,
/// as it can for `rust_decimal::Decimal`.
#[derive(Clone, Copy, Debug, PartialEq, Eq)]
pub struct Dec {
    pub negative: bool,
    pub magnitude: u128,
    pub scale: u32,
}

pub open spec fn pow10(n: nat) -> nat
    decreases n,
{
    if n == 0 {
        1
    } else {
        10 * pow10((n - 1) as nat)
    }
}

/// The character of a decimal digit `d < 10`.
pub open spec fn digit_char(d: nat) -> char {
    (('0' as u8) + d) as char
}

/// The decimal digits of `n`, most significant first; `0` is written `"0"`.
pub open spec fn digits(n: nat) -> Seq<char>
    decreases n,
{
    if n < 10 {
        seq![digit_char(n)]
    } else {
        digits(n / 10).push(digit_char(n % 10))
    }
}

/// Every character of `digits(n)` is a decimal digit, and there is at least one.
pub proof fn lemma_digits_are_digits(n: nat)
    ensures
        digits(n).len() >= 1,
        forall|i: int| 0 <= i < digits(n).len() ==> '0' <= #[trigger] digits(n)[i] <= '9',
    decreases n,
{
    if n >= 10 {
        lemma_digits_are_digits(n / 10);
    }
}

/// The digits of `n`, with zeros in front up to `width` characters.
pub open spec fn zero_padded(n: nat, width: nat) -> Seq<char> {
    let d = digits(n);
    if d.len() < width {
        Seq::new((width - d.len()) as nat, |i: int| '0') + d
    } else {
        d
    }
}

impl Dec {
    /// A decimal within the range of `rust_decimal::Decimal`.
    pub open spec fn wf(self) -> bool {
        self.magnitude <= MAX_MAGNITUDE && self.scale <= MAX_SCALE
    }

    /// The integral part of the magnitude.
    pub open spec fn int_part(self) -> nat {
        self.magnitude as nat / pow10(self.scale as nat)
    }

    /// The fractional part of the magnitude, in units of `10^-scale`.
    pub open spec fn frac_part(self) -> nat {
        self.magnitude as nat % pow10(self.scale as nat)
    }

    /// The canonical text: an optional `-`, the integral digits, and when the
    /// scale is positive a `.` followed by exactly `scale` fractional digits.
    pub open spec fn text(self) -> Seq<char> {
        let sign = if self.negative { seq!['-'] } else { Seq::empty() };
        let frac = if self.scale == 0 {
            Seq::empty()
        } else {
            seq!['.'] + zero_padded(self.frac_part(), self.scale as nat)
        };
        sign + digits(self.int_part()) + frac
    }

    /// The result of rounding to `dp` fractional digits, ties to even.
    ///
    /// A decimal with no more than `dp` fractional digits is kept as it is.
    /// Otherwise the scale becomes `dp`, and a result of zero magnitude is
    /// positive unless the input itself was a zero.
    pub open spec fn round_dp(self, dp: nat) -> Dec {
        if self.scale <= dp {
            self
        } else {
            let unit = pow10((self.scale - dp) as nat);
            let q = self.magnitude as nat / unit;
            let rem = self.magnitude as nat % unit;
            let half = unit / 2;
            let up = rem > half || (rem == half && q % 2 == 1);
            let m = if up { q + 1 } else { q };
            Dec {
                negative: self.negative && (self.magnitude == 0 || m != 0),
                magnitude: m as u128,
                scale: dp as u32,
            }
        }
    }

    /// Builds a decimal from its sign, magnitude and scale; `None` when the
    /// magnitude exceeds 2^96 - 1 or the scale exceeds 28.
    pub fn from_parts(negative: bool, magnitude: u128, scale: u32) -> (r: Option<Dec>)
        ensures
            r is Some <==> magnitude <= MAX_MAGNITUDE && scale <= MAX_SCALE,
            r matches Some(d) ==> d == (Dec { negative, magnitude, scale }),
    {
        if magnitude <= MAX_MAGNITUDE && scale <= MAX_SCALE {
            Some(Dec { negative, magnitude, scale })
        } else {
            None
        }
    }
}

/// Relies on `Decimal::round_dp` of rust_decimal: midpoint-nearest-even
/// rounding to `dp` places that keeps a decimal with a scale of at most `dp`,
/// and on `Decimal::from_i128_with_scale`, `set_sign_negative`,
/// `is_sign_negative`, `mantissa` and `scale` to carry the value across.
#[verifier::external_body]
pub(crate) fn rounded_dp(d: Dec, dp: u32) -> (r: Dec)
    requires
        d.wf(),
    ensures
        r == d.round_dp(dp as nat),
{
    let mut x = Decimal::from_i128_with_scale(d.magnitude as i128, d.scale);
    x.set_sign_negative(d.negative);
    let y = x.round_dp(dp);
    Dec { negative: y.is_sign_negative(), magnitude: y.mantissa().unsigned_abs(), scale: y.scale() }
}

/// Relies on the `Display` impl of rust_decimal's `Decimal` (through
/// `to_string`): sign, integral digits, and `scale` fractional digits.
#[verifier::external_body]
pub(crate) fn decimal_text(d: Dec) -> (r: String)
    requires
        d.wf(),
    ensures
        r@ == d.text(),
{
    let mut x = Decimal::from_i128_with_scale(d.magnitude as i128, d.scale);
    x.set_sign_negative(d.negative);
    x.to_string()
}

} // verus!
