use rusty_money::{iso, Money};
use vstd::prelude::*;
use vstd::string::*;

use crate::decimal::{decimal_text, digits, pow10, rounded_dp, zero_padded, Dec, MAX_MAGNITUDE};
use crate::grouping::{group_thousands, separated_u128};

verus! {

/// What rusty-money makes of a text amount in US dollars: the formatted
/// money on success, the text of its error otherwise.
pub uninterp spec fn usd_money_text(amount: Seq<char>) -> Result<Seq<char>, Seq<char>>;

/// The text for an optional decimal: its canonical text, or nothing.
pub open spec fn text_or_empty(d: Option<Dec>) -> Seq<char> {
    match d {
        Some(x) => x.text(),
        None => Seq::empty(),
    }
}

/// The line shown for a dollar amount given as `amount`, from what the
/// money formatting gave for it: the formatted money, or on failure
/// `(<amount> <error>)`.
pub open spec fn usd_line(amount: Seq<char>, money: Result<Seq<char>, Seq<char>>) -> Seq<char> {
    match money {
        Ok(t) => t,
        Err(e) => seq!['('] + amount + seq![' '] + e + seq![')'],
    }
}

/// The canonical text of `v` rounded to cents, ties to even.
pub open spec fn cents_text(v: Dec) -> Seq<char> {
    v.round_dp(2).text()
}

/// The dollar text of `v`.
pub open spec fn usd_text(v: Dec) -> Seq<char> {
    usd_line(cents_text(v), usd_money_text(cents_text(v)))
}

/// The magnitude of `v` rounded to `dp` places, ties to even.
pub open spec fn rounded_magnitude(v: Dec, dp: nat) -> Dec {
    Dec { negative: false, ..v }.round_dp(dp)
}

/// The thousands-separated text of `v` at `dp` places: a `-` when `v` is
/// negative and its rounded magnitude is not zero, the grouped integral
/// digits of the rounded magnitude, and, where the rounded magnitude keeps
/// fractional digits (never when `dp` is zero), a `.` and those digits.
pub open spec fn separated_text(v: Dec, dp: nat) -> Seq<char> {
    let r = rounded_magnitude(v, dp);
    let sign = if v.negative && r.magnitude != 0 { seq!['-'] } else { Seq::empty() };
    let frac = if r.scale == 0 {
        Seq::empty()
    } else {
        seq!['.'] + zero_padded(r.frac_part(), r.scale as nat)
    };
    sign + group_thousands(digits(r.int_part())) + frac
}

pub proof fn lemma_pow10_positive(n: nat)
    ensures
        pow10(n) >= 1,
    decreases n,
{
    if n > 0 {
        lemma_pow10_positive((n - 1) as nat);
    }
}

proof fn lemma_pow10_monotonic(a: nat, b: nat)
    requires
        a <= b,
    ensures
        pow10(a) <= pow10(b),
    decreases b,
{
    if a < b {
        lemma_pow10_monotonic(a, (b - 1) as nat);
        lemma_pow10_positive((b - 1) as nat);
    }
}

/// Rounding keeps a decimal within range.
pub proof fn lemma_round_dp_wf(d: Dec, dp: nat)
    requires
        d.wf(),
    ensures
        d.round_dp(dp).wf(),
{
    if d.scale > dp {
        let k = (d.scale - dp) as nat;
        let unit = pow10(k);
        lemma_pow10_monotonic(1, k);
        assert(pow10(1) == 10) by {
            reveal_with_fuel(pow10, 2);
        }
        let q = d.magnitude as nat / unit;
        assert(q <= d.magnitude as nat / 10) by {
            vstd::arithmetic::div_mod::lemma_div_is_ordered_by_denominator(
                d.magnitude as int,
                10,
                unit as int,
            );
        }
        assert(d.magnitude as nat / 10 + 1 <= MAX_MAGNITUDE);
    }
}

proof fn lemma_pow10_28()
    ensures
        pow10(28) == 10000000000000000000000000000,
{
    reveal_with_fuel(pow10, 29);
}

/// `10^n` as a machine integer.
fn pow10_u128(n: u32) -> (r: u128)
    requires
        n <= 28,
    ensures
        r == pow10(n as nat),
{
    let mut r: u128 = 1;
    let mut i: u32 = 0;
    while i < n
        invariant
            i <= n <= 28,
            r == pow10(i as nat),
        decreases n - i,
    {
        proof {
            lemma_pow10_monotonic((i + 1) as nat, 28);
            lemma_pow10_28();
        }
        r = r * 10;
        i = i + 1;
    }
    r
}

/// The canonical text of `d`, or the empty string when there is none.
pub fn dec_to_string_or_empty(d: Option<Dec>) -> (r: String)
    requires
        d matches Some(x) ==> x.wf(),
    ensures
        r@ == text_or_empty(d),
{
    match d {
        Some(q) => decimal_text(q),
        None => String::new(),
    }
}

/// A text result seen as character sequences.
pub open spec fn result_view(r: Result<String, String>) -> Result<Seq<char>, Seq<char>> {
    match r {
        Ok(t) => Ok(t@),
        Err(e) => Err(e@),
    }
}

/// Relies on rusty-money's `Money::from_str` with the `iso::USD` currency,
/// the `Display` of the `Money` it parses, and the `Display` of its
/// `MoneyError`; the outcome depends on the amount's text alone.
#[verifier::external_body]
fn usd_money(amount: &str) -> (r: Result<String, String>)
    ensures
        usd_money_text(amount@) == result_view(r),
{
    match Money::from_str(amount, iso::USD) {
        Ok(m) => Ok(m.to_string()),
        Err(e) => Err(e.to_string()),
    }
}

/// The dollar line for the amount text `amount`, given what the money
/// formatting made of it: the formatted money, or `(<amount> <error>)`.
pub fn usd_string_from_money(amount: &str, money: Result<String, String>) -> (r: String)
    ensures
        r@ == usd_line(amount@, result_view(money)),
{
    match money {
        Ok(t) => t,
        Err(e) => {
            let mut out = String::new();
            out.append("(");
            out.append(amount);
            out.append(" ");
            out.append(e.as_str());
            out.append(")");
            proof {
                reveal_strlit("(");
                reveal_strlit(" ");
                reveal_strlit(")");
                assert(out@ =~= usd_line(amount@, result_view(money)));
            }
            out
        },
    }
}

/// `v` in US dollars: rounded to cents with ties to even, then formatted by
/// the money library; a failure there is shown as `(<rounded> <error>)`.
pub fn dec_to_usd_string(v: Dec) -> (r: String)
    requires
        v.wf(),
    ensures
        r@ == usd_text(v),
{
    let rounded = rounded_dp(v, 2);
    proof {
        lemma_round_dp_wf(v, 2);
    }
    let amount = decimal_text(rounded);
    let money = usd_money(amount.as_str());
    usd_string_from_money(amount.as_str(), money)
}

/// `v` rounded to `dp` places, ties to even, with a `,` between groups of
/// three integral digits; a rounded value of zero magnitude has no sign.
pub fn dec_to_separated_string(v: Dec, dp: u32) -> (r: String)
    requires
        v.wf(),
    ensures
        r@ == separated_text(v, dp as nat),
{
    let negative = v.negative;
    let magnitude = Dec { negative: false, magnitude: v.magnitude, scale: v.scale };
    let rounded = rounded_dp(magnitude, dp);
    proof {
        lemma_round_dp_wf(magnitude, dp as nat);
        lemma_pow10_positive(rounded.scale as nat);
    }
    let unit = pow10_u128(rounded.scale);
    let integral = rounded.magnitude / unit;
    let fraction = rounded.magnitude % unit;
    let grouped = separated_u128(integral);
    let mut out = String::new();
    if negative && rounded.magnitude != 0 {
        out.append("-");
    }
    out.append(grouped.as_str());
    proof {
        reveal_strlit("-");
        let sign = if negative && rounded.magnitude != 0 {
            seq!['-']
        } else {
            Seq::empty()
        };
        assert(out@ =~= sign + group_thousands(digits(rounded.int_part())));
    }
    if dp != 0 {
        let fraction_dec = Dec { negative: false, magnitude: fraction, scale: rounded.scale };
        proof {
            assert(fraction < unit);
            assert(fraction as nat / pow10(rounded.scale as nat) == 0) by (nonlinear_arith)
                requires
                    fraction < unit,
                    unit == pow10(rounded.scale as nat),
            ;
            assert(fraction as nat % pow10(rounded.scale as nat) == fraction) by (nonlinear_arith)
                requires
                    fraction < unit,
                    unit == pow10(rounded.scale as nat),
            ;
            vstd::arithmetic::div_mod::lemma_mod_decreases(rounded.magnitude as nat, unit as nat);
            assert(fraction <= rounded.magnitude);
            assert(digits(0) == seq!['0']);
        }
        let fraction_text = decimal_text(fraction_dec);
        let n = fraction_text.as_str().unicode_len();
        let tail = fraction_text.as_str().substring_char(1, n);
        proof {
            let frac = if rounded.scale == 0 {
                Seq::empty()
            } else {
                seq!['.'] + zero_padded(rounded.frac_part(), rounded.scale as nat)
            };
            assert(fraction_text@ =~= seq!['0'] + frac);
            assert(tail@ =~= frac);
        }
        out.append(tail);
    } else {
        assert(rounded.scale == 0);
    }
    proof {
        let frac = if rounded.scale == 0 {
            Seq::empty()
        } else {
            seq!['.'] + zero_padded(rounded.frac_part(), rounded.scale as nat)
        };
        let sign = if negative && rounded.magnitude != 0 {
            seq!['-']
        } else {
            Seq::empty()
        };
        assert(out@ =~= sign + group_thousands(digits(rounded.int_part())) + frac);
    }
    out
}

} // verus!
