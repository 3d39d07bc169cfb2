use vstd::prelude::*;

use crate::decimal::{digits, lemma_digits_are_digits, zero_padded, Dec};
use crate::format::{
    lemma_round_dp_wf, rounded_magnitude, separated_text, usd_text,
};
use crate::grouping::{
    group_thousands, lemma_group_thousands_chars, lemma_no_comma_facts,
    lemma_strip_commas_concat, strip_commas,
};

verus! {

/// Zero padding gives decimal digits only.
proof fn lemma_zero_padded_digits(n: nat, width: nat)
    ensures
        forall|i: int|
            0 <= i < zero_padded(n, width).len() ==> '0' <= #[trigger] zero_padded(n, width)[i]
                <= '9',
{
    lemma_digits_are_digits(n);
    let d = digits(n);
    if d.len() < width {
        let z = Seq::new((width - d.len()) as nat, |i: int| '0');
        assert forall|i: int| 0 <= i < zero_padded(n, width).len() implies '0'
            <= #[trigger] zero_padded(n, width)[i] <= '9' by {
            if i >= z.len() {
                assert(zero_padded(n, width)[i] == d[i - z.len()]);
            }
        }
    }
}

/// Rounding to `dp` places leaves at most `dp` fractional digits, and
/// rounding the result again to `dp` places changes nothing.
pub proof fn lemma_round_dp_idempotent(d: Dec, dp: nat)
    requires
        dp <= u32::MAX,
    ensures
        d.round_dp(dp).scale <= dp,
        d.round_dp(dp).round_dp(dp) == d.round_dp(dp),
{
}

/// The dollar text depends on a value only through its rounding to cents:
/// two values that round alike give the same text, and so does the rounded
/// value itself.
pub proof fn lemma_usd_rounds_first(a: Dec, b: Dec)
    requires
        a.round_dp(2) == b.round_dp(2),
    ensures
        usd_text(a) == usd_text(b),
        usd_text(a.round_dp(2)) == usd_text(a),
{
    lemma_round_dp_idempotent(a, 2);
}

/// The separated text never shows a sign for a value whose rounded
/// magnitude is zero (so never `-0`), and begins with `-` exactly when the
/// value is negative and its rounded magnitude is not zero.
pub proof fn lemma_separated_sign(v: Dec, dp: nat)
    requires
        v.wf(),
        dp <= u32::MAX,
    ensures
        separated_text(v, dp).len() > 0,
        separated_text(v, dp)[0] == '-' <==> (v.negative && rounded_magnitude(v, dp).magnitude
            != 0),
        rounded_magnitude(v, dp).magnitude == 0 ==> forall|i: int|
            0 <= i < separated_text(v, dp).len() ==> #[trigger] separated_text(v, dp)[i] != '-',
{
    let r = rounded_magnitude(v, dp);
    let g = group_thousands(digits(r.int_part()));
    lemma_digits_are_digits(r.int_part());
    lemma_group_thousands_chars(digits(r.int_part()));
    lemma_zero_padded_digits(r.frac_part(), r.scale as nat);
    let t = separated_text(v, dp);
    let frac = if r.scale == 0 {
        Seq::empty()
    } else {
        seq!['.'] + zero_padded(r.frac_part(), r.scale as nat)
    };
    if r.magnitude == 0 {
        assert(t =~= Seq::empty() + g + frac);
        assert forall|i: int| 0 <= i < t.len() implies #[trigger] t[i] != '-' by {
            if i < g.len() {
                assert(t[i] == g[i]);
            } else if i > g.len() {
                assert(t[i] == zero_padded(r.frac_part(), r.scale as nat)[i - g.len() - 1]);
            }
        }
    }
    if !(v.negative && r.magnitude != 0) {
        assert(t =~= Seq::empty() + g + frac);
        assert(t[0] == g[0]);
    }
}

/// Formatting is idempotent: taking the separators out of the separated
/// text gives the canonical text of the rounded value (signed as shown), and
/// formatting that rounded value again gives the same separated text.
pub proof fn lemma_separated_reparses(v: Dec, dp: nat)
    requires
        v.wf(),
        dp <= u32::MAX,
    ensures
        ({
            let m = rounded_magnitude(v, dp);
            let shown = Dec { negative: v.negative && m.magnitude != 0, ..m };
            &&& shown.wf()
            &&& strip_commas(separated_text(v, dp)) == shown.text()
            &&& separated_text(shown, dp) == separated_text(v, dp)
        }),
{
    let m = rounded_magnitude(v, dp);
    let shown = Dec { negative: v.negative && m.magnitude != 0, ..m };
    lemma_round_dp_wf(Dec { negative: false, ..v }, dp);
    lemma_round_dp_idempotent(Dec { negative: false, ..v }, dp);
    assert(Dec { negative: false, ..shown } == m);
    let d = digits(m.int_part());
    let g = group_thousands(d);
    lemma_digits_are_digits(m.int_part());
    lemma_no_comma_facts(d);
    crate::grouping::lemma_group_thousands(d);
    let sign = if v.negative && m.magnitude != 0 {
        seq!['-']
    } else {
        Seq::empty()
    };
    let frac = if m.scale == 0 {
        Seq::empty()
    } else {
        seq!['.'] + zero_padded(m.frac_part(), m.scale as nat)
    };
    lemma_zero_padded_digits(m.frac_part(), m.scale as nat);
    lemma_no_comma_facts(sign);
    lemma_no_comma_facts(frac);
    lemma_strip_commas_concat(sign + g, frac);
    lemma_strip_commas_concat(sign, g);
    assert(separated_text(v, dp) == sign + g + frac);
    assert(shown.text() =~= sign + d + frac);
}

} // verus!
