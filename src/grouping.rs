use separator::Separatable;
use vstd::prelude::*;

use crate::decimal::digits;

verus! {

/// `s` with a `,` put before each block of three characters counted from
/// the right, never in front of the first character.
pub open spec fn group_thousands(s: Seq<char>) -> Seq<char>
    decreases s.len(),
{
    if s.len() <= 3 {
        s
    } else {
        group_thousands(s.subrange(0, s.len() - 3)) + seq![','] + s.subrange(
            s.len() - 3,
            s.len() as int,
        )
    }
}

/// `s` with every `,` taken out.
pub open spec fn strip_commas(s: Seq<char>) -> Seq<char>
    decreases s.len(),
{
    if s.len() == 0 {
        s
    } else if s.last() == ',' {
        strip_commas(s.drop_last())
    } else {
        strip_commas(s.drop_last()).push(s.last())
    }
}

/// How many times `c` occurs in `s`.
pub open spec fn count_char(s: Seq<char>, c: char) -> nat
    decreases s.len(),
{
    if s.len() == 0 {
        0
    } else {
        count_char(s.drop_last(), c) + if s.last() == c { 1nat } else { 0nat }
    }
}

pub open spec fn has_no_comma(s: Seq<char>) -> bool {
    forall|i: int| 0 <= i < s.len() ==> s[i] != ','
}

pub proof fn lemma_strip_commas_concat(a: Seq<char>, b: Seq<char>)
    ensures
        strip_commas(a + b) == strip_commas(a) + strip_commas(b),
    decreases b.len(),
{
    if b.len() == 0 {
        assert(a + b =~= a);
        assert(strip_commas(b) =~= Seq::<char>::empty());
        assert(strip_commas(a) + strip_commas(b) =~= strip_commas(a));
    } else {
        assert((a + b).drop_last() =~= a + b.drop_last());
        assert((a + b).last() == b.last());
        lemma_strip_commas_concat(a, b.drop_last());
        if b.last() == ',' {
        } else {
            assert(strip_commas(a) + strip_commas(b.drop_last()).push(b.last()) =~= (strip_commas(a)
                + strip_commas(b.drop_last())).push(b.last()));
        }
    }
}

proof fn lemma_count_char_concat(a: Seq<char>, b: Seq<char>, c: char)
    ensures
        count_char(a + b, c) == count_char(a, c) + count_char(b, c),
    decreases b.len(),
{
    if b.len() == 0 {
        assert(a + b =~= a);
    } else {
        assert((a + b).drop_last() =~= a + b.drop_last());
        assert((a + b).last() == b.last());
        lemma_count_char_concat(a, b.drop_last(), c);
    }
}

pub proof fn lemma_no_comma_facts(s: Seq<char>)
    requires
        has_no_comma(s),
    ensures
        strip_commas(s) == s,
        count_char(s, ',') == 0,
    decreases s.len(),
{
    if s.len() > 0 {
        lemma_no_comma_facts(s.drop_last());
        assert(strip_commas(s.drop_last()).push(s.last()) =~= s);
    }
}

/// Grouping the characters of a comma-free, non-empty string: the result has
/// `(n - 1) / 3` commas for `n` characters, a comma stands exactly where the
/// number of characters from it to the end is a multiple of four (so that each
/// comma has three characters before the next comma or the end), the first
/// character is no comma, and taking the commas out gives the string back.
pub proof fn lemma_group_thousands(s: Seq<char>)
    requires
        s.len() > 0,
        has_no_comma(s),
    ensures
        group_thousands(s).len() == s.len() + (s.len() - 1) / 3,
        count_char(group_thousands(s), ',') == (s.len() - 1) / 3,
        forall|j: int|
            0 <= j < group_thousands(s).len() ==> (#[trigger] group_thousands(s)[j] == ','
                <==> (group_thousands(s).len() - j) % 4 == 0),
        group_thousands(s)[0] != ',',
        strip_commas(group_thousands(s)) == s,
    decreases s.len(),
{
    let g = group_thousands(s);
    if s.len() <= 3 {
        lemma_no_comma_facts(s);
        assert forall|j: int| 0 <= j < g.len() implies (#[trigger] g[j] == ',' <==> (g.len() - j)
            % 4 == 0) by {
            assert(g[j] != ',');
        }
    } else {
        let p = s.subrange(0, s.len() - 3);
        let t = s.subrange(s.len() - 3, s.len() as int);
        let gp = group_thousands(p);
        lemma_group_thousands(p);
        assert(has_no_comma(t));
        lemma_no_comma_facts(t);
        assert(g == gp + seq![','] + t);
        lemma_count_char_concat(gp + seq![','], t, ',');
        lemma_count_char_concat(gp, seq![','], ',');
        let cm: Seq<char> = seq![','];
        assert(cm.drop_last() =~= Seq::<char>::empty());
        assert(count_char(cm.drop_last(), ',') == 0);
        assert(strip_commas(cm.drop_last()) =~= Seq::<char>::empty());
        assert(cm.last() == ',');
        assert(count_char(cm, ',') == 1);
        lemma_strip_commas_concat(gp + seq![','], t);
        lemma_strip_commas_concat(gp, seq![',']);
        assert(strip_commas(cm) =~= Seq::<char>::empty());
        assert(p + t =~= s);
        assert(strip_commas(gp) + Seq::<char>::empty() =~= strip_commas(gp));
        assert forall|j: int| 0 <= j < g.len() implies (#[trigger] g[j] == ',' <==> (g.len() - j)
            % 4 == 0) by {
            if j < gp.len() {
                assert(g[j] == gp[j]);
                assert((g.len() - j) % 4 == (gp.len() - j) % 4);
            } else if j == gp.len() {
            } else {
                assert(g[j] == t[j - gp.len() - 1]);
            }
        }
        assert(g[0] == gp[0]);
    }
}

/// Grouping a string of digits gives digits and commas only, and begins with
/// the first digit.
pub proof fn lemma_group_thousands_chars(s: Seq<char>)
    requires
        s.len() > 0,
        forall|i: int| 0 <= i < s.len() ==> '0' <= #[trigger] s[i] <= '9',
    ensures
        group_thousands(s).len() > 0,
        group_thousands(s)[0] == s[0],
        forall|i: int|
            0 <= i < group_thousands(s).len() ==> #[trigger] group_thousands(s)[i] == ',' || (
            '0' <= group_thousands(s)[i] <= '9'),
    decreases s.len(),
{
    if s.len() > 3 {
        let p = s.subrange(0, s.len() - 3);
        let t = s.subrange(s.len() - 3, s.len() as int);
        lemma_group_thousands_chars(p);
        let g = group_thousands(s);
        let gp = group_thousands(p);
        assert(g == gp + seq![','] + t);
        assert forall|i: int| 0 <= i < g.len() implies #[trigger] g[i] == ',' || ('0' <= g[i]
            <= '9') by {
            if i < gp.len() {
                assert(g[i] == gp[i]);
            } else if i > gp.len() {
                assert(g[i] == t[i - gp.len() - 1]);
            }
        }
        assert(g[0] == gp[0]);
    }
}

/// Relies on `Separatable::separated_string` of the separator crate for
/// `u128`: the decimal digits with a `,` before each block of three from the
/// right.
#[verifier::external_body]
pub(crate) fn separated_u128(n: u128) -> (r: String)
    ensures
        r@ == group_thousands(digits(n as nat)),
{
    n.separated_string()
}

} // verus!
