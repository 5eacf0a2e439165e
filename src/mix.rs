use vstd::prelude::*;
use crate::ingredients::CalculatedIngredient;
use crate::percent::{BakersPercent, ONE};

verus! {

/// `fraction` of `amount`, rounded down: a fraction in millionths applied to a weight.
pub open spec fn share(fraction: int, amount: int) -> int {
    fraction * amount / ONE as int
}

/// Whether some entry of the mix is named `n`.
pub open spec fn has_name(m: Seq<BakersPercent>, n: Seq<char>) -> bool
    decreases m.len(),
{
    if m.len() == 0 {
        false
    } else {
        m.last().name@ == n || has_name(m.drop_last(), n)
    }
}

/// The fraction that the mix gives to the name `n`, or zero where it has none.
pub open spec fn fraction_in(m: Seq<BakersPercent>, n: Seq<char>) -> int
    decreases m.len(),
{
    if m.len() == 0 {
        0
    } else if m.last().name@ == n {
        m.last().percent as int
    } else {
        fraction_in(m.drop_last(), n)
    }
}

/// The sum of the fractions of a mix.
pub open spec fn mix_total(m: Seq<BakersPercent>) -> int
    decreases m.len(),
{
    if m.len() == 0 {
        0
    } else {
        mix_total(m.drop_last()) + m.last().percent
    }
}

/// No two entries of the mix share a name.
pub open spec fn distinct_names(m: Seq<BakersPercent>) -> bool {
    forall|i: int, j: int|
        0 <= i < j < m.len() ==> (#[trigger] m[i]).name@ != (#[trigger] m[j]).name@
}

/// Every fraction of the mix is at most one whole.
pub open spec fn fractions_bounded(m: Seq<BakersPercent>) -> bool {
    forall|i: int| 0 <= i < m.len() ==> (#[trigger] m[i]).percent <= ONE
}

pub proof fn lemma_has_name_index(m: Seq<BakersPercent>, n: Seq<char>)
    ensures
        has_name(m, n) <==> exists|i: int| 0 <= i < m.len() && (#[trigger] m[i]).name@ == n,
    decreases m.len(),
{
    if m.len() > 0 {
        lemma_has_name_index(m.drop_last(), n);
        if has_name(m.drop_last(), n) {
            let i = choose|i: int| 0 <= i < m.drop_last().len() && (#[trigger] m.drop_last()[i]).name@ == n;
            assert(m[i] == m.drop_last()[i]);
        }
        if exists|i: int| 0 <= i < m.len() && (#[trigger] m[i]).name@ == n {
            let i = choose|i: int| 0 <= i < m.len() && (#[trigger] m[i]).name@ == n;
            if i < m.len() - 1 {
                assert(m.drop_last()[i] == m[i]);
            }
        }
    }
}

pub proof fn lemma_fraction_in_absent(m: Seq<BakersPercent>, n: Seq<char>)
    requires
        !has_name(m, n),
    ensures
        fraction_in(m, n) == 0,
    decreases m.len(),
{
    if m.len() > 0 {
        lemma_fraction_in_absent(m.drop_last(), n);
    }
}

pub proof fn lemma_fraction_in_bounded(m: Seq<BakersPercent>, n: Seq<char>)
    requires
        fractions_bounded(m),
    ensures
        0 <= fraction_in(m, n) <= ONE,
    decreases m.len(),
{
    if m.len() > 0 {
        assert(m.last() == m[m.len() - 1]);
        assert(fractions_bounded(m.drop_last())) by {
            assert forall|i: int| 0 <= i < m.drop_last().len() implies (
            #[trigger] m.drop_last()[i]).percent <= ONE by {
                assert(m.drop_last()[i] == m[i]);
            }
        }
        lemma_fraction_in_bounded(m.drop_last(), n);
    }
}

pub proof fn lemma_mix_total_prefix(m: Seq<BakersPercent>, j: int)
    requires
        0 <= j <= m.len(),
    ensures
        0 <= mix_total(m.take(j)) <= mix_total(m),
    decreases m.len() - j,
{
    if j < m.len() {
        lemma_mix_total_prefix(m, j + 1);
        assert(m.take(j + 1).drop_last() =~= m.take(j));
        lemma_mix_total_nonneg(m.take(j));
    } else {
        assert(m.take(j) =~= m);
        lemma_mix_total_nonneg(m);
    }
}

pub proof fn lemma_mix_total_nonneg(m: Seq<BakersPercent>)
    ensures
        0 <= mix_total(m),
    decreases m.len(),
{
    if m.len() > 0 {
        lemma_mix_total_nonneg(m.drop_last());
    }
}

/// The sum of the shares of `amount` that the fractions of a mix give.
pub open spec fn shares_total(m: Seq<BakersPercent>, amount: int) -> int
    decreases m.len(),
{
    if m.len() == 0 {
        0
    } else {
        shares_total(m.drop_last(), amount) + share(m.last().percent as int, amount)
    }
}

/// The sum, over the names of `d`, of the shares of `amount` that the mix `s` gives them.
pub open spec fn looked_up_shares(d: Seq<BakersPercent>, s: Seq<BakersPercent>, amount: int) -> int
    decreases d.len(),
{
    if d.len() == 0 {
        0
    } else {
        looked_up_shares(d.drop_last(), s, amount) + share(fraction_in(s, d.last().name@), amount)
    }
}

/// Every name of `s` is a name of `d`.
pub open spec fn names_within(s: Seq<BakersPercent>, d: Seq<BakersPercent>) -> bool {
    forall|k: int| 0 <= k < s.len() ==> has_name(d, (#[trigger] s[k]).name@)
}

pub proof fn lemma_share_nonneg(fraction: int, amount: int)
    requires
        0 <= fraction,
        0 <= amount,
    ensures
        0 <= share(fraction, amount),
        ONE * share(fraction, amount) <= fraction * amount,
{
    assert(0 <= fraction * amount) by (nonlinear_arith)
        requires
            0 <= fraction,
            0 <= amount,
    ;
}

pub proof fn lemma_distinct_drop_last(m: Seq<BakersPercent>)
    requires
        distinct_names(m),
        m.len() > 0,
    ensures
        distinct_names(m.drop_last()),
        !has_name(m.drop_last(), m.last().name@),
{
    assert forall|i: int, j: int|
        0 <= i < j < m.drop_last().len() implies (#[trigger] m.drop_last()[i]).name@ != (
        #[trigger] m.drop_last()[j]).name@ by {
        assert(m.drop_last()[i] == m[i] && m.drop_last()[j] == m[j]);
    }
    lemma_has_name_index(m.drop_last(), m.last().name@);
    if has_name(m.drop_last(), m.last().name@) {
        let i = choose|i: int|
            0 <= i < m.drop_last().len() && (#[trigger] m.drop_last()[i]).name@ == m.last().name@;
        assert(m.drop_last()[i] == m[i]);
        assert(m[i].name@ != m[m.len() - 1].name@);
    }
}

pub proof fn lemma_looked_up_shares_empty(d: Seq<BakersPercent>, s: Seq<BakersPercent>, amount: int)
    requires
        s.len() == 0,
    ensures
        looked_up_shares(d, s, amount) == 0,
    decreases d.len(),
{
    if d.len() > 0 {
        lemma_looked_up_shares_empty(d.drop_last(), s, amount);
    }
}

proof fn lemma_looked_up_shares_step(d: Seq<BakersPercent>, s: Seq<BakersPercent>, amount: int)
    requires
        distinct_names(d),
        s.len() > 0,
    ensures
        looked_up_shares(d, s, amount) == looked_up_shares(d, s.drop_last(), amount) + if has_name(
            d,
            s.last().name@,
        ) {
            share(s.last().percent as int, amount) - share(
                fraction_in(s.drop_last(), s.last().name@),
                amount,
            )
        } else {
            0
        },
    decreases d.len(),
{
    if d.len() > 0 {
        lemma_distinct_drop_last(d);
        lemma_looked_up_shares_step(d.drop_last(), s, amount);
    }
}

/// Looking up the shares of a mix under distinct names takes at most all of
/// its shares, and exactly all of them where each of its names is looked up.
pub proof fn lemma_looked_up_shares(d: Seq<BakersPercent>, s: Seq<BakersPercent>, amount: int)
    requires
        distinct_names(d),
        0 <= amount,
    ensures
        looked_up_shares(d, s, amount) <= shares_total(s, amount),
        distinct_names(s) && names_within(s, d) ==> looked_up_shares(d, s, amount) == shares_total(
            s,
            amount,
        ),
    decreases s.len(),
{
    if s.len() == 0 {
        lemma_looked_up_shares_empty(d, s, amount);
    } else {
        let y = s.last();
        let t = s.drop_last();
        lemma_looked_up_shares_step(d, s, amount);
        lemma_looked_up_shares(d, t, amount);
        lemma_fraction_in_nonneg(t, y.name@);
        lemma_share_nonneg(fraction_in(t, y.name@), amount);
        if distinct_names(s) && names_within(s, d) {
            lemma_distinct_drop_last(s);
            assert(names_within(t, d)) by {
                assert forall|k: int| 0 <= k < t.len() implies has_name(d, (#[trigger] t[k]).name@) by {
                    assert(t[k] == s[k]);
                }
            }
            lemma_fraction_in_absent(t, y.name@);
            assert(has_name(d, s[s.len() - 1].name@));
            assert(share(0, amount) == 0);
        }
    }
}

pub proof fn lemma_fraction_in_nonneg(m: Seq<BakersPercent>, n: Seq<char>)
    ensures
        0 <= fraction_in(m, n),
    decreases m.len(),
{
    if m.len() > 0 {
        lemma_fraction_in_nonneg(m.drop_last(), n);
    }
}

/// The shares of `amount` that a mix gives sum to at most `amount` times its total fraction.
pub proof fn lemma_shares_total_bound(m: Seq<BakersPercent>, amount: int)
    requires
        0 <= amount,
    ensures
        0 <= shares_total(m, amount),
        ONE * shares_total(m, amount) <= amount * mix_total(m),
    decreases m.len(),
{
    if m.len() > 0 {
        lemma_shares_total_bound(m.drop_last(), amount);
        let p = m.last().percent as int;
        lemma_share_nonneg(p, amount);
        assert(amount * mix_total(m) == amount * mix_total(m.drop_last()) + amount * p) by (
        nonlinear_arith)
            requires
                mix_total(m) == mix_total(m.drop_last()) + p,
        ;
        assert(p * amount == amount * p) by (nonlinear_arith);
    }
}

/// `r` holds each flour of the mix `m`, in order, with its share of `weight`.
pub open spec fn scaled(r: Seq<CalculatedIngredient>, m: Seq<BakersPercent>, weight: int) -> bool {
    &&& r.len() == m.len()
    &&& forall|i: int|
        0 <= i < m.len() ==> {
            &&& (#[trigger] r[i]).name@ == m[i].name@
            &&& r[i].weight == share(m[i].percent as int, weight)
        }
}

pub proof fn lemma_share_bounds(fraction: int, amount: int)
    requires
        0 <= fraction <= ONE,
        0 <= amount,
    ensures
        0 <= share(fraction, amount) <= amount,
{
    assert(0 <= fraction * amount <= ONE * amount) by (nonlinear_arith)
        requires
            0 <= fraction <= ONE,
            0 <= amount,
    ;
    assert(share(fraction, amount) <= amount) by (nonlinear_arith)
        requires
            0 <= fraction * amount <= ONE * amount,
            share(fraction, amount) == fraction * amount / ONE as int,
    ;
}

/// Each ingredient of a mix with its share of `weight`.
pub fn scale_mix(mix: &Vec<BakersPercent>, weight: u64) -> (r: Vec<CalculatedIngredient>)
    requires
        fractions_bounded(mix@),
    ensures
        scaled(r@, mix@, weight as int),
{
    let mut out: Vec<CalculatedIngredient> = Vec::new();
    let mut i: usize = 0;
    while i < mix.len()
        invariant
            i <= mix@.len(),
            fractions_bounded(mix@),
            out@.len() == i,
            forall|j: int|
                0 <= j < i ==> {
                    &&& (#[trigger] out@[j]).name@ == mix@[j].name@
                    &&& out@[j].weight == share(mix@[j].percent as int, weight as int)
                },
        decreases mix@.len() - i,
    {
        proof {
            lemma_share_bounds(mix@[i as int].percent as int, weight as int);
        }
        let w = ((mix[i].percent as u128 * weight as u128) / ONE as u128) as u64;
        out.push(CalculatedIngredient { name: mix[i].name.clone(), weight: w });
        i = i + 1;
    }
    out
}

} // verus!
