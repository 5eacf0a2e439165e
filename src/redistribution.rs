use vstd::prelude::*;
use crate::ingredients::CalculatedIngredient;
use crate::mix::{
    distinct_names, fraction_in, fractions_bounded, has_name, lemma_fraction_in_bounded,
    lemma_fraction_in_nonneg, lemma_looked_up_shares, lemma_share_bounds, lemma_mix_total_prefix, lemma_share_nonneg,
    lemma_shares_total_bound, looked_up_shares, mix_total, share, shares_total,
};
use crate::percent::{BakersPercent, ONE};

verus! {

/// What the starter, holding `starter_amt` of flour, gives to each flour of the dough's mix.
pub open spec fn contributions(
    dough: Seq<BakersPercent>,
    starter: Seq<BakersPercent>,
    starter_amt: int,
) -> Seq<int> {
    Seq::new(dough.len(), |i: int| share(fraction_in(starter, dough[i].name@), starter_amt))
}

/// The entries of the starter's mix whose flour the dough's mix does not name, in order.
pub open spec fn starter_only(dough: Seq<BakersPercent>, starter: Seq<BakersPercent>) -> Seq<
    BakersPercent,
>
    decreases starter.len(),
{
    if starter.len() == 0 {
        Seq::empty()
    } else {
        let rest = starter_only(dough, starter.drop_last());
        if has_name(dough, starter.last().name@) {
            rest
        } else {
            rest.push(starter.last())
        }
    }
}

/// The flour to share out at first: the dough's and the starter's, less what
/// the starter holds of flours that only it uses.
pub open spec fn initial_pool(
    dough_amt: int,
    dough: Seq<BakersPercent>,
    starter_amt: int,
    starter: Seq<BakersPercent>,
) -> int {
    dough_amt + starter_amt - shares_total(starter_only(dough, starter), starter_amt)
}

/// Flour `i` still takes part, and the starter already gives it more than its share of `pool`.
pub open spec fn over_supplied(
    dough: Seq<BakersPercent>,
    c: Seq<int>,
    active: Seq<bool>,
    pool: int,
    i: int,
) -> bool {
    active[i] && share(dough[i].percent as int, pool) < c[i]
}

pub open spec fn any_over(dough: Seq<BakersPercent>, c: Seq<int>, active: Seq<bool>, pool: int) -> bool {
    exists|i: int| 0 <= i < active.len() && over_supplied(dough, c, active, pool, i)
}

/// The flours that take part in the next round: those of this round that were not over-supplied.
pub open spec fn next_active(dough: Seq<BakersPercent>, c: Seq<int>, active: Seq<bool>, pool: int) -> Seq<
    bool,
> {
    Seq::new(active.len(), |i: int| active[i] && !over_supplied(dough, c, active, pool, i))
}

/// The sum, over the first `n` flours, of what an over-supplied flour falls short of zero.
pub open spec fn round_deficit(
    dough: Seq<BakersPercent>,
    c: Seq<int>,
    active: Seq<bool>,
    pool: int,
    n: int,
) -> int
    decreases n,
{
    if n <= 0 {
        0
    } else {
        round_deficit(dough, c, active, pool, n - 1) + if over_supplied(
            dough,
            c,
            active,
            pool,
            n - 1,
        ) {
            c[n - 1] - share(dough[n - 1].percent as int, pool)
        } else {
            0
        }
    }
}

/// Rounds of clamping: while some flour is over-supplied, it leaves the
/// rounds and what it falls short is added to the pool.
pub open spec fn settle(
    dough: Seq<BakersPercent>,
    c: Seq<int>,
    active: Seq<bool>,
    pool: int,
    fuel: nat,
) -> (Seq<bool>, int)
    decreases fuel,
{
    if fuel == 0 || !any_over(dough, c, active, pool) {
        (active, pool)
    } else {
        settle(
            dough,
            c,
            next_active(dough, c, active, pool),
            pool + round_deficit(dough, c, active, pool, active.len() as int),
            (fuel - 1) as nat,
        )
    }
}

/// The flours still taking part, and the pool, once the rounds are over.
pub open spec fn settled(
    dough_amt: int,
    dough: Seq<BakersPercent>,
    starter_amt: int,
    starter: Seq<BakersPercent>,
) -> (Seq<bool>, int) {
    settle(
        dough,
        contributions(dough, starter, starter_amt),
        all_active(dough.len()),
        initial_pool(dough_amt, dough, starter_amt, starter),
        dough.len(),
    )
}

/// The weight to add of dough flour `i`: its share of the final pool less
/// what the starter gives it, or nothing where it left the rounds.
pub open spec fn final_weight(
    dough_amt: int,
    dough: Seq<BakersPercent>,
    starter_amt: int,
    starter: Seq<BakersPercent>,
    i: int,
) -> int {
    let st = settled(dough_amt, dough, starter_amt, starter);
    if st.0[i] {
        share(dough[i].percent as int, st.1) - contributions(dough, starter, starter_amt)[i]
    } else {
        0
    }
}

/// `r` is the redistribution: first each flour of the dough's mix with its
/// final weight, then each flour only the starter uses with what the starter holds of it.
pub open spec fn redistributed(
    r: Seq<CalculatedIngredient>,
    dough_amt: int,
    dough: Seq<BakersPercent>,
    starter_amt: int,
    starter: Seq<BakersPercent>,
) -> bool {
    let n = dough.len();
    let only = starter_only(dough, starter);
    &&& r.len() == n + only.len()
    &&& forall|i: int|
        0 <= i < n ==> {
            &&& (#[trigger] r[i]).name@ == dough[i].name@
            &&& r[i].weight == final_weight(dough_amt, dough, starter_amt, starter, i)
        }
    &&& forall|k: int|
        0 <= k < only.len() ==> {
            &&& (#[trigger] r[n + k]).name@ == only[k].name@
            &&& r[n + k].weight == share(only[k].percent as int, starter_amt)
        }
}

/// `n` flours that all take part.
pub open spec fn all_active(n: nat) -> Seq<bool> {
    Seq::new(n, |i: int| true)
}

/// `n` flours none of which takes part.
pub open spec fn none_active(n: nat) -> Seq<bool> {
    Seq::new(n, |i: int| false)
}

/// The number of flours among the first `n` that still take part.
pub open spec fn count_active(active: Seq<bool>, n: int) -> int
    decreases n,
{
    if n <= 0 {
        0
    } else {
        count_active(active, n - 1) + if active[n - 1] {
            1int
        } else {
            0
        }
    }
}

/// The sum of what the starter gives the first `n` flours that no longer take part.
pub open spec fn inactive_sum(c: Seq<int>, active: Seq<bool>, n: int) -> int
    decreases n,
{
    if n <= 0 {
        0
    } else {
        inactive_sum(c, active, n - 1) + if active[n - 1] {
            0
        } else {
            c[n - 1]
        }
    }
}

proof fn lemma_count_bound(active: Seq<bool>, n: int)
    requires
        0 <= n,
    ensures
        0 <= count_active(active, n) <= n,
    decreases n,
{
    if n > 0 {
        lemma_count_bound(active, n - 1);
    }
}

proof fn lemma_count_next(dough: Seq<BakersPercent>, c: Seq<int>, active: Seq<bool>, pool: int, n: int)
    requires
        0 <= n <= active.len(),
    ensures
        count_active(next_active(dough, c, active, pool), n) <= count_active(active, n),
        (exists|i: int| 0 <= i < n && over_supplied(dough, c, active, pool, i)) ==> count_active(
            next_active(dough, c, active, pool),
            n,
        ) < count_active(active, n),
    decreases n,
{
    if n > 0 {
        lemma_count_next(dough, c, active, pool, n - 1);
        if exists|i: int| 0 <= i < n && over_supplied(dough, c, active, pool, i) {
            let i = choose|i: int| 0 <= i < n && over_supplied(dough, c, active, pool, i);
            if i < n - 1 {
                assert(exists|j: int| 0 <= j < n - 1 && over_supplied(dough, c, active, pool, j));
            }
        }
    }
}

proof fn lemma_round_deficit(dough: Seq<BakersPercent>, c: Seq<int>, active: Seq<bool>, pool: int, n: int)
    requires
        0 <= n <= active.len(),
        active.len() == c.len(),
        active.len() == dough.len(),
        0 <= pool,
    ensures
        0 <= round_deficit(dough, c, active, pool, n),
        round_deficit(dough, c, active, pool, n) + inactive_sum(c, active, n) <= inactive_sum(
            c,
            next_active(dough, c, active, pool),
            n,
        ),
    decreases n,
{
    if n > 0 {
        lemma_round_deficit(dough, c, active, pool, n - 1);
        lemma_share_nonneg(dough[n - 1].percent as int, pool);
    }
}

proof fn lemma_inactive_sum_bound(c: Seq<int>, active: Seq<bool>, n: int)
    requires
        0 <= n <= c.len(),
        active.len() == c.len(),
        forall|i: int| 0 <= i < c.len() ==> 0 <= #[trigger] c[i],
    ensures
        0 <= inactive_sum(c, active, n) <= inactive_sum(c, none_active(active.len()), n),
    decreases n,
{
    if n > 0 {
        lemma_inactive_sum_bound(c, active, n - 1);
    }
}

proof fn lemma_inactive_sum_all_active(c: Seq<int>, n: int)
    requires
        0 <= n <= c.len(),
    ensures
        inactive_sum(c, all_active(c.len()), n) == 0,
    decreases n,
{
    if n > 0 {
        lemma_inactive_sum_all_active(c, n - 1);
    }
}

proof fn lemma_inactive_sum_mono(c: Seq<int>, active: Seq<bool>, m: int, n: int)
    requires
        0 <= m <= n <= c.len(),
        active.len() == c.len(),
        forall|i: int| 0 <= i < c.len() ==> 0 <= #[trigger] c[i],
    ensures
        inactive_sum(c, active, m) <= inactive_sum(c, active, n),
    decreases n - m,
{
    if m < n {
        lemma_inactive_sum_mono(c, active, m, n - 1);
    }
}

proof fn lemma_inactive_sum_nonneg_split(c: Seq<int>, active: Seq<bool>, n: int)
    requires
        0 <= n <= c.len(),
        active.len() == c.len(),
        forall|i: int| 0 <= i < c.len() ==> 0 <= #[trigger] c[i],
    ensures
        0 <= inactive_sum(c, active, n),
    decreases n,
{
    if n > 0 {
        lemma_inactive_sum_nonneg_split(c, active, n - 1);
    }
}

proof fn lemma_contributions_total(
    dough: Seq<BakersPercent>,
    starter: Seq<BakersPercent>,
    starter_amt: int,
    active: Seq<bool>,
    n: int,
)
    requires
        0 <= n <= dough.len(),
        active.len() == dough.len(),
    ensures
        inactive_sum(
            contributions(dough, starter, starter_amt),
            none_active(active.len()),
            n,
        ) == looked_up_shares(dough.take(n), starter, starter_amt),
    decreases n,
{
    if n > 0 {
        lemma_contributions_total(dough, starter, starter_amt, active, n - 1);
        assert(dough.take(n).drop_last() =~= dough.take(n - 1));
    }
}

proof fn lemma_starter_only_shares(dough: Seq<BakersPercent>, starter: Seq<BakersPercent>, amt: int)
    requires
        0 <= amt,
    ensures
        0 <= shares_total(starter_only(dough, starter), amt) <= shares_total(starter, amt),
    decreases starter.len(),
{
    if starter.len() > 0 {
        lemma_starter_only_shares(dough, starter.drop_last(), amt);
        let rest = starter_only(dough, starter.drop_last());
        lemma_share_nonneg(starter.last().percent as int, amt);
        if !has_name(dough, starter.last().name@) {
            assert(rest.push(starter.last()).drop_last() =~= rest);
        }
    }
}

/// What the starter holds of the flours of a mix of total at most one whole is at most what it holds.
proof fn lemma_prefix_shares_bound(m: Seq<BakersPercent>, j: int, amt: int)
    requires
        0 <= j <= m.len(),
        0 <= amt,
        mix_total(m) <= ONE,
    ensures
        0 <= shares_total(m.take(j), amt) <= amt,
{
    lemma_mix_total_prefix(m, j);
    lemma_shares_total_bound(m.take(j), amt);
    let t = mix_total(m.take(j));
    assert(amt * t <= amt * ONE) by (nonlinear_arith)
        requires
            0 <= amt,
            t <= ONE,
    ;
}

/// The fraction that `mix` gives to `name`.
pub fn fraction_of_name(mix: &Vec<BakersPercent>, name: &String) -> (r: u64)
    ensures
        r == fraction_in(mix@, name@),
{
    let mut found: u64 = 0;
    let mut i: usize = 0;
    while i < mix.len()
        invariant
            i <= mix@.len(),
            found == fraction_in(mix@.take(i as int), name@),
        decreases mix@.len() - i,
    {
        assert(mix@.take(i + 1).drop_last() =~= mix@.take(i as int));
        if mix[i].name == *name {
            found = mix[i].percent;
        }
        i = i + 1;
    }
    assert(mix@.take(i as int) =~= mix@);
    found
}

/// Whether some entry of `mix` is named `name`.
pub fn mix_has_name(mix: &Vec<BakersPercent>, name: &String) -> (r: bool)
    ensures
        r == has_name(mix@, name@),
{
    let mut found = false;
    let mut i: usize = 0;
    while i < mix.len()
        invariant
            i <= mix@.len(),
            found == has_name(mix@.take(i as int), name@),
        decreases mix@.len() - i,
    {
        assert(mix@.take(i + 1).drop_last() =~= mix@.take(i as int));
        if mix[i].name == *name {
            found = true;
        }
        i = i + 1;
    }
    assert(mix@.take(i as int) =~= mix@);
    found
}

proof fn lemma_count_positive(active: Seq<bool>, n: int, i: int)
    requires
        0 <= i < n <= active.len(),
        active[i],
    ensures
        count_active(active, n) >= 1,
    decreases n,
{
    lemma_count_bound(active, n - 1);
    if i < n - 1 {
        lemma_count_positive(active, n - 1, i);
    }
}

/// Once the rounds are over, no flour that still takes part is over-supplied.
proof fn lemma_settle_done(
    dough: Seq<BakersPercent>,
    c: Seq<int>,
    active: Seq<bool>,
    pool: int,
    fuel: nat,
)
    requires
        active.len() == dough.len(),
        count_active(active, active.len() as int) <= fuel,
    ensures
        settle(dough, c, active, pool, fuel).0.len() == active.len(),
        !any_over(dough, c, settle(dough, c, active, pool, fuel).0, settle(dough, c, active, pool, fuel).1),
    decreases fuel,
{
    if any_over(dough, c, active, pool) {
        let i = choose|i: int| 0 <= i < active.len() && over_supplied(dough, c, active, pool, i);
        lemma_count_positive(active, active.len() as int, i);
        lemma_count_next(dough, c, active, pool, active.len() as int);
        lemma_settle_done(
            dough,
            c,
            next_active(dough, c, active, pool),
            pool + round_deficit(dough, c, active, pool, active.len() as int),
            (fuel - 1) as nat,
        );
    }
}

/// Every weight that the redistribution gives is at least zero, whatever the
/// two mixes and amounts are.
pub proof fn lemma_redistribution_nonnegative(
    dough_amt: nat,
    dough: Seq<BakersPercent>,
    starter_amt: nat,
    starter: Seq<BakersPercent>,
)
    ensures
        forall|i: int|
            0 <= i < dough.len() ==> 0 <= #[trigger] final_weight(
                dough_amt as int,
                dough,
                starter_amt as int,
                starter,
                i,
            ),
        forall|k: int|
            0 <= k < starter_only(dough, starter).len() ==> 0 <= share(
                (#[trigger] starter_only(dough, starter)[k]).percent as int,
                starter_amt as int,
            ),
{
    let c = contributions(dough, starter, starter_amt as int);
    let a = all_active(dough.len());
    let p = initial_pool(dough_amt as int, dough, starter_amt as int, starter);
    lemma_count_bound(a, dough.len() as int);
    lemma_settle_done(dough, c, a, p, dough.len());
    assert forall|i: int| 0 <= i < dough.len() implies 0 <= #[trigger] final_weight(
        dough_amt as int,
        dough,
        starter_amt as int,
        starter,
        i,
    ) by {
        let st = settle(dough, c, a, p, dough.len());
        assert(!over_supplied(dough, c, st.0, st.1, i));
    }
    assert forall|k: int| 0 <= k < starter_only(dough, starter).len() implies 0 <= share(
        (#[trigger] starter_only(dough, starter)[k]).percent as int,
        starter_amt as int,
    ) by {
        lemma_share_nonneg(starter_only(dough, starter)[k].percent as int, starter_amt as int);
    }
}

proof fn lemma_shares_total_of_nothing(m: Seq<BakersPercent>)
    ensures
        shares_total(m, 0) == 0,
    decreases m.len(),
{
    if m.len() > 0 {
        lemma_shares_total_of_nothing(m.drop_last());
    }
}

/// Without starter flour, each flour of the dough's mix gets exactly its
/// fraction of the dough's flour, and a flour only the starter names gets nothing.
pub proof fn lemma_no_starter_is_proportional(
    dough_amt: nat,
    dough: Seq<BakersPercent>,
    starter: Seq<BakersPercent>,
)
    ensures
        forall|i: int|
            0 <= i < dough.len() ==> #[trigger] final_weight(dough_amt as int, dough, 0, starter, i)
                == share(dough[i].percent as int, dough_amt as int),
        forall|k: int|
            0 <= k < starter_only(dough, starter).len() ==> share(
                (#[trigger] starter_only(dough, starter)[k]).percent as int,
                0,
            ) == 0,
{
    let c = contributions(dough, starter, 0);
    let a = all_active(dough.len());
    lemma_shares_total_of_nothing(starter_only(dough, starter));
    assert(initial_pool(dough_amt as int, dough, 0, starter) == dough_amt);
    assert forall|i: int| 0 <= i < dough.len() implies !over_supplied(
        dough,
        c,
        a,
        dough_amt as int,
        i,
    ) by {
        lemma_share_nonneg(dough[i].percent as int, dough_amt as int);
        assert(c[i] == share(fraction_in(starter, dough[i].name@), 0));
    }
    assert(settled(dough_amt as int, dough, 0, starter) == (a, dough_amt as int));
    assert forall|i: int| 0 <= i < dough.len() implies #[trigger] final_weight(
        dough_amt as int,
        dough,
        0,
        starter,
        i,
    ) == share(dough[i].percent as int, dough_amt as int) by {
        assert(c[i] == share(fraction_in(starter, dough[i].name@), 0));
    }
}

proof fn lemma_starter_only_holds(dough: Seq<BakersPercent>, starter: Seq<BakersPercent>, j: int)
    requires
        0 <= j < starter.len(),
        !has_name(dough, starter[j].name@),
    ensures
        exists|k: int|
            0 <= k < starter_only(dough, starter).len() && #[trigger] starter_only(dough, starter)[k]
                == starter[j],
    decreases starter.len(),
{
    let rest = starter_only(dough, starter.drop_last());
    if j < starter.len() - 1 {
        assert(starter.drop_last()[j] == starter[j]);
        lemma_starter_only_holds(dough, starter.drop_last(), j);
        let k = choose|k: int| 0 <= k < rest.len() && #[trigger] rest[k] == starter[j];
        if !has_name(dough, starter.last().name@) {
            assert(starter_only(dough, starter)[k] == rest.push(starter.last())[k]);
        }
        assert(starter_only(dough, starter)[k] == starter[j]);
    } else {
        assert(starter.last() == starter[j]);
        assert(starter_only(dough, starter)[rest.len() as int] == starter[j]);
    }
}

/// A flour that only the starter's mix names comes out with exactly what the
/// starter holds of it.
pub proof fn lemma_starter_exclusive_flour(
    r: Seq<CalculatedIngredient>,
    dough_amt: int,
    dough: Seq<BakersPercent>,
    starter_amt: int,
    starter: Seq<BakersPercent>,
    j: int,
)
    requires
        redistributed(r, dough_amt, dough, starter_amt, starter),
        0 <= j < starter.len(),
        !has_name(dough, starter[j].name@),
    ensures
        exists|k: int|
            dough.len() <= k < r.len() && (#[trigger] r[k]).name@ == starter[j].name@ && r[k].weight
                == share(starter[j].percent as int, starter_amt),
{
    lemma_starter_only_holds(dough, starter, j);
    let only = starter_only(dough, starter);
    let k = choose|k: int| 0 <= k < only.len() && #[trigger] only[k] == starter[j];
    assert(r[dough.len() + k].name@ == only[k].name@);
}

/// Shares out the dough's flour so that the dough's mix is kept as far as
/// the starter allows and no weight is negative.
///
/// `dough_amt` is the flour that the dough still owes once the starter's
/// flour, `starter_amt`, is taken off. Flours that only the starter uses keep
/// what the starter holds of them. Each other flour gets its share of the
/// pool less what the starter gives it; a flour the starter over-supplies is
/// set to zero, leaves the rounds, and what it falls short is added to the
/// pool, until a round clamps nothing.
pub fn adjust_for_starter(
    dough_amt: u64,
    dough_flour: &Vec<BakersPercent>,
    starter_amt: u64,
    starter_flour: &Vec<BakersPercent>,
) -> (r: Vec<CalculatedIngredient>)
    requires
        distinct_names(dough_flour@),
        fractions_bounded(dough_flour@),
        fractions_bounded(starter_flour@),
        mix_total(starter_flour@) <= ONE,
        dough_amt + 2 * starter_amt <= u64::MAX,
    ensures
        redistributed(r@, dough_amt as int, dough_flour@, starter_amt as int, starter_flour@),
{
    let ghost amt = starter_amt as int;
    let n = dough_flour.len();
    // Flours that only the starter uses keep what it holds of them.
    let mut only: Vec<CalculatedIngredient> = Vec::new();
    let mut spent: u64 = 0;
    let mut j: usize = 0;
    while j < starter_flour.len()
        invariant
            j <= starter_flour@.len(),
            amt == starter_amt,
            fractions_bounded(starter_flour@),
            mix_total(starter_flour@) <= ONE,
            spent == shares_total(starter_only(dough_flour@, starter_flour@.take(j as int)), amt),
            spent <= starter_amt,
            only@.len() == starter_only(dough_flour@, starter_flour@.take(j as int)).len(),
            forall|k: int|
                0 <= k < only@.len() ==> {
                    &&& (#[trigger] only@[k]).name@ == starter_only(
                        dough_flour@,
                        starter_flour@.take(j as int),
                    )[k].name@
                    &&& only@[k].weight == share(
                        starter_only(dough_flour@, starter_flour@.take(j as int))[k].percent as int,
                        amt,
                    )
                },
        decreases starter_flour@.len() - j,
    {
        let entry = &starter_flour[j];
        proof {
            assert(starter_flour@.take(j + 1).drop_last() =~= starter_flour@.take(j as int));
            assert(starter_flour@.take(j + 1).last() == starter_flour@[j as int]);
            lemma_starter_only_shares(dough_flour@, starter_flour@.take(j + 1), amt);
            lemma_prefix_shares_bound(starter_flour@, j + 1, amt);
            lemma_share_bounds(entry.percent as int, amt);
        }
        if !mix_has_name(dough_flour, &entry.name) {
            proof {
                let so = starter_only(dough_flour@, starter_flour@.take(j as int));
                assert(so.push(*entry).drop_last() =~= so);
            }
            let weight = ((entry.percent as u128 * starter_amt as u128) / ONE as u128) as u64;
            spent = spent + weight;
            only.push(CalculatedIngredient { name: entry.name.clone(), weight });
        }
        j = j + 1;
    }
    assert(starter_flour@.take(j as int) =~= starter_flour@);
    let ghost cs = contributions(dough_flour@, starter_flour@, amt);
    // What the starter gives to each flour of the dough's mix.
    let mut c: Vec<u64> = Vec::new();
    let mut i: usize = 0;
    while i < n
        invariant
            i <= n,
            n == dough_flour@.len(),
            amt == starter_amt,
            cs == contributions(dough_flour@, starter_flour@, amt),
            fractions_bounded(starter_flour@),
            c@.len() == i,
            forall|k: int| 0 <= k < i ==> #[trigger] c@[k] == cs[k],
        decreases n - i,
    {
        let f = fraction_of_name(starter_flour, &dough_flour[i].name);
        proof {
            lemma_fraction_in_bounded(starter_flour@, dough_flour@[i as int].name@);
            lemma_share_bounds(f as int, amt);
        }
        c.push(((f as u128 * starter_amt as u128) / ONE as u128) as u64);
        i = i + 1;
    }
    proof {
        lemma_contributions_total(dough_flour@, starter_flour@, amt, all_active(n as nat), n as int);
        assert(dough_flour@.take(n as int) =~= dough_flour@);
        lemma_looked_up_shares(dough_flour@, starter_flour@, amt);
        lemma_prefix_shares_bound(starter_flour@, starter_flour@.len() as int, amt);
        assert(starter_flour@.take(starter_flour@.len() as int) =~= starter_flour@);
        lemma_inactive_sum_all_active(cs, n as int);
        lemma_count_bound(all_active(n as nat), n as int);
        assert forall|k: int| 0 <= k < n implies 0 <= #[trigger] cs[k] by {
            lemma_fraction_in_nonneg(starter_flour@, dough_flour@[k].name@);
            lemma_share_nonneg(fraction_in(starter_flour@, dough_flour@[k].name@), amt);
        }
    }
    let mut active: Vec<bool> = Vec::new();
    i = 0;
    while i < n
        invariant
            i <= n,
            active@.len() == i,
            forall|k: int| 0 <= k < i ==> #[trigger] active@[k],
        decreases n - i,
    {
        active.push(true);
        i = i + 1;
    }
    assert(active@ =~= all_active(n as nat));
    let mut pool: u128 = dough_amt as u128 + starter_amt as u128 - spent as u128;
    let ghost pool0 = pool as int;
    let ghost mut fuel: nat = n as nat;
    loop
        invariant
            n == dough_flour@.len(),
            cs == contributions(dough_flour@, starter_flour@, amt),
            amt == starter_amt,
            fractions_bounded(dough_flour@),
            dough_amt + 2 * starter_amt <= u64::MAX,
            active@.len() == n,
            c@.len() == n,
            forall|k: int| 0 <= k < n ==> #[trigger] c@[k] == cs[k],
            forall|k: int| 0 <= k < n ==> 0 <= #[trigger] cs[k],
            inactive_sum(cs, none_active(n as nat), n as int) <= starter_amt,
            settle(dough_flour@, cs, active@, pool as int, fuel) == settled(
                dough_amt as int,
                dough_flour@,
                starter_amt as int,
                starter_flour@,
            ),
            count_active(active@, n as int) <= fuel,
            pool0 <= dough_amt + starter_amt,
            pool0 <= pool <= pool0 + inactive_sum(cs, active@, n as int),
        ensures
            active@.len() == n,
            c@.len() == n,
            pool <= u64::MAX,
            settled(dough_amt as int, dough_flour@, starter_amt as int, starter_flour@) == (
            active@,
            pool as int,
            ),
            !any_over(dough_flour@, cs, active@, pool as int),
        decreases count_active(active@, n as int),
    {
        proof {
            lemma_inactive_sum_bound(cs, active@, n as int);
        }
        let mut next: Vec<bool> = Vec::new();
        let mut deficit: u128 = 0;
        let mut found = false;
        let mut i: usize = 0;
        while i < n
            invariant
                i <= n,
                n == dough_flour@.len(),
                active@.len() == n,
                c@.len() == n,
                cs.len() == n,
                forall|k: int| 0 <= k < n ==> #[trigger] c@[k] == cs[k],
                forall|k: int| 0 <= k < n ==> 0 <= #[trigger] cs[k],
                fractions_bounded(dough_flour@),
                pool <= u64::MAX,
                inactive_sum(cs, none_active(n as nat), n as int) <= amt,
                amt == starter_amt,
                next@.len() == i,
                forall|k: int|
                    0 <= k < i ==> #[trigger] next@[k] == next_active(
                        dough_flour@,
                        cs,
                        active@,
                        pool as int,
                    )[k],
                deficit == round_deficit(dough_flour@, cs, active@, pool as int, i as int),
                found == exists|k: int|
                    0 <= k < i && over_supplied(dough_flour@, cs, active@, pool as int, k),
            decreases n - i,
        {
            proof {
                lemma_round_deficit(dough_flour@, cs, active@, pool as int, i + 1);
                lemma_inactive_sum_bound(
                    cs,
                    next_active(dough_flour@, cs, active@, pool as int),
                    i + 1,
                );
                lemma_inactive_sum_mono(cs, none_active(n as nat), i + 1, n as int);
                lemma_inactive_sum_nonneg_split(cs, active@, i + 1);
                lemma_share_bounds(dough_flour@[i as int].percent as int, pool as int);
            }
            let t = (dough_flour[i].percent as u128 * pool) / ONE as u128;
            if active[i] && t < c[i] as u128 {
                deficit = deficit + (c[i] as u128 - t);
                found = true;
                next.push(false);
            } else {
                next.push(active[i]);
            }
            proof {
                if found {
                    if !over_supplied(dough_flour@, cs, active@, pool as int, i as int) {
                        let k = choose|k: int|
                            0 <= k < i && over_supplied(dough_flour@, cs, active@, pool as int, k);
                        assert(0 <= k < i + 1);
                    }
                }
            }
            i = i + 1;
        }
        assert(next@ =~= next_active(dough_flour@, cs, active@, pool as int));
        if !found {
            break;
        }
        proof {
            lemma_count_next(dough_flour@, cs, active@, pool as int, n as int);
            lemma_round_deficit(dough_flour@, cs, active@, pool as int, n as int);
            lemma_count_bound(next@, n as int);
            lemma_inactive_sum_bound(cs, next@, n as int);
            fuel = (fuel - 1) as nat;
        }
        pool = pool + deficit;
        active = next;
    }
    // Each flour of the dough's mix with its final weight.
    let mut r: Vec<CalculatedIngredient> = Vec::new();
    i = 0;
    while i < n
        invariant
            i <= n,
            n == dough_flour@.len(),
            active@.len() == n,
            c@.len() == n,
            forall|k: int| 0 <= k < n ==> #[trigger] c@[k] == cs[k],
            fractions_bounded(dough_flour@),
            pool <= u64::MAX,
            cs == contributions(dough_flour@, starter_flour@, amt),
            amt == starter_amt,
            settled(dough_amt as int, dough_flour@, starter_amt as int, starter_flour@) == (
            active@,
            pool as int,
            ),
            !any_over(dough_flour@, cs, active@, pool as int),
            r@.len() == i,
            forall|k: int|
                0 <= k < i ==> {
                    &&& (#[trigger] r@[k]).name@ == dough_flour@[k].name@
                    &&& r@[k].weight == final_weight(
                        dough_amt as int,
                        dough_flour@,
                        starter_amt as int,
                        starter_flour@,
                        k,
                    )
                },
        decreases n - i,
    {
        proof {
            lemma_share_bounds(dough_flour@[i as int].percent as int, pool as int);
            assert(!over_supplied(dough_flour@, cs, active@, pool as int, i as int));
        }
        let weight = if active[i] {
            let t = (dough_flour[i].percent as u128 * pool) / ONE as u128;
            (t - c[i] as u128) as u64
        } else {
            0
        };
        r.push(CalculatedIngredient { name: dough_flour[i].name.clone(), weight });
        i = i + 1;
    }
    // Then each flour that only the starter uses.
    let ghost only_spec = starter_only(dough_flour@, starter_flour@);
    let mut k: usize = 0;
    while k < only.len()
        invariant
            k <= only@.len(),
            n == dough_flour@.len(),
            only_spec == starter_only(dough_flour@, starter_flour@),
            only@.len() == only_spec.len(),
            forall|m: int|
                0 <= m < only@.len() ==> {
                    &&& (#[trigger] only@[m]).name@ == only_spec[m].name@
                    &&& only@[m].weight == share(only_spec[m].percent as int, amt)
                },
            amt == starter_amt,
            r@.len() == n + k,
            forall|m: int|
                0 <= m < n ==> {
                    &&& (#[trigger] r@[m]).name@ == dough_flour@[m].name@
                    &&& r@[m].weight == final_weight(
                        dough_amt as int,
                        dough_flour@,
                        starter_amt as int,
                        starter_flour@,
                        m,
                    )
                },
            forall|m: int|
                0 <= m < k ==> {
                    &&& (#[trigger] r@[n + m]).name@ == only_spec[m].name@
                    &&& r@[n + m].weight == share(only_spec[m].percent as int, amt)
                },
        decreases only@.len() - k,
    {
        r.push(CalculatedIngredient { name: only[k].name.clone(), weight: only[k].weight });
        proof {
            assert forall|m: int| 0 <= m < k + 1 implies {
                &&& (#[trigger] r@[n + m]).name@ == only_spec[m].name@
                &&& r@[n + m].weight == share(only_spec[m].percent as int, amt)
            } by {
                if m == k {
                    assert(r@[n + m] == r@[n + k]);
                }
            }
        }
        k = k + 1;
    }
    r
}

} // verus!
