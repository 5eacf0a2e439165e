use vstd::prelude::*;
use crate::ingredients::CalculatedIngredient;
use crate::mix::{
    distinct_names, fraction_in, lemma_looked_up_shares, lemma_share_nonneg, lemma_shares_total_bound,
    looked_up_shares, mix_total, names_within, scaled, share, shares_total, has_name,
};
use crate::percent::{BakersPercent, ONE};
use crate::recipe::{converted, optional_total, weights_total, Formula, Recipe};
use crate::redistribution::{all_active, any_over, contributions, initial_pool, starter_only};
use crate::starter::starter_flour;

verus! {

/// What a reader sees of an ingredient: its name and its weight.
pub open spec fn ingredient_view(c: CalculatedIngredient) -> (Seq<char>, u64) {
    (c.name@, c.weight)
}

pub open spec fn ingredients_view(s: Seq<CalculatedIngredient>) -> Seq<(Seq<char>, u64)> {
    s.map_values(|c: CalculatedIngredient| ingredient_view(c))
}

/// Two recipes hold the same names and weights throughout.
pub open spec fn same_recipe(a: Recipe, b: Recipe) -> bool {
    &&& a.name == b.name
    &&& a.description == b.description
    &&& a.total_weight == b.total_weight
    &&& ingredients_view(a.flours@) == ingredients_view(b.flours@)
    &&& ingredient_view(a.water) == ingredient_view(b.water)
    &&& ingredient_view(a.salt) == ingredient_view(b.salt)
    &&& (a.yeast is Some <==> b.yeast is Some)
    &&& (a.yeast is Some ==> ingredient_view(a.yeast->Some_0) == ingredient_view(b.yeast->Some_0))
    &&& (a.mixins is Some <==> b.mixins is Some)
    &&& (a.mixins is Some ==> ingredients_view(a.mixins->Some_0@) == ingredients_view(
        b.mixins->Some_0@,
    ))
    &&& (a.starter is Some <==> b.starter is Some)
    &&& (a.starter is Some ==> {
        &&& a.starter->Some_0.amount == b.starter->Some_0.amount
        &&& ingredient_view(a.starter->Some_0.water) == ingredient_view(b.starter->Some_0.water)
        &&& ingredients_view(a.starter->Some_0.flours@) == ingredients_view(
            b.starter->Some_0.flours@,
        )
    })
}

/// Converting the same formula to the same weight twice gives the same recipe.
pub proof fn lemma_convert_deterministic(f: Formula, weight: int, a: Recipe, b: Recipe)
    requires
        converted(f, weight, a),
        converted(f, weight, b),
    ensures
        same_recipe(a, b),
{
    let n = f.flours@.len();
    assert(ingredients_view(a.flours@) =~= ingredients_view(b.flours@)) by {
        assert forall|i: int| 0 <= i < a.flours@.len() implies ingredient_view(
            #[trigger] a.flours@[i],
        ) == ingredient_view(b.flours@[i]) by {
            if i >= n {
                let k = i - n;
                assert(a.flours@[n + k] == a.flours@[i]);
                assert(b.flours@[n + k] == b.flours@[i]);
            }
        }
    }
    if a.mixins is Some {
        assert(ingredients_view(a.mixins->Some_0@) =~= ingredients_view(b.mixins->Some_0@));
    }
    if a.starter is Some {
        assert(ingredients_view(a.starter->Some_0.flours@) =~= ingredients_view(
            b.starter->Some_0.flours@,
        ));
    }
}

/// The weight of everything a recipe holds: the flours, water, salt, yeast
/// and mix-ins added, and the starter's flours and water.
pub open spec fn recipe_total(r: Recipe) -> int {
    weights_total(r.flours@) + r.water.weight + r.salt.weight + match r.yeast {
        Some(y) => y.weight as int,
        None => 0,
    } + match r.mixins {
        Some(m) => weights_total(m@),
        None => 0,
    } + match r.starter {
        Some(s) => weights_total(s.flours@) + s.water.weight,
        None => 0,
    }
}

/// How many weights of a recipe are rounded down from a fraction of the total flour.
pub open spec fn rounded_terms(f: Formula) -> int {
    f.flours@.len() + 3 + match f.mixins {
        Some(m) => m@.len() as int,
        None => 0,
    }
}

/// Where the formula has a starter, the starter's flours are flours of the
/// dough, named once, and the first round of redistribution clamps none.
pub open spec fn starter_shares_cleanly(f: Formula, weight: int) -> bool {
    match f.starter {
        None => true,
        Some(s) => {
            let tf = f.total_flour(weight);
            let sf = starter_flour(s.amount as int, s.hydration as int, tf);
            &&& distinct_names(s.flour@)
            &&& names_within(s.flour@, f.flours@)
            &&& !any_over(
                f.flours@,
                contributions(f.flours@, s.flour@, sf),
                all_active(f.flours@.len()),
                initial_pool(tf - sf, f.flours@, sf, s.flour@),
            )
        },
    }
}

proof fn lemma_scaled_total(r: Seq<CalculatedIngredient>, m: Seq<BakersPercent>, w: int)
    requires
        scaled(r, m, w),
    ensures
        weights_total(r) == shares_total(m, w),
    decreases m.len(),
{
    if m.len() > 0 {
        assert(scaled(r.drop_last(), m.drop_last(), w)) by {
            assert forall|i: int| 0 <= i < m.drop_last().len() implies {
                &&& (#[trigger] r.drop_last()[i]).name@ == m.drop_last()[i].name@
                &&& r.drop_last()[i].weight == share(m.drop_last()[i].percent as int, w)
            } by {
                assert(r.drop_last()[i] == r[i]);
                assert(m.drop_last()[i] == m[i]);
            }
        }
        lemma_scaled_total(r.drop_last(), m.drop_last(), w);
        assert(r.last() == r[r.len() - 1]);
    }
}

proof fn lemma_difference_total(
    r: Seq<CalculatedIngredient>,
    d: Seq<BakersPercent>,
    s: Seq<BakersPercent>,
    t: int,
    a: int,
)
    requires
        r.len() == d.len(),
        forall|i: int|
            0 <= i < d.len() ==> (#[trigger] r[i]).weight == share(d[i].percent as int, t) - share(
                fraction_in(s, d[i].name@),
                a,
            ),
    ensures
        weights_total(r) == shares_total(d, t) - looked_up_shares(d, s, a),
    decreases d.len(),
{
    if d.len() > 0 {
        assert forall|i: int| 0 <= i < d.drop_last().len() implies (
        #[trigger] r.drop_last()[i]).weight == share(d.drop_last()[i].percent as int, t) - share(
            fraction_in(s, d.drop_last()[i].name@),
            a,
        ) by {
            assert(r.drop_last()[i] == r[i]);
            assert(d.drop_last()[i] == d[i]);
        }
        lemma_difference_total(r.drop_last(), d.drop_last(), s, t, a);
        assert(r.last() == r[r.len() - 1]);
        assert(d.last() == d[d.len() - 1]);
    }
}

proof fn lemma_starter_only_empty(d: Seq<BakersPercent>, s: Seq<BakersPercent>)
    requires
        names_within(s, d),
    ensures
        starter_only(d, s).len() == 0,
    decreases s.len(),
{
    if s.len() > 0 {
        assert(names_within(s.drop_last(), d)) by {
            assert forall|k: int| 0 <= k < s.drop_last().len() implies has_name(
                d,
                (#[trigger] s.drop_last()[k]).name@,
            ) by {
                assert(s.drop_last()[k] == s[k]);
            }
        }
        lemma_starter_only_empty(d, s.drop_last());
        assert(has_name(d, s[s.len() - 1].name@));
    }
}

proof fn lemma_share_lower(x: int, t: int)
    requires
        0 <= x,
        0 <= t,
    ensures
        ONE * share(x, t) + (ONE - 1) >= x * t,
        ONE * share(x, t) <= x * t,
{
    assert(0 <= x * t) by (nonlinear_arith)
        requires
            0 <= x,
            0 <= t,
    ;
    lemma_share_nonneg(x, t);
}

proof fn lemma_shares_total_lower(m: Seq<BakersPercent>, t: int)
    requires
        0 <= t,
    ensures
        ONE * shares_total(m, t) + m.len() * (ONE - 1) >= t * mix_total(m),
    decreases m.len(),
{
    if m.len() > 0 {
        lemma_shares_total_lower(m.drop_last(), t);
        let p = m.last().percent as int;
        lemma_share_lower(p, t);
        assert(t * mix_total(m) == t * mix_total(m.drop_last()) + p * t) by (nonlinear_arith)
            requires
                mix_total(m) == mix_total(m.drop_last()) + p,
        ;
    }
}

/// A recipe holds the target weight: its weights, the starter counted by its
/// own flours and water, sum to at most the target, and fall short of it by
/// less than the rounding of each weight and of the total flour. This holds
/// where the flour mix sums to one whole and, with a starter, where the
/// redistribution clamps no flour and the starter names no flour of its own.
pub proof fn lemma_conservation(f: Formula, weight: int, r: Recipe)
    requires
        f.wf(),
        0 <= weight,
        converted(f, weight, r),
        mix_total(f.flours@) == ONE,
        starter_shares_cleanly(f, weight),
    ensures
        recipe_total(r) <= weight,
        (weight - recipe_total(r)) * ONE < f.denominator() + rounded_terms(f) * ONE,
{
    let den = f.denominator();
    let tf = f.total_flour(weight);
    let h = f.hydration as int;
    let sl = f.salt as int;
    let y: int = match f.yeast {
        Some(v) => v as int,
        None => 0,
    };
    let mt = optional_total(f.mixins);
    let mixins: Seq<BakersPercent> = match f.mixins {
        Some(m) => m@,
        None => Seq::empty(),
    };
    let nm: int = match f.mixins {
        Some(m) => m@.len() as int,
        None => 0,
    };
    let d = f.flours@;
    crate::mix::lemma_mix_total_nonneg(mixins);
    assert(mt == mix_total(mixins));
    assert(den == ONE + h + sl + mt + y);
    assert(tf * den <= weight * ONE && weight * ONE < tf * den + den && 0 <= tf) by (nonlinear_arith)
        requires
            den >= ONE,
            0 <= weight,
            tf == weight * ONE / den,
    ;
    // What each fraction of the total flour gives.
    let a = shares_total(d, tf);
    let b = share(h, tf);
    let c = share(sl, tf);
    let ys = share(y, tf);
    let m = shares_total(mixins, tf);
    lemma_shares_total_bound(d, tf);
    lemma_shares_total_lower(d, tf);
    lemma_shares_total_bound(mixins, tf);
    lemma_shares_total_lower(mixins, tf);
    lemma_share_lower(h, tf);
    lemma_share_lower(sl, tf);
    lemma_share_lower(y, tf);
    // The recipe's weights add up to those shares.
    match f.mixins {
        Some(v) => lemma_scaled_total(r.mixins->Some_0@, v@, tf),
        None => {},
    }
    match f.starter {
        None => {
            lemma_scaled_total(r.flours@, d, tf);
        },
        Some(s) => {
            let sf = starter_flour(s.amount as int, s.hydration as int, tf);
            let sd = s.flour@;
            crate::starter::lemma_starter_parts(s.amount as int, s.hydration as int, tf);
            lemma_starter_only_empty(d, sd);
            lemma_share_nonneg(0, sf);
            assert(initial_pool(tf - sf, d, sf, sd) == tf);
            assert(crate::redistribution::settled(tf - sf, d, sf, sd) == (all_active(d.len()), tf));
            lemma_difference_total(r.flours@, d, sd, tf, sf);
            lemma_looked_up_shares(d, sd, sf);
            lemma_scaled_total(r.starter->Some_0.flours@, sd, sf);
        },
    }
    assert(recipe_total(r) == a + b + c + ys + m);
    assert(tf * den == tf * ONE + h * tf + sl * tf + y * tf + tf * mt) by (nonlinear_arith)
        requires
            den == ONE + h + sl + mt + y,
    ;
    assert(nm == mixins.len());
}

} // verus!
