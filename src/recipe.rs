use vstd::prelude::*;
use crate::dough_spec::{DoughSpec, StarterSpec};
use crate::ingredients::CalculatedIngredient;
use crate::mix::{distinct_names, fractions_bounded, mix_total, scale_mix, scaled, share};
use crate::percent::{BakersPercent, ONE};
use crate::redistribution::{adjust_for_starter, redistributed};
use crate::starter::{
    calculated_starter, lemma_percent_water_bounded, lemma_starter_parts, percent_water_of,
    starter_flour, starter_water, CalculatedStarter, Starter,
};

verus! {

/// The largest target weight for which every intermediate weight fits in 64 bits.
pub const MAX_WEIGHT: u64 = 0x7fff_ffff_ffff_ffff;

/// A full dough formula, with or without a starter; every value a fraction of the total flour.
#[derive(Debug)]
pub struct Formula {
    pub name: String,
    pub hydration: u64,
    pub salt: u64,
    pub yeast: Option<u64>,
    pub flours: Vec<BakersPercent>,
    pub mixins: Option<Vec<BakersPercent>>,
    pub description: Option<String>,
    pub starter: Option<Starter>,
}

/// Why a formula cannot be built.
#[derive(Debug, PartialEq, Eq)]
pub enum FormulaError {
    /// The dough asks for a starter, and no starter build was given.
    MissingStarterSpec,
    /// A fraction exceeds one whole, a flour is named twice, the starter's
    /// flours exceed one whole, or the starter brings more water than the
    /// dough's hydration calls for.
    InvalidFormula,
}

/// The weights of a dough for a target weight.
#[derive(Debug)]
pub struct Recipe {
    pub name: String,
    pub total_weight: u64,
    pub flours: Vec<CalculatedIngredient>,
    pub mixins: Option<Vec<CalculatedIngredient>>,
    pub yeast: Option<CalculatedIngredient>,
    pub water: CalculatedIngredient,
    pub salt: CalculatedIngredient,
    pub starter: Option<CalculatedStarter>,
    pub description: Option<String>,
}

/// An ingredient with its weight as a fraction, in millionths, of a flour total.
#[derive(Debug)]
pub struct Proportion {
    pub name: String,
    pub fraction: u128,
}

/// A recipe seen as baker's percentages of the flour it truly holds: the
/// flours added plus the flour of the starter.
#[derive(Debug)]
pub struct DoughComposition {
    pub total_flour: u128,
    pub flours: Vec<Proportion>,
    pub prefermented: Vec<Proportion>,
    pub hydration: u128,
    pub salt: Proportion,
    pub yeast: Option<Proportion>,
    pub mixins: Option<Vec<Proportion>>,
}

/// `weight` as a fraction of `total`, in millionths, rounded down; zero where `total` is zero.
pub open spec fn proportion_of(weight: int, total: int) -> int {
    if total == 0 {
        0
    } else {
        weight * ONE / total
    }
}

/// The sum of the weights of a list of ingredients.
pub open spec fn weights_total(s: Seq<CalculatedIngredient>) -> int
    decreases s.len(),
{
    if s.len() == 0 {
        0
    } else {
        weights_total(s.drop_last()) + s.last().weight
    }
}

/// `p` holds each ingredient of `s`, in order, as a fraction of `total`.
pub open spec fn proportioned(p: Seq<Proportion>, s: Seq<CalculatedIngredient>, total: int) -> bool {
    &&& p.len() == s.len()
    &&& forall|i: int|
        0 <= i < s.len() ==> {
            &&& (#[trigger] p[i]).name@ == s[i].name@
            &&& p[i].fraction == proportion_of(s[i].weight as int, total)
        }
}

/// The flour a recipe truly holds: the flours added plus the starter's weight less its water.
pub open spec fn true_total_flour(r: Recipe) -> int {
    weights_total(r.flours@) + match r.starter {
        Some(s) => s.amount - s.water.weight,
        None => 0,
    }
}

/// The water a recipe truly holds: the water added plus the starter's water.
pub open spec fn true_water(r: Recipe) -> int {
    r.water.weight + match r.starter {
        Some(s) => s.water.weight as int,
        None => 0,
    }
}

/// The sum of the weights of a list of ingredients.
pub fn weights_sum(items: &Vec<CalculatedIngredient>) -> (r: u128)
    ensures
        r == weights_total(items@),
        r <= items@.len() * (u64::MAX as int),
{
    let mut sum: u128 = 0;
    let mut i: usize = 0;
    while i < items.len()
        invariant
            i <= items@.len(),
            sum == weights_total(items@.take(i as int)),
            sum <= i * (u64::MAX as int),
        decreases items@.len() - i,
    {
        assert(items@.take(i + 1).drop_last() =~= items@.take(i as int));
        sum = sum + items[i].weight as u128;
        i = i + 1;
    }
    assert(items@.take(i as int) =~= items@);
    sum
}

/// One ingredient as a fraction of a flour total.
fn proportion(item: &CalculatedIngredient, total: u128) -> (r: Proportion)
    ensures
        r.name@ == item.name@,
        r.fraction == proportion_of(item.weight as int, total as int),
{
    Proportion { name: item.name.clone(), fraction: ratio(item.weight as u128, total) }
}

/// `weight` as a fraction of `total`, in millionths.
fn ratio(weight: u128, total: u128) -> (r: u128)
    requires
        weight <= 2 * (u64::MAX as int),
    ensures
        r == proportion_of(weight as int, total as int),
{
    if total == 0 {
        0
    } else {
        assert(weight * ONE <= 2 * (u64::MAX as int) * ONE) by (nonlinear_arith)
            requires
                weight <= 2 * (u64::MAX as int),
        ;
        weight * ONE as u128 / total
    }
}

/// Each ingredient of a list as a fraction of a flour total.
fn proportions(items: &Vec<CalculatedIngredient>, total: u128) -> (r: Vec<Proportion>)
    ensures
        proportioned(r@, items@, total as int),
{
    let mut out: Vec<Proportion> = Vec::new();
    let mut i: usize = 0;
    while i < items.len()
        invariant
            i <= items@.len(),
            out@.len() == i,
            forall|j: int|
                0 <= j < i ==> {
                    &&& (#[trigger] out@[j]).name@ == items@[j].name@
                    &&& out@[j].fraction == proportion_of(items@[j].weight as int, total as int)
                },
        decreases items@.len() - i,
    {
        out.push(proportion(&items[i], total));
        i = i + 1;
    }
    out
}

impl Recipe {
    /// The recipe as fractions of the flour it truly holds; the water counts
    /// the starter's water too.
    pub fn view_composition(&self) -> (r: DoughComposition)
        requires
            self.starter matches Some(s) ==> s.water.weight <= s.amount,
        ensures
            r.total_flour == true_total_flour(*self),
            proportioned(r.flours@, self.flours@, r.total_flour as int),
            self.starter matches Some(s) ==> proportioned(
                r.prefermented@,
                s.flours@,
                r.total_flour as int,
            ),
            self.starter is None ==> r.prefermented@.len() == 0,
            r.hydration == proportion_of(true_water(*self), r.total_flour as int),
            r.salt.name@ == self.salt.name@,
            r.salt.fraction == proportion_of(self.salt.weight as int, r.total_flour as int),
            r.yeast is Some <==> self.yeast is Some,
            self.yeast matches Some(y) ==> {
                &&& r.yeast->Some_0.name@ == y.name@
                &&& r.yeast->Some_0.fraction == proportion_of(y.weight as int, r.total_flour as int)
            },
            r.mixins is Some <==> self.mixins is Some,
            self.mixins matches Some(m) ==> proportioned(
                r.mixins->Some_0@,
                m@,
                r.total_flour as int,
            ),
    {
        let count = self.flours.len();
        let added = weights_sum(&self.flours);
        let held: u64 = match &self.starter {
            Some(s) => s.amount - s.water.weight,
            None => 0,
        };
        proof {
            let n = count as int;
            assert(n * (u64::MAX as int) + u64::MAX <= u128::MAX) by (nonlinear_arith)
                requires
                    0 <= n <= usize::MAX,
                    usize::MAX <= u64::MAX,
            ;
        }
        let total_flour = added + held as u128;
        let starter_water: u64 = match &self.starter {
            Some(s) => s.water.weight,
            None => 0,
        };
        let prefermented = match &self.starter {
            Some(s) => proportions(&s.flours, total_flour),
            None => Vec::new(),
        };
        let mixins = match &self.mixins {
            Some(m) => Some(proportions(m, total_flour)),
            None => None,
        };
        let yeast = match &self.yeast {
            Some(y) => Some(proportion(y, total_flour)),
            None => None,
        };
        DoughComposition {
            total_flour,
            flours: proportions(&self.flours, total_flour),
            prefermented,
            hydration: ratio(self.water.weight as u128 + starter_water as u128, total_flour),
            salt: proportion(&self.salt, total_flour),
            yeast,
            mixins,
        }
    }
}

/// The sum of the fractions of an optional mix.
pub open spec fn optional_total(m: Option<Vec<BakersPercent>>) -> int {
    match m {
        Some(v) => mix_total(v@),
        None => 0,
    }
}

/// A starter that fits the dough: its fractions are at most one whole, its
/// flours sum to at most one whole, and the water it brings is at most the
/// dough's hydration.
pub open spec fn starter_fits(s: Starter, hydration: int) -> bool {
    &&& s.wf()
    &&& s.hydration <= ONE
    &&& mix_total(s.flour@) <= ONE
    &&& percent_water_of(s.hydration as int) * s.amount <= hydration * ONE
}

/// The starter that a dough and an optional starter build make.
pub open spec fn starter_of(d: DoughSpec, s: Option<StarterSpec>) -> Option<Starter> {
    match (d.starter, s) {
        (Some(amount), Some(spec)) => Some(
            Starter { amount, flour: spec.flour, hydration: spec.hydration },
        ),
        _ => None,
    }
}

/// The formula that a dough and an optional starter build make.
pub open spec fn formula_of(d: DoughSpec, s: Option<StarterSpec>) -> Formula {
    Formula {
        name: d.name,
        hydration: d.hydration,
        salt: d.salt,
        yeast: d.yeast,
        flours: d.flour,
        mixins: d.mixins,
        description: d.description,
        starter: starter_of(d, s),
    }
}

/// `r` is the recipe that the formula `f` gives for the target weight `weight`.
pub open spec fn converted(f: Formula, weight: int, r: Recipe) -> bool {
    let tf = f.total_flour(weight);
    &&& r.name == f.name
    &&& r.description == f.description
    &&& r.total_weight == weight
    &&& r.salt.name@ == seq!['S', 'a', 'l', 't']
    &&& r.salt.weight == share(f.salt as int, tf)
    &&& r.water.name@ == seq!['W', 'a', 't', 'e', 'r']
    &&& r.water.weight == f.water_for(tf)
    &&& (r.yeast is Some <==> f.yeast is Some)
    &&& (f.yeast matches Some(y) ==> {
        &&& r.yeast->Some_0.name@ == seq!['Y', 'e', 'a', 's', 't']
        &&& r.yeast->Some_0.weight == share(y as int, tf)
    })
    &&& (r.mixins is Some <==> f.mixins is Some)
    &&& (f.mixins matches Some(m) ==> scaled(r.mixins->Some_0@, m@, tf))
    &&& f.flours_for(r.flours@, tf)
    &&& (r.starter is Some <==> f.starter is Some)
    &&& (f.starter matches Some(s) ==> calculated_starter(
        r.starter->Some_0,
        s.amount as int,
        s.hydration as int,
        s.flour@,
        tf,
    ))
}

proof fn lemma_water_fits(pw: int, amount: int, hydration: int, total_flour: int)
    requires
        0 <= pw,
        0 <= amount,
        0 <= hydration,
        0 <= total_flour,
        pw * amount <= hydration * ONE,
    ensures
        share(pw, share(amount, total_flour)) <= share(hydration, total_flour),
{
    let b = share(amount, total_flour);
    crate::mix::lemma_share_nonneg(amount, total_flour);
    assert(pw * (ONE * b) <= pw * (amount * total_flour)) by (nonlinear_arith)
        requires
            0 <= pw,
            ONE * b <= amount * total_flour,
    ;
    assert(pw * (amount * total_flour) <= (hydration * ONE) * total_flour) by (nonlinear_arith)
        requires
            pw * amount <= hydration * ONE,
            0 <= total_flour,
    ;
    assert(pw * b <= hydration * total_flour) by (nonlinear_arith)
        requires
            pw * (ONE * b) <= (hydration * ONE) * total_flour,
    ;
    assert((pw * b) / (ONE as int) <= (hydration * total_flour) / (ONE as int)) by (nonlinear_arith)
        requires
            pw * b <= hydration * total_flour,
    ;
}

/// The sum of the fractions of an optional mix.
pub fn optional_mix_total(m: &Option<Vec<BakersPercent>>) -> (r: u128)
    requires
        m matches Some(v) ==> fractions_bounded(v@),
    ensures
        r == optional_total(*m),
        r <= usize::MAX as int * ONE,
{
    match m {
        None => 0,
        Some(v) => {
            let mut sum: u128 = 0;
            let mut i: usize = 0;
            while i < v.len()
                invariant
                    i <= v@.len(),
                    fractions_bounded(v@),
                    sum == mix_total(v@.take(i as int)),
                    sum <= i * ONE,
                decreases v@.len() - i,
            {
                assert(v@.take(i + 1).drop_last() =~= v@.take(i as int));
                sum = sum + v[i].percent as u128;
                i = i + 1;
            }
            assert(v@.take(i as int) =~= v@);
            sum
        },
    }
}

impl Formula {
    /// The formula is well formed: every fraction is at most one whole, no
    /// flour is named twice, and the starter, if any, fits the dough.
    pub open spec fn wf(&self) -> bool {
        &&& self.hydration <= ONE
        &&& self.salt <= ONE
        &&& (self.yeast matches Some(y) ==> y <= ONE)
        &&& fractions_bounded(self.flours@)
        &&& distinct_names(self.flours@)
        &&& (self.mixins matches Some(m) ==> fractions_bounded(m@))
        &&& (self.starter matches Some(s) ==> starter_fits(s, self.hydration as int))
    }

    /// `1 + hydration + salt + mixins + yeast`, in millionths: what a target
    /// weight is divided by to give the total flour.
    pub open spec fn denominator(&self) -> int {
        ONE + self.hydration + self.salt + optional_total(self.mixins) + match self.yeast {
            Some(y) => y as int,
            None => 0,
        }
    }

    /// The total flour weight for a target weight.
    pub open spec fn total_flour(&self, weight: int) -> int {
        weight * ONE / self.denominator()
    }

    /// The water to add for a total flour weight: the dough's hydration less
    /// what the starter already brings.
    pub open spec fn water_for(&self, total_flour: int) -> int {
        share(self.hydration as int, total_flour) - match self.starter {
            Some(s) => starter_water(s.amount as int, s.hydration as int, total_flour),
            None => 0,
        }
    }

    /// `r` holds the flours to add for a total flour weight: each flour's
    /// fraction of it, or, with a starter, the redistribution of what the
    /// dough still owes once the starter's flour is taken off.
    pub open spec fn flours_for(&self, r: Seq<CalculatedIngredient>, total_flour: int) -> bool {
        match self.starter {
            None => scaled(r, self.flours@, total_flour),
            Some(s) => {
                let sf = starter_flour(s.amount as int, s.hydration as int, total_flour);
                redistributed(r, total_flour - sf, self.flours@, sf, s.flour@)
            },
        }
    }

    /// Builds a formula from a dough and, where the dough asks for one, a starter build.
    pub fn new(dough_spec: DoughSpec, maybe_starter_spec: Option<StarterSpec>) -> (r: Result<
        Formula,
        FormulaError,
    >)
        ensures
            dough_spec.starter is Some && maybe_starter_spec is None ==> r == Err::<
                Formula,
                FormulaError,
            >(FormulaError::MissingStarterSpec),
            !(dough_spec.starter is Some && maybe_starter_spec is None) ==> {
                &&& r is Ok <==> formula_of(dough_spec, maybe_starter_spec).wf()
                &&& r is Err ==> r->Err_0 == FormulaError::InvalidFormula
            },
            r matches Ok(f) ==> f == formula_of(dough_spec, maybe_starter_spec),
    {
        let ghost d = dough_spec;
        let ghost s = maybe_starter_spec;
        let starter: Option<Starter> = match (dough_spec.starter, maybe_starter_spec) {
            (Some(amount), Some(spec)) => Some(
                Starter { amount, flour: spec.flour, hydration: spec.hydration },
            ),
            (Some(_), None) => {
                return Err(FormulaError::MissingStarterSpec);
            },
            _ => None,
        };
        let formula = Formula {
            name: dough_spec.name,
            flours: dough_spec.flour,
            hydration: dough_spec.hydration,
            salt: dough_spec.salt,
            description: dough_spec.description,
            mixins: dough_spec.mixins,
            starter,
            yeast: dough_spec.yeast,
        };
        assert(formula == formula_of(d, s));
        if formula.is_well_formed() {
            Ok(formula)
        } else {
            Err(FormulaError::InvalidFormula)
        }
    }

    /// The water to add for a total flour weight.
    fn calculate_water(&self, total_flour: u64) -> (r: u64)
        requires
            self.wf(),
        ensures
            r == self.water_for(total_flour as int),
    {
        proof {
            crate::mix::lemma_share_bounds(self.hydration as int, total_flour as int);
        }
        let base = ((self.hydration as u128 * total_flour as u128) / ONE as u128) as u64;
        match &self.starter {
            Some(starter) => {
                proof {
                    lemma_percent_water_bounded(starter.hydration as int);
                    lemma_water_fits(
                        percent_water_of(starter.hydration as int),
                        starter.amount as int,
                        self.hydration as int,
                        total_flour as int,
                    );
                }
                base - starter.water_weight(total_flour)
            },
            None => base,
        }
    }

    /// Each mix-in with its fraction of the total flour.
    fn calculate_mixins(&self, total_flour: u64) -> (r: Option<Vec<CalculatedIngredient>>)
        requires
            self.wf(),
        ensures
            r is Some <==> self.mixins is Some,
            self.mixins matches Some(m) ==> scaled(r->Some_0@, m@, total_flour as int),
    {
        match &self.mixins {
            Some(m) => Some(scale_mix(m, total_flour)),
            None => None,
        }
    }

    /// The flours to add for a total flour weight.
    fn calculate_flour(&self, total_flour: u64) -> (r: Vec<CalculatedIngredient>)
        requires
            self.wf(),
            total_flour <= MAX_WEIGHT,
        ensures
            self.flours_for(r@, total_flour as int),
    {
        match &self.starter {
            Some(starter) => {
                let starter_amt = starter.flour_weight(total_flour);
                let flour_amt = total_flour - starter_amt;
                adjust_for_starter(flour_amt, &self.flours, starter_amt, &starter.flour)
            },
            None => scale_mix(&self.flours, total_flour),
        }
    }

    /// Converts the formula into the recipe for a target weight.
    pub fn into_recipe(self, weight: u64) -> (r: Recipe)
        requires
            self.wf(),
            weight <= MAX_WEIGHT,
        ensures
            converted(self, weight as int, r),
    {
        let extra = optional_mix_total(&self.mixins);
        let yeast_fraction: u64 = match self.yeast {
            Some(y) => y,
            None => 0,
        };
        let denominator: u128 = ONE as u128 + self.hydration as u128 + self.salt as u128 + extra
            + yeast_fraction as u128;
        proof {
            let d = denominator as int;
            let w = weight as int;
            assert((w * ONE) / d <= w) by (nonlinear_arith)
                requires
                    d >= ONE,
                    w >= 0,
            ;
        }
        let total_flour = ((weight as u128 * ONE as u128) / denominator) as u64;
        proof {
            crate::mix::lemma_share_bounds(self.salt as int, total_flour as int);
            crate::mix::lemma_share_bounds(yeast_fraction as int, total_flour as int);
        }
        let salt = CalculatedIngredient {
            name: "Salt".to_string(),
            weight: ((self.salt as u128 * total_flour as u128) / ONE as u128) as u64,
        };
        let water = CalculatedIngredient {
            name: "Water".to_string(),
            weight: self.calculate_water(total_flour),
        };
        let yeast = match self.yeast {
            Some(y) => Some(
                CalculatedIngredient {
                    name: "Yeast".to_string(),
                    weight: ((y as u128 * total_flour as u128) / ONE as u128) as u64,
                },
            ),
            None => None,
        };
        let mixins = self.calculate_mixins(total_flour);
        let flours = self.calculate_flour(total_flour);
        let ghost f = self;
        let starter = match self.starter {
            Some(s) => Some(s.into_calculated(total_flour)),
            None => None,
        };
        let r = Recipe {
            name: self.name,
            total_weight: weight,
            flours,
            mixins,
            yeast,
            water,
            salt,
            starter,
            description: self.description,
        };
        proof {
            reveal_strlit("Salt");
            reveal_strlit("Water");
            reveal_strlit("Yeast");
            assert(r.salt.name@ =~= seq!['S', 'a', 'l', 't']);
            assert(r.water.name@ =~= seq!['W', 'a', 't', 'e', 'r']);
            if r.yeast is Some {
                assert(r.yeast->Some_0.name@ =~= seq!['Y', 'e', 'a', 's', 't']);
            }
        }
        r
    }

    /// Whether the formula is well formed.
    pub fn is_well_formed(&self) -> (r: bool)
        ensures
            r == self.wf(),
    {
        if self.hydration > ONE || self.salt > ONE {
            return false;
        }
        if let Some(y) = self.yeast {
            if y > ONE {
                return false;
            }
        }
        if !all_bounded(&self.flours) || !has_distinct_names(&self.flours) {
            return false;
        }
        if let Some(m) = &self.mixins {
            if !all_bounded(m) {
                return false;
            }
        }
        match &self.starter {
            Some(s) => {
                if s.amount > ONE || s.hydration > ONE || !all_bounded(&s.flour) || !total_within_one(
                    &s.flour,
                ) {
                    return false;
                }
                let pw = s.percent_water();
                assert((pw as u128) * (s.amount as u128) <= (ONE as u128) * (ONE as u128)) by (
                nonlinear_arith)
                    requires
                        pw <= ONE,
                        s.amount <= ONE,
                ;
                (pw as u128) * (s.amount as u128) <= (self.hydration as u128) * (ONE as u128)
            },
            None => true,
        }
    }
}

/// Whether every fraction of the mix is at most one whole.
pub fn all_bounded(m: &Vec<BakersPercent>) -> (r: bool)
    ensures
        r == fractions_bounded(m@),
{
    let mut i: usize = 0;
    while i < m.len()
        invariant
            i <= m@.len(),
            forall|j: int| 0 <= j < i ==> (#[trigger] m@[j]).percent <= ONE,
        decreases m@.len() - i,
    {
        if m[i].percent > ONE {
            return false;
        }
        i = i + 1;
    }
    true
}

/// Whether no two entries of the mix share a name.
pub fn has_distinct_names(m: &Vec<BakersPercent>) -> (r: bool)
    ensures
        r == distinct_names(m@),
{
    let mut j: usize = 0;
    while j < m.len()
        invariant
            j <= m@.len(),
            forall|a: int, b: int| 0 <= a < b < j ==> (#[trigger] m@[a]).name@ != (#[trigger] m@[b]).name@,
        decreases m@.len() - j,
    {
        let mut i: usize = 0;
        while i < j
            invariant
                i <= j < m@.len(),
                forall|a: int| 0 <= a < i ==> (#[trigger] m@[a]).name@ != m@[j as int].name@,
            decreases j - i,
        {
            if m[i].name == m[j].name {
                return false;
            }
            i = i + 1;
        }
        j = j + 1;
    }
    true
}

/// Whether the fractions of the mix sum to at most one whole.
pub fn total_within_one(m: &Vec<BakersPercent>) -> (r: bool)
    ensures
        r == (mix_total(m@) <= ONE),
{
    let mut sum: u64 = 0;
    let mut i: usize = 0;
    while i < m.len()
        invariant
            i <= m@.len(),
            sum == mix_total(m@.take(i as int)),
            sum <= ONE,
        decreases m@.len() - i,
    {
        assert(m@.take(i + 1).drop_last() =~= m@.take(i as int));
        if m[i].percent > ONE - sum {
            proof {
                crate::mix::lemma_mix_total_prefix(m@, i as int + 1);
            }
            return false;
        }
        sum = sum + m[i].percent;
        i = i + 1;
    }
    assert(m@.take(i as int) =~= m@);
    true
}

} // verus!
