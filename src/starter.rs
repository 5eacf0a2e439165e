use vstd::prelude::*;
use crate::ingredients::CalculatedIngredient;
use crate::mix::{fractions_bounded, lemma_share_bounds, scale_mix, scaled, share};
use crate::percent::{BakersPercent, ONE};

verus! {

/// A pre-fermented build: the fraction of the total flour it holds, its own
/// flour mix, and its hydration (water over flour, as a fraction).
#[derive(Debug)]
pub struct Starter {
    pub amount: u64,
    pub flour: Vec<BakersPercent>,
    pub hydration: u64,
}

/// The absolute weights of a starter.
#[derive(Debug)]
pub struct CalculatedStarter {
    pub amount: u64,
    pub water: CalculatedIngredient,
    pub flours: Vec<CalculatedIngredient>,
}

/// `1 / (1 + hydration)`, in millionths, rounded down.
pub open spec fn percent_water_of(hydration: int) -> int {
    (ONE * ONE) as int / (ONE + hydration)
}

/// The starter's absolute weight for a total flour weight.
pub open spec fn starter_weight(amount: int, total_flour: int) -> int {
    share(amount, total_flour)
}

/// The starter's water for a total flour weight.
pub open spec fn starter_water(amount: int, hydration: int, total_flour: int) -> int {
    share(percent_water_of(hydration), starter_weight(amount, total_flour))
}

/// The starter's flour for a total flour weight: its weight less its water.
pub open spec fn starter_flour(amount: int, hydration: int, total_flour: int) -> int {
    starter_weight(amount, total_flour) - starter_water(amount, hydration, total_flour)
}

pub proof fn lemma_percent_water_bounded(hydration: int)
    requires
        0 <= hydration,
    ensures
        0 <= percent_water_of(hydration) <= ONE,
{
    assert(0 <= (ONE * ONE) as int / (ONE + hydration) <= ONE) by (nonlinear_arith)
        requires
            0 <= hydration,
    ;
}

pub proof fn lemma_starter_parts(amount: int, hydration: int, total_flour: int)
    requires
        0 <= amount <= ONE,
        0 <= hydration,
        0 <= total_flour,
    ensures
        0 <= starter_weight(amount, total_flour) <= total_flour,
        0 <= starter_water(amount, hydration, total_flour) <= starter_weight(amount, total_flour),
        0 <= starter_flour(amount, hydration, total_flour) <= starter_weight(amount, total_flour),
{
    lemma_share_bounds(amount, total_flour);
    lemma_percent_water_bounded(hydration);
    lemma_share_bounds(percent_water_of(hydration), starter_weight(amount, total_flour));
}

/// `r` holds the weights of a starter of this amount, hydration and flour mix
/// for a total flour weight.
pub open spec fn calculated_starter(
    r: CalculatedStarter,
    amount: int,
    hydration: int,
    flour: Seq<BakersPercent>,
    total_flour: int,
) -> bool {
    &&& r.amount == starter_weight(amount, total_flour)
    &&& r.water.name@ == seq!['W', 'a', 't', 'e', 'r']
    &&& r.water.weight == starter_water(amount, hydration, total_flour)
    &&& scaled(r.flours@, flour, starter_flour(amount, hydration, total_flour))
}

impl Starter {
    /// The starter is well formed: its amount and flour fractions are each at most one whole.
    pub open spec fn wf(&self) -> bool {
        &&& self.amount <= ONE
        &&& fractions_bounded(self.flour@)
    }

    /// The share of the starter's weight that is flour: `1 - percent_water()`.
    pub fn percent_flour(&self) -> (r: u64)
        ensures
            r == ONE - percent_water_of(self.hydration as int),
            r <= ONE,
    {
        ONE - self.percent_water()
    }

    /// `1 / (1 + hydration)`, in millionths.
    pub fn percent_water(&self) -> (r: u64)
        ensures
            r == percent_water_of(self.hydration as int),
            r <= ONE,
    {
        proof {
            lemma_percent_water_bounded(self.hydration as int);
        }
        let whole: u128 = (ONE as u128) * (ONE as u128);
        (whole / (ONE as u128 + self.hydration as u128)) as u64
    }

    /// The water the starter holds for a total flour weight.
    pub fn water_weight(&self, total_flour: u64) -> (r: u64)
        requires
            self.wf(),
        ensures
            r == starter_water(self.amount as int, self.hydration as int, total_flour as int),
            r <= starter_weight(self.amount as int, total_flour as int),
    {
        proof {
            lemma_starter_parts(self.amount as int, self.hydration as int, total_flour as int);
        }
        let amount = ((self.amount as u128 * total_flour as u128) / ONE as u128) as u64;
        ((self.percent_water() as u128 * amount as u128) / ONE as u128) as u64
    }

    /// The flour the starter holds for a total flour weight.
    pub fn flour_weight(&self, total_flour: u64) -> (r: u64)
        requires
            self.wf(),
        ensures
            r == starter_flour(self.amount as int, self.hydration as int, total_flour as int),
            r <= total_flour,
    {
        proof {
            lemma_starter_parts(self.amount as int, self.hydration as int, total_flour as int);
        }
        let amount = ((self.amount as u128 * total_flour as u128) / ONE as u128) as u64;
        amount - self.water_weight(total_flour)
    }

    /// The starter's weights for a total flour weight: its weight, its water,
    /// and each of its flours' share of what is not water.
    pub fn into_calculated(self, total_flour: u64) -> (r: CalculatedStarter)
        requires
            self.wf(),
        ensures
            calculated_starter(
                r,
                self.amount as int,
                self.hydration as int,
                self.flour@,
                total_flour as int,
            ),
    {
        proof {
            lemma_starter_parts(self.amount as int, self.hydration as int, total_flour as int);
        }
        let amount = ((self.amount as u128 * total_flour as u128) / ONE as u128) as u64;
        let water = ((self.percent_water() as u128 * amount as u128) / ONE as u128) as u64;
        let flour_weight = amount - water;
        let flours = scale_mix(&self.flour, flour_weight);
        let r = CalculatedStarter {
            amount,
            water: CalculatedIngredient { name: "Water".to_string(), weight: water },
            flours,
        };
        proof {
            reveal_strlit("Water");
            assert(r.water.name@ =~= seq!['W', 'a', 't', 'e', 'r']);
        }
        r
    }
}

} // verus!
