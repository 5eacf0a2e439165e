use vstd::prelude::*;

verus! {

/// An ingredient with its absolute weight, in thousandths of the mass unit.
#[derive(Debug)]
pub struct CalculatedIngredient {
    pub name: String,
    pub weight: u64,
}

impl PartialEq for CalculatedIngredient {
    fn eq(&self, other: &Self) -> (r: bool)
        ensures
            r == (self.name@ == other.name@ && self.weight == other.weight),
    {
        self.name == other.name && self.weight == other.weight
    }
}

impl vstd::std_specs::cmp::PartialEqSpecImpl for CalculatedIngredient {
    open spec fn obeys_eq_spec() -> bool {
        true
    }

    open spec fn eq_spec(&self, other: &CalculatedIngredient) -> bool {
        self.name@ == other.name@ && self.weight == other.weight
    }
}

} // verus!
