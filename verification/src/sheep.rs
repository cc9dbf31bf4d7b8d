use vstd::prelude::*;

verus! {

/// Smallest weight, in micrograms, that a freshly created sheep may have.
pub const MIN_WEIGHT_UG: u64 = 80_000_000_000;

/// Largest weight, in micrograms, that a freshly created sheep may have.
pub const MAX_WEIGHT_UG: u64 = 160_000_000_000;

/// The various units in which a [`Weight`] can be read.
#[derive(Debug, Clone, Copy, PartialEq, Eq, Structural)]
pub enum WeightUnit {
    Micrograms,
    Milligrams,
    Grams,
    Kilograms,
}

/// A weight. Internally stored as a [`u64`] representing micrograms.
#[derive(Debug, Clone, Copy, PartialEq, Eq, Structural, PartialOrd, Ord)]
pub struct Weight(u64);

impl View for Weight {
    type V = u64;

    closed spec fn view(&self) -> u64 {
        self.0
    }
}

impl WeightUnit {
    /// The largest unit in which the weight still reads as a number above one:
    /// the unit a display layer should pick for it.
    pub open spec fn spec_best_unit(weight: Weight) -> WeightUnit {
        if weight@ > 1_000_000_000 {
            WeightUnit::Kilograms
        } else if weight@ > 1_000_000 {
            WeightUnit::Grams
        } else if weight@ > 1_000 {
            WeightUnit::Milligrams
        } else {
            WeightUnit::Micrograms
        }
    }

    /// Pick the unit best suited to read `weight` in.
    pub fn best_unit(weight: &Weight) -> (r: Self)
        ensures
            r == WeightUnit::spec_best_unit(*weight),
    {
        if weight.0 > 1_000_000_000 {
            WeightUnit::Kilograms
        } else if weight.0 > 1_000_000 {
            WeightUnit::Grams
        } else if weight.0 > 1_000 {
            WeightUnit::Milligrams
        } else {
            WeightUnit::Micrograms
        }
    }
}

impl Weight {
    /// Instantiate a [`Weight`] from a [`u64`] in micrograms.
    pub fn from_ug(weight: u64) -> (r: Self)
        ensures
            r@ == weight,
    {
        Weight(weight)
    }

    /// Return the [`Weight`] as a [`u64`] in micrograms.
    pub fn as_ug(&self) -> (r: u64)
        ensures
            r == self@,
    {
        self.0
    }

    /// The sum of two weights.
    pub fn plus(self, rhs: Self) -> (r: Self)
        requires
            self@ + rhs@ <= u64::MAX,
        ensures
            r@ == self@ + rhs@,
    {
        Weight(self.0 + rhs.0)
    }
}

/// The identity of a sheep: the number tattooed in its ear.
#[derive(Debug, Clone, Copy, PartialEq, Eq, Structural, Hash)]
pub struct Tattoo(pub u64);

/// A sheep: an identity and a weight.
#[derive(Debug, Clone, Copy)]
pub struct Sheep {
    pub tattoo: Tattoo,
    pub weight: Weight,
}

/// Sheep equality is driven by [`Tattoo`] equality alone: two sheep with the
/// same tattoo are the same sheep, whatever their weights.
impl PartialEq for Sheep {
    fn eq(&self, other: &Self) -> (r: bool) {
        self.tattoo == other.tattoo
    }
}

impl Eq for Sheep {}

impl vstd::std_specs::cmp::PartialEqSpecImpl for Sheep {
    open spec fn obeys_eq_spec() -> bool {
        true
    }

    open spec fn eq_spec(&self, other: &Self) -> bool {
        self.tattoo == other.tattoo
    }
}

} // verus!
