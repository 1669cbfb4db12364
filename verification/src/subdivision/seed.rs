use vstd::prelude::*;

verus! {

/// The seed from which a planet's randomness is drawn.
#[derive(Debug, Clone, Copy, PartialEq, Eq, Structural)]
pub struct Seed(u64);

impl View for Seed {
    type V = u64;

    closed spec fn view(&self) -> u64 {
        self.0
    }
}

impl Seed {
    /// The seed's number.
    pub fn value(&self) -> (value: u64)
        ensures
            value == self@,
    {
        self.0
    }
}

impl Default for Seed {
    /// The seed 0.
    fn default() -> (seed: Seed)
        ensures
            seed@ == 0,
    {
        Seed(0)
    }
}

impl From<u64> for Seed {
    /// The seed with this number.
    fn from(value: u64) -> (seed: Seed)
        ensures
            seed@ == value,
    {
        Seed(value)
    }
}

impl vstd::std_specs::convert::FromSpecImpl<u64> for Seed {
    open spec fn obeys_from_spec() -> bool {
        true
    }

    closed spec fn from_spec(value: u64) -> Seed {
        Seed(value)
    }
}

} // verus!
