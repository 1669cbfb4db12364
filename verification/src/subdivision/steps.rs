use vstd::prelude::*;

verus! {

/// The most subdivision rounds a planet may ask for.
pub const MAX_SUBDIVISION_STEPS: usize = 8;

/// The rounds a planet gets when it asks for none in particular.
pub const DEFAULT_STEPS: usize = 3;

/// A number of subdivision rounds, at most `MAX_SUBDIVISION_STEPS`.
#[derive(Debug, Clone, Copy, PartialEq, Eq, Structural)]
pub struct Steps(usize);

/// Why a number of rounds was refused.
#[derive(Debug, Clone, PartialEq, Eq, Structural)]
pub enum StepsError {
    ExceedsMaximum { steps: usize, max: usize },
}

impl View for Steps {
    type V = usize;

    closed spec fn view(&self) -> usize {
        self.0
    }
}

impl Steps {
    #[verifier::type_invariant]
    spec fn inv(self) -> bool {
        self.0 <= MAX_SUBDIVISION_STEPS
    }

    /// `steps` rounds, refused above `MAX_SUBDIVISION_STEPS`.
    pub fn new(steps: usize) -> (result: Result<Steps, StepsError>)
        ensures
            result is Ok <==> steps <= MAX_SUBDIVISION_STEPS,
            result matches Ok(s) ==> s@ == steps,
            result matches Err(e) ==> e == (StepsError::ExceedsMaximum { steps, max: MAX_SUBDIVISION_STEPS }),
    {
        if steps > MAX_SUBDIVISION_STEPS {
            return Err(StepsError::ExceedsMaximum { steps, max: MAX_SUBDIVISION_STEPS });
        }
        Ok(Steps(steps))
    }

    /// The number of rounds.
    pub fn value(&self) -> (value: usize)
        ensures
            value == self@,
            value <= MAX_SUBDIVISION_STEPS,
    {
        proof {
            use_type_invariant(self);
        }
        self.0
    }
}

impl Default for Steps {
    /// `DEFAULT_STEPS` rounds.
    fn default() -> (steps: Steps)
        ensures
            steps@ == DEFAULT_STEPS,
    {
        Steps(DEFAULT_STEPS)
    }
}

} // verus!
