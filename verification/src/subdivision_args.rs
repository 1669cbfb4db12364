use vstd::prelude::*;

use crate::mesh::Mesh;
use crate::subdivision::steps::Steps;
use crate::subdivision::subdivision_args::NoUpdate;
use crate::subdivision_mode::SubdivisionMode;

verus! {

/// Shown each mesh that a subdivision round produces, with the round's
/// number (from 1).
pub trait UpdateCallback<P>: Sized {
    /// Shows the callback the mesh of round `step`; gives back the callback
    /// as it is after looking.
    fn update(self, mesh: &Mesh<P>, step: usize) -> Self;
}

impl<P> UpdateCallback<P> for NoUpdate {
    fn update(self, mesh: &Mesh<P>, step: usize) -> Self {
        self
    }
}

/// How to subdivide: how many rounds, in which mode, and whom to show each
/// round's mesh.
pub struct SubdivisionArgs<C> {
    pub(crate) steps: Steps,
    pub(crate) mode: SubdivisionMode,
    pub(crate) update_cb: Option<C>,
}

impl<C> SubdivisionArgs<C> {
    pub closed spec fn spec_steps(&self) -> Steps {
        self.steps
    }

    pub closed spec fn spec_mode(&self) -> SubdivisionMode {
        self.mode
    }

    pub closed spec fn spec_update_cb(&self) -> Option<C> {
        self.update_cb
    }

    /// The arguments given, with the defaults for those left out.
    pub fn new(steps: Option<Steps>, mode: Option<SubdivisionMode>, update_cb: Option<C>) -> (args: SubdivisionArgs<C>)
        ensures
            args.spec_steps()@ == (match steps {
                Some(s) => s@,
                None => crate::subdivision::steps::DEFAULT_STEPS,
            }),
            args.spec_mode() == (match mode {
                Some(m) => m,
                None => SubdivisionMode::UniformRedSplit,
            }),
            args.spec_update_cb() == update_cb,
    {
        let steps = match steps {
            Some(s) => s,
            None => Steps::default(),
        };
        let mode = match mode {
            Some(m) => m,
            None => SubdivisionMode::default(),
        };
        SubdivisionArgs { steps, mode, update_cb }
    }

    /// The number of rounds.
    pub fn steps(&self) -> (steps: Steps)
        ensures
            steps == self.spec_steps(),
    {
        self.steps
    }

    /// The callback, given up by the arguments.
    pub(crate) fn into_update_cb(self) -> (update_cb: Option<C>)
        ensures
            update_cb == self.spec_update_cb(),
    {
        self.update_cb
    }

    /// The splitting mode.
    pub fn mode(&self) -> (mode: SubdivisionMode)
        ensures
            mode == self.spec_mode(),
    {
        self.mode
    }
}

} // verus!
