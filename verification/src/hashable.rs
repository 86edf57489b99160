//! The change-tracking vocabulary shared by sections and metafiles.

use vstd::prelude::*;

verus! {

/// Outcome of accepting a piece of content as its new baseline.
pub enum ChangeState {
    Changed,
    Unchanged,
}

/// Implemented by values that carry a content digest and an accepted
/// baseline digest: `finalize` recomputes the current digest, `compile`
/// accepts the current content as the new baseline.
///
/// The contracts live on the inherent methods of each implementing type;
/// the trait only fixes the shared vocabulary.
pub trait Hashable {
    fn finalize(&mut self);

    fn compile(&mut self) -> ChangeState;
}

impl From<ChangeState> for bool {
    /// `true` exactly when something changed.
    fn from(result: ChangeState) -> (r: bool)
        ensures
            r == (result is Changed),
    {
        match result {
            ChangeState::Changed => true,
            ChangeState::Unchanged => false,
        }
    }
}

impl vstd::std_specs::convert::FromSpecImpl<ChangeState> for bool {
    open spec fn obeys_from_spec() -> bool {
        true
    }

    open spec fn from_spec(v: ChangeState) -> bool {
        v is Changed
    }
}

} // verus!
