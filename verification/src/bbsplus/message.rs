//! BBS+ messages.
use crate::curve::Scalar;
use vstd::prelude::*;

verus! {

/// A message signed under BBS+: a scalar.
pub struct BBSplusMessage {
    pub value: Scalar,
}

impl BBSplusMessage {
    pub open spec fn wf(&self) -> bool {
        self.value.wf()
    }

    /// Whether the message is a canonical scalar.
    pub fn is_well_formed(&self) -> (r: bool)
        ensures
            r == self.wf(),
    {
        self.value.is_well_formed()
    }
}

} // verus!
