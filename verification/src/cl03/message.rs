//! CL03 messages.
use crate::integer::Integer;
use vstd::prelude::*;

verus! {

/// A message signed under CL03: an integer.
pub struct CL03Message {
    pub value: Integer,
}

impl CL03Message {
    pub fn new(value: Integer) -> (r: CL03Message)
        ensures
            r.value == value,
    {
        CL03Message { value }
    }
}

/// The values of the messages.
pub open spec fn cl03_message_values(m: Seq<CL03Message>) -> Seq<int> {
    m.map_values(|x: CL03Message| x.value.value())
}

} // verus!
