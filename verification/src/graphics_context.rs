use vstd::prelude::*;

verus! {

/// When data written to the GPU should be submitted.
#[derive(Clone, Copy, Debug, PartialEq, Eq, Structural)]
pub enum LoadToGPUSchedule {
    Immediately,
    NextFrame,
}

} // verus!
