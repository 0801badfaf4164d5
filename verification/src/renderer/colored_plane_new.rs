use vstd::prelude::*;
use vstd::std_specs::cmp::PartialEqSpec;

use crate::memory_new::{eq_by_index, round_trips, SlotId};

verus! {

/// The identifier of a colored plane instance.
#[derive(Default, Copy, Clone)]
pub struct ColoredPlaneInstanceId {
    value: u32,
}

impl ColoredPlaneInstanceId {
    /// The slot index held by the identifier.
    pub closed spec fn spec_value(&self) -> u32 {
        self.value
    }

    /// `==` on identifiers compares slot indices, and an identifier built
    /// from a slot index that fits in `u32` gives that index back.
    pub proof fn lemma_index_laws()
        ensures
            eq_by_index::<ColoredPlaneInstanceId>(),
            forall|i: usize| i <= u32::MAX ==> #[trigger] round_trips::<ColoredPlaneInstanceId>(i),
    {
    }
}

impl PartialEq for ColoredPlaneInstanceId {
    fn eq(&self, other: &Self) -> (r: bool) {
        self.value == other.value
    }
}

impl vstd::std_specs::cmp::PartialEqSpecImpl for ColoredPlaneInstanceId {
    open spec fn obeys_eq_spec() -> bool {
        true
    }

    open spec fn eq_spec(&self, other: &Self) -> bool {
        self.spec_value() == other.spec_value()
    }
}

impl SlotId for ColoredPlaneInstanceId {
    open spec fn spec_index(&self) -> usize {
        self.spec_value() as usize
    }

    closed spec fn spec_from_index(index: usize) -> Self {
        ColoredPlaneInstanceId { value: index as u32 }
    }

    fn from_index(index: usize) -> (id: Self) {
        ColoredPlaneInstanceId { value: #[verifier::truncate] (index as u32) }
    }

    fn index(&self) -> (index: usize) {
        self.value as usize
    }
}

} // verus!
