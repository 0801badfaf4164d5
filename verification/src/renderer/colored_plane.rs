use vstd::prelude::*;
use vstd::std_specs::cmp::PartialEqSpec;

use crate::memory::InstanceId;

verus! {

/// The identifier of a colored plane instance.
#[derive(Default, Copy, Clone)]
pub struct ColoredPlaneInstanceId {
    value: u32,
}

impl ColoredPlaneInstanceId {
    /// The slot index held by the identifier.
    pub closed spec fn spec_value(&self) -> u32 {
        self.value
    }

    /// The identifier of slot `index`, truncated to `u32`; it gives back an
    /// index that fits in `u32`.
    pub fn from_index(index: usize) -> (id: Self)
        ensures
            id.spec_value() == index as u32,
            index <= u32::MAX ==> id.spec_index() == index,
    {
        ColoredPlaneInstanceId { value: #[verifier::truncate] (index as u32) }
    }

    /// `==` on identifiers compares slot indices.
    pub proof fn lemma_index_laws()
        ensures
            ColoredPlaneInstanceId::obeys_eq_spec(),
            forall|a: ColoredPlaneInstanceId, b: ColoredPlaneInstanceId| #[trigger] a.eq_spec(&b) <==> a.spec_index() == b.spec_index(),
    {
    }
}

impl PartialEq for ColoredPlaneInstanceId {
    fn eq(&self, other: &Self) -> (r: bool) {
        self.value == other.value
    }
}

impl vstd::std_specs::cmp::PartialEqSpecImpl for ColoredPlaneInstanceId {
    open spec fn obeys_eq_spec() -> bool {
        true
    }

    open spec fn eq_spec(&self, other: &Self) -> bool {
        self.spec_value() == other.spec_value()
    }
}

impl InstanceId for ColoredPlaneInstanceId {
    open spec fn spec_index(&self) -> usize {
        self.spec_value() as usize
    }

    fn index(&self) -> (index: usize) {
        self.value as usize
    }
}

} // verus!
