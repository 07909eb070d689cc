//! The tag that marks the entities created from one prefab.

use vstd::prelude::*;

verus! {

/// Tag placed on entities created by the prefab system.
///
/// The tag value match the tag value of the prefab the entity was created
/// from.
#[derive(Clone, Copy, Debug, PartialEq, Eq)]
pub struct DynamicPrefabTag {
    tag: u64,
}

impl View for DynamicPrefabTag {
    type V = u64;

    closed spec fn view(&self) -> u64 {
        self.tag
    }
}

impl DynamicPrefabTag {
    /// The tag with the value `tag`.
    pub closed spec fn of(tag: u64) -> DynamicPrefabTag {
        DynamicPrefabTag { tag }
    }

    /// Create a new tag
    pub fn new(tag: u64) -> (created: Self)
        ensures
            created == Self::of(tag),
            created@ == tag,
    {
        DynamicPrefabTag { tag }
    }

    /// Get the tag
    pub fn tag(&self) -> (tag: u64)
        ensures
            tag == self@,
    {
        self.tag
    }
}

/// A tag is nothing but its value.
pub proof fn lemma_tag_is_its_value(tag: DynamicPrefabTag)
    ensures
        tag == DynamicPrefabTag::of(tag@),
        forall|value: u64| #[trigger] DynamicPrefabTag::of(value)@ == value,
{
}

} // verus!
