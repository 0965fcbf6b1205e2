//! Handles that name the entities of an arena.

use vstd::prelude::*;
use vstd::std_specs::cmp::PartialEqSpecImpl;

verus! {

/// `slotmap::DefaultKey`: a slot index with a version. Its inside stays
/// out of sight.
#[verifier::external_type_specification]
#[verifier::external_body]
pub struct ExDefaultKey(slotmap::DefaultKey);

/// A generation-checked handle to one entity of an arena.
///
/// A handle carries no resources. It stays valid until its entity is
/// removed, and a handle of a removed entity never names an entity that
/// is live at the same time.
#[derive(Clone, Copy, Debug, Hash, PartialOrd, Ord)]
pub struct EntityKey {
    pub(crate) key: slotmap::DefaultKey,
}

/// `==` of `slotmap::DefaultKey`, which is derived: two keys are equal
/// exactly when they hold the same slot index and the same version.
#[verifier::external_body]
fn key_eq(a: &slotmap::DefaultKey, b: &slotmap::DefaultKey) -> (r: bool)
    ensures
        r == (*a == *b),
{
    a == b
}

impl PartialEq for EntityKey {
    fn eq(&self, other: &Self) -> (r: bool) {
        key_eq(&self.key, &other.key)
    }
}

impl Eq for EntityKey {

}

impl PartialEqSpecImpl for EntityKey {
    open spec fn obeys_eq_spec() -> bool {
        true
    }

    open spec fn eq_spec(&self, other: &Self) -> bool {
        *self == *other
    }
}

} // verus!
