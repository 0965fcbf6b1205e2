//! The generational table that holds one structural record per live
//! entity.

use crate::treecs::key::EntityKey;
use crate::treecs::linkdata::LinkData;
use vstd::prelude::*;

verus! {

/// The number of records that a table can hold.
pub const TABLE_LIMIT: usize = 0xffff_fffe;

/// A `slotmap::SlotMap` of structural records. The map asks of its keys
/// a trait of its own crate, so it stays out of sight as a whole; what
/// it holds is named by [`table_entries`].
#[verifier::external_body]
pub struct LinkTable {
    slots: slotmap::SlotMap<slotmap::DefaultKey, LinkData>,
}

/// The records of a table, each under the handle of its entity.
pub uninterp spec fn table_entries(t: LinkTable) -> Map<EntityKey, LinkData>;

/// `SlotMap::new`: a table without records.
#[verifier::external_body]
pub(crate) fn table_new() -> (table: LinkTable)
    ensures
        table_entries(table).dom() == Set::<EntityKey>::empty(),
{
    LinkTable { slots: slotmap::SlotMap::new() }
}

/// `SlotMap::len`: the number of records.
#[verifier::external_body]
pub(crate) fn table_len(t: &LinkTable) -> (n: usize)
    ensures
        n == table_entries(*t).dom().len(),
{
    t.slots.len()
}

/// `SlotMap::contains_key`: whether the handle names a record of the
/// table.
#[verifier::external_body]
pub(crate) fn table_contains(t: &LinkTable, k: EntityKey) -> (b: bool)
    ensures
        b == table_entries(*t).contains_key(k),
{
    t.slots.contains_key(k.key)
}

/// `SlotMap::get`: the record under the handle, if there is one.
#[verifier::external_body]
pub(crate) fn table_get(t: &LinkTable, k: EntityKey) -> (r: Option<&LinkData>)
    ensures
        table_entries(*t).contains_key(k) ==> r == Some(&table_entries(*t)[k]),
        !table_entries(*t).contains_key(k) ==> r is None,
{
    t.slots.get(k.key)
}

/// `SlotMap::get_mut`: the record under the handle, if there is one, for
/// writing. No other record changes, and no handle comes or goes.
#[verifier::external_body]
pub(crate) fn table_get_mut(t: &mut LinkTable, k: EntityKey) -> (r: Option<&mut LinkData>)
    ensures
        table_entries(*old(t)).contains_key(k) ==> r is Some && *r.unwrap() == table_entries(
            *old(t),
        )[k] && table_entries(*final(t)) == table_entries(*old(t)).insert(
            k,
            *final(r.unwrap()),
        ),
        !table_entries(*old(t)).contains_key(k) ==> r is None && table_entries(*final(t))
            == table_entries(*old(t)),
{
    t.slots.get_mut(k.key)
}

/// `SlotMap::insert`: stores the record under a handle that names no
/// record of the table at that moment, and returns the handle. The call
/// panics only when every slot that a table can have is occupied, which
/// the precondition excludes.
#[verifier::external_body]
pub(crate) fn table_insert(t: &mut LinkTable, v: LinkData) -> (k: EntityKey)
    requires
        table_entries(*old(t)).dom().len() < TABLE_LIMIT,
    ensures
        !table_entries(*old(t)).contains_key(k),
        table_entries(*final(t)) == table_entries(*old(t)).insert(k, v),
{
    EntityKey { key: t.slots.insert(v) }
}

/// `SlotMap::remove`: takes the record under the handle out of the table
/// and returns it; without such a record nothing changes.
#[verifier::external_body]
pub(crate) fn table_remove(t: &mut LinkTable, k: EntityKey) -> (r: Option<LinkData>)
    ensures
        table_entries(*old(t)).contains_key(k) ==> r == Some(table_entries(*old(t))[k]),
        !table_entries(*old(t)).contains_key(k) ==> r is None,
        table_entries(*final(t)) == table_entries(*old(t)).remove(k),
{
    t.slots.remove(k.key)
}

} // verus!
