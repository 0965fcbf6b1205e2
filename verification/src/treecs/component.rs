//! Type-erased storage of the components of all entities.

use crate::treecs::key::EntityKey;
use dashmap::mapref::one::{MappedRef, MappedRefMut};
use dashmap::DashMap;
use std::any::{Any, TypeId};
use std::collections::HashMap;
use std::ops::Deref;
use vstd::prelude::*;

verus! {

/// Anything that can be attached to an entity: any shareable data type
/// that borrows nothing.
pub trait Component: 'static + Send + Sync {

}

impl<T: 'static + Send + Sync> Component for T {

}

/// `std::any::TypeId`: the identity of a type. Its inside stays out of
/// sight.
#[verifier::external_type_specification]
#[verifier::external_body]
pub struct ExTypeId(TypeId);

/// `dashmap::DashMap`: a concurrent hash map. What it holds is named by
/// [`store_slots`].
#[verifier::external_type_specification]
#[verifier::external_body]
#[verifier::reject_recursive_types(K)]
#[verifier::reject_recursive_types(V)]
#[verifier::reject_recursive_types(S)]
pub struct ExDashMap<K, V, S>(DashMap<K, V, S>);

/// `dashmap::mapref::one::MappedRef`: a read guard over a part of one
/// value of a map.
#[verifier::external_type_specification]
#[verifier::external_body]
#[verifier::reject_recursive_types(K)]
#[verifier::reject_recursive_types(V)]
#[verifier::reject_recursive_types(T)]
pub struct ExMappedRef<'a, K, V, T>(MappedRef<'a, K, V, T>);

/// `dashmap::mapref::one::MappedRefMut`: a write guard over a part of
/// one value of a map.
#[verifier::external_type_specification]
#[verifier::external_body]
#[verifier::reject_recursive_types(K)]
#[verifier::reject_recursive_types(V)]
#[verifier::reject_recursive_types(T)]
pub struct ExMappedRefMut<'a, K, V, T>(MappedRefMut<'a, K, V, T>);

/// The components of one type: a `std::collections::HashMap` from entity
/// to boxed value of any type. The boxes are trait objects of
/// `std::any::Any`, so the map stays out of sight as a whole.
#[verifier::external_body]
pub struct Column {
    items: HashMap<EntityKey, Box<dyn Any>>,
}

impl Default for Column {
    /// `HashMap::new`: a column without components.
    #[verifier::external_body]
    fn default() -> (r: Self) {
        Column { items: HashMap::new() }
    }
}

/// Storage that holds, for every type, at most one value per entity.
///
/// The model of a store is the set of its occupied slots. A slot is a
/// pair of a type identity and an entity.
pub struct ComponentStore {
    components: DashMap<TypeId, Column>,
}

/// Shared access to one stored component.
#[verifier::reject_recursive_types(T)]
pub struct ComponentEntry<'a, T> {
    guard: MappedRef<'a, TypeId, Column, T>,
}

/// Exclusive access to one stored component.
#[verifier::reject_recursive_types(T)]
pub struct ComponentEntryMut<'a, T> {
    guard: MappedRefMut<'a, TypeId, Column, T>,
}

/// The occupied slots of a store.
pub uninterp spec fn store_slots(m: DashMap<TypeId, Column>) -> Set<(TypeId, EntityKey)>;

/// Whether an entity holds a component of any type.
pub open spec fn occupied(slots: Set<(TypeId, EntityKey)>, entity: EntityKey) -> bool {
    exists|tid: TypeId| slots.contains((tid, entity))
}

/// The slots that are left once every slot of the entity is gone.
pub open spec fn without_entity(slots: Set<(TypeId, EntityKey)>, entity: EntityKey) -> Set<
    (TypeId, EntityKey),
> {
    slots.filter(|slot: (TypeId, EntityKey)| slot.1 != entity)
}

/// The slots that are left once every slot of every entity of `gone` is
/// empty.
pub open spec fn slots_without(slots: Set<(TypeId, EntityKey)>, gone: Set<EntityKey>) -> Set<
    (TypeId, EntityKey),
> {
    slots.filter(|slot: (TypeId, EntityKey)| !gone.contains(slot.1))
}

/// `after` is `before` with one slot of the entity filled.
pub open spec fn slot_filled(
    before: Set<(TypeId, EntityKey)>,
    after: Set<(TypeId, EntityKey)>,
    entity: EntityKey,
) -> bool {
    exists|tid: TypeId| after == before.insert((tid, entity))
}

/// `found` tells whether one certain slot of the entity is occupied.
pub open spec fn slot_probed(slots: Set<(TypeId, EntityKey)>, entity: EntityKey, found: bool) -> bool {
    exists|tid: TypeId| found <==> slots.contains((tid, entity))
}

/// `after` is `before` with one certain slot of the entity emptied, and
/// `found` tells whether that slot was occupied.
pub open spec fn slot_emptied(
    before: Set<(TypeId, EntityKey)>,
    after: Set<(TypeId, EntityKey)>,
    entity: EntityKey,
    found: bool,
) -> bool {
    exists|tid: TypeId|
        (found <==> before.contains((tid, entity))) && after == before.remove((tid, entity))
}

/// A lookup finds nothing at an entity that holds no component of any
/// type.
pub proof fn lemma_probe_finds_nothing(
    slots: Set<(TypeId, EntityKey)>,
    entity: EntityKey,
    found: bool,
)
    requires
        slot_probed(slots, entity, found),
        !occupied(slots, entity),
    ensures
        !found,
{
}

/// Taking from an entity that holds no component of any type yields
/// nothing and changes nothing.
pub proof fn lemma_take_finds_nothing(
    before: Set<(TypeId, EntityKey)>,
    after: Set<(TypeId, EntityKey)>,
    entity: EntityKey,
    found: bool,
)
    requires
        slot_emptied(before, after, entity, found),
        !occupied(before, entity),
    ensures
        !found,
        after == before,
{
    let tid = choose|tid: TypeId|
        (found <==> before.contains((tid, entity))) && after == before.remove((tid, entity));
    assert(before.remove((tid, entity)) =~= before);
}

impl<'a, T> Deref for ComponentEntry<'a, T> {
    type Target = T;

    /// `MappedRef::value`: the component behind the guard. Which value
    /// that is, is not said.
    #[verifier::external_body]
    fn deref(&self) -> (r: &T) {
        self.guard.value()
    }
}

impl<'a, T> Deref for ComponentEntryMut<'a, T> {
    type Target = T;

    /// `MappedRefMut::value`: the component behind the guard.
    #[verifier::external_body]
    fn deref(&self) -> (r: &T) {
        self.guard.value()
    }
}

impl<'a, T> ComponentEntryMut<'a, T> {
    /// `MappedRefMut::value_mut`: the component behind the guard, for
    /// writing.
    #[verifier::external_body]
    pub fn value_mut(&mut self) -> (r: &mut T) {
        self.guard.value_mut()
    }
}

/// `DashMap::new`: a store without occupied slots.
#[verifier::external_body]
fn store_new() -> (m: DashMap<TypeId, Column>)
    ensures
        store_slots(m) == Set::<(TypeId, EntityKey)>::empty(),
{
    DashMap::new()
}

/// `DashMap::entry`, `Entry::or_default` and `HashMap::insert`: puts the
/// boxed component into the slot of its type and the entity, in place of
/// what the slot held. No other slot changes.
#[verifier::external_body]
fn store_insert<T: Component>(
    m: &mut DashMap<TypeId, Column>,
    entity: EntityKey,
    component: T,
) -> (tid: TypeId)
    ensures
        store_slots(*final(m)) == store_slots(*old(m)).insert((tid, entity)),
{
    let tid = TypeId::of::<T>();
    m.entry(tid).or_default().items.insert(entity, Box::new(component));
    tid
}

/// `DashMap::get`, `HashMap::get` and `downcast_ref`: a guard over the
/// component in the slot of the type and the entity, where the slot is
/// occupied.
#[verifier::external_body]
fn store_get<'a, T: Component>(m: &'a DashMap<TypeId, Column>, entity: EntityKey) -> (r: (
    TypeId,
    Option<ComponentEntry<'a, T>>,
))
    ensures
        r.1 is Some <==> store_slots(*m).contains((r.0, entity)),
{
    let tid = TypeId::of::<T>();
    let found = m.get(&tid).and_then(
        |column| column.try_map(|c| c.items.get(&entity).and_then(|b| b.downcast_ref::<T>())).ok(),
    );
    (tid, found.map(|guard| ComponentEntry { guard }))
}

/// `DashMap::get_mut`, `HashMap::get_mut` and `downcast_mut`: a guard for
/// writing over the component in the slot of the type and the entity,
/// where the slot is occupied. The occupied slots stay as they are.
#[verifier::external_body]
fn store_get_mut<'a, T: Component>(m: &'a mut DashMap<TypeId, Column>, entity: EntityKey) -> (r: (
    TypeId,
    Option<ComponentEntryMut<'a, T>>,
))
    ensures
        r.1 is Some <==> store_slots(*old(m)).contains((r.0, entity)),
        store_slots(*final(m)) == store_slots(*old(m)),
{
    let tid = TypeId::of::<T>();
    let found = m.get_mut(&tid).and_then(
        |column|
            column.try_map(|c| c.items.get_mut(&entity).and_then(|b| b.downcast_mut::<T>())).ok(),
    );
    (tid, found.map(|guard| ComponentEntryMut { guard }))
}

/// `DashMap::get_mut`, `HashMap::remove` and `Box::downcast`: empties the
/// slot of the type and the entity and hands out what it held. No other
/// slot changes.
#[verifier::external_body]
fn store_take<T: Component>(m: &mut DashMap<TypeId, Column>, entity: EntityKey) -> (r: (
    TypeId,
    Option<T>,
))
    ensures
        r.1 is Some <==> store_slots(*old(m)).contains((r.0, entity)),
        store_slots(*final(m)) == store_slots(*old(m)).remove((r.0, entity)),
{
    let tid = TypeId::of::<T>();
    let boxed = m.get_mut(&tid).and_then(|mut column| column.items.remove(&entity));
    (tid, boxed.and_then(|b| b.downcast::<T>().ok()).map(|b| *b))
}

/// `DashMap::alter_all` with `HashMap::remove`: empties the slots of the
/// entity under every type. No slot of another entity changes.
#[verifier::external_body]
fn store_purge(m: &mut DashMap<TypeId, Column>, entity: EntityKey)
    ensures
        store_slots(*final(m)) == without_entity(store_slots(*old(m)), entity),
{
    m.alter_all(
        |_, mut column|
            {
                column.items.remove(&entity);
                column
            },
    );
}

impl ComponentStore {
    /// The occupied slots.
    pub closed spec fn slots(&self) -> Set<(TypeId, EntityKey)> {
        store_slots(self.components)
    }

    /// Whether the entity holds a component of any type.
    pub open spec fn holds_any(&self, entity: EntityKey) -> bool {
        occupied(self.slots(), entity)
    }

    /// A store without components.
    pub fn new() -> (r: Self)
        ensures
            r.slots() == Set::<(TypeId, EntityKey)>::empty(),
    {
        ComponentStore { components: store_new() }
    }

    /// Attaches the component to the entity, in place of a component of
    /// the same type that the entity may hold. The store does not ask
    /// whether the entity is live.
    pub fn add_component<T: Component>(&mut self, entity: EntityKey, component: T)
        ensures
            slot_filled(old(self).slots(), final(self).slots(), entity),
    {
        let tid = store_insert(&mut self.components, entity, component);
        assert(self.slots() == old(self).slots().insert((tid, entity)));
    }

    /// Detaches every component of the entity.
    pub fn remove_entity(&mut self, entity: EntityKey)
        ensures
            final(self).slots() == without_entity(old(self).slots(), entity),
            !final(self).holds_any(entity),
    {
        store_purge(&mut self.components, entity);
    }

    /// The component of type `T` that the entity holds, if it holds one.
    pub fn get_component<T: Component>(&self, entity: EntityKey) -> (r: Option<
        ComponentEntry<'_, T>,
    >)
        ensures
            slot_probed(self.slots(), entity, r is Some),
    {
        let (tid, found) = store_get(&self.components, entity);
        assert(found is Some <==> self.slots().contains((tid, entity)));
        found
    }

    /// The component of type `T` that the entity holds, if it holds one,
    /// for writing.
    pub fn get_component_mut<T: Component>(&mut self, entity: EntityKey) -> (r: Option<
        ComponentEntryMut<'_, T>,
    >)
        ensures
            slot_probed(old(self).slots(), entity, r is Some),
            final(self).slots() == old(self).slots(),
    {
        let (tid, found) = store_get_mut(&mut self.components, entity);
        assert(found is Some <==> old(self).slots().contains((tid, entity)));
        found
    }

    /// Detaches the component of type `T` from the entity and returns it,
    /// if the entity holds one.
    pub fn remove_component<T: Component>(&mut self, entity: EntityKey) -> (r: Option<T>)
        ensures
            slot_emptied(old(self).slots(), final(self).slots(), entity, r is Some),
    {
        let (tid, taken) = store_take(&mut self.components, entity);
        assert((taken is Some <==> old(self).slots().contains((tid, entity))) && self.slots()
            == old(self).slots().remove((tid, entity)));
        taken
    }
}

} // verus!
