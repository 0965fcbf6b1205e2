//! Views of one entity of an arena, read-only or read-write.

use crate::treecs::arena::Treecs;
use crate::treecs::component::{slot_emptied, slot_filled, Component};
use crate::treecs::key::EntityKey;
use crate::treecs::linkdata::LinkData;
use std::marker::PhantomData;
use vstd::prelude::*;

verus! {

/// Keeps the access capabilities to the two that this module defines.
pub trait Sealed {

}

/// Read-write access to an arena.
pub struct Mut<'world>(&'world mut Treecs);

/// Read-only access to an arena.
pub struct Imut<'world>(&'world Treecs);

/// The capability to read an arena.
pub trait Ref: Sealed {
    /// The arena as it is now.
    spec fn tree(&self) -> Treecs;

    fn world(&self) -> (r: &Treecs)
        ensures
            *r == self.tree(),
    ;
}

/// The capability to change an arena. It includes the capability to read
/// it.
pub trait RefMut: Ref {
    fn world_mut(&mut self) -> (r: &mut Treecs)
        ensures
            *r == old(self).tree(),
            *final(r) == final(self).tree(),
    ;
}

impl<'world> Sealed for Imut<'world> {

}

impl<'world> Ref for Imut<'world> {
    closed spec fn tree(&self) -> Treecs {
        *self.0
    }

    fn world(&self) -> (r: &Treecs) {
        self.0
    }
}

impl<'world> Sealed for Mut<'world> {

}

impl<'world> Ref for Mut<'world> {
    closed spec fn tree(&self) -> Treecs {
        *self.0
    }

    fn world(&self) -> (r: &Treecs) {
        self.0
    }
}

impl<'world> RefMut for Mut<'world> {
    fn world_mut(&mut self) -> (r: &mut Treecs) {
        self.0
    }
}

impl<'world> Imut<'world> {
    pub(crate) fn new(world: &'world Treecs) -> (r: Self)
        ensures
            r.tree() == *world,
    {
        Imut(world)
    }
}

impl<'world> Mut<'world> {
    pub(crate) fn new(world: &'world mut Treecs) -> (r: Self)
        ensures
            r.tree() == *old(world),
    {
        Mut(world)
    }
}

/// A view of one entity of an arena. What the view can do depends on the
/// capability `World` that it holds.
pub struct Entity<'world, World> {
    world: World,
    key: EntityKey,
    _ph: PhantomData<&'world ()>,
}

impl<'world, World: Ref> Entity<'world, World> {
    /// The entity that is viewed.
    pub closed spec fn key(&self) -> EntityKey {
        self.key
    }

    /// The arena of the entity as it is now.
    pub closed spec fn tree(&self) -> Treecs {
        self.world.tree()
    }

    /// The viewed entity is live.
    pub open spec fn wf(&self) -> bool {
        self.tree().live(self.key())
    }

    /// The structural record of the entity.
    pub fn linkdata(&self) -> (r: &LinkData)
        requires
            self.wf(),
        ensures
            *r == self.tree().record(self.key()),
            r@ == self.tree().links()[self.key()],
    {
        match self.world.world().linkdata(self.key) {
            Some(l) => l,
            None => vstd::pervasive::unreached(),
        }
    }

    /// The view of the parent, unless the entity is the root.
    pub fn parent(self) -> (r: Option<Self>)
        requires
            self.wf(),
        ensures
            self.tree().links()[self.key()].parent is None ==> r is None,
            self.tree().links()[self.key()].parent matches Some(p) ==> r is Some && r.unwrap().key()
                == p && r.unwrap().tree() == self.tree(),
            self.tree().wf() && r is Some ==> r.unwrap().wf(),
    {
        let Entity { world, key, .. } = self;
        let parent = match world.world().linkdata(key) {
            Some(linkdata) => *linkdata.parent(),
            None => None,
        };
        proof {
            if self.tree().wf() {
                assert(self.tree().shape().live(key));
            }
        }
        match parent {
            Some(parent) => Some(Entity { _ph: PhantomData, world, key: parent }),
            None => None,
        }
    }

    /// The view of the child at position `index`, if there is one.
    pub fn child(self, index: usize) -> (r: Option<Self>)
        requires
            self.wf(),
        ensures
            index >= self.tree().links()[self.key()].children.len() ==> r is None,
            index < self.tree().links()[self.key()].children.len() ==> r is Some
                && r.unwrap().key() == self.tree().links()[self.key()].children[index as int]
                && r.unwrap().tree() == self.tree(),
            self.tree().wf() && r is Some ==> r.unwrap().wf(),
    {
        let Entity { world, key, .. } = self;
        let child = match world.world().linkdata(key) {
            Some(linkdata) => match linkdata.children().get_child(index) {
                Some(c) => Some(*c),
                None => None,
            },
            None => None,
        };
        proof {
            if self.tree().wf() && child is Some {
                assert(self.tree().shape().live(key));
                assert(crate::treecs::shape::child_ok(self.tree().shape(), key, index as int));
            }
        }
        match child {
            Some(child) => Some(Entity { _ph: PhantomData, world, key: child }),
            None => None,
        }
    }
}

impl<'world, World: RefMut> Entity<'world, World> {
    /// The structural record of the entity, for writing.
    pub fn linkdata_mut(&mut self) -> (r: &mut LinkData)
        requires
            old(self).wf(),
        ensures
            *r == old(self).tree().record(old(self).key()),
            final(self).key() == old(self).key(),
            final(self).tree().links() == old(self).tree().links().insert(
                old(self).key(),
                final(r)@,
            ),
    {
        match self.world.world_mut().linkdata_mut(self.key) {
            Some(l) => l,
            None => vstd::pervasive::unreached(),
        }
    }

    /// Removes the entity with all its descendants and their components
    /// from the arena, as [`Treecs::remove`] does.
    pub fn remove(self)
        requires
            self.tree().wf(),
            self.key() == self.tree().root_key() ==> self.tree().links().dom().len()
                < crate::treecs::table::TABLE_LIMIT,
    {
        let mut this = self;
        this.world.world_mut().remove(this.key);
    }

    /// A read-only view of the same entity.
    pub fn as_ref(&'world self) -> (r: Entity<'world, Imut<'world>>)
        ensures
            r.key() == self.key(),
            r.tree() == self.tree(),
    {
        Entity { _ph: PhantomData, key: self.key, world: Imut::new(self.world.world()) }
    }

    /// Attaches the component to the entity, in place of a component of
    /// the same type that the entity may hold.
    pub fn add_component<Q: Component>(&mut self, component: Q)
        ensures
            final(self).key() == old(self).key(),
            slot_filled(old(self).tree().slots(), final(self).tree().slots(), old(self).key()),
            final(self).tree().links() == old(self).tree().links(),
            old(self).wf() ==> final(self).wf(),
    {
        self.world.world_mut().register(self.key, component);
    }

    /// Detaches the component of type `Q` from the entity and returns it,
    /// if the entity holds one.
    pub fn remove_component<Q: Component>(&mut self) -> (r: Option<Q>)
        ensures
            final(self).key() == old(self).key(),
            slot_emptied(
                old(self).tree().slots(),
                final(self).tree().slots(),
                old(self).key(),
                r is Some,
            ),
            final(self).tree().links() == old(self).tree().links(),
            old(self).wf() ==> final(self).wf(),
    {
        self.world.world_mut().remove_component(self.key)
    }
}

impl<'world> Entity<'world, Imut<'world>> {
    /// A read-only view of the entity, if it is live.
    pub fn new(ecs: &'world Treecs, key: EntityKey) -> (r: Option<Self>)
        ensures
            r is Some <==> ecs.live(key),
            r is Some ==> r.unwrap().key() == key && r.unwrap().tree() == *ecs && r.unwrap().wf(),
    {
        if ecs.contains(key) {
            Some(Entity { world: Imut::new(ecs), key, _ph: PhantomData })
        } else {
            None
        }
    }
}

impl<'world> Entity<'world, Mut<'world>> {
    /// A read-write view of the entity, if it is live.
    pub fn new_mut(ecs: &'world mut Treecs, key: EntityKey) -> (r: Option<Self>)
        ensures
            r is Some <==> old(ecs).live(key),
            r is Some ==> r.unwrap().key() == key && r.unwrap().tree() == *old(ecs)
                && r.unwrap().wf(),
    {
        if ecs.contains(key) {
            Some(Entity { world: Mut::new(ecs), key, _ph: PhantomData })
        } else {
            None
        }
    }
}

} // verus!
