//! The arena of a user interface together with its renderer, and the
//! contexts through which widgets are mounted into the arena.

use crate::renderer::Renderer;
use crate::treecs::arena::Treecs;
use crate::treecs::component::{
    slot_emptied, slot_filled, slot_probed, Component, ComponentEntry, ComponentEntryMut,
    ComponentStore,
};
use crate::treecs::iterators::WorldIter;
use crate::treecs::key::EntityKey;
use crate::treecs::query::Query;
use crate::treecs::shape::{child_added, fresh_root, lemma_all_under_root, node_ok};
use crate::treecs::table::TABLE_LIMIT;
use std::any::TypeId;
use std::marker::PhantomData;
use vstd::prelude::*;

verus! {

/// A user interface: an arena and the renderer that renders it.
pub struct Gui<R> {
    tree: Treecs,
    renderer: R,
}

impl<R: Renderer> Gui<R> {
    /// The arena of the interface.
    pub closed spec fn arena(&self) -> Treecs {
        self.tree
    }

    /// The renderer of the interface.
    pub closed spec fn painter(&self) -> R {
        self.renderer
    }

    /// An interface with a fresh arena.
    pub fn new(renderer: R) -> (r: Self)
        ensures
            r.arena().wf(),
            r.arena().links().dom().len() == 1,
            r.painter() == renderer,
    {
        let tree = Treecs::new();
        proof {
            assert(tree.links().dom() =~= Set::<EntityKey>::empty().insert(tree.root_key()));
        }
        Gui { tree, renderer }
    }

    /// The context for mounting at the root.
    pub fn root_widget_context(&mut self) -> (r: WidgetContext<'_, R>)
        ensures
            r.arena() == old(self).arena(),
            r.key() == old(self).arena().root_key(),
    {
        let key = self.tree.root();
        WidgetContext { tree: &mut self.tree, key, _ph: PhantomData }
    }

    /// The context for building at the root.
    pub fn root_build_context(&mut self) -> (r: BuildContext<'_>)
        ensures
            r.slots() == old(self).arena().slots(),
            r.key() == old(self).arena().root_key(),
    {
        let key = self.tree.root();
        BuildContext { store: self.tree.store_mut(), key }
    }

    pub fn tree(&self) -> (r: &Treecs)
        ensures
            *r == self.arena(),
    {
        &self.tree
    }

    /// Empties the arena: the root goes with everything below it and
    /// with all components, and a fresh root without children takes its
    /// place.
    pub fn clear_tree(&mut self)
        requires
            old(self).arena().wf(),
            old(self).arena().links().dom().len() < TABLE_LIMIT,
        ensures
            final(self).arena().wf(),
            final(self).painter() == old(self).painter(),
            !old(self).arena().live(final(self).arena().root_key()),
            final(self).arena().links() == fresh_root(final(self).arena().root_key()),
            forall|k: EntityKey| #[trigger]
                old(self).arena().live(k) ==> !final(self).arena().holds_any(k),
    {
        let root = self.tree.root();
        let ghost before = self.tree;
        proof {
            assert(before.shape().live(root));
            assert forall|k: EntityKey| #[trigger] before.live(k) implies before.shape().in_subtree(
                root,
                k,
            ) by {
                lemma_all_under_root(before.shape(), k);
            }
        }
        self.tree.remove(root);
    }

    pub fn renderer(&mut self) -> (r: &mut R)
        ensures
            *r == old(self).painter(),
            final(self).painter() == *final(r),
            final(self).arena() == old(self).arena(),
    {
        &mut self.renderer
    }

    /// Renders the arena: the renderer gets a fresh query over the whole
    /// arena for the components of its type, and changes as its own
    /// `render` changes it for that query.
    pub fn render(&mut self)
        requires
            old(self).arena().wf(),
        ensures
            final(self).arena() == old(self).arena(),
            exists|m: &mut R, q: Query<'_, &R::RenderItem, R::QueryType<'_>>|
                q.ready() && *q.arena() == old(self).arena() && q.pending() == <R::QueryType<
                    '_,
                > as WorldIter<'_, &R::RenderItem>>::whole(q.arena()) && *m == old(self).painter()
                    && *final(m) == final(self).painter() && #[trigger] call_ensures(
                    R::render,
                    (m, q),
                    (),
                ),
    {
        let query = Query::new(&self.tree);
        self.renderer.render(query);
    }
}

/// A place in the component store: one entity, for reading and writing
/// its components.
pub struct BuildContext<'gui> {
    store: &'gui mut ComponentStore,
    key: EntityKey,
}

impl<'gui> BuildContext<'gui> {
    /// The entity of the context.
    pub closed spec fn key(&self) -> EntityKey {
        self.key
    }

    /// The occupied slots of the store as they are now.
    pub closed spec fn slots(&self) -> Set<(TypeId, EntityKey)> {
        self.store.slots()
    }

    pub fn get_component<Q: Component>(&self) -> (r: Option<ComponentEntry<'_, Q>>)
        ensures
            slot_probed(self.slots(), self.key(), r is Some),
    {
        self.store.get_component(self.key)
    }

    pub fn get_component_mut<Q: Component>(&mut self) -> (r: Option<ComponentEntryMut<'_, Q>>)
        ensures
            slot_probed(old(self).slots(), old(self).key(), r is Some),
            final(self).slots() == old(self).slots(),
            final(self).key() == old(self).key(),
    {
        self.store.get_component_mut(self.key)
    }

    pub fn insert_component<Q: Component>(&mut self, comp: Q)
        ensures
            slot_filled(old(self).slots(), final(self).slots(), old(self).key()),
            final(self).key() == old(self).key(),
    {
        self.store.add_component(self.key, comp);
    }

    /// Detaches the component of type `Q` from the entity and returns it,
    /// if the entity holds one.
    pub fn take_component<Q: Component>(&mut self) -> (r: Option<Q>)
        ensures
            slot_emptied(old(self).slots(), final(self).slots(), old(self).key(), r is Some),
            final(self).key() == old(self).key(),
    {
        self.store.remove_component(self.key)
    }
}

/// A place in the arena: one entity, at which a widget is mounted for
/// the renderer `R`.
pub struct WidgetContext<'gui, R> {
    tree: &'gui mut Treecs,
    key: EntityKey,
    _ph: PhantomData<R>,
}

impl<'gui, R: Renderer> WidgetContext<'gui, R> {
    /// The entity of the context.
    pub closed spec fn key(&self) -> EntityKey {
        self.key
    }

    /// The arena as it is now.
    pub closed spec fn arena(&self) -> Treecs {
        *self.tree
    }

    /// The arena is a tree with room for another entity, and the entity
    /// of the context is live.
    pub open spec fn wf(&self) -> bool {
        &&& self.arena().wf()
        &&& self.arena().live(self.key())
    }

    /// The arena of the context.
    pub fn tree(&self) -> (r: &Treecs)
        ensures
            *r == self.arena(),
    {
        &*self.tree
    }

    /// The entity of the context.
    pub fn entity(&self) -> (r: EntityKey)
        ensures
            r == self.key(),
    {
        self.key
    }

    pub fn insert_component<Q: Component>(&mut self, comp: Q)
        ensures
            final(self).key() == old(self).key(),
            final(self).arena().links() == old(self).arena().links(),
            final(self).arena().root_key() == old(self).arena().root_key(),
            slot_filled(old(self).arena().slots(), final(self).arena().slots(), old(self).key()),
            old(self).wf() ==> final(self).wf(),
    {
        self.tree.register(self.key, comp);
    }

    /// Attaches the renderer's component to the entity.
    pub fn mount_renderer(&mut self, renderer: R::RenderItem)
        ensures
            final(self).key() == old(self).key(),
            final(self).arena().links() == old(self).arena().links(),
            final(self).arena().root_key() == old(self).arena().root_key(),
            slot_filled(old(self).arena().slots(), final(self).arena().slots(), old(self).key()),
            old(self).wf() ==> final(self).wf(),
    {
        self.tree.register(self.key, renderer);
    }

    /// The renderer's component of the entity, for writing.
    pub fn get_renderer(&mut self) -> (r: Option<ComponentEntryMut<'_, R::RenderItem>>)
        ensures
            slot_probed(old(self).arena().slots(), old(self).key(), r is Some),
            final(self).key() == old(self).key(),
            final(self).arena().links() == old(self).arena().links(),
            final(self).arena().root_key() == old(self).arena().root_key(),
            final(self).arena().slots() == old(self).arena().slots(),
            old(self).wf() ==> final(self).wf(),
    {
        self.tree.get_component_mut::<R::RenderItem>(self.key)
    }

    pub fn get_component<Q: Component>(&self) -> (r: Option<ComponentEntry<'_, Q>>)
        ensures
            slot_probed(self.arena().slots(), self.key(), r is Some),
    {
        self.tree.get_component(self.key)
    }

    pub fn get_component_mut<Q: Component>(&mut self) -> (r: Option<ComponentEntryMut<'_, Q>>)
        ensures
            slot_probed(old(self).arena().slots(), old(self).key(), r is Some),
            final(self).key() == old(self).key(),
            final(self).arena().links() == old(self).arena().links(),
            final(self).arena().root_key() == old(self).arena().root_key(),
            final(self).arena().slots() == old(self).arena().slots(),
            old(self).wf() ==> final(self).wf(),
    {
        self.tree.get_component_mut(self.key)
    }

    /// Creates an entity as the rightmost child of the context's entity
    /// and moves to it.
    pub fn new_child(self) -> (r: Self)
        requires
            self.arena().live(self.key()),
            self.arena().links().dom().len() < TABLE_LIMIT,
        ensures
            !self.arena().live(r.key()),
            r.arena().links() == child_added(self.arena().links(), self.key(), r.key()),
            r.arena().root_key() == self.arena().root_key(),
            r.arena().slots() == self.arena().slots(),
            self.wf() ==> r.wf(),
    {
        let WidgetContext { tree, key, .. } = self;
        match tree.add(key) {
            Some(child) => WidgetContext { tree, key: child, _ph: PhantomData },
            None => vstd::pervasive::unreached(),
        }
    }

    /// Moves to the parent of the context's entity, unless that entity
    /// is the root.
    pub fn to_parent(self) -> (r: Option<Self>)
        requires
            self.arena().live(self.key()),
        ensures
            self.arena().links()[self.key()].parent is None ==> r is None,
            self.arena().links()[self.key()].parent matches Some(p) ==> r is Some
                && r.unwrap().key() == p && r.unwrap().arena() == self.arena(),
            self.wf() && r is Some ==> r.unwrap().wf(),
    {
        let WidgetContext { tree, key, .. } = self;
        let parent = match tree.linkdata(key) {
            Some(linkdata) => *linkdata.parent(),
            None => None,
        };
        proof {
            if self.wf() {
                assert(self.arena().shape().live(key));
                assert(node_ok(self.arena().shape(), key));
            }
        }
        match parent {
            Some(parent) => Some(WidgetContext { tree, key: parent, _ph: PhantomData }),
            None => None,
        }
    }

    /// The build context of the same entity.
    pub fn get_buildcontext(&mut self) -> (r: BuildContext<'_>)
        ensures
            r.key() == old(self).key(),
            r.slots() == old(self).arena().slots(),
    {
        BuildContext { key: self.key, store: self.tree.store_mut() }
    }
}

} // verus!
