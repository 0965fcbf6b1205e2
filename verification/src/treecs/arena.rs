//! The arena: the owner of every entity's links and components.

use crate::treecs::component::{
    occupied, slot_emptied, slot_filled, slot_probed, slots_without, Component, ComponentEntry,
    ComponentEntryMut, ComponentStore,
};
use crate::treecs::key::EntityKey;
use crate::treecs::linkdata::{LinkData, LinkView};
use crate::treecs::shape::{
    child_added, cut_shape, fresh_root, lemma_all_under_root, lemma_child_added_wf, lemma_cut_wf,
    lemma_fresh_root_wf, lemma_subtree_depth, lemma_sweep_done, lemma_sweep_init,
    lemma_sweep_step, node_ok, sweep_inv, Shape,
};
use crate::treecs::table::{
    table_contains, table_entries, table_get, table_get_mut, table_insert, table_len, table_new,
    table_remove, LinkTable, TABLE_LIMIT,
};
use std::any::TypeId;
use vstd::prelude::*;
use vstd::set_lib::lemma_len_subset;

verus! {

/// An arena of tree-linked entities under one root.
pub struct Treecs {
    linkdata: LinkTable,
    root: EntityKey,
    components: ComponentStore,
    depth: Ghost<Map<EntityKey, nat>>,
    bound: Ghost<nat>,
}

impl Treecs {
    /// The structural record of every live entity.
    pub closed spec fn links(&self) -> Map<EntityKey, LinkView> {
        table_entries(self.linkdata).map_values(|l: LinkData| l@)
    }

    /// The stored record of an entity, representation included.
    pub closed spec fn record(&self, k: EntityKey) -> LinkData {
        table_entries(self.linkdata)[k]
    }

    /// The current root.
    pub closed spec fn root_key(&self) -> EntityKey {
        self.root
    }

    /// The shape of the arena.
    pub closed spec fn shape(&self) -> Shape {
        Shape { links: self.links(), root: self.root, depth: self.depth@, bound: self.bound@ }
    }

    /// The occupied component slots: pairs of a type identity and an
    /// entity.
    pub closed spec fn slots(&self) -> Set<(TypeId, EntityKey)> {
        self.components.slots()
    }

    /// Whether the entity holds a component of any type.
    pub open spec fn holds_any(&self, entity: EntityKey) -> bool {
        occupied(self.slots(), entity)
    }

    /// The links of the arena form a tree under its root.
    pub open spec fn wf(&self) -> bool {
        &&& self.shape().wf()
        &&& self.shape().links == self.links()
        &&& self.shape().root == self.root_key()
    }

    /// Whether the entity is live.
    pub open spec fn live(&self, k: EntityKey) -> bool {
        self.links().contains_key(k)
    }

    /// An arena that holds a root without children and nothing else.
    pub fn new() -> (r: Self)
        ensures
            r.wf(),
            r.links() == map![r.root_key() => LinkView { parent: None, children: Seq::empty() }],
            r.slots() == Set::<(TypeId, EntityKey)>::empty(),
    {
        let mut linkdata = table_new();
        let root = table_insert(&mut linkdata, LinkData::new_empty());
        let ghost depth = Map::<EntityKey, nat>::empty().insert(root, 0nat);
        let r = Treecs {
            linkdata,
            root,
            components: ComponentStore::new(),
            depth: Ghost(depth),
            bound: Ghost(0nat),
        };
        proof {
            assert(r.links() =~= map![root => LinkView { parent: None, children: Seq::empty() }]);
        }
        r
    }

    pub fn linkdata(&self, key: EntityKey) -> (r: Option<&LinkData>)
        ensures
            self.live(key) ==> r == Some(&self.record(key)) && r.unwrap()@ == self.links()[key],
            !self.live(key) ==> r is None,
    {
        table_get(&self.linkdata, key)
    }

    pub fn root(&self) -> (r: EntityKey)
        ensures
            r == self.root_key(),
    {
        self.root
    }

    pub fn contains(&self, entity: EntityKey) -> (b: bool)
        ensures
            b == self.live(entity),
    {
        table_contains(&self.linkdata, entity)
    }

    pub fn entity_count(&self) -> (n: usize)
        ensures
            n == self.links().dom().len(),
    {
        proof {
            assert(self.links().dom() =~= table_entries(self.linkdata).dom());
        }
        table_len(&self.linkdata)
    }

    /// The component store of the arena.
    pub fn store(&self) -> (r: &ComponentStore)
        ensures
            r.slots() == self.slots(),
    {
        &self.components
    }

    /// The component store of the arena, for writing. The links are out
    /// of its reach.
    pub fn store_mut(&mut self) -> (r: &mut ComponentStore)
        ensures
            r.slots() == old(self).slots(),
            final(self).slots() == final(r).slots(),
            final(self).links() == old(self).links(),
            final(self).root_key() == old(self).root_key(),
            old(self).wf() ==> final(self).wf(),
    {
        &mut self.components
    }

    /// The structural record of an entity, for writing. The arena does
    /// not check what is written: a caller that changes the links has to
    /// restore [`Treecs::wf`] itself.
    pub fn linkdata_mut(&mut self, key: EntityKey) -> (r: Option<&mut LinkData>)
        ensures
            old(self).live(key) ==> r is Some && *r.unwrap() == old(self).record(key) && final(
                self
            ).links() == old(self).links().insert(key, final(r.unwrap())@),
            !old(self).live(key) ==> r is None && final(self).links() == old(self).links(),
            final(self).root_key() == old(self).root_key(),
            final(self).slots() == old(self).slots(),
    {
        let ghost before = table_entries(self.linkdata);
        let r = table_get_mut(&mut self.linkdata, key);
        proof {
            let after = table_entries(after_borrow(self.linkdata));
            if before.contains_key(key) {
                assert(after.map_values(|l: LinkData| l@) =~= before.map_values(
                    |l: LinkData| l@,
                ).insert(key, final(r.unwrap())@));
            }
        }
        r
    }

    /// Creates an entity as the rightmost child of `parent` and returns
    /// its handle. Nothing happens if `parent` is not live.
    pub fn add(&mut self, parent: EntityKey) -> (r: Option<EntityKey>)
        requires
            old(self).links().dom().len() < TABLE_LIMIT,
        ensures
            !old(self).live(parent) ==> r is None && final(self).links() == old(self).links(),
            old(self).live(parent) ==> r is Some && !old(self).live(r.unwrap()) && final(
                self
            ).links() == child_added(old(self).links(), parent, r.unwrap()),
            final(self).root_key() == old(self).root_key(),
            final(self).slots() == old(self).slots(),
            old(self).wf() ==> final(self).wf(),
            old(self).wf() && old(self).live(parent) ==> final(self).links().dom().len() == old(
                self
            ).links().dom().len() + 1,
    {
        if !self.contains(parent) {
            return None;
        }
        let ghost links0 = self.links();
        let ghost shape0 = self.shape();
        proof {
            assert(self.links().dom() =~= table_entries(self.linkdata).dom());
        }
        let key = table_insert(&mut self.linkdata, LinkData::new_with_parent(parent));
        match table_get_mut(&mut self.linkdata, parent) {
            Some(l) => {
                l.children_mut().push_right(key);
            },
            None => {},
        }
        proof {
            assert(self.links() =~= child_added(links0, parent, key));
            self.depth@ = self.depth@.insert(key, self.depth@[parent] + 1);
            self.bound@ = self.bound@ + 1;
            if shape0.wf() {
                lemma_child_added_wf(shape0, parent, key);
                assert(self.links().dom() =~= links0.dom().insert(key));
            }
        }
        Some(key)
    }

    /// Removes a live entity together with all its descendants and with
    /// every component that any of them holds. An entity other than the
    /// root also leaves the children of its parent. In place of a removed
    /// root the arena gets a fresh root without children. Nothing happens
    /// if `entity` is not live.
    pub fn remove(&mut self, entity: EntityKey) -> (r: Option<()>)
        requires
            old(self).wf(),
            entity == old(self).root_key() ==> old(self).links().dom().len() < TABLE_LIMIT,
        ensures
            final(self).wf(),
            r is Some <==> old(self).live(entity),
            !final(self).live(entity),
            final(self).links().dom().len() <= old(self).links().dom().len(),
            !old(self).live(entity) ==> final(self).links() == old(self).links() && final(
                self
            ).root_key() == old(self).root_key() && final(self).slots() == old(self).slots(),
            old(self).live(entity) ==> final(self).slots() == slots_without(
                old(self).slots(),
                old(self).shape().subtree(entity),
            ),
            old(self).live(entity) && entity != old(self).root_key() ==> final(self).root_key()
                == old(self).root_key() && final(self).links() == old(self).shape().subtree_cut(
                entity,
            ),
            old(self).live(entity) && entity == old(self).root_key() ==> !old(self).live(
                final(self).root_key(),
            ) && final(self).links() == fresh_root(final(self).root_key()) && final(
                self
            ).links().dom().len() == 1,
            forall|k: EntityKey| #[trigger]
                old(self).shape().in_subtree(entity, k) ==> !final(self).live(k) && !final(
                    self
                ).holds_any(k),
    {
        if !self.contains(entity) {
            proof {
                assert forall|k: EntityKey| #[trigger]
                    self.shape().in_subtree(entity, k) implies false by {
                    lemma_subtree_depth(self.shape(), entity, k);
                }
            }
            return None;
        }
        let ghost s0 = self.shape();
        let ghost links0 = self.links();
        let ghost slots0 = self.slots();
        let ghost depth0 = self.depth@;
        let ghost bound0 = self.bound@;
        let ghost root0 = self.root;
        let parent = match table_get(&self.linkdata, entity) {
            Some(l) => *l.parent(),
            None => None,
        };
        proof {
            assert(s0.live(entity));
            assert(node_ok(s0, entity));
            assert(parent == s0.parent(entity));
            assert(self.links().dom() =~= table_entries(self.linkdata).dom());
        }
        let ghost base: Map<EntityKey, LinkView>;
        match parent {
            Some(p) => {
                proof {
                    assert(s0.live(p));
                    assert(node_ok(s0, p));
                }
                match table_get_mut(&mut self.linkdata, p) {
                    Some(l) => {
                        let gone = l.children_mut().remove(entity);
                        proof {
                            let kids = s0.children(p);
                            let i0 = kids.index_of(entity);
                            assert(kids.contains(entity));
                            assert(kids[i0] == entity);
                            assert(gone is Some);
                        }
                    },
                    None => {},
                }
                proof {
                    let kids = s0.children(p);
                    let i0 = kids.index_of(entity);
                    base = links0.insert(
                        p,
                        LinkView { parent: s0.parent(p), children: kids.remove(i0) },
                    );
                    assert(self.links() =~= base);
                }
            },
            None => {
                let new_root = table_insert(&mut self.linkdata, LinkData::new_empty());
                self.root = new_root;
                proof {
                    self.depth@ = self.depth@.insert(new_root, 0);
                    base = links0.insert(
                        new_root,
                        LinkView { parent: None, children: Seq::empty() },
                    );
                    assert(self.links() =~= base);
                }
            },
        }
        let mut stack: Vec<EntityKey> = Vec::new();
        stack.push(entity);
        let ghost mut removed: Set<EntityKey> = Set::empty();
        proof {
            lemma_sweep_init(s0, entity);
            assert(stack@ =~= seq![entity]);
            assert(self.links() =~= base.remove_keys(removed));
            assert(self.slots() =~= slots_without(slots0, removed));
            assert forall|k: EntityKey| #[trigger] s0.in_subtree(entity, k) implies base.contains_key(
                k,
            ) && base[k] == s0.links[k] by {
                lemma_subtree_depth(s0, entity, k);
            }
        }
        loop
            invariant
                s0.wf(),
                s0.live(entity),
                sweep_inv(s0, entity, stack@, removed),
                self.links() == base.remove_keys(removed),
                self.slots() == slots_without(slots0, removed),
                base.dom().finite(),
                forall|k: EntityKey| #[trigger]
                    s0.in_subtree(entity, k) ==> base.contains_key(k) && base[k] == s0.links[k],
                parent is Some ==> self.depth@ == depth0,
                parent is None ==> self.depth@ == depth0.insert(self.root, 0),
                self.bound@ == bound0,
                parent is Some ==> self.root == root0,
                s0.depth == depth0 && s0.bound == bound0 && s0.root == root0,
                parent is None ==> !s0.live(self.root) && base == links0.insert(
                    self.root,
                    LinkView { parent: None, children: Seq::empty() },
                ),
                links0 == s0.links,
            ensures
                stack@.len() == 0,
            decreases self.links().dom().len(),
        {
            let ghost pending = stack@;
            let ghost entries = table_entries(self.linkdata);
            let ghost links_now = self.links();
            match stack.pop() {
                None => {
                    break ;
                },
                Some(x) => {
                    proof {
                        assert(x == pending[pending.len() - 1]);
                        assert(s0.in_subtree(entity, x) && !removed.contains(x));
                        assert(base.contains_key(x) && base[x] == s0.links[x]);
                        assert(links_now.contains_key(x));
                        assert(entries.contains_key(x));
                    }
                    let record = table_remove(&mut self.linkdata, x);
                    self.components.remove_entity(x);
                    proof {
                        assert(table_entries(self.linkdata) == entries.remove(x));
                        assert(self.links() =~= links_now.remove(x));
                        assert(links_now.remove(x) =~= base.remove_keys(removed.insert(x)));
                        assert(self.slots() =~= slots_without(slots0, removed.insert(x)));
                        assert(self.links().dom() =~= links_now.dom().remove(x));
                        lemma_len_subset(links_now.dom(), base.dom());
                    }
                    match record {
                        Some(linkdata) => {
                            let kids = linkdata.children();
                            let n = kids.len();
                            let mut i: usize = 0;
                            proof {
                                assert(linkdata@ == links_now[x]);
                                assert(kids@ == s0.children(x));
                                assert(stack@ =~= pending.drop_last() + kids@.subrange(0, 0));
                            }
                            while i < n
                                invariant
                                    i <= n,
                                    n == kids@.len(),
                                    pending.len() > 0,
                                    stack@ == pending.drop_last() + kids@.subrange(0, i as int),
                                decreases n - i,
                            {
                                match kids.get_child(i) {
                                    Some(c) => {
                                        stack.push(*c);
                                    },
                                    None => {},
                                }
                                proof {
                                    assert(kids@.subrange(0, i + 1) =~= kids@.subrange(
                                        0,
                                        i as int,
                                    ).push(kids@[i as int]));
                                }
                                i += 1;
                            }
                            proof {
                                assert(kids@.subrange(0, n as int) =~= kids@);
                            }
                        },
                        None => {},
                    }
                    proof {
                        lemma_sweep_step(s0, entity, pending, removed);
                        removed = removed.insert(x);
                    }
                },
            }
        }
        proof {
            assert(stack@ =~= Seq::<EntityKey>::empty());
            lemma_sweep_done(s0, entity, removed);
            match parent {
                Some(p) => {
                    lemma_cut_wf(s0, entity);
                    lemma_subtree_depth(s0, entity, entity);
                    assert(!s0.in_subtree(entity, p)) by {
                        if s0.in_subtree(entity, p) {
                            lemma_subtree_depth(s0, entity, p);
                        }
                    }
                    assert(self.links() =~= s0.subtree_cut(entity));
                    assert(self.shape() == cut_shape(s0, entity));
                    assert(self.links().dom().subset_of(links0.dom()));
                    lemma_len_subset(self.links().dom(), links0.dom());
                    assert forall|k: EntityKey| #[trigger] s0.in_subtree(entity, k) implies !self.live(
                        k,
                    ) by {
                        assert(k != p);
                    }
                },
                None => {
                    assert(entity == s0.root);
                    assert forall|k: EntityKey| s0.live(k) implies removed.contains(k) by {
                        lemma_all_under_root(s0, k);
                    }
                    assert forall|k: EntityKey| removed.contains(k) implies s0.live(k) by {
                        lemma_subtree_depth(s0, entity, k);
                    }
                    assert(self.links() =~= fresh_root(self.root));
                    lemma_fresh_root_wf(self.root, self.depth@, self.bound@);
                    assert(self.links().dom() =~= Set::<EntityKey>::empty().insert(self.root));
                    assert(links0.dom().len() >= 1) by {
                        assert(links0.dom().contains(entity));
                        if links0.dom().len() == 0 {
                            assert(links0.dom() =~= Set::<EntityKey>::empty());
                        }
                    }
                    assert forall|k: EntityKey| #[trigger] s0.in_subtree(entity, k) implies !self.live(
                        k,
                    ) by {
                        lemma_subtree_depth(s0, entity, k);
                    }
                },
            }
            assert forall|k: EntityKey| #[trigger] s0.in_subtree(entity, k) implies !self.holds_any(
                k,
            ) by {
                assert(removed.contains(k));
            }
        }
        Some(())
    }

    /// Attaches the component to the entity, in place of a component of
    /// the same type that the entity may hold. Whether the entity is live
    /// is not asked.
    pub fn register<T: Component>(&mut self, entity: EntityKey, component: T)
        ensures
            slot_filled(old(self).slots(), final(self).slots(), entity),
            final(self).links() == old(self).links(),
            final(self).root_key() == old(self).root_key(),
            old(self).wf() ==> final(self).wf(),
    {
        self.components.add_component(entity, component)
    }

    /// The component of type `T` that the entity holds, if it holds one.
    pub fn get_component<T: Component>(&self, entity: EntityKey) -> (r: Option<
        ComponentEntry<'_, T>,
    >)
        ensures
            slot_probed(self.slots(), entity, r is Some),
    {
        self.components.get_component(entity)
    }

    /// The component of type `T` that the entity holds, if it holds one,
    /// for writing.
    pub fn get_component_mut<T: Component>(&mut self, entity: EntityKey) -> (r: Option<
        ComponentEntryMut<'_, T>,
    >)
        ensures
            slot_probed(old(self).slots(), entity, r is Some),
            final(self).slots() == old(self).slots(),
            final(self).links() == old(self).links(),
            final(self).root_key() == old(self).root_key(),
            old(self).wf() ==> final(self).wf(),
    {
        self.components.get_component_mut(entity)
    }

    /// Detaches the component of type `T` from the entity and returns it,
    /// if the entity holds one.
    pub fn remove_component<T: Component>(&mut self, entity: EntityKey) -> (r: Option<T>)
        ensures
            slot_emptied(old(self).slots(), final(self).slots(), entity, r is Some),
            final(self).links() == old(self).links(),
            final(self).root_key() == old(self).root_key(),
            old(self).wf() ==> final(self).wf(),
    {
        self.components.remove_component(entity)
    }
}

} // verus!
