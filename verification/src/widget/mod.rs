//! Widgets: what can be mounted into the arena of a user interface.

use crate::gui::WidgetContext;
use crate::renderer::Renderer;
use crate::treecs::key::EntityKey;
use crate::treecs::table::TABLE_LIMIT;
use vstd::prelude::*;

pub mod button;
pub mod center;
pub mod container;
pub mod image;
pub mod list;
pub mod text;

verus! {

/// The arena of `after` has grown out of the arena of `before` by
/// mounting: every entity of before is still live and has the parent it
/// had, the root is the same, and `count` entities were added.
pub open spec fn grown<R: Renderer>(
    before: WidgetContext<'_, R>,
    after: WidgetContext<'_, R>,
    count: nat,
) -> bool {
    &&& after.arena().root_key() == before.arena().root_key()
    &&& after.arena().links().dom().len() == before.arena().links().dom().len() + count
    &&& forall|k: EntityKey| #[trigger]
        before.arena().live(k) ==> after.arena().live(k) && after.arena().links()[k].parent
            == before.arena().links()[k].parent
}

/// Creating a child adds one entity and leaves the others where they
/// are.
pub proof fn lemma_new_child_grows<R: Renderer>(
    before: WidgetContext<'_, R>,
    after: WidgetContext<'_, R>,
)
    requires
        before.wf(),
        !before.arena().live(after.key()),
        after.arena().links() == crate::treecs::shape::child_added(
            before.arena().links(),
            before.key(),
            after.key(),
        ),
        after.arena().root_key() == before.arena().root_key(),
    ensures
        grown(before, after, 1),
        after.arena().live(after.key()),
        after.arena().links()[after.key()].parent == Some(before.key()),
{
    assert(before.arena().shape().wf());
    assert(after.arena().links().dom() =~= before.arena().links().dom().insert(after.key()));
}

/// Growing in two steps is growing.
pub proof fn lemma_grown_twice<R: Renderer>(
    a: WidgetContext<'_, R>,
    b: WidgetContext<'_, R>,
    c: WidgetContext<'_, R>,
    m: nat,
    n: nat,
)
    requires
        grown(a, b, m),
        grown(b, c, n),
    ensures
        grown(a, c, m + n),
{
    assert forall|k: EntityKey| #[trigger] a.arena().live(k) implies c.arena().live(k)
        && c.arena().links()[k].parent == a.arena().links()[k].parent by {
        assert(b.arena().live(k));
    }
}

/// The number of entities that mounting a row of widgets adds to the
/// arena: every widget gets an entity of its own, below which it is
/// mounted.
pub open spec fn row_grows<R: Renderer>(data: Seq<Box<dyn RenderAble<R>>>) -> nat
    decreases data.len(),
{
    if data.len() == 0 {
        0
    } else {
        row_grows(data.drop_last()) + 1 + data.last().grows()
    }
}

/// Mounts a row of widgets, each below a new child of the context's
/// entity, from first to last. The context comes back where it started.
pub fn mount_row<'gui, R: Renderer>(
    data: &Vec<Box<dyn RenderAble<R>>>,
    context: WidgetContext<'gui, R>,
) -> (r: WidgetContext<'gui, R>)
    requires
        context.wf(),
        context.arena().links().dom().len() + row_grows(data@) <= TABLE_LIMIT,
    ensures
        r.wf(),
        r.key() == context.key(),
        grown(context, r, row_grows(data@)),
{
    let mut context = context;
    let ghost start = context;
    let n = data.len();
    let mut i: usize = 0;
    proof {
        assert(data@.take(0) =~= Seq::<Box<dyn RenderAble<R>>>::empty());
        assert(data@.take(n as int) =~= data@);
        lemma_row_grows_more(data@, 0, n as int);
    }
    while i < n
        invariant
            i <= n,
            n == data@.len(),
            context.wf(),
            context.key() == start.key(),
            grown(start, context, row_grows(data@.take(i as int))),
            start.arena().links().dom().len() + row_grows(data@) <= TABLE_LIMIT,
        decreases n - i,
    {
        let ghost here = context;
        proof {
            assert(data@.take(i + 1).drop_last() =~= data@.take(i as int));
            assert(data@.take(i + 1).last() == data@[i as int]);
            assert(data@.take(n as int) =~= data@);
            lemma_row_grows_more(data@, i + 1, n as int);
        }
        let child = context.new_child();
        let ghost below = child;
        let back = data[i].mount(child);
        let ghost done = back;
        proof {
            lemma_new_child_grows(here, below);
            lemma_grown_twice(start, here, below, row_grows(data@.take(i as int)), 1);
            lemma_grown_twice(
                start,
                below,
                done,
                row_grows(data@.take(i as int)) + 1,
                data@[i as int].grows(),
            );
            assert(below.arena().live(below.key()));
        }
        context = match back.to_parent() {
            Some(r) => r,
            None => vstd::pervasive::unreached(),
        };
        i += 1;
    }
    context
}

/// A longer part of a row adds at least as many entities as a shorter
/// one.
pub proof fn lemma_row_grows_more<R: Renderer>(data: Seq<Box<dyn RenderAble<R>>>, i: int, j: int)
    requires
        0 <= i <= j <= data.len(),
    ensures
        row_grows(data.take(i)) <= row_grows(data.take(j)),
    decreases j - i,
{
    if i < j {
        assert(data.take(j).drop_last() =~= data.take(j - 1));
        lemma_row_grows_more(data, i, j - 1);
    }
}

/// Something that can be mounted at an entity of the arena.
pub trait RenderAble<R: Renderer> {
    /// The number of entities that mounting adds to the arena: none,
    /// unless the widget says otherwise.
    open spec fn grows(&self) -> nat {
        0
    }

    /// Mounts this at the entity of the context: attaches what the
    /// renderer needs and creates the entities below. The context comes
    /// back at the entity where it started.
    fn mount<'gui>(&self, context: WidgetContext<'gui, R>) -> (r: WidgetContext<'gui, R>)
        requires
            context.wf(),
            context.arena().links().dom().len() + self.grows() <= TABLE_LIMIT,
        ensures
            r.wf(),
            r.key() == context.key(),
            grown(context, r, self.grows()),
    ;
}

/// What a renderer does when a widget of type `Widget` is mounted. It
/// may attach components to the entity of the context; the links of the
/// arena are not its business.
pub trait Render<Widget: ?Sized>: Renderer + Sized + 'static {
    fn mount<'gui>(widget: &Widget, context: &mut WidgetContext<'gui, Self>)
        requires
            old(context).wf(),
        ensures
            final(context).wf(),
            final(context).key() == old(context).key(),
            final(context).arena().links() == old(context).arena().links(),
            final(context).arena().root_key() == old(context).arena().root_key(),
    ;

    fn after_mount<'gui>(widget: &Widget, context: &mut WidgetContext<'gui, Self>)
        requires
            old(context).wf(),
        ensures
            final(context).wf(),
            final(context).key() == old(context).key(),
            final(context).arena().links() == old(context).arena().links(),
            final(context).arena().root_key() == old(context).arena().root_key(),
    {
    }
}

} // verus!
