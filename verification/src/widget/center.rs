//! A widget that centres its child.

use crate::gui::WidgetContext;
use crate::renderer::Renderer;
use crate::widget::{grown, lemma_grown_twice, lemma_new_child_grows, Render, RenderAble};
use vstd::prelude::*;

verus! {

/// A widget that places its one child in the middle of the space it
/// gets.
pub struct Center<W> {
    child: W,
}

impl<W: 'static> Center<W> {
    /// The widget that is centred.
    pub closed spec fn spec_child(&self) -> W {
        self.child
    }

    pub fn new(data: W) -> (r: Self)
        ensures
            r.spec_child() == data,
    {
        Center { child: data }
    }

    /// The widget that is centred.
    pub fn child(&self) -> (r: &W)
        ensures
            *r == self.spec_child(),
    {
        &self.child
    }
}

impl<R, W> RenderAble<R> for Center<W> where W: RenderAble<R> + 'static, R: Renderer + Render<Self> {
    open spec fn grows(&self) -> nat {
        1 + self.spec_child().grows()
    }

    fn mount<'gui>(&self, context: WidgetContext<'gui, R>) -> (r: WidgetContext<'gui, R>) {
        let ghost start = context;
        let mut context = context;
        R::mount(self, &mut context);
        let ghost here = context;
        let child = context.new_child();
        let ghost below = child;
        let back = self.child.mount(child);
        let ghost done = back;
        proof {
            assert(grown(start, here, 0));
            lemma_new_child_grows(here, below);
            lemma_grown_twice(start, here, below, 0, 1);
            lemma_grown_twice(start, below, done, 1, self.spec_child().grows());
            assert(below.arena().live(below.key()));
        }
        match back.to_parent() {
            Some(r) => r,
            None => vstd::pervasive::unreached(),
        }
    }
}

} // verus!
