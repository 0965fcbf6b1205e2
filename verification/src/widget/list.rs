//! A row of widgets.

use crate::gui::WidgetContext;
use crate::renderer::Renderer;
use crate::widget::{grown, lemma_grown_twice, mount_row, row_grows, Render, RenderAble};
use vstd::prelude::*;

verus! {

/// Widgets side by side.
#[verifier::reject_recursive_types(R)]
pub struct Hlist<R> {
    pub data: Vec<Box<dyn RenderAble<R>>>,
}

impl<R: Renderer> Hlist<R> {
    pub fn new() -> (r: Self)
        ensures
            r.data@.len() == 0,
    {
        Hlist { data: Vec::new() }
    }

    /// The list with the given widget added at its end.
    pub fn add(self, x: Box<dyn RenderAble<R>>) -> (r: Self)
        ensures
            r.data@ == self.data@.push(x),
    {
        let mut data = self.data;
        data.push(x);
        Hlist { data }
    }
}

impl<R> RenderAble<R> for Hlist<R> where R: Renderer + Render<Self> {
    open spec fn grows(&self) -> nat {
        row_grows(self.data@)
    }

    fn mount<'gui>(&self, context: WidgetContext<'gui, R>) -> (r: WidgetContext<'gui, R>) {
        let ghost start = context;
        let mut context = context;
        R::mount(self, &mut context);
        let ghost here = context;
        let r = mount_row(&self.data, context);
        proof {
            assert(grown(start, here, 0));
            lemma_grown_twice(start, here, r, 0, row_grows(self.data@));
        }
        r
    }
}

} // verus!
