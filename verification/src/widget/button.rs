//! A button with a text on it.

use crate::gui::WidgetContext;
use crate::renderer::Renderer;
use crate::state::StateTransaction;
use crate::widget::text::Text;
use crate::widget::{grown, lemma_grown_twice, lemma_new_child_grows, Render, RenderAble};
use vstd::prelude::*;

verus! {

/// A button that shows a text and may ask for a change of state when it
/// is clicked.
pub struct TextButton {
    child: Text,
    update: Option<StateTransaction>,
}

impl TextButton {
    /// The text on the button.
    pub closed spec fn spec_child(&self) -> Text {
        self.child
    }

    /// The change that a click asks for, if one was set.
    pub closed spec fn spec_update(&self) -> Option<StateTransaction> {
        self.update
    }

    /// A button with the given text that does nothing when clicked.
    pub fn new(text: Text) -> (r: Self)
        ensures
            r.spec_child() == text,
            r.spec_update() is None,
    {
        TextButton { child: text, update: None }
    }

    pub fn on_click(self, update: StateTransaction) -> (r: Self)
        ensures
            r.spec_child() == self.spec_child(),
            r.spec_update() == Some(update),
    {
        let mut r = self;
        r.update = Some(update);
        r
    }

    /// The text on the button.
    pub fn child(&self) -> (r: &Text)
        ensures
            *r == self.spec_child(),
    {
        &self.child
    }

    /// The change that a click asks for, if one was set.
    pub fn update(&self) -> (r: Option<&StateTransaction>)
        ensures
            r is Some <==> self.spec_update() is Some,
            r is Some ==> *r.unwrap() == self.spec_update().unwrap(),
    {
        match &self.update {
            Some(u) => Some(u),
            None => None,
        }
    }
}

impl<R> RenderAble<R> for TextButton where R: Renderer + Render<Self> + Render<Text> {
    open spec fn grows(&self) -> nat {
        1
    }

    fn mount<'gui>(&self, context: WidgetContext<'gui, R>) -> (r: WidgetContext<'gui, R>) {
        let ghost start = context;
        let mut context = context;
        <R as Render<TextButton>>::mount(self, &mut context);
        let ghost here = context;
        let child = context.new_child();
        let ghost below = child;
        let back = self.child.mount(child);
        let ghost done = back;
        proof {
            assert(grown(start, here, 0));
            lemma_new_child_grows(here, below);
            lemma_grown_twice(start, here, below, 0, 1);
            lemma_grown_twice(start, below, done, 1, 0);
            assert(below.arena().live(below.key()));
        }
        match back.to_parent() {
            Some(r) => r,
            None => vstd::pervasive::unreached(),
        }
    }
}

} // verus!
