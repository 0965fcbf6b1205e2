//! Spacing around the content of a container.

use crate::color::Color;
use crate::gui::WidgetContext;
use crate::renderer::Renderer;
use crate::widget::{grown, lemma_grown_twice, lemma_new_child_grows, Render, RenderAble};
use vstd::prelude::*;

verus! {

/// The widths of the four edges of a box.
#[derive(Debug, Clone, Copy)]
pub struct EdgeInsets {
    left: u8,
    top: u8,
    right: u8,
    bottom: u8,
}

impl EdgeInsets {
    pub closed spec fn spec_left(&self) -> u8 {
        self.left
    }

    pub closed spec fn spec_right(&self) -> u8 {
        self.right
    }

    pub closed spec fn spec_top(&self) -> u8 {
        self.top
    }

    pub closed spec fn spec_bottom(&self) -> u8 {
        self.bottom
    }

    /// The same width on all four edges.
    pub fn all(value: u8) -> (r: Self)
        ensures
            r.left() == value,
            r.top() == value,
            r.right() == value,
            r.bottom() == value,
    {
        EdgeInsets { left: value, top: value, right: value, bottom: value }
    }

    #[verifier::when_used_as_spec(spec_left)]
    pub fn left(&self) -> (v: u8)
        ensures
            v == self.spec_left(),
    {
        self.left
    }

    #[verifier::when_used_as_spec(spec_right)]
    pub fn right(&self) -> (v: u8)
        ensures
            v == self.spec_right(),
    {
        self.right
    }

    #[verifier::when_used_as_spec(spec_top)]
    pub fn top(&self) -> (v: u8)
        ensures
            v == self.spec_top(),
    {
        self.top
    }

    #[verifier::when_used_as_spec(spec_bottom)]
    pub fn bottom(&self) -> (v: u8)
        ensures
            v == self.spec_bottom(),
    {
        self.bottom
    }

    /// Whether all four edges have the same width.
    pub fn is_even(&self) -> (b: bool)
        ensures
            b <==> (self.top() == self.bottom() && self.top() == self.left() && self.top()
                == self.right()),
    {
        self.top == self.bottom && self.top == self.left && self.top == self.right
    }
}

/// A box with a background colour and spacing around its one child.
#[verifier::reject_recursive_types(R)]
pub struct Container<R> {
    child: Option<Box<dyn RenderAble<R>>>,
    insets: EdgeInsets,
    bg: Color,
}

impl<R: Renderer> Container<R> {
    /// The spacing of the container.
    pub closed spec fn spec_insets(&self) -> EdgeInsets {
        self.insets
    }

    /// The background colour of the container.
    pub closed spec fn spec_bg(&self) -> Color {
        self.bg
    }

    /// The child of the container, if it has one.
    pub closed spec fn spec_child(&self) -> Option<Box<dyn RenderAble<R>>> {
        self.child
    }

    /// A container without child and spacing, on white.
    pub fn new() -> (r: Self)
        ensures
            r.spec_child() is None,
            r.spec_insets().left() == 0 && r.spec_insets().top() == 0 && r.spec_insets().right()
                == 0 && r.spec_insets().bottom() == 0,
            r.spec_bg().alpha() == 255 && r.spec_bg().red() == 255 && r.spec_bg().green() == 255
                && r.spec_bg().blue() == 255,
    {
        Container { child: None, insets: EdgeInsets::all(0), bg: Color::new_argb(255, 255, 255, 255) }
    }

    /// The container with the given widget as its child.
    pub fn with_child(self, x: Box<dyn RenderAble<R>>) -> (r: Self)
        ensures
            r.spec_child() == Some(x),
            r.spec_insets() == self.spec_insets(),
            r.spec_bg() == self.spec_bg(),
    {
        let child = Some(x);
        let mut r = self;
        r.child = child;
        r
    }

    pub fn with_insets(self, insets: EdgeInsets) -> (r: Self)
        ensures
            r.spec_insets() == insets,
            r.spec_child() == self.spec_child(),
            r.spec_bg() == self.spec_bg(),
    {
        let mut r = self;
        r.insets = insets;
        r
    }

    pub fn insets(&self) -> (r: &EdgeInsets)
        ensures
            *r == self.spec_insets(),
    {
        &self.insets
    }

    pub fn bg(&self) -> (r: &Color)
        ensures
            *r == self.spec_bg(),
    {
        &self.bg
    }

    pub fn with_bg(self, bg: Color) -> (r: Self)
        ensures
            r.spec_bg() == bg,
            r.spec_child() == self.spec_child(),
            r.spec_insets() == self.spec_insets(),
    {
        let mut r = self;
        r.bg = bg;
        r
    }
}

impl<R> RenderAble<R> for Container<R> where R: Renderer + Render<Self> {
    open spec fn grows(&self) -> nat {
        match self.spec_child() {
            Some(x) => 1 + x.grows(),
            None => 0,
        }
    }

    fn mount<'gui>(&self, context: WidgetContext<'gui, R>) -> (r: WidgetContext<'gui, R>) {
        let ghost start = context;
        let mut context = context;
        R::mount(self, &mut context);
        let ghost here = context;
        proof {
            assert(grown(start, here, 0));
        }
        match &self.child {
            Some(x) => {
                let child = context.new_child();
                let ghost below = child;
                let back = x.mount(child);
                let ghost done = back;
                proof {
                    lemma_new_child_grows(here, below);
                    lemma_grown_twice(start, here, below, 0, 1);
                    lemma_grown_twice(start, below, done, 1, x.grows());
                    assert(below.arena().live(below.key()));
                }
                match back.to_parent() {
                    Some(r) => r,
                    None => vstd::pervasive::unreached(),
                }
            },
            None => context,
        }
    }
}

} // verus!
