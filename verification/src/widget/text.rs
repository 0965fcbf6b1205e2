//! Text widgets.

use crate::color::Color;
use crate::gui::WidgetContext;
use crate::renderer::Renderer;
use crate::widget::{grown, lemma_grown_twice, mount_row, row_grows, Render, RenderAble};
use vstd::prelude::*;

verus! {

/// A plain text, bold or not.
pub struct Text {
    pub data: String,
    pub is_bold: bool,
}

impl Text {
    pub fn new(data: &str) -> (r: Self)
        ensures
            r.data@ == data@,
            !r.is_bold,
    {
        Text { data: data.to_owned(), is_bold: false }
    }

    /// Lorem ipsum text of the given number of words.
    pub fn lorem(len: usize) -> (r: Self)
        ensures
            r.data@ == lipsum_text(len),
            !r.is_bold,
    {
        Text { data: lipsum_string(len), is_bold: false }
    }

    pub fn set_bold(self) -> (r: Self)
        ensures
            r.data@ == self.data@,
            r.is_bold,
    {
        let mut r = self;
        r.is_bold = true;
        r
    }
}

impl<R> RenderAble<R> for Text where R: Renderer + Render<Self> {
    open spec fn grows(&self) -> nat {
        0
    }

    /// A text has nothing below it: the context that comes back is
    /// what the renderer made of it when it was told of the mounting.
    fn mount<'gui>(&self, context: WidgetContext<'gui, R>) -> (r: WidgetContext<'gui, R>)
        ensures
            exists|m: &mut WidgetContext<'gui, R>|
                *m == context && *final(m) == r && #[trigger] call_ensures(
                    <R as Render<Text>>::mount,
                    (self, m),
                    (),
                ),
    {
        let mut context = context;
        R::mount(self, &mut context);
        context
    }
}

/// How the lines of a text are placed between the edges.
pub enum Align {
    /// Lines start at the left edge.
    Left,
    /// Lines end at the right edge.
    Right,
    /// Lines are centred.
    Center,
    /// Lines are stretched so that all have the same width.
    Justify,
}

/// The direction in which a text is written.
pub enum Direction {
    LeftToRight,
    RightToLeft,
}

/// A text with alignment, direction and colour.
pub struct RichText {
    text: String,
    alignment: Align,
    direction: Direction,
    color: Color,
}

/// The text that `lipsum::lipsum` generates for a number of words.
pub uninterp spec fn lipsum_text(words: usize) -> Seq<char>;

/// `lipsum::lipsum`: lorem ipsum text of the given number of words. The
/// text is the same for the same number.
#[verifier::external_body]
fn lipsum_string(words: usize) -> (text: String)
    ensures
        text@ == lipsum_text(words),
{
    lipsum::lipsum(words)
}

impl Default for RichText {
    /// An empty text, aligned left, written from left to right, in the
    /// colour with the number `0xffffff`.
    fn default() -> (r: Self)
        ensures
            r.spec_text() == Seq::<char>::empty(),
            r.spec_alignment() is Left,
            r.spec_direction() is LeftToRight,
            r.spec_color().value() == 0xffffff,
    {
        RichText {
            text: String::new(),
            alignment: Align::Left,
            direction: Direction::LeftToRight,
            color: Color::new_hex(0xffffff),
        }
    }
}

impl RichText {
    pub closed spec fn spec_text(&self) -> Seq<char> {
        self.text@
    }

    pub closed spec fn spec_alignment(&self) -> Align {
        self.alignment
    }

    pub closed spec fn spec_direction(&self) -> Direction {
        self.direction
    }

    pub closed spec fn spec_color(&self) -> Color {
        self.color
    }

    /// Whether the text has the settings that a new text starts with.
    pub open spec fn has_defaults(&self) -> bool {
        &&& self.spec_alignment() is Left
        &&& self.spec_direction() is LeftToRight
        &&& self.spec_color().value() == 0xffffff
    }

    /// Lorem ipsum text of the given number of words, with the default
    /// settings.
    pub fn lorem(len: usize) -> (r: Self)
        ensures
            r.spec_text() == lipsum_text(len),
            r.has_defaults(),
    {
        let text = lipsum_string(len);
        RichText {
            text,
            alignment: Align::Left,
            direction: Direction::LeftToRight,
            color: Color::new_hex(0xffffff),
        }
    }

    /// The given text with the default settings.
    pub fn new(text: String) -> (r: Self)
        ensures
            r.spec_text() == text@,
            r.has_defaults(),
    {
        RichText {
            text,
            alignment: Align::Left,
            direction: Direction::LeftToRight,
            color: Color::new_hex(0xffffff),
        }
    }

    pub fn with_align(self, align: Align) -> (r: Self)
        ensures
            r.spec_alignment() == align,
            r.spec_text() == self.spec_text(),
            r.spec_direction() == self.spec_direction(),
            r.spec_color() == self.spec_color(),
    {
        let mut r = self;
        r.alignment = align;
        r
    }

    pub fn with_direction(self, direction: Direction) -> (r: Self)
        ensures
            r.spec_direction() == direction,
            r.spec_text() == self.spec_text(),
            r.spec_alignment() == self.spec_alignment(),
            r.spec_color() == self.spec_color(),
    {
        let mut r = self;
        r.direction = direction;
        r
    }

    pub fn with_color(self, color: Color) -> (r: Self)
        ensures
            r.spec_color() == color,
            r.spec_text() == self.spec_text(),
            r.spec_alignment() == self.spec_alignment(),
            r.spec_direction() == self.spec_direction(),
    {
        let mut r = self;
        r.color = color;
        r
    }

    pub fn text(&self) -> (r: &str)
        ensures
            r@ == self.spec_text(),
    {
        self.text.as_str()
    }

    pub fn alignment(&self) -> (r: &Align)
        ensures
            *r == self.spec_alignment(),
    {
        &self.alignment
    }

    pub fn direction(&self) -> (r: &Direction)
        ensures
            *r == self.spec_direction(),
    {
        &self.direction
    }

    pub fn color(&self) -> (r: &Color)
        ensures
            *r == self.spec_color(),
    {
        &self.color
    }
}

impl<R> RenderAble<R> for RichText where R: Renderer + Render<Self> {
    open spec fn grows(&self) -> nat {
        0
    }

    /// A rich text has nothing below it: the context that comes back is
    /// what the renderer made of it when it was told of the mounting.
    fn mount<'gui>(&self, context: WidgetContext<'gui, R>) -> (r: WidgetContext<'gui, R>)
        ensures
            exists|m: &mut WidgetContext<'gui, R>|
                *m == context && *final(m) == r && #[trigger] call_ensures(
                    <R as Render<RichText>>::mount,
                    (self, m),
                    (),
                ),
    {
        let mut context = context;
        R::mount(self, &mut context);
        context
    }
}

/// Widgets one below the other.
#[verifier::reject_recursive_types(R)]
pub struct Vlist<R> {
    pub data: Vec<Box<dyn RenderAble<R>>>,
}

impl<R: Renderer> Vlist<R> {
    pub fn new() -> (r: Self)
        ensures
            r.data@.len() == 0,
    {
        Vlist { data: Vec::new() }
    }

    /// The list with the given widget added at its end.
    pub fn add(self, x: Box<dyn RenderAble<R>>) -> (r: Self)
        ensures
            r.data@ == self.data@.push(x),
    {
        let mut data = self.data;
        data.push(x);
        Vlist { data }
    }

    pub fn len(&self) -> (n: usize)
        ensures
            n == self.data@.len(),
    {
        self.data.len()
    }
}

impl<R> RenderAble<R> for Vlist<R> where R: Renderer + Render<Self> {
    open spec fn grows(&self) -> nat {
        row_grows(self.data@)
    }

    fn mount<'gui>(&self, context: WidgetContext<'gui, R>) -> (r: WidgetContext<'gui, R>) {
        let ghost start = context;
        let mut context = context;
        R::mount(self, &mut context);
        let ghost here = context;
        let r = mount_row(&self.data, context);
        proof {
            assert(grown(start, here, 0));
            lemma_grown_twice(start, here, r, 0, row_grows(self.data@));
        }
        r
    }
}

} // verus!
