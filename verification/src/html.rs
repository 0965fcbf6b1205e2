//! Hypertext output: tags with attributes, and the text that a tree of
//! tags is written as.

use crate::gui::WidgetContext;
use crate::renderer::Renderer;
use crate::treecs::component::ComponentEntry;
use crate::treecs::iterators::breadth::{BreadthInfo, BreadthIter};
use crate::treecs::key::EntityKey;
use crate::treecs::query::Query;
use crate::widget::button::TextButton;
use crate::widget::center::Center;
use crate::widget::list::Hlist;
use crate::widget::text::{RichText, Text};
use crate::widget::Render;
use std::borrow::Cow;
use std::ops::Deref;
use vstd::prelude::*;

verus! {

/// `std::fmt::Error`: the error of a failed write. Writing into a
/// string never yields one.
#[verifier::external_type_specification]
#[verifier::external_body]
pub struct ExFmtError(std::fmt::Error);

/// `String::push_str`: appends the text to the string.
#[verifier::external_body]
fn append(dest: &mut String, text: &str)
    ensures
        final(dest)@ == old(dest)@ + text@,
{
    dest.push_str(text)
}

/// `==` of `str`: whether two texts hold the same characters.
#[verifier::external_body]
fn same_text(a: &str, b: &str) -> (r: bool)
    ensures
        r == (a@ == b@),
{
    a == b
}

/// `Uuid::new_v4` and its `to_string`: a random identifier. Nothing is
/// promised about it.
#[verifier::external_body]
fn random_id() -> (id: String) {
    uuid::Uuid::new_v4().to_string()
}

/// The content of [`Attributes`]: the click handler, if any, the style
/// settings, each a pair of property and value, and the identifier.
pub struct AttributesView {
    pub on_click: Option<Seq<char>>,
    pub styles: Seq<(Seq<char>, Seq<char>)>,
    pub id: Seq<char>,
}

/// The position of the setting of a property among the style settings,
/// or the number of settings if the property is not set.
pub open spec fn style_position(styles: Seq<(Seq<char>, Seq<char>)>, key: Seq<char>) -> int
    decreases styles.len(),
{
    if styles.len() == 0 {
        0
    } else if styles.first().0 == key {
        0
    } else {
        1 + style_position(styles.drop_first(), key)
    }
}

/// The style settings after a property was set: its earlier setting is
/// replaced where it stands; a property that was not set is added at the
/// end.
pub open spec fn style_set(
    styles: Seq<(Seq<char>, Seq<char>)>,
    key: Seq<char>,
    value: Seq<char>,
) -> Seq<(Seq<char>, Seq<char>)> {
    let i = style_position(styles, key);
    if i < styles.len() {
        styles.update(i, (key, value))
    } else {
        styles.push((key, value))
    }
}

/// The style settings as text: `property:value`, joined by `;`.
pub open spec fn styles_text(styles: Seq<(Seq<char>, Seq<char>)>) -> Seq<char>
    decreases styles.len(),
{
    if styles.len() == 0 {
        Seq::empty()
    } else if styles.len() == 1 {
        styles[0].0 + ":"@ + styles[0].1
    } else {
        styles_text(styles.drop_last()) + ";"@ + styles.last().0 + ":"@ + styles.last().1
    }
}

/// The attributes as text, as they stand in an opening tag: a space, the
/// style settings if there are any, the click handler if there is one,
/// and the identifier.
pub open spec fn attributes_text(a: AttributesView) -> Seq<char> {
    let styles = if a.styles.len() > 0 {
        "style=\""@ + styles_text(a.styles) + "\""@ + " "@
    } else {
        Seq::empty()
    };
    let click = match a.on_click {
        Some(c) => "onclick=\""@ + c + "\""@,
        None => Seq::empty(),
    };
    " "@ + styles + click + "id=\""@ + a.id + "\""@
}

/// The owned text of a text that may be borrowed.
fn owned(text: Cow<'static, str>) -> (r: String)
    ensures
        r@ == text@,
{
    match text {
        Cow::Borrowed(b) => b.to_owned(),
        Cow::Owned(o) => o,
    }
}

/// The attributes of a tag.
#[derive(Debug)]
pub struct Attributes {
    on_click: Option<String>,
    styles: Vec<(String, String)>,
    id: String,
}

impl View for Attributes {
    type V = AttributesView;

    closed spec fn view(&self) -> AttributesView {
        AttributesView {
            on_click: match self.on_click {
                Some(c) => Some(c@),
                None => None,
            },
            styles: Seq::new(self.styles@.len(), |i: int| (self.styles@[i].0@, self.styles@[i].1@)),
            id: self.id@,
        }
    }
}

impl Attributes {
    /// Attributes without style and click handler, under a random
    /// identifier.
    pub fn new() -> (r: Self)
        ensures
            r@.on_click is None,
            r@.styles.len() == 0,
    {
        Attributes::from_id(random_id())
    }

    /// Attributes without style and click handler, under the given
    /// identifier.
    pub fn from_id(id: String) -> (r: Self)
        ensures
            r@ == (AttributesView { on_click: None, styles: Seq::empty(), id: id@ }),
    {
        let r = Attributes { on_click: None, styles: Vec::new(), id };
        proof {
            assert(r@.styles =~= Seq::empty());
        }
        r
    }

    pub fn with_style(self, key: &'static str, value: Cow<'static, str>) -> (r: Self)
        ensures
            r@ == (AttributesView { styles: style_set(self@.styles, key@, value@), ..self@ }),
    {
        let mut r = self;
        r.add_style(key, value);
        r
    }

    pub fn with_id(self, id: String) -> (r: Self)
        ensures
            r@ == (AttributesView { id: id@, ..self@ }),
    {
        let mut r = self;
        r.id = id;
        r
    }

    /// Sets a style property, in place of an earlier setting of the same
    /// property.
    pub fn add_style(&mut self, key: &'static str, value: Cow<'static, str>)
        ensures
            final(self)@ == (AttributesView {
                styles: style_set(old(self)@.styles, key@, value@),
                ..old(self)@
            }),
    {
        let text = owned(value);
        let n = self.styles.len();
        let mut i: usize = 0;
        proof {
            assert(old(self)@.styles.skip(0) =~= old(self)@.styles);
        }
        while i < n
            invariant
                i <= n,
                n == self.styles@.len(),
                *self == *old(self),
                text@ == value@,
                style_position(old(self)@.styles, key@) == i + style_position(
                    old(self)@.styles.skip(i as int),
                    key@,
                ),
            decreases n - i,
        {
            proof {
                let rest = old(self)@.styles.skip(i as int);
                assert(rest.first() == old(self)@.styles[i as int]);
                assert(rest.drop_first() =~= old(self)@.styles.skip(i + 1));
            }
            if same_text(self.styles[i].0.as_str(), key) {
                self.styles.set(i, (key.to_owned(), text));
                proof {
                    let before = old(self)@.styles;
                    assert(before.skip(i as int).first().0 == key@);
                    assert(self@.styles =~= before.update(i as int, (key@, value@)));
                }
                return ;
            }
            i += 1;
        }
        proof {
            assert(old(self)@.styles.skip(n as int) =~= Seq::<(Seq<char>, Seq<char>)>::empty());
        }
        self.styles.push((key.to_owned(), text));
        proof {
            assert(self@.styles =~= old(self)@.styles.push((key@, value@)));
        }
    }

    pub fn with_on_click(self, method: Cow<'static, str>) -> (r: Self)
        ensures
            r@ == (AttributesView { on_click: Some(method@), ..self@ }),
    {
        let mut r = self;
        r.add_on_click(method);
        r
    }

    /// Sets the click handler.
    pub fn add_on_click(&mut self, method: Cow<'static, str>)
        ensures
            final(self)@ == (AttributesView { on_click: Some(method@), ..old(self)@ }),
    {
        self.on_click = Some(owned(method));
    }

    /// Appends the attributes as text. Writing into a string cannot fail.
    pub fn write(&self, dest: &mut String) -> (r: Result<(), std::fmt::Error>)
        ensures
            r is Ok,
            final(dest)@ == old(dest)@ + attributes_text(self@),
    {
        append(dest, " ");
        let n = self.styles.len();
        if n > 0 {
            append(dest, "style=\"");
            let ghost start = dest@;
            let mut i: usize = 0;
            while i < n
                invariant
                    i <= n,
                    n == self.styles@.len(),
                    dest@ == start + styles_text(self@.styles.take(i as int)),
                decreases n - i,
            {
                proof {
                    let now = self@.styles.take(i + 1);
                    assert(now.drop_last() =~= self@.styles.take(i as int));
                    assert(now.last() == self@.styles[i as int]);
                }
                if i > 0 {
                    append(dest, ";");
                }
                append(dest, self.styles[i].0.as_str());
                append(dest, ":");
                append(dest, self.styles[i].1.as_str());
                proof {
                    let now = self@.styles.take(i + 1);
                    let k = self@.styles[i as int].0;
                    let v = self@.styles[i as int].1;
                    if i > 0 {
                        assert(dest@ =~= start + (styles_text(now.drop_last()) + ";"@ + k + ":"@
                            + v));
                    } else {
                        assert(styles_text(now.drop_last()) =~= Seq::<char>::empty());
                        assert(dest@ =~= start + (k + ":"@ + v));
                    }
                }
                i += 1;
            }
            proof {
                assert(self@.styles.take(n as int) =~= self@.styles);
            }
            append(dest, "\"");
            append(dest, " ");
        }
        let ghost mid = dest@;
        match &self.on_click {
            Some(click) => {
                append(dest, "onclick=\"");
                append(dest, click.as_str());
                append(dest, "\"");
            },
            None => {},
        }
        append(dest, "id=\"");
        append(dest, self.id.as_str());
        append(dest, "\"");
        proof {
            assert(dest@ =~= old(dest)@ + attributes_text(self@));
        }
        Ok(())
    }
}

/// The kinds of tags.
#[derive(Debug)]
pub enum Tag {
    /// A paragraph with its text.
    P(String),
    Div,
    Button,
}

/// A tag with its attributes.
#[derive(Debug)]
pub struct HtmlTag {
    tag: Tag,
    attributes: Attributes,
}

/// The text that opens a tag of the given kind with the given
/// attributes. A paragraph is opened together with its text.
pub open spec fn open_text(tag: Tag, attributes: AttributesView) -> Seq<char> {
    match tag {
        Tag::Div => "<div"@ + attributes_text(attributes) + ">"@,
        Tag::Button => "<button"@ + attributes_text(attributes) + ">"@,
        Tag::P(x) => "<p"@ + attributes_text(attributes) + ">"@ + x@,
    }
}

/// The text that closes a tag of the given kind. A button is not closed.
pub open spec fn close_text(tag: Tag) -> Seq<char> {
    match tag {
        Tag::Div => "</div>"@,
        Tag::P(_) => "</p>"@,
        Tag::Button => Seq::empty(),
    }
}

impl HtmlTag {
    /// The kind of the tag.
    pub closed spec fn kind(&self) -> Tag {
        self.tag
    }

    /// The attributes of the tag.
    pub closed spec fn attrs(&self) -> AttributesView {
        self.attributes@
    }

    /// A tag of the given kind with the given attributes.
    pub fn new(tag: Tag, attributes: Attributes) -> (r: Self)
        ensures
            r.kind() == tag,
            r.attrs() == attributes@,
    {
        HtmlTag { tag, attributes }
    }

    /// Appends the text that opens the tag.
    pub fn write_open(&self, dest: &mut String) -> (r: Result<(), std::fmt::Error>)
        ensures
            r is Ok,
            final(dest)@ == old(dest)@ + open_text(self.kind(), self.attrs()),
    {
        match &self.tag {
            Tag::Div => {
                append(dest, "<div");
                let _ = self.attributes.write(dest);
                append(dest, ">");
            },
            Tag::Button => {
                append(dest, "<button");
                let _ = self.attributes.write(dest);
                append(dest, ">");
            },
            Tag::P(x) => {
                append(dest, "<p");
                let _ = self.attributes.write(dest);
                append(dest, ">");
                append(dest, x.as_str());
            },
        }
        proof {
            assert(dest@ =~= old(dest)@ + open_text(self.kind(), self.attrs()));
        }
        Ok(())
    }

    /// Appends the text that closes the tag.
    pub fn write_close(&self, dest: &mut String) -> (r: Result<(), std::fmt::Error>)
        ensures
            r is Ok,
            final(dest)@ == old(dest)@ + close_text(self.kind()),
    {
        match &self.tag {
            Tag::Div => {
                append(dest, "</div>");
            },
            Tag::P(_) => {
                append(dest, "</p>");
            },
            Tag::Button => {
                proof {
                    assert(dest@ =~= old(dest)@ + Seq::<char>::empty());
                }
            },
        }
        Ok(())
    }
}

/// The text of one traversal event about a tag: the opening text when
/// the tag is entered, the closing text when it is left.
pub open spec fn event_text(event: (BreadthInfo, &HtmlTag)) -> Seq<char> {
    match event.0 {
        BreadthInfo::MoveUp => close_text(event.1.kind()),
        BreadthInfo::Other => open_text(event.1.kind(), event.1.attrs()),
    }
}

/// The text of a series of traversal events, one after the other.
pub open spec fn events_text(events: Seq<(BreadthInfo, &HtmlTag)>) -> Seq<char>
    decreases events.len(),
{
    if events.len() == 0 {
        Seq::empty()
    } else {
        events_text(events.drop_last()) + event_text(events.last())
    }
}

/// A renderer that writes a tree of tags as hypertext.
pub struct HtmlRenderer {
    last_render: String,
}

impl HtmlRenderer {
    /// The text of the last rendering.
    pub closed spec fn rendered(&self) -> Seq<char> {
        self.last_render@
    }

    /// A renderer that has rendered nothing yet.
    pub fn new() -> (r: Self)
        ensures
            r.rendered() == Seq::<char>::empty(),
    {
        HtmlRenderer { last_render: String::new() }
    }

    /// The text of the last rendering.
    pub fn get_render(&self) -> (r: &str)
        ensures
            r@ == self.rendered(),
    {
        self.last_render.as_str()
    }

    /// Renders the events of an enter/leave traversal over tags: every
    /// entered tag is opened, every left tag is closed.
    pub fn render_events(&mut self, events: &Vec<(BreadthInfo, &HtmlTag)>)
        ensures
            final(self).rendered() == events_text(events@),
    {
        let mut out = String::new();
        let n = events.len();
        let mut i: usize = 0;
        while i < n
            invariant
                i <= n,
                n == events@.len(),
                out@ == events_text(events@.take(i as int)),
            decreases n - i,
        {
            proof {
                let now = events@.take(i + 1);
                assert(now.drop_last() =~= events@.take(i as int));
                assert(now.last() == events@[i as int]);
            }
            let tag: &HtmlTag = events[i].1;
            match events[i].0 {
                BreadthInfo::MoveUp => {
                    let _ = tag.write_close(&mut out);
                },
                BreadthInfo::Other => {
                    let _ = tag.write_open(&mut out);
                },
            }
            i += 1;
        }
        proof {
            assert(events@.take(n as int) =~= events@);
        }
        self.last_render = out;
    }
}

/// What a rendering has read for the `n`-th report of a query. With a
/// tag: the query yielded a result for that report, and the tag is what
/// stands behind the access that came with it. Without one: the query
/// passed the report over, because its entity has no tag.
pub open spec fn report_read<'gui>(
    q: Query<'gui, &'gui HtmlTag, BreadthIter<'gui>>,
    n: int,
    tag: Option<HtmlTag>,
) -> bool {
    match tag {
        Some(tag) => exists|out: (BreadthInfo, ComponentEntry<'gui, HtmlTag>)|
            q.made_from(n, out) && #[trigger] call_ensures(
                <ComponentEntry<'gui, HtmlTag> as Deref>::deref,
                (&out.1,),
                &tag,
            ),
        None => q.passed_over(n),
    }
}

/// The events about tags among the reports of a traversal: for every
/// report for which a tag was read, in order, the kind of the report
/// with that tag.
pub open spec fn read_events<'a>(
    reports: Seq<(BreadthInfo, EntityKey)>,
    tags: Seq<Option<HtmlTag>>,
) -> Seq<(BreadthInfo, &'a HtmlTag)>
    recommends
        reports.len() == tags.len(),
    decreases tags.len(),
{
    if tags.len() == 0 || reports.len() == 0 {
        Seq::empty()
    } else {
        let before = read_events(reports.drop_last(), tags.drop_last());
        match tags.last() {
            Some(tag) => before.push((reports.last().0, &tag)),
            None => before,
        }
    }
}

/// Reports without a tag add no event.
proof fn lemma_read_nothing(
    reports: Seq<(BreadthInfo, EntityKey)>,
    tags: Seq<Option<HtmlTag>>,
    k: int,
    n: int,
)
    requires
        0 <= k <= k + n <= reports.len(),
        tags.len() == k,
        n >= 0,
    ensures
        read_events(reports.take(k + n), tags + Seq::new(n as nat, |i: int| None::<HtmlTag>))
            == read_events(reports.take(k), tags),
    decreases n,
{
    let nothing = Seq::new(n as nat, |i: int| None::<HtmlTag>);
    if n == 0 {
        assert(tags + nothing =~= tags);
    } else {
        let fewer = Seq::new((n - 1) as nat, |i: int| None::<HtmlTag>);
        lemma_read_nothing(reports, tags, k, n - 1);
        assert((tags + nothing).drop_last() =~= tags + fewer);
        assert(reports.take(k + n).drop_last() =~= reports.take(k + n - 1));
        assert((tags + nothing).last() is None);
    }
}

impl Renderer for HtmlRenderer {
    type RenderItem = HtmlTag;

    type QueryType<'gui> = BreadthIter<'gui>;

    /// Writes the tags that the query yields: a tag is opened when its
    /// entity is entered and closed when it is left. The rendering is the
    /// text of these events, for every report of the traversal whose
    /// entity has a tag, in the order of the traversal.
    fn render<'gui>(&mut self, q: Query<'gui, &'gui HtmlTag, BreadthIter<'gui>>)
        ensures
            exists|tags: Seq<Option<HtmlTag>>|
                tags.len() == q.pending().len() && (forall|n: int|
                    0 <= n < tags.len() ==> report_read(q, n, #[trigger] tags[n])) && final(self).rendered() == events_text(read_events(q.pending(), tags)),
    {
        let ghost asked = q;
        let ghost all = q.pending();
        let ghost mut tags: Seq<Option<HtmlTag>> = Seq::empty();
        let ghost mut k: int = 0;
        let mut q = q;
        let mut out = String::new();
        proof {
            assert(all.skip(0) =~= all);
        }
        loop
            invariant
                q.ready(),
                q.arena() == asked.arena(),
                all == asked.pending(),
                0 <= k <= all.len(),
                q.pending() == all.skip(k),
                tags.len() == k,
                forall|n: int| 0 <= n < k ==> report_read(asked, n, #[trigger] tags[n]),
                out@ == events_text(read_events(all.take(k), tags)),
            ensures
                k == all.len(),
            decreases q.pending().len(),
        {
            let ghost before = q;
            match Query::<'gui, &'gui HtmlTag, BreadthIter<'gui>>::next(&mut q) {
                Some((info, entry)) => {
                    let read = <ComponentEntry<'gui, HtmlTag> as Deref>::deref;
                    let tag = read(&entry);
                    let ghost n = choose|n: int|
                        #![trigger before.pending()[n]]
                        0 <= n < before.pending().len() && q.pending() == before.pending().skip(
                            n + 1,
                        ) && before.made_from(n, (info, entry)) && forall|m: int|
                            0 <= m < n ==> #[trigger] before.passed_over(m);
                    let ghost earlier = tags;
                    let ghost so_far = read_events(all.take(k), tags);
                    proof {
                        lemma_read_nothing(all, tags, k, n);
                        let skipped = tags + Seq::new(n as nat, |i: int| None::<HtmlTag>);
                        tags = skipped.push(Some(*tag));
                        assert(before.pending()[n] == all[k + n]);
                        assert(asked.made_from(k + n, (info, entry)));
                        assert(report_read(asked, k + n, Some(*tag)));
                        assert forall|m: int| 0 <= m < k + n + 1 implies report_read(
                            asked,
                            m,
                            #[trigger] tags[m],
                        ) by {
                            if m < k {
                                assert(tags[m] == earlier[m]);
                            } else if m < k + n {
                                assert(before.passed_over(m - k));
                                assert(before.pending()[m - k] == all[m]);
                                assert(asked.passed_over(m));
                            }
                        }
                        assert(tags.drop_last() =~= skipped);
                        assert(all.take(k + n + 1).drop_last() =~= all.take(k + n));
                        assert(all.take(k + n + 1).last() == all[k + n]);
                        assert(info == all[k + n].0);
                        assert(read_events(all.take(k + n + 1), tags) == so_far.push((info, tag)));
                        assert(so_far.push((info, tag)).drop_last() =~= so_far);
                        assert(before.pending().skip(n + 1) =~= all.skip(k + n + 1));
                        k = k + n + 1;
                    }
                    match info {
                        BreadthInfo::MoveUp => {
                            let _ = tag.write_close(&mut out);
                        },
                        BreadthInfo::Other => {
                            let _ = tag.write_open(&mut out);
                        },
                    }
                },
                None => {
                    proof {
                        let n = all.len() - k;
                        let earlier = tags;
                        lemma_read_nothing(all, tags, k, n);
                        tags = tags + Seq::new(n as nat, |i: int| None::<HtmlTag>);
                        assert forall|m: int| 0 <= m < all.len() implies report_read(
                            asked,
                            m,
                            #[trigger] tags[m],
                        ) by {
                            if m < k {
                                assert(tags[m] == earlier[m]);
                            } else {
                                assert(before.passed_over(m - k));
                                assert(before.pending()[m - k] == all[m]);
                                assert(asked.passed_over(m));
                            }
                        }
                        assert(q.pending() =~= all.skip(all.len() as int));
                        k = all.len() as int;
                    }
                    break ;
                },
            }
        }
        proof {
            assert(all.take(k) =~= all);
        }
        self.last_render = out;
    }
}

/// One hexadecimal digit, in upper case.
pub open spec fn hex_digit(d: int) -> Seq<char> {
    if d == 0 {
        "0"@
    } else if d == 1 {
        "1"@
    } else if d == 2 {
        "2"@
    } else if d == 3 {
        "3"@
    } else if d == 4 {
        "4"@
    } else if d == 5 {
        "5"@
    } else if d == 6 {
        "6"@
    } else if d == 7 {
        "7"@
    } else if d == 8 {
        "8"@
    } else if d == 9 {
        "9"@
    } else if d == 10 {
        "A"@
    } else if d == 11 {
        "B"@
    } else if d == 12 {
        "C"@
    } else if d == 13 {
        "D"@
    } else if d == 14 {
        "E"@
    } else {
        "F"@
    }
}

/// A number in hexadecimal digits, with leading zeros up to the given
/// width.
pub open spec fn hex_digits(v: nat, width: nat) -> Seq<char>
    decreases v, width,
{
    if v < 16 && width <= 1 {
        hex_digit(v as int)
    } else if width == 0 {
        hex_digits(v / 16, 0) + hex_digit((v % 16) as int)
    } else {
        hex_digits(v / 16, (width - 1) as nat) + hex_digit((v % 16) as int)
    }
}

/// A colour as a style value: `#` and the number of the colour in at
/// least six hexadecimal digits.
pub open spec fn color_text(v: u32) -> Seq<char> {
    "#"@ + hex_digits(v as nat, 6)
}

fn push_hex(dest: &mut String, v: u32, width: u32)
    ensures
        final(dest)@ == old(dest)@ + hex_digits(v as nat, width as nat),
    decreases v, width,
{
    if !(v < 16 && width <= 1) {
        let narrower = if width > 0 {
            width - 1
        } else {
            0
        };
        push_hex(dest, v / 16, narrower);
    }
    let d = v % 16;
    let digit = if d == 0 {
        "0"
    } else if d == 1 {
        "1"
    } else if d == 2 {
        "2"
    } else if d == 3 {
        "3"
    } else if d == 4 {
        "4"
    } else if d == 5 {
        "5"
    } else if d == 6 {
        "6"
    } else if d == 7 {
        "7"
    } else if d == 8 {
        "8"
    } else if d == 9 {
        "9"
    } else if d == 10 {
        "A"
    } else if d == 11 {
        "B"
    } else if d == 12 {
        "C"
    } else if d == 13 {
        "D"
    } else if d == 14 {
        "E"
    } else {
        "F"
    };
    append(dest, digit);
    proof {
        assert(digit@ == hex_digit(d as int));
        if v < 16 && width <= 1 {
            assert(dest@ =~= old(dest)@ + hex_digit(v as int));
        } else {
            let narrower: nat = if width > 0 {
                (width - 1) as nat
            } else {
                0
            };
            assert(dest@ =~= old(dest)@ + (hex_digits((v / 16) as nat, narrower) + hex_digit(
                (v % 16) as int,
            )));
        }
    }
}

/// The style value of a colour with the given number.
pub fn color_value(v: u32) -> (r: String)
    ensures
        r@ == color_text(v),
{
    let mut out = String::new();
    append(&mut out, "#");
    push_hex(&mut out, v, 6);
    proof {
        assert(out@ =~= "#"@ + hex_digits(v as nat, 6));
    }
    out
}

/// The tag has the given style settings and click handler. Its
/// identifier is left open.
pub open spec fn dressed(
    tag: HtmlTag,
    styles: Seq<(Seq<char>, Seq<char>)>,
    on_click: Option<Seq<char>>,
) -> bool {
    tag.attrs().styles == styles && tag.attrs().on_click == on_click
}

/// The style settings that make a block lay out its content in a row.
pub open spec fn row_styles() -> Seq<(Seq<char>, Seq<char>)> {
    seq![("display"@, "flex"@), ("flex-direction"@, "row"@)]
}

/// The style settings that make a block centre its content.
pub open spec fn center_styles() -> Seq<(Seq<char>, Seq<char>)> {
    seq![("display"@, "flex"@), ("justify-content"@, "center"@), ("align-items"@, "center"@)]
}

/// Hands the tag to [`WidgetContext::mount_renderer`]: the context
/// changes as that function changes it for the tag.
fn attach<'gui>(context: &mut WidgetContext<'gui, HtmlRenderer>, tag: HtmlTag)
    ensures
        exists|m: &mut WidgetContext<'gui, HtmlRenderer>|
            *m == *old(context) && *final(m) == *final(context) && #[trigger] call_ensures(
                WidgetContext::<'gui, HtmlRenderer>::mount_renderer,
                (m, tag),
                (),
            ),
        final(context).key() == old(context).key(),
        final(context).arena().links() == old(context).arena().links(),
        final(context).arena().root_key() == old(context).arena().root_key(),
        old(context).wf() ==> final(context).wf(),
{
    let mount = WidgetContext::<'gui, HtmlRenderer>::mount_renderer;
    mount(context, tag);
}

impl Render<Text> for HtmlRenderer {
    /// A text becomes a paragraph: a paragraph tag with the text, without
    /// style and click handler, is mounted as the renderer's component.
    fn mount<'gui>(widget: &Text, context: &mut WidgetContext<'gui, Self>)
        ensures
            exists|tag: HtmlTag, m: &mut WidgetContext<'gui, HtmlRenderer>|
                tag.kind() matches Tag::P(x) && x@ == widget.data@ && dressed(
                    tag,
                    Seq::empty(),
                    None,
                ) && *m == *old(context) && *final(m) == *final(context) && #[trigger] call_ensures(
                    WidgetContext::<'gui, HtmlRenderer>::mount_renderer,
                    (m, tag),
                    (),
                ),
    {
        let tag = HtmlTag::new(Tag::P(widget.data.clone()), Attributes::new());
        proof {
            assert(tag.attrs().styles =~= Seq::empty());
        }
        attach(context, tag);
    }
}

impl Render<Hlist<Self>> for HtmlRenderer {
    /// A horizontal list becomes a block that lays out its content in a
    /// row: a division tag with the settings of [`row_styles`] is mounted
    /// as the renderer's component.
    fn mount<'gui>(widget: &Hlist<Self>, context: &mut WidgetContext<'gui, Self>)
        ensures
            exists|tag: HtmlTag, m: &mut WidgetContext<'gui, HtmlRenderer>|
                tag.kind() is Div && dressed(tag, row_styles(), None) && *m == *old(context)
                    && *final(m) == *final(context) && #[trigger] call_ensures(
                    WidgetContext::<'gui, HtmlRenderer>::mount_renderer,
                    (m, tag),
                    (),
                ),
    {
        let plain = Attributes::new();
        let flexible = plain.with_style("display", Cow::Borrowed("flex"));
        let attributes = flexible.with_style("flex-direction", Cow::Borrowed("row"));
        proof {
            lemma_settings_differ();
            lemma_new_setting(plain@.styles, "display"@, "flex"@);
            lemma_new_setting(flexible@.styles, "flex-direction"@, "row"@);
            assert(attributes@.styles =~= row_styles());
        }
        let tag = HtmlTag::new(Tag::Div, attributes);
        attach(context, tag);
    }
}

impl Render<RichText> for HtmlRenderer {
    /// A rich text becomes a paragraph in its colour: a paragraph tag with
    /// the text and the colour as its one style setting is mounted as the
    /// renderer's component.
    fn mount<'gui>(widget: &RichText, context: &mut WidgetContext<'gui, Self>)
        ensures
            exists|tag: HtmlTag, m: &mut WidgetContext<'gui, HtmlRenderer>|
                tag.kind() matches Tag::P(x) && x@ == widget.spec_text() && dressed(
                    tag,
                    seq![("color"@, color_text(widget.spec_color().value()))],
                    None,
                ) && *m == *old(context) && *final(m) == *final(context) && #[trigger] call_ensures(
                    WidgetContext::<'gui, HtmlRenderer>::mount_renderer,
                    (m, tag),
                    (),
                ),
    {
        let attributes = Attributes::new().with_style(
            "color",
            Cow::Owned(color_value(widget.color().value())),
        );
        let tag = HtmlTag::new(Tag::P(widget.text().to_owned()), attributes);
        proof {
            assert(tag.attrs().styles =~= seq![
                ("color"@, color_text(widget.spec_color().value())),
            ]);
        }
        attach(context, tag);
    }
}

impl<W: 'static> Render<Center<W>> for HtmlRenderer {
    /// A centring widget becomes a block that centres its content: a
    /// division tag with the settings of [`center_styles`] is mounted as
    /// the renderer's component.
    fn mount<'gui>(widget: &Center<W>, context: &mut WidgetContext<'gui, Self>)
        ensures
            exists|tag: HtmlTag, m: &mut WidgetContext<'gui, HtmlRenderer>|
                tag.kind() is Div && dressed(tag, center_styles(), None) && *m == *old(context)
                    && *final(m) == *final(context) && #[trigger] call_ensures(
                    WidgetContext::<'gui, HtmlRenderer>::mount_renderer,
                    (m, tag),
                    (),
                ),
    {
        let plain = Attributes::new();
        let flexible = plain.with_style("display", Cow::Borrowed("flex"));
        let across = flexible.with_style("justify-content", Cow::Borrowed("center"));
        let attributes = across.with_style("align-items", Cow::Borrowed("center"));
        proof {
            lemma_settings_differ();
            lemma_new_setting(plain@.styles, "display"@, "flex"@);
            lemma_new_setting(flexible@.styles, "justify-content"@, "center"@);
            lemma_new_setting(across@.styles, "align-items"@, "center"@);
            assert(attributes@.styles =~= center_styles());
        }
        let tag = HtmlTag::new(Tag::Div, attributes);
        attach(context, tag);
    }
}

impl Render<TextButton> for HtmlRenderer {
    /// A button becomes a button that reports its clicks: a button tag
    /// without style, with the click handler that sends `clicked`, is
    /// mounted as the renderer's component.
    fn mount<'gui>(widget: &TextButton, context: &mut WidgetContext<'gui, Self>)
        ensures
            exists|tag: HtmlTag, m: &mut WidgetContext<'gui, HtmlRenderer>|
                tag.kind() is Button && dressed(
                    tag,
                    Seq::empty(),
                    Some("socket.send('clicked')"@),
                ) && *m == *old(context) && *final(m) == *final(context) && #[trigger] call_ensures(
                    WidgetContext::<'gui, HtmlRenderer>::mount_renderer,
                    (m, tag),
                    (),
                ),
    {
        let attributes = Attributes::new().with_on_click(Cow::Borrowed("socket.send('clicked')"));
        let tag = HtmlTag::new(Tag::Button, attributes);
        proof {
            assert(tag.attrs().styles =~= Seq::empty());
        }
        attach(context, tag);
    }
}

/// A property that is not set yet is added at the end.
proof fn lemma_new_setting(styles: Seq<(Seq<char>, Seq<char>)>, key: Seq<char>, value: Seq<char>)
    requires
        forall|i: int| 0 <= i < styles.len() ==> (#[trigger] styles[i]).0 != key,
    ensures
        style_position(styles, key) == styles.len(),
        style_set(styles, key, value) == styles.push((key, value)),
    decreases styles.len(),
{
    if styles.len() > 0 {
        let rest = styles.drop_first();
        assert forall|i: int| 0 <= i < rest.len() implies (#[trigger] rest[i]).0 != key by {
            assert(rest[i] == styles[i + 1]);
        }
        lemma_new_setting(rest, key, value);
        assert(styles.first() == styles[0]);
    }
}

/// The names of the style properties that the renderer sets are all
/// different.
proof fn lemma_settings_differ()
    ensures
        "display"@ != "flex-direction"@,
        "display"@ != "justify-content"@,
        "display"@ != "align-items"@,
        "justify-content"@ != "align-items"@,
{
    reveal_strlit("display");
    reveal_strlit("flex-direction");
    reveal_strlit("justify-content");
    reveal_strlit("align-items");
    assert("display"@.len() == 7);
    assert("flex-direction"@.len() == 14);
    assert("justify-content"@.len() == 15);
    assert("align-items"@.len() == 11);
}

} // verus!
