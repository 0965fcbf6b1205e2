use std::borrow::Cow;

use visora::html::{Attributes, HtmlRenderer, HtmlTag, Tag};
use visora::treecs::iterators::breadth::BreadthInfo;

fn text_of(attributes: &Attributes) -> String {
    let mut out = String::from(">>");
    assert!(attributes.write(&mut out).is_ok());
    out
}

#[test]
fn attributes_without_settings() {
    let a = Attributes::new().with_id("root".to_owned());
    assert_eq!(text_of(&a), ">> id=\"root\"");
}

#[test]
fn attributes_with_styles_in_order() {
    let a = Attributes::new()
        .with_id("a".to_owned())
        .with_style("display", Cow::Borrowed("flex"))
        .with_style("flex-direction", Cow::Owned("row".to_owned()));
    assert_eq!(text_of(&a), ">> style=\"display:flex;flex-direction:row\" id=\"a\"");
}

#[test]
fn a_style_is_set_once() {
    let mut a = Attributes::new()
        .with_id("a".to_owned())
        .with_style("color", Cow::Borrowed("red"))
        .with_style("padding", Cow::Borrowed("1px"))
        .with_style("color", Cow::Borrowed("blue"));
    assert_eq!(text_of(&a), ">> style=\"color:blue;padding:1px\" id=\"a\"");
    a.add_style("padding", Cow::Borrowed("2px"));
    a.add_style("margin", Cow::Borrowed("0"));
    assert_eq!(text_of(&a), ">> style=\"color:blue;padding:2px;margin:0\" id=\"a\"");
}

#[test]
fn attributes_with_click_handler() {
    let mut a = Attributes::new()
        .with_id("b".to_owned())
        .with_on_click(Cow::Borrowed("socket.send('clicked')"));
    assert_eq!(text_of(&a), ">> onclick=\"socket.send('clicked')\"id=\"b\"");
    a.add_on_click(Cow::Borrowed("go()"));
    a.add_style("color", Cow::Borrowed("#0000FF"));
    assert_eq!(text_of(&a), ">> style=\"color:#0000FF\" onclick=\"go()\"id=\"b\"");
}

#[test]
fn new_attributes_get_a_random_identifier() {
    let a = text_of(&Attributes::new());
    let b = text_of(&Attributes::new());
    assert_ne!(a, b);
    assert!(a.starts_with(">> id=\""));
    assert_eq!(a.len(), ">> id=\"\"".len() + 36);
}

#[test]
fn tags_open_and_close() {
    let div = HtmlTag::new(Tag::Div, Attributes::new().with_id("d".to_owned()));
    let p = HtmlTag::new(Tag::P("hi".to_owned()), Attributes::new().with_id("p".to_owned()));
    let button = HtmlTag::new(Tag::Button, Attributes::new().with_id("b".to_owned()));
    let mut out = String::new();
    assert!(div.write_open(&mut out).is_ok());
    assert_eq!(out, "<div id=\"d\">");
    assert!(p.write_open(&mut out).is_ok());
    assert_eq!(out, "<div id=\"d\"><p id=\"p\">hi");
    assert!(p.write_close(&mut out).is_ok());
    assert!(button.write_open(&mut out).is_ok());
    assert!(button.write_close(&mut out).is_ok());
    assert!(div.write_close(&mut out).is_ok());
    assert_eq!(out, "<div id=\"d\"><p id=\"p\">hi</p><button id=\"b\"></div>");
}

#[test]
fn renderer_writes_the_events_in_order() {
    let div = HtmlTag::new(
        Tag::Div,
        Attributes::new().with_id("d".to_owned()).with_style("display", Cow::Borrowed("flex")),
    );
    let p = HtmlTag::new(Tag::P("one".to_owned()), Attributes::new().with_id("p".to_owned()));
    let mut renderer = HtmlRenderer::new();
    assert_eq!(renderer.get_render(), "");
    let events = vec![
        (BreadthInfo::Other, &div),
        (BreadthInfo::Other, &p),
        (BreadthInfo::MoveUp, &p),
        (BreadthInfo::MoveUp, &div),
    ];
    renderer.render_events(&events);
    assert_eq!(
        renderer.get_render(),
        "<div style=\"display:flex\" id=\"d\"><p id=\"p\">one</p></div>"
    );
    renderer.render_events(&Vec::new());
    assert_eq!(renderer.get_render(), "");
}

#[test]
fn attributes_from_an_identifier() {
    let a = Attributes::from_id("main".to_owned());
    assert_eq!(text_of(&a), ">> id=\"main\"");
    let b = Attributes::from_id(String::new()).with_style("color", Cow::Borrowed("red"));
    assert_eq!(text_of(&b), ">> style=\"color:red\" id=\"\"");
}
