use visora::color::Color;
use visora::gui::{BuildContext, Gui};
use visora::html::{color_value, HtmlRenderer, HtmlTag};
use visora::treecs::iterators::breadth::{BreadthInfo, BreadthIter, Forward};
use visora::state::{StateTransaction, Transaction};
use visora::widget::button::TextButton;
use visora::widget::center::Center;
use visora::widget::container::{Container, EdgeInsets};
use visora::widget::image::Image;
use visora::widget::list::Hlist;
use visora::widget::text::{RichText, Text, Vlist};
use visora::widget::RenderAble;

/// The text with every identifier replaced by `*`.
fn without_ids(text: &str) -> String {
    let mut out = String::new();
    let mut rest = text;
    while let Some(at) = rest.find("id=\"") {
        out.push_str(&rest[..at]);
        out.push_str("id=\"*\"");
        let tail = &rest[at + 4..];
        let end = tail.find('"').unwrap();
        assert_eq!(end, 36);
        rest = &tail[end + 1..];
    }
    out.push_str(rest);
    out
}

#[test]
fn a_row_of_texts_is_mounted_and_rendered() {
    let mut gui = Gui::new(HtmlRenderer::new());
    let widget = Hlist::new()
        .add(Box::new(Text::new("made by:")))
        .add(Box::new(RichText::new("in color".to_owned()).with_color(Color::new_hex(0x0000ff))))
        .add(Box::new(Center::new(Text::new("mid").set_bold())));
    let root = gui.tree().root();
    {
        let context = gui.root_widget_context();
        widget.mount(context);
    }
    assert_eq!(gui.tree().root(), root);
    assert_eq!(gui.tree().entity_count(), 5);
    assert_eq!(gui.tree().linkdata(root).unwrap().children().get_child_count(), 3);
    assert!(gui.tree().get_component::<HtmlTag>(root).is_some());

    let mut kinds = Vec::new();
    let mut iter = BreadthIter::<Forward>::new(gui.tree());
    while let Some((info, _key)) = iter.next() {
        kinds.push(info);
    }
    assert_eq!(kinds.len(), 10);
    assert_eq!(kinds[0], BreadthInfo::Other);
    assert_eq!(kinds[9], BreadthInfo::MoveUp);

    gui.render();
    let text = without_ids(gui.renderer().get_render());
    assert_eq!(
        text,
        "<div style=\"display:flex;flex-direction:row\" id=\"*\">\
         <p id=\"*\">made by:</p>\
         <p style=\"color:#0000FF\" id=\"*\">in color</p>\
         <div style=\"display:flex;justify-content:center;align-items:center\" id=\"*\">\
         <p id=\"*\">mid</p></div></div>"
    );
}

#[test]
fn mounting_comes_back_to_where_it_started() {
    let mut gui = Gui::new(HtmlRenderer::new());
    let root = gui.tree().root();
    let first;
    {
        let context = gui.root_widget_context();
        let context = Text::new("a").mount(context);
        let child = context.new_child();
        first = child
            .to_parent()
            .map(|c| c.get_component::<HtmlTag>().is_some());
    }
    assert_eq!(first, Some(true));
    assert_eq!(gui.tree().entity_count(), 2);
    {
        let context = gui.root_widget_context();
        assert!(context.to_parent().is_none());
    }
    {
        let mut context = gui.root_widget_context();
        context.insert_component(7u8);
        assert_eq!(context.get_component::<u8>().as_deref(), Some(&7));
        *context.get_component_mut::<u8>().unwrap().value_mut() = 9;
        assert!(context.get_renderer().is_some());
        let mut build = context.get_buildcontext();
        assert_eq!(build.get_component::<u8>().as_deref(), Some(&9));
        build.insert_component(3u16);
        *build.get_component_mut::<u16>().unwrap().value_mut() += 1;
        assert_eq!(build.take_component::<u16>(), Some(4));
        assert_eq!(build.take_component::<u16>(), None);
    }
    let mut build = gui.root_build_context();
    assert_eq!(build.take_component::<u8>(), Some(9));
    assert_eq!(gui.tree().root(), root);
}

#[test]
fn colours_are_written_in_six_digits_or_more() {
    for v in [0u32, 1, 0xff, 0xfff, 0xabcdef, 0x1000000, 0x12345678, u32::MAX, 0x0f0f0f0f] {
        assert_eq!(color_value(v), format!("#{:06X}", v));
    }
    assert_eq!(color_value(0xff), "#0000FF");
    assert_eq!(color_value(0xffffffff), "#FFFFFFFF");
}

#[test]
fn widgets_keep_their_settings() {
    let text = Text::new("abc");
    assert_eq!(text.data, "abc");
    assert!(!text.is_bold);
    assert!(text.set_bold().is_bold);
    let lorem = Text::lorem(3);
    assert_eq!(lorem.data, "Lorem ipsum dolor.");
    assert!(!lorem.is_bold);

    let image = Image::new("ferris.png").with_max_width(200).with_max_height(100);
    assert_eq!(image.path.to_str(), Some("ferris.png"));
    assert_eq!(image.max_width, Some(200));
    assert_eq!(image.max_height, Some(100));
    assert_eq!(Image::new("a").max_width, None);

    let list: Vlist<HtmlRenderer> = Vlist::new().add(Box::new(Text::new("x")));
    assert_eq!(list.len(), 1);
    assert_eq!(Vlist::<HtmlRenderer>::new().len(), 0);
    assert_eq!(Hlist::<HtmlRenderer>::new().data.len(), 0);

    let container: Container<HtmlRenderer> = Container::new();
    assert!(container.insets().is_even());
    assert_eq!(container.insets().top(), 0);
    assert_eq!(container.bg().value(), 0xffffffff);
    let container = container
        .with_insets(EdgeInsets::all(20))
        .with_bg(Color::new_hex(0x11223344))
        .with_child(Box::new(Text::new("in")));
    assert_eq!(container.insets().left(), 20);
    assert_eq!(container.bg().red(), 0x11);
}

struct Raise;

impl Transaction for Raise {
    fn run(&self, context: &mut BuildContext<'_>) {
        let count = context.take_component::<u32>().unwrap_or(0);
        context.insert_component(count + 1);
    }
}

#[test]
fn a_button_is_mounted_with_its_text_below() {
    let mut gui = Gui::new(HtmlRenderer::new());
    let button = TextButton::new(Text::new("increment")).on_click(StateTransaction::new(Box::new(Raise)));
    assert_eq!(button.child().data, "increment");
    assert!(TextButton::new(Text::new("x")).update().is_none());
    {
        let context = gui.root_widget_context();
        button.mount(context);
    }
    assert_eq!(gui.tree().entity_count(), 2);
    gui.render();
    assert_eq!(
        without_ids(gui.renderer().get_render()),
        "<button onclick=\"socket.send('clicked')\"id=\"*\"><p id=\"*\">increment</p>"
    );

    {
        let mut build = gui.root_build_context();
        button.update().unwrap().run(&mut build);
        button.update().unwrap().run(&mut build);
        assert_eq!(build.get_component::<u32>().as_deref(), Some(&2));
    }

    gui.clear_tree();
    assert_eq!(gui.tree().entity_count(), 1);
    gui.render();
    assert_eq!(gui.renderer().get_render(), "");
}

#[test]
fn image_from_path_keeps_the_path() {
    let path = std::path::PathBuf::from("pictures/ferris.png");
    let image = Image::from_path(path.clone());
    assert_eq!(image.path, path);
    assert_eq!(image.max_width, None);
    assert_eq!(image.max_height, None);
    let bounded = image.with_max_height(40);
    assert_eq!(bounded.path, path);
    assert_eq!(bounded.max_height, Some(40));
    assert_eq!(Image::new(path.clone()).path, path);
}
