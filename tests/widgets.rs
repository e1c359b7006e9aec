use muffui::props::SharedProps;
use muffui::renderable::Node;
use muffui::widgets::{Window, CheckBox, GroupBox, Label, Select, TextBox, Renderable, ForEach, ContentArgs};

fn s(v: &str) -> String {
    String::from(v)
}

#[test]
fn check_box_builders_merge() {
    let c = CheckBox::new(vec![SharedProps::Width(5)]).title("x").posX(3).posY(4).height(6).posX(8).didChange(2).content(9);
    assert_eq!(
        c.props,
        vec![
            SharedProps::ClassName(s("Button")),
            SharedProps::Renderer(s("check-box")),
            SharedProps::Width(5),
            SharedProps::Title(s("x")),
            SharedProps::PosY(4),
            SharedProps::Height(6),
            SharedProps::PosX(8),
            SharedProps::DidChange(2),
            SharedProps::DidClick(9),
        ]
    );
    assert!(c.children.is_none());
}

#[test]
fn window_defaults_and_overrides() {
    let w = Window::new(vec![SharedProps::Title(s("t")), SharedProps::Width(500)]).className("main").didResize(4).height(300);
    assert_eq!(
        w.props,
        vec![
            SharedProps::Renderer(s("window")),
            SharedProps::Title(s("t")),
            SharedProps::Width(500),
            SharedProps::ClassName(s("main")),
            SharedProps::DidResize(4),
            SharedProps::Height(300),
        ]
    );
    let w2 = Window::new(vec![]).width(300);
    assert_eq!(
        w2.props,
        vec![SharedProps::Renderer(s("window")), SharedProps::ClassName(s("window")), SharedProps::Height(768), SharedProps::Width(300)]
    );
    match w2.node() {
        Node::Widget(w) => assert_eq!(w.props.last(), Some(&SharedProps::DidResize(0))),
        _ => panic!("a window becomes a widget node"),
    }
    match Window::new(vec![]).didResize(5).node() {
        Node::Widget(w) => {
            assert_eq!(w.props.iter().filter(|p| matches!(p, SharedProps::DidResize(_))).count(), 1);
            assert_eq!(w.props.last(), Some(&SharedProps::DidResize(5)));
        },
        _ => panic!("a window becomes a widget node"),
    }
}

#[test]
fn other_widgets_defaults() {
    assert_eq!(&GroupBox::new(vec![]).title("g").props[..2], &[SharedProps::ClassName(s("Button")), SharedProps::Renderer(s("group-box"))]);
    assert_eq!(GroupBox::new(vec![]).title("g").props.last(), Some(&SharedProps::Title(s("g"))));
    assert_eq!(&Label::new(vec![]).props[..], &[SharedProps::ClassName(s("Static")), SharedProps::Renderer(s("label"))]);
    assert_eq!(&Select::new(vec![]).didChange(3).props[..], &[SharedProps::ClassName(s("ComboBox")), SharedProps::Renderer(s("select")), SharedProps::DidChange(3)]);
    assert_eq!(&TextBox::new(vec![]).content(6).width(2).props[..], &[SharedProps::ClassName(s("Edit")), SharedProps::Renderer(s("text-box")), SharedProps::DidChange(6), SharedProps::Width(2)]);
}

#[test]
fn nodes_of_widgets() {
    match Label::new(vec![]).content(ContentArgs::new(vec![Node::Empty])).node() {
        Node::Widget(w) => {
            assert_eq!(w.props.len(), 2);
            assert!(matches!(w.content.as_deref(), Some(Node::Group(cs)) if cs.len() == 1));
        },
        _ => panic!("a label becomes a widget node"),
    }
    match ForEach::new(vec![1, 2, 3], |x: i32, i: i32| if x == i + 1 { Node::Empty } else { Node::Group(vec![]) }).node() {
        Node::List(cs) => {
            assert_eq!(cs.len(), 3);
            assert!(cs.iter().all(|c| matches!(c, Node::Empty)));
        },
        _ => panic!("a list becomes a list node"),
    }
}
