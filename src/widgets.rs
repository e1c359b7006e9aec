//! Declarative widgets: builders of property sets, and the tree nodes they become.
#![allow(non_snake_case)]

use vstd::prelude::*;
use crate::props::{
    SharedProps, SP, ListenerId, merged, merge_props, text_of_record, prop, lookup, lemma_lookup_some,
    TAG_TITLE, TAG_CLASS_NAME, TAG_RENDERER, TAG_DID_RESIZE,
};
use crate::renderable::{Node, WidgetNode};

verus! {

/// A record of kind `tag` whose text is `text`.
pub open spec fn text_record(p: SharedProps, tag: nat, text: Seq<char>) -> bool {
    p.tag() == tag && text_of_record(p) == text
}

/// `props` merged with the one record `p`.
fn with_prop(props: Vec<SharedProps>, p: SharedProps) -> (r: Vec<SharedProps>)
    ensures
        r@ == merged(props@, seq![p]),
{
    let mut one: Vec<SharedProps> = Vec::new();
    one.push(p);
    assert(one@ =~= seq![p]);
    merge_props(props, one)
}

/// Something that becomes a node of the tree.
pub trait Renderable: Sized {
    /// `n` is the node `self` becomes.
    spec fn renders_as(self, n: Node) -> bool;

    fn node(self) -> (r: Node)
        ensures
            self.renders_as(r),
    ;
}

impl Renderable for Node {
    open spec fn renders_as(self, n: Node) -> bool {
        n == self
    }

    fn node(self) -> (r: Node) {
        self
    }
}

/// Renders nothing.
pub struct EmptyRenderable {}

impl Renderable for EmptyRenderable {
    open spec fn renders_as(self, n: Node) -> bool {
        n == Node::Empty
    }

    fn node(self) -> (r: Node) {
        Node::Empty
    }
}

/// A group of children, each at its own slot.
pub struct ContentArgs {
    pub children: Vec<Node>,
}

impl ContentArgs {
    pub fn new(args: Vec<Node>) -> (r: ContentArgs)
        ensures
            r.children == args,
    {
        ContentArgs { children: args }
    }
}

impl Renderable for ContentArgs {
    open spec fn renders_as(self, n: Node) -> bool {
        n == Node::Group(self.children)
    }

    fn node(self) -> (r: Node) {
        Node::Group(self.children)
    }
}

/// A homogeneous list of children, each identified by its position.
pub struct ForEach {
    pub children: Vec<Node>,
}

impl ForEach {
    /// Maps each item, with its position, to a child node.
    pub fn new<A, F: Fn(A, i32) -> Node>(items: Vec<A>, f: F) -> (r: ForEach)
        requires
            items@.len() <= i32::MAX,
            forall|a: A, i: i32| #[trigger] f.requires((a, i)),
        ensures
            r.children@.len() == items@.len(),
            forall|i: int| 0 <= i < items@.len() ==> f.ensures((items@[i], i as i32), #[trigger] r.children@[i]),
    {
        let mut children: Vec<Node> = Vec::new();
        let mut rest = items;
        let ghost n = items@.len();
        let mut idx: i32 = 0;
        while rest.len() > 0
            invariant
                n == items@.len(),
                n <= i32::MAX,
                rest@.len() <= n,
                idx as int == n - rest@.len(),
                rest@ == items@.subrange(idx as int, n as int),
                children@.len() == idx,
                forall|a: A, i: i32| #[trigger] f.requires((a, i)),
                forall|i: int| 0 <= i < idx ==> f.ensures((items@[i], i as i32), #[trigger] children@[i]),
            decreases rest@.len(),
        {
            let item = rest.remove(0);
            assert(item == items@[idx as int]);
            let child = f(item, idx);
            children.push(child);
            idx = idx + 1;
            assert(rest@ =~= items@.subrange(idx as int, n as int));
        }
        ForEach { children }
    }
}

impl Renderable for ForEach {
    open spec fn renders_as(self, n: Node) -> bool {
        n == Node::List(self.children)
    }

    fn node(self) -> (r: Node) {
        Node::List(self.children)
    }
}

pub struct Window {
    pub children: Option<Box<Node>>,
    pub props: Vec<SharedProps>,
}

/// The listener of the window's resize record, 0 (no callback) where there is none.
pub open spec fn resize_listener(s: Seq<SharedProps>) -> ListenerId {
    match lookup(s, TAG_DID_RESIZE as nat) {
        Some(SharedProps::DidResize(i)) => i,
        _ => 0,
    }
}

impl Renderable for Window {
    /// A window always carries a resize record, so that a resize leads to a new render.
    open spec fn renders_as(self, n: Node) -> bool {
        n matches Node::Widget(w) && w.content == self.children && w.props@ == merged(
            self.props@,
            seq![SharedProps::DidResize(resize_listener(self.props@))],
        )
    }

    fn node(self) -> (r: Node) {
        let id = match prop(&self.props, &SharedProps::DidResize(0)) {
            Some(SharedProps::DidResize(i)) => *i,
            _ => 0,
        };
        proof {
            lemma_lookup_some(self.props@, TAG_DID_RESIZE as nat);
        }
        let props = with_prop(self.props, SharedProps::DidResize(id));
        Node::Widget(WidgetNode { props, content: self.children })
    }
}

impl Window {
    /// A Window with the default class and render kind, overridden by `props`.
    pub fn new(props: Vec<SharedProps>) -> (r: Window)
        ensures
            exists|d: Seq<SharedProps>|
                d.len() == 4 && text_record(d[0], TAG_RENDERER as nat, "window"@) && text_record(d[1], TAG_CLASS_NAME as nat, "window"@) && d[2] == SharedProps::Width(1024) && d[3] == SharedProps::Height(768) && r.props@ == merged(d, props@),
            r.children is None,
    {
        let mut defaults: Vec<SharedProps> = Vec::new();
        defaults.push(SP::Renderer("window"));
        defaults.push(SP::ClassName("window"));
        defaults.push(SharedProps::Width(1024));
        defaults.push(SharedProps::Height(768));
        let ghost d = defaults@;
        let r = Window { children: None, props: merge_props(defaults, props) };
        assert(d.len() == 4 && r.props@ == merged(d, props@));
        r
    }

    pub fn className(self, className: &str) -> (r: Window)
        ensures
            exists|p: SharedProps| text_record(p, TAG_CLASS_NAME as nat, className@) && r.props@ == merged(self.props@, seq![p]),
            r.children == self.children,
    {
        let p = SP::ClassName(className);
        let ghost pv = p;
        let r = Window { children: self.children, props: with_prop(self.props, p) };
        assert(text_record(pv, TAG_CLASS_NAME as nat, className@) && r.props@ == merged(self.props@, seq![pv]));
        r
    }

    pub fn title(self, title: &str) -> (r: Window)
        ensures
            exists|p: SharedProps| text_record(p, TAG_TITLE as nat, title@) && r.props@ == merged(self.props@, seq![p]),
            r.children == self.children,
    {
        let p = SP::Title(title);
        let ghost pv = p;
        let r = Window { children: self.children, props: with_prop(self.props, p) };
        assert(text_record(pv, TAG_TITLE as nat, title@) && r.props@ == merged(self.props@, seq![pv]));
        r
    }

    pub fn width(self, width: i32) -> (r: Window)
        ensures
            r.props@ == merged(self.props@, seq![SharedProps::Width(width)]),
            r.children == self.children,
    {
        Window { children: self.children, props: with_prop(self.props, SharedProps::Width(width)) }
    }

    pub fn height(self, height: i32) -> (r: Window)
        ensures
            r.props@ == merged(self.props@, seq![SharedProps::Height(height)]),
            r.children == self.children,
    {
        Window { children: self.children, props: with_prop(self.props, SharedProps::Height(height)) }
    }

    pub fn didResize(self, handler: ListenerId) -> (r: Window)
        ensures
            r.props@ == merged(self.props@, seq![SharedProps::DidResize(handler)]),
            r.children == self.children,
    {
        Window { children: self.children, props: with_prop(self.props, SharedProps::DidResize(handler)) }
    }

    /// Sets the content rendered under this widget.
    pub fn content<R: Renderable>(self, children: R) -> (r: Window)
        ensures
            r.props == self.props,
            r.children matches Some(b) && children.renders_as(*b),
    {
        Window { children: Some(Box::new(children.node())), props: self.props }
    }
}

pub struct CheckBox {
    pub children: Option<Box<Node>>,
    pub props: Vec<SharedProps>,
}

impl Renderable for CheckBox {
    open spec fn renders_as(self, n: Node) -> bool {
        n == Node::Widget(WidgetNode { props: self.props, content: self.children })
    }

    fn node(self) -> (r: Node) {
        Node::Widget(WidgetNode { props: self.props, content: self.children })
    }
}

impl CheckBox {
    /// A CheckBox with the default class and render kind, overridden by `props`.
    pub fn new(props: Vec<SharedProps>) -> (r: CheckBox)
        ensures
            exists|d: Seq<SharedProps>|
                d.len() == 2 && text_record(d[0], TAG_CLASS_NAME as nat, "Button"@) && text_record(d[1], TAG_RENDERER as nat, "check-box"@) && r.props@ == merged(d, props@),
            r.children is None,
    {
        let mut defaults: Vec<SharedProps> = Vec::new();
        defaults.push(SP::ClassName("Button"));
        defaults.push(SP::Renderer("check-box"));

        let ghost d = defaults@;
        let r = CheckBox { children: None, props: merge_props(defaults, props) };
        assert(d.len() == 2 && r.props@ == merged(d, props@));
        r
    }

    pub fn title(self, title: &str) -> (r: CheckBox)
        ensures
            exists|p: SharedProps| text_record(p, TAG_TITLE as nat, title@) && r.props@ == merged(self.props@, seq![p]),
            r.children == self.children,
    {
        let p = SP::Title(title);
        let ghost pv = p;
        let r = CheckBox { children: self.children, props: with_prop(self.props, p) };
        assert(text_record(pv, TAG_TITLE as nat, title@) && r.props@ == merged(self.props@, seq![pv]));
        r
    }

    pub fn posX(self, posX: i32) -> (r: CheckBox)
        ensures
            r.props@ == merged(self.props@, seq![SharedProps::PosX(posX)]),
            r.children == self.children,
    {
        CheckBox { children: self.children, props: with_prop(self.props, SharedProps::PosX(posX)) }
    }

    pub fn posY(self, posY: i32) -> (r: CheckBox)
        ensures
            r.props@ == merged(self.props@, seq![SharedProps::PosY(posY)]),
            r.children == self.children,
    {
        CheckBox { children: self.children, props: with_prop(self.props, SharedProps::PosY(posY)) }
    }

    pub fn width(self, width: i32) -> (r: CheckBox)
        ensures
            r.props@ == merged(self.props@, seq![SharedProps::Width(width)]),
            r.children == self.children,
    {
        CheckBox { children: self.children, props: with_prop(self.props, SharedProps::Width(width)) }
    }

    pub fn height(self, height: i32) -> (r: CheckBox)
        ensures
            r.props@ == merged(self.props@, seq![SharedProps::Height(height)]),
            r.children == self.children,
    {
        CheckBox { children: self.children, props: with_prop(self.props, SharedProps::Height(height)) }
    }

    pub fn didChange(self, handler: ListenerId) -> (r: CheckBox)
        ensures
            r.props@ == merged(self.props@, seq![SharedProps::DidChange(handler)]),
            r.children == self.children,
    {
        CheckBox { children: self.children, props: with_prop(self.props, SharedProps::DidChange(handler)) }
    }

    pub fn content(self, handler: ListenerId) -> (r: CheckBox)
        ensures
            r.props@ == merged(self.props@, seq![SharedProps::DidClick(handler)]),
            r.children == self.children,
    {
        CheckBox { children: self.children, props: with_prop(self.props, SharedProps::DidClick(handler)) }
    }
}

pub struct GroupBox {
    pub children: Option<Box<Node>>,
    pub props: Vec<SharedProps>,
}

impl Renderable for GroupBox {
    open spec fn renders_as(self, n: Node) -> bool {
        n == Node::Widget(WidgetNode { props: self.props, content: self.children })
    }

    fn node(self) -> (r: Node) {
        Node::Widget(WidgetNode { props: self.props, content: self.children })
    }
}

impl GroupBox {
    /// A GroupBox with the default class and render kind, overridden by `props`.
    pub fn new(props: Vec<SharedProps>) -> (r: GroupBox)
        ensures
            exists|d: Seq<SharedProps>|
                d.len() == 2 && text_record(d[0], TAG_CLASS_NAME as nat, "Button"@) && text_record(d[1], TAG_RENDERER as nat, "group-box"@) && r.props@ == merged(d, props@),
            r.children is None,
    {
        let mut defaults: Vec<SharedProps> = Vec::new();
        defaults.push(SP::ClassName("Button"));
        defaults.push(SP::Renderer("group-box"));

        let ghost d = defaults@;
        let r = GroupBox { children: None, props: merge_props(defaults, props) };
        assert(d.len() == 2 && r.props@ == merged(d, props@));
        r
    }

    pub fn title(self, title: &str) -> (r: GroupBox)
        ensures
            exists|p: SharedProps| text_record(p, TAG_TITLE as nat, title@) && r.props@ == merged(self.props@, seq![p]),
            r.children == self.children,
    {
        let p = SP::Title(title);
        let ghost pv = p;
        let r = GroupBox { children: self.children, props: with_prop(self.props, p) };
        assert(text_record(pv, TAG_TITLE as nat, title@) && r.props@ == merged(self.props@, seq![pv]));
        r
    }

    pub fn posX(self, posX: i32) -> (r: GroupBox)
        ensures
            r.props@ == merged(self.props@, seq![SharedProps::PosX(posX)]),
            r.children == self.children,
    {
        GroupBox { children: self.children, props: with_prop(self.props, SharedProps::PosX(posX)) }
    }

    pub fn posY(self, posY: i32) -> (r: GroupBox)
        ensures
            r.props@ == merged(self.props@, seq![SharedProps::PosY(posY)]),
            r.children == self.children,
    {
        GroupBox { children: self.children, props: with_prop(self.props, SharedProps::PosY(posY)) }
    }

    pub fn width(self, width: i32) -> (r: GroupBox)
        ensures
            r.props@ == merged(self.props@, seq![SharedProps::Width(width)]),
            r.children == self.children,
    {
        GroupBox { children: self.children, props: with_prop(self.props, SharedProps::Width(width)) }
    }

    pub fn height(self, height: i32) -> (r: GroupBox)
        ensures
            r.props@ == merged(self.props@, seq![SharedProps::Height(height)]),
            r.children == self.children,
    {
        GroupBox { children: self.children, props: with_prop(self.props, SharedProps::Height(height)) }
    }

    /// Sets the content rendered under this widget.
    pub fn content<R: Renderable>(self, children: R) -> (r: GroupBox)
        ensures
            r.props == self.props,
            r.children matches Some(b) && children.renders_as(*b),
    {
        GroupBox { children: Some(Box::new(children.node())), props: self.props }
    }
}

pub struct Label {
    pub children: Option<Box<Node>>,
    pub props: Vec<SharedProps>,
}

impl Renderable for Label {
    open spec fn renders_as(self, n: Node) -> bool {
        n == Node::Widget(WidgetNode { props: self.props, content: self.children })
    }

    fn node(self) -> (r: Node) {
        Node::Widget(WidgetNode { props: self.props, content: self.children })
    }
}

impl Label {
    /// A Label with the default class and render kind, overridden by `props`.
    pub fn new(props: Vec<SharedProps>) -> (r: Label)
        ensures
            exists|d: Seq<SharedProps>|
                d.len() == 2 && text_record(d[0], TAG_CLASS_NAME as nat, "Static"@) && text_record(d[1], TAG_RENDERER as nat, "label"@) && r.props@ == merged(d, props@),
            r.children is None,
    {
        let mut defaults: Vec<SharedProps> = Vec::new();
        defaults.push(SP::ClassName("Static"));
        defaults.push(SP::Renderer("label"));

        let ghost d = defaults@;
        let r = Label { children: None, props: merge_props(defaults, props) };
        assert(d.len() == 2 && r.props@ == merged(d, props@));
        r
    }

    pub fn title(self, title: &str) -> (r: Label)
        ensures
            exists|p: SharedProps| text_record(p, TAG_TITLE as nat, title@) && r.props@ == merged(self.props@, seq![p]),
            r.children == self.children,
    {
        let p = SP::Title(title);
        let ghost pv = p;
        let r = Label { children: self.children, props: with_prop(self.props, p) };
        assert(text_record(pv, TAG_TITLE as nat, title@) && r.props@ == merged(self.props@, seq![pv]));
        r
    }

    pub fn posX(self, posX: i32) -> (r: Label)
        ensures
            r.props@ == merged(self.props@, seq![SharedProps::PosX(posX)]),
            r.children == self.children,
    {
        Label { children: self.children, props: with_prop(self.props, SharedProps::PosX(posX)) }
    }

    pub fn posY(self, posY: i32) -> (r: Label)
        ensures
            r.props@ == merged(self.props@, seq![SharedProps::PosY(posY)]),
            r.children == self.children,
    {
        Label { children: self.children, props: with_prop(self.props, SharedProps::PosY(posY)) }
    }

    pub fn width(self, width: i32) -> (r: Label)
        ensures
            r.props@ == merged(self.props@, seq![SharedProps::Width(width)]),
            r.children == self.children,
    {
        Label { children: self.children, props: with_prop(self.props, SharedProps::Width(width)) }
    }

    pub fn height(self, height: i32) -> (r: Label)
        ensures
            r.props@ == merged(self.props@, seq![SharedProps::Height(height)]),
            r.children == self.children,
    {
        Label { children: self.children, props: with_prop(self.props, SharedProps::Height(height)) }
    }

    /// Sets the content rendered under this widget.
    pub fn content<R: Renderable>(self, children: R) -> (r: Label)
        ensures
            r.props == self.props,
            r.children matches Some(b) && children.renders_as(*b),
    {
        Label { children: Some(Box::new(children.node())), props: self.props }
    }
}

pub struct Select {
    pub children: Option<Box<Node>>,
    pub props: Vec<SharedProps>,
}

impl Renderable for Select {
    open spec fn renders_as(self, n: Node) -> bool {
        n == Node::Widget(WidgetNode { props: self.props, content: self.children })
    }

    fn node(self) -> (r: Node) {
        Node::Widget(WidgetNode { props: self.props, content: self.children })
    }
}

impl Select {
    /// A Select with the default class and render kind, overridden by `props`.
    pub fn new(props: Vec<SharedProps>) -> (r: Select)
        ensures
            exists|d: Seq<SharedProps>|
                d.len() == 2 && text_record(d[0], TAG_CLASS_NAME as nat, "ComboBox"@) && text_record(d[1], TAG_RENDERER as nat, "select"@) && r.props@ == merged(d, props@),
            r.children is None,
    {
        let mut defaults: Vec<SharedProps> = Vec::new();
        defaults.push(SP::ClassName("ComboBox"));
        defaults.push(SP::Renderer("select"));

        let ghost d = defaults@;
        let r = Select { children: None, props: merge_props(defaults, props) };
        assert(d.len() == 2 && r.props@ == merged(d, props@));
        r
    }

    pub fn title(self, title: &str) -> (r: Select)
        ensures
            exists|p: SharedProps| text_record(p, TAG_TITLE as nat, title@) && r.props@ == merged(self.props@, seq![p]),
            r.children == self.children,
    {
        let p = SP::Title(title);
        let ghost pv = p;
        let r = Select { children: self.children, props: with_prop(self.props, p) };
        assert(text_record(pv, TAG_TITLE as nat, title@) && r.props@ == merged(self.props@, seq![pv]));
        r
    }

    pub fn posX(self, posX: i32) -> (r: Select)
        ensures
            r.props@ == merged(self.props@, seq![SharedProps::PosX(posX)]),
            r.children == self.children,
    {
        Select { children: self.children, props: with_prop(self.props, SharedProps::PosX(posX)) }
    }

    pub fn posY(self, posY: i32) -> (r: Select)
        ensures
            r.props@ == merged(self.props@, seq![SharedProps::PosY(posY)]),
            r.children == self.children,
    {
        Select { children: self.children, props: with_prop(self.props, SharedProps::PosY(posY)) }
    }

    pub fn width(self, width: i32) -> (r: Select)
        ensures
            r.props@ == merged(self.props@, seq![SharedProps::Width(width)]),
            r.children == self.children,
    {
        Select { children: self.children, props: with_prop(self.props, SharedProps::Width(width)) }
    }

    pub fn height(self, height: i32) -> (r: Select)
        ensures
            r.props@ == merged(self.props@, seq![SharedProps::Height(height)]),
            r.children == self.children,
    {
        Select { children: self.children, props: with_prop(self.props, SharedProps::Height(height)) }
    }

    pub fn didChange(self, handler: ListenerId) -> (r: Select)
        ensures
            r.props@ == merged(self.props@, seq![SharedProps::DidChange(handler)]),
            r.children == self.children,
    {
        Select { children: self.children, props: with_prop(self.props, SharedProps::DidChange(handler)) }
    }

    /// Sets the content rendered under this widget.
    pub fn content<R: Renderable>(self, children: R) -> (r: Select)
        ensures
            r.props == self.props,
            r.children matches Some(b) && children.renders_as(*b),
    {
        Select { children: Some(Box::new(children.node())), props: self.props }
    }
}

pub struct TextBox {
    pub props: Vec<SharedProps>,
}

impl Renderable for TextBox {
    open spec fn renders_as(self, n: Node) -> bool {
        n == Node::Widget(WidgetNode { props: self.props, content: None })
    }

    fn node(self) -> (r: Node) {
        Node::Widget(WidgetNode { props: self.props, content: None })
    }
}

impl TextBox {
    /// A TextBox with the default class and render kind, overridden by `props`.
    pub fn new(props: Vec<SharedProps>) -> (r: TextBox)
        ensures
            exists|d: Seq<SharedProps>|
                d.len() == 2 && text_record(d[0], TAG_CLASS_NAME as nat, "Edit"@) && text_record(d[1], TAG_RENDERER as nat, "text-box"@) && r.props@ == merged(d, props@),
    {
        let mut defaults: Vec<SharedProps> = Vec::new();
        defaults.push(SP::ClassName("Edit"));
        defaults.push(SP::Renderer("text-box"));

        let ghost d = defaults@;
        let r = TextBox { props: merge_props(defaults, props) };
        assert(d.len() == 2 && r.props@ == merged(d, props@));
        r
    }

    pub fn title(self, title: &str) -> (r: TextBox)
        ensures
            exists|p: SharedProps| text_record(p, TAG_TITLE as nat, title@) && r.props@ == merged(self.props@, seq![p]),
    {
        let p = SP::Title(title);
        let ghost pv = p;
        let r = TextBox { props: with_prop(self.props, p) };
        assert(text_record(pv, TAG_TITLE as nat, title@) && r.props@ == merged(self.props@, seq![pv]));
        r
    }

    pub fn posX(self, posX: i32) -> (r: TextBox)
        ensures
            r.props@ == merged(self.props@, seq![SharedProps::PosX(posX)]),
    {
        TextBox { props: with_prop(self.props, SharedProps::PosX(posX)) }
    }

    pub fn posY(self, posY: i32) -> (r: TextBox)
        ensures
            r.props@ == merged(self.props@, seq![SharedProps::PosY(posY)]),
    {
        TextBox { props: with_prop(self.props, SharedProps::PosY(posY)) }
    }

    pub fn width(self, width: i32) -> (r: TextBox)
        ensures
            r.props@ == merged(self.props@, seq![SharedProps::Width(width)]),
    {
        TextBox { props: with_prop(self.props, SharedProps::Width(width)) }
    }

    pub fn height(self, height: i32) -> (r: TextBox)
        ensures
            r.props@ == merged(self.props@, seq![SharedProps::Height(height)]),
    {
        TextBox { props: with_prop(self.props, SharedProps::Height(height)) }
    }

    pub fn content(self, handler: ListenerId) -> (r: TextBox)
        ensures
            r.props@ == merged(self.props@, seq![SharedProps::DidChange(handler)]),
    {
        TextBox { props: with_prop(self.props, SharedProps::DidChange(handler)) }
    }
}

} // verus!
