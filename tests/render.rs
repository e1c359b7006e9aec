use muffui::event_hub::{Message, WM_SIZE};
use muffui::props::SharedProps;
use muffui::renderable::{Node, PathIndex, PathStep};
use muffui::uicontext::{UIContext, ControlInfo, merge, NodePlan, Outcome};
use muffui::event_hub::{EventHub, WM_LBUTTONUP};
use muffui::widgets::{Window, Label, CheckBox, ContentArgs, ForEach, Renderable, EmptyRenderable};
use muffui::widget_spec::{WidgetSpec, SyncPlan, LiveState, CW_USEDEFAULT};

fn path(steps: &[PathStep]) -> PathIndex {
    PathIndex { steps: steps.to_vec() }
}

fn list_of(titles: Vec<&str>) -> Node {
    ForEach::new(titles, |t: &str, _i: i32| Label::new(vec![]).title(t).node()).node()
}

fn titles_tree(titles: Vec<&str>) -> Node {
    Window::new(vec![]).content(ContentArgs::new(vec![Label::new(vec![]).node(), list_of(titles)])).node()
}

fn render_all(ctx: UIContext, tree: &Node, first_hwnd: isize) -> UIContext {
    let mut ctx = ctx;
    let mut h = first_hwnd;
    for e in tree.flatten() {
        let hwnd = match ctx.planNode(&e.path, &e.parent, e.props) {
            NodePlan::Skip => continue,
            NodePlan::Update { hwnd, .. } => hwnd,
            NodePlan::Create { .. } => {
                h += 1;
                h
            }
        };
        ctx = ctx.render(&e.path, e.props, None, Some(Outcome { hwnd, hFont: None, isWindow: false })).0;
    }
    ctx
}

#[test]
fn flatten_assigns_positional_paths() {
    let tree = titles_tree(vec!["a", "b", "c"]);
    let es = tree.flatten();
    let paths: Vec<Vec<PathStep>> = es.iter().map(|e| e.path.steps.clone()).collect();
    assert_eq!(
        paths,
        vec![
            vec![],
            vec![PathStep::Slot(1), PathStep::Slot(1)],
            vec![PathStep::Slot(1), PathStep::Slot(2), PathStep::Item(0)],
            vec![PathStep::Slot(1), PathStep::Slot(2), PathStep::Item(1)],
            vec![PathStep::Slot(1), PathStep::Slot(2), PathStep::Item(2)],
        ]
    );
    assert!(es.iter().all(|e| e.parent.steps.is_empty()));
    assert_eq!(es[3].props.last(), Some(&SharedProps::Title(String::from("b"))));
}

#[test]
fn nested_widget_content_is_under_its_parent() {
    let tree = Window::new(vec![]).content(Label::new(vec![]).content(EmptyRenderable {})).node();
    let es = tree.flatten();
    assert_eq!(es.len(), 2);
    assert_eq!(es[1].path.steps, vec![PathStep::Slot(1)]);
    assert!(es[1].parent.steps.is_empty());
}

#[test]
fn same_structure_gives_same_paths() {
    let a = titles_tree(vec!["a", "b", "c"]);
    let b = titles_tree(vec!["x", "y", "z"]);
    let pa: Vec<(Vec<PathStep>, Vec<PathStep>)> = a.flatten().iter().map(|e| (e.path.steps.clone(), e.parent.steps.clone())).collect();
    let pb: Vec<(Vec<PathStep>, Vec<PathStep>)> = b.flatten().iter().map(|e| (e.path.steps.clone(), e.parent.steps.clone())).collect();
    assert_eq!(pa, pb);
}

#[test]
fn list_identity_follows_position() {
    let before = titles_tree(vec!["a", "b", "c"]);
    let ctx = render_all(UIContext::create(), &before, 100);
    let item1 = path(&[PathStep::Slot(1), PathStep::Slot(2), PathStep::Item(1)]);
    let item2 = path(&[PathStep::Slot(1), PathStep::Slot(2), PathStep::Item(2)]);
    assert_eq!(ctx.get(&item1).unwrap().hwnd, 104);
    assert_eq!(ctx.get(&item2).unwrap().hwnd, 105);

    let after = titles_tree(vec!["a", "c"]);
    let es = after.flatten();
    assert_eq!(es[3].path, item1);
    assert_eq!(es[3].props.last(), Some(&SharedProps::Title(String::from("c"))));
    let ctx = render_all(ctx, &after, 200);
    assert_eq!(ctx.planNode(&item1, &es[3].parent, es[3].props), NodePlan::Update { hwnd: 104, hFont: None, parent: Some(101) });
    assert_eq!(ctx.get(&item1).unwrap().hwnd, 104);
    assert_eq!(ctx.get(&item2).unwrap().hwnd, 105);
    assert_eq!(ctx.len(), 5);
}

#[test]
fn counter_of_window_lays_out_once() {
    let p = PathIndex::root();
    let (ctx, lay) = UIContext::new().renderProperties(p.clone(), 9, Some(3), true);
    assert!(!lay);
    assert_eq!(ctx.get(&p).unwrap().isInitialized, 1);
    let (ctx, lay) = ctx.renderProperties(p.clone(), 9, Some(3), true);
    assert!(lay);
    assert_eq!(ctx.get(&p).unwrap().isInitialized, 2);
    let (ctx, lay) = ctx.renderProperties(p.clone(), 9, Some(4), true);
    assert!(!lay);
    assert_eq!(ctx.get(&p).unwrap().isInitialized, 2);
    assert_eq!(ctx.get(&p).unwrap().hFont, Some(4));
}

#[test]
fn counter_of_control_settles_at_two() {
    let p = path(&[PathStep::Slot(1)]);
    let (ctx, lay1) = UIContext::new().renderProperties(p.clone(), 9, None, false);
    let (ctx, lay2) = ctx.renderProperties(p.clone(), 9, None, false);
    let (ctx, lay3) = ctx.renderProperties(p.clone(), 9, None, false);
    assert!(!lay1 && !lay2 && !lay3);
    assert_eq!(ctx.get(&p).unwrap().isInitialized, 2);
}

#[test]
fn apply_mode_replaces_listeners_only() {
    let p = path(&[PathStep::Item(0)]);
    let (ctx, _) = UIContext::new().renderProperties(p.clone(), 9, Some(1), false);
    let props = vec![SharedProps::Width(3), SharedProps::DidClick(7), SharedProps::DidCreate(2), SharedProps::DidResize(5)];
    let m = Message { hwnd: 9, message: WM_SIZE, wParam: 0, lParam: 0 };
    let (ctx, needs) = ctx.render(&p, &props, Some(m), None);
    assert!(!needs);
    let ci = ctx.get(&p).unwrap();
    assert_eq!(ci.listeners, vec![SharedProps::DidClick(7), SharedProps::DidResize(5)]);
    assert_eq!((ci.hwnd, ci.hFont, ci.isInitialized), (9, Some(1), 1));
    let other = path(&[PathStep::Item(1)]);
    let (ctx, _) = ctx.render(&other, &props, Some(m), None);
    assert!(ctx.get(&other).is_none());
}

#[test]
fn full_mode_stores_outcome_of_node_with_render_kind() {
    let p = PathIndex::root();
    let q = path(&[PathStep::Slot(1)]);
    let o = Outcome { hwnd: 7, hFont: Some(2), isWindow: true };
    let (ctx, lay) = UIContext::new().render(&q, &vec![SharedProps::Renderer(String::from("label"))], None, Some(Outcome { hwnd: 5, hFont: None, isWindow: false }));
    assert!(!lay);
    let (ctx, lay) = ctx.render(&p, &vec![SharedProps::Renderer(String::from("window"))], None, Some(o));
    assert!(!lay);
    assert_eq!(ctx.len(), 2);
    let ci = ctx.get(&p).unwrap();
    assert_eq!((ci.hwnd, ci.hFont, ci.isInitialized), (7, Some(2), 1));
    assert_eq!(ctx.get(&q).unwrap().hwnd, 5);
    let (ctx, lay) = ctx.render(&p, &vec![SharedProps::Renderer(String::from("window"))], None, Some(o));
    assert!(lay);
    let (ctx, lay) = ctx.render(&path(&[PathStep::Item(4)]), &vec![SharedProps::Width(1)], None, Some(o));
    assert!(!lay);
    let (ctx, _) = ctx.render(&path(&[PathStep::Item(5)]), &vec![SharedProps::Renderer(String::from("label"))], None, None);
    assert_eq!(ctx.len(), 2);
}

#[test]
fn plan_node_decides_create_update_or_skip() {
    let root = PathIndex::root();
    let child = path(&[PathStep::Slot(1)]);
    let label = vec![SharedProps::Renderer(String::from("label"))];
    let ctx = UIContext::new();
    assert_eq!(ctx.planNode(&root, &root, &label), NodePlan::Create { parent: None });
    assert_eq!(ctx.planNode(&root, &root, &vec![]), NodePlan::Skip);
    let (ctx, _) = ctx.render(&root, &label, None, Some(Outcome { hwnd: 9, hFont: Some(1), isWindow: false }));
    assert_eq!(ctx.planNode(&root, &root, &label), NodePlan::Update { hwnd: 9, hFont: Some(1), parent: None });
    assert_eq!(ctx.planNode(&child, &root, &label), NodePlan::Create { parent: Some(9) });
}

#[test]
fn apply_event_refreshes_and_attaches_listeners() {
    let tree = CheckBox::new(vec![]).content(9).node();
    let es = tree.flatten();
    let (ctx, _) = UIContext::new().render(&es[0].path, es[0].props, None, Some(Outcome { hwnd: 40, hFont: None, isWindow: false }));
    let mut hub = EventHub::new();
    let m = Message { hwnd: 40, message: WM_LBUTTONUP, wParam: 0, lParam: 0 };
    let ctx = ctx.applyEvent(&es, m, &vec![50], &mut hub);
    assert_eq!(ctx.get(&es[0].path).unwrap().listeners, vec![SharedProps::DidClick(9)]);
    assert_eq!(hub.events()[0].listeners, vec![SharedProps::DidClick(9)]);
    assert_eq!(hub.events()[1].hwnd, 50);
    assert_eq!(hub.events()[1].listeners, vec![SharedProps::DidClick(0)]);
}

#[test]
fn collect_events_keeps_listeners() {
    let props = vec![SharedProps::DidChange(1), SharedProps::Title(String::from("t")), SharedProps::DidDestroy(2), SharedProps::DidClick(3)];
    assert_eq!(UIContext::collectEvents(&props), vec![SharedProps::DidChange(1), SharedProps::DidClick(3)]);
}

#[test]
fn merge_prefers_right() {
    let info = |h: isize| ControlInfo { hwnd: h, hFont: None, isInitialized: 1, listeners: vec![] };
    let a = path(&[PathStep::Item(0)]);
    let b = path(&[PathStep::Item(1)]);
    let c = path(&[PathStep::Item(2)]);
    let r = merge(vec![(a.clone(), info(1)), (b.clone(), info(2))], vec![(b.clone(), info(20)), (c.clone(), info(30))]);
    let hs: Vec<(PathIndex, isize)> = r.iter().map(|(p, i)| (p.clone(), i.hwnd)).collect();
    assert_eq!(hs, vec![(a, 1), (b, 20), (c, 30)]);
}

#[test]
fn path_helpers() {
    let r = PathIndex::root();
    let c = r.child(PathStep::Item(3));
    assert_eq!(c.steps, vec![PathStep::Item(3)]);
    assert!(c.same(&c.copy()));
    assert!(!c.same(&r));
}

#[test]
fn resolve_takes_last_record_of_each_kind() {
    let props = vec![
        SharedProps::Title(String::from("a")),
        SharedProps::Width(10),
        SharedProps::Title(String::from("b")),
        SharedProps::SelectItems(vec![String::from("x"), String::from("y")]),
        SharedProps::FontFace(String::from("Tahoma")),
        SharedProps::Anchor(0x50),
        SharedProps::ControlId(7),
        SharedProps::Renderer(String::from("window")),
    ];
    let w = WidgetSpec::resolve(&props);
    assert_eq!(w.title, "b");
    assert_eq!(w.width, 10);
    assert_eq!(w.height, CW_USEDEFAULT);
    assert_eq!(w.posX, CW_USEDEFAULT);
    assert_eq!(w.className, "");
    assert_eq!(w.fontFace, Some(String::from("Tahoma")));
    assert_eq!(w.selectItems, vec![String::from("x"), String::from("y")]);
    assert_eq!((w.dock, w.controlId, w.selected, w.selectedIndex), (0x50, 7, false, 0));
    assert!(w.isWindow());
    assert!(!WidgetSpec::resolve(&vec![]).isWindow());
    assert_eq!(WidgetSpec::resolve(&vec![]).fontFace, None);
}

#[test]
fn sync_plan_changes_only_what_differs() {
    let w = WidgetSpec::resolve(&vec![
        SharedProps::ClassName(String::from("Edit")),
        SharedProps::Title(String::from("t")),
        SharedProps::Selected(true),
        SharedProps::SelectItems(vec![String::from("x")]),
        SharedProps::SelectedIndex(1),
    ]);
    let same = LiveState {
        className: Some(String::from("Edit")),
        title: Some(String::from("t")),
        cachedFontFace: Some(String::from("Segoe UI")),
        selected: true,
        items: vec![String::from("x")],
        selectedIndex: Some(1),
        selectedText: Some(String::from("t")),
    };
    let sys = String::from("Segoe UI");
    let p = SyncPlan::plan(&w, &same, &sys);
    assert_eq!(p, SyncPlan { recreate: false, setFont: false, setTitle: false, setSelected: false, setItems: false, setIndex: false });
    let differ = LiveState {
        className: Some(String::from("Button")),
        title: Some(String::from("u")),
        cachedFontFace: None,
        selected: false,
        items: vec![],
        selectedIndex: Some(1),
        selectedText: Some(String::from("x")),
    };
    let q = SyncPlan::plan(&w, &differ, &sys);
    assert_eq!(q, SyncPlan { recreate: true, setFont: true, setTitle: true, setSelected: true, setItems: true, setIndex: true });
    let unreadable = LiveState {
        className: None,
        title: None,
        cachedFontFace: Some(String::from("Arial")),
        selected: true,
        items: vec![String::from("x")],
        selectedIndex: None,
        selectedText: None,
    };
    let u = SyncPlan::plan(&w, &unreadable, &sys);
    assert_eq!(u, SyncPlan { recreate: false, setFont: true, setTitle: false, setSelected: false, setItems: false, setIndex: false });
}
