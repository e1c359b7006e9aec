use muffui::props::{SharedProps, VectorExtention, SP, prop, merge_props, update_props, copy_strings};

fn title(s: &str) -> SharedProps {
    SharedProps::Title(String::from(s))
}

#[test]
fn merge_with_empty_is_identity() {
    let a = vec![SharedProps::Width(3), title("x"), SharedProps::PosX(1)];
    let r = a.clone().merge(vec![]);
    assert_eq!(r, a);
}

#[test]
fn merge_right_wins_and_goes_last() {
    let a = vec![SharedProps::Width(3), title("x"), SharedProps::PosX(1)];
    let r = a.merge(vec![title("y"), SharedProps::Height(4)]);
    assert_eq!(r, vec![SharedProps::Width(3), SharedProps::PosX(1), title("y"), SharedProps::Height(4)]);
}

#[test]
fn merge_has_no_duplicate_tags() {
    let a = vec![SharedProps::Width(3), SharedProps::PosX(1), SharedProps::Selected(true)];
    let b = vec![SharedProps::PosX(2), SharedProps::Width(9)];
    let r = merge_props(a, b);
    for i in 0..r.len() {
        for j in (i + 1)..r.len() {
            assert_ne!(r[i].kind(), r[j].kind());
        }
    }
    assert_eq!(r, vec![SharedProps::Selected(true), SharedProps::PosX(2), SharedProps::Width(9)]);
}

#[test]
fn update_replaces_only_present_tags() {
    let a = vec![SharedProps::DidClick(0), SharedProps::Width(3)];
    let r = update_props(a, vec![SharedProps::DidChange(8), SharedProps::DidClick(7), title("t")]);
    assert_eq!(r, vec![SharedProps::Width(3), SharedProps::DidClick(7)]);
}

#[test]
fn update_keeps_tag_set() {
    let a = vec![SharedProps::Width(3), title("a"), SharedProps::Anchor(5)];
    let r = a.clone().update(vec![SharedProps::Height(1), title("b"), SharedProps::Anchor(6), SharedProps::PosY(2)]);
    let mut ka: Vec<u8> = a.iter().map(|p| p.kind()).collect();
    let mut kr: Vec<u8> = r.iter().map(|p| p.kind()).collect();
    ka.sort();
    kr.sort();
    assert_eq!(ka, kr);
    assert_eq!(r, vec![SharedProps::Width(3), title("b"), SharedProps::Anchor(6)]);
}

#[test]
fn update_with_empty_set_changes_nothing() {
    let r = update_props(vec![], vec![SharedProps::Width(1)]);
    assert!(r.is_empty());
}

#[test]
fn prop_finds_first_record_of_kind() {
    let a = vec![SharedProps::Width(3), title("x")];
    assert_eq!(prop(&a, &SharedProps::Title(String::new())), Some(&title("x")));
    assert_eq!(a.prop(&SharedProps::Width(0)), Some(&SharedProps::Width(3)));
    assert_eq!(prop(&a, &SharedProps::Height(0)), None);
}

#[test]
fn sp_constructors_build_records() {
    assert_eq!(SP::ClassName("Edit"), SharedProps::ClassName(String::from("Edit")));
    assert_eq!(SP::Renderer("label"), SharedProps::Renderer(String::from("label")));
    assert_eq!(SP::Title("t"), title("t"));
    assert_eq!(SP::FontFace("Tahoma"), SharedProps::FontFace(String::from("Tahoma")));
    assert_eq!(SP::ClientRect(1, 2, 3, 4), SharedProps::ClientRect(1, 2, 3, 4));
    assert_eq!(SP::DidCreate(1), SharedProps::DidCreate(1));
    assert_eq!(SP::DidChange(2), SharedProps::DidChange(2));
    assert_eq!(SP::DidResize(3), SharedProps::DidResize(3));
    assert_eq!(SP::DidDestroy(4), SharedProps::DidDestroy(4));
}

#[test]
fn copies_are_equal() {
    let items = vec![String::from("a"), String::from("b")];
    assert_eq!(copy_strings(&items), items);
    let p = SharedProps::SelectItems(items.clone());
    assert_eq!(p.copy(), p);
    assert!(SharedProps::DidClick(1).is_listener());
    assert!(!SharedProps::DidCreate(1).is_listener());
}
