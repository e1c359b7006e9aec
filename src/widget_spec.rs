//! What a property set asks of a native widget, and which native values must change to
//! match it.
#![allow(non_snake_case)]

use vstd::prelude::*;
use crate::props::{
    SharedProps, copy_strings, TAG_CLASS_NAME, TAG_TITLE, TAG_RENDERER, TAG_POS_X, TAG_POS_Y,
    TAG_WIDTH, TAG_HEIGHT, TAG_CONTROL_ID, TAG_FONT_FACE, TAG_ANCHOR, TAG_SELECTED,
    TAG_SELECT_ITEMS, TAG_SELECTED_INDEX,
};

verus! {

/// Position or size left to the window system.
pub const CW_USEDEFAULT: i32 = -2147483648;

pub const WS_OVERLAPPEDWINDOW: u32 = 0x00CF0000;
pub const WS_VISIBLE: u32 = 0x10000000;
pub const WS_CHILD: u32 = 0x40000000;
pub const WS_TABSTOP: u32 = 0x00010000;
pub const WS_CLIPSIBLINGS: u32 = 0x04000000;
pub const WS_BORDER: u32 = 0x00800000;
pub const WS_VSCROLL: u32 = 0x00200000;
pub const BS_CHECKBOX: u32 = 0x2;
pub const BS_RADIOBUTTON: u32 = 0x4;
pub const BS_GROUPBOX: u32 = 0x7;
pub const BS_DEFSPLITBUTTON: u32 = 0xD;
pub const CBS_DROPDOWN: u32 = 0x2;
pub const CBS_DROPDOWNLIST: u32 = 0x3;
pub const CBS_AUTOHSCROLL: u32 = 0x40;
pub const CBS_HASSTRINGS: u32 = 0x200;
pub const WS_EX_CLIENTEDGE: u32 = 0x200;
pub const WS_EX_CONTROLPARENT: u32 = 0x10000;

/// The native style and extended style of a render kind.
pub open spec fn native_style(r: Seq<char>) -> (u32, u32) {
    if r == "window"@ {
        (WS_OVERLAPPEDWINDOW | WS_VISIBLE, 0)
    } else if r == "panel"@ {
        (WS_TABSTOP | WS_CHILD | WS_VISIBLE | WS_CLIPSIBLINGS | WS_BORDER, 0)
    } else if r == "check-box"@ {
        (BS_CHECKBOX | WS_TABSTOP | WS_CHILD | WS_VISIBLE, 0)
    } else if r == "group-box"@ {
        (BS_GROUPBOX | WS_TABSTOP | WS_CHILD | WS_VISIBLE, WS_EX_CONTROLPARENT)
    } else if r == "text-box"@ {
        (WS_CHILD | WS_VISIBLE, WS_EX_CLIENTEDGE)
    } else if r == "label"@ {
        (WS_CHILD | WS_VISIBLE, 0)
    } else if r == "button"@ {
        (WS_TABSTOP | WS_BORDER | WS_CHILD | WS_VISIBLE, 0)
    } else if r == "radio-box"@ {
        (BS_RADIOBUTTON | WS_TABSTOP | WS_CHILD | WS_VISIBLE, 0)
    } else if r == "select0"@ {
        (CBS_HASSTRINGS | WS_CHILD | WS_VISIBLE | WS_VSCROLL, 0)
    } else if r == "select"@ {
        (CBS_DROPDOWN | CBS_HASSTRINGS | CBS_AUTOHSCROLL | WS_CHILD | WS_VISIBLE | WS_VSCROLL, 0)
    } else if r == "select2"@ {
        (CBS_DROPDOWNLIST | BS_DEFSPLITBUTTON | CBS_DROPDOWN | CBS_HASSTRINGS | WS_VISIBLE | WS_CHILD | WS_VSCROLL, 0)
    } else {
        (WS_BORDER, 0)
    }
}

/// The last record of `s` with tag `t`: later writes win.
pub open spec fn last_of(s: Seq<SharedProps>, t: nat) -> Option<SharedProps>
    decreases s.len(),
{
    if s.len() == 0 {
        None
    } else if s.last().tag() == t {
        Some(s.last())
    } else {
        last_of(s.drop_last(), t)
    }
}

/// The text a string record holds.
pub open spec fn text_of(p: Option<SharedProps>) -> Seq<char> {
    match p {
        Some(SharedProps::ClassName(v)) => v@,
        Some(SharedProps::Title(v)) => v@,
        Some(SharedProps::Renderer(v)) => v@,
        Some(SharedProps::FontFace(v)) => v@,
        _ => Seq::empty(),
    }
}

/// The number an `i32` record holds, or `d` where there is none.
pub open spec fn int_of(p: Option<SharedProps>, d: i32) -> i32 {
    match p {
        Some(SharedProps::PosX(v)) => v,
        Some(SharedProps::PosY(v)) => v,
        Some(SharedProps::Width(v)) => v,
        Some(SharedProps::Height(v)) => v,
        Some(SharedProps::ControlId(v)) => v,
        _ => d,
    }
}

/// The native attributes of a widget, as its property set resolves them.
pub struct WidgetSpec {
    pub className: String,
    pub title: String,
    pub renderer: String,
    pub posX: i32,
    pub posY: i32,
    pub width: i32,
    pub height: i32,
    pub controlId: i32,
    /// `None`: the system font.
    pub fontFace: Option<String>,
    pub dock: usize,
    pub selected: bool,
    pub selectItems: Vec<String>,
    pub selectedIndex: usize,
}

/// `w` holds what the records of `s` resolve to, the last of each kind winning.
pub open spec fn resolves(w: WidgetSpec, s: Seq<SharedProps>) -> bool {
    &&& w.className@ == text_of(last_of(s, TAG_CLASS_NAME as nat))
    &&& w.title@ == text_of(last_of(s, TAG_TITLE as nat))
    &&& w.renderer@ == text_of(last_of(s, TAG_RENDERER as nat))
    &&& w.posX == int_of(last_of(s, TAG_POS_X as nat), CW_USEDEFAULT)
    &&& w.posY == int_of(last_of(s, TAG_POS_Y as nat), CW_USEDEFAULT)
    &&& w.width == int_of(last_of(s, TAG_WIDTH as nat), CW_USEDEFAULT)
    &&& w.height == int_of(last_of(s, TAG_HEIGHT as nat), CW_USEDEFAULT)
    &&& w.controlId == int_of(last_of(s, TAG_CONTROL_ID as nat), 0)
    &&& match w.fontFace {
        Some(f) => last_of(s, TAG_FONT_FACE as nat) is Some && f@ == text_of(last_of(s, TAG_FONT_FACE as nat)),
        None => last_of(s, TAG_FONT_FACE as nat) is None,
    }
    &&& w.dock == match last_of(s, TAG_ANCHOR as nat) {
        Some(SharedProps::Anchor(d)) => d,
        _ => 0usize,
    }
    &&& w.selected == match last_of(s, TAG_SELECTED as nat) {
        Some(SharedProps::Selected(b)) => b,
        _ => false,
    }
    &&& w.selectItems@ == match last_of(s, TAG_SELECT_ITEMS as nat) {
        Some(SharedProps::SelectItems(v)) => v@,
        _ => Seq::<String>::empty(),
    }
    &&& w.selectedIndex == match last_of(s, TAG_SELECTED_INDEX as nat) {
        Some(SharedProps::SelectedIndex(i)) => i,
        _ => 0usize,
    }
}

pub proof fn lemma_last_of_step(s: Seq<SharedProps>, i: int, t: nat)
    requires
        0 <= i < s.len(),
    ensures
        last_of(s.subrange(0, i + 1), t) == if s[i].tag() == t {
            Some(s[i])
        } else {
            last_of(s.subrange(0, i), t)
        },
{
    let sub = s.subrange(0, i + 1);
    assert(sub.drop_last() =~= s.subrange(0, i));
    assert(sub.last() == s[i]);
}

impl WidgetSpec {
    /// Resolves a property set: for each attribute, the last record of its kind, or the
    /// default (empty text, position and size left to the system, no control id, the system
    /// font, no anchors, not selected, no items, index 0).
    pub fn resolve(props: &Vec<SharedProps>) -> (r: WidgetSpec)
        ensures
            resolves(r, props@),
    {
        let mut w = WidgetSpec {
            className: String::new(),
            title: String::new(),
            renderer: String::new(),
            posX: CW_USEDEFAULT,
            posY: CW_USEDEFAULT,
            width: CW_USEDEFAULT,
            height: CW_USEDEFAULT,
            controlId: 0,
            fontFace: None,
            dock: 0,
            selected: false,
            selectItems: Vec::new(),
            selectedIndex: 0,
        };
        let mut i: usize = 0;
        proof {
            assert(props@.subrange(0, 0) =~= Seq::<SharedProps>::empty());
        }
        while i < props.len()
            invariant
                i <= props@.len(),
                resolves(w, props@.subrange(0, i as int)),
            decreases props@.len() - i,
        {
            proof {
                let t = props@[i as int].tag();
                lemma_last_of_step(props@, i as int, TAG_CLASS_NAME as nat);
                lemma_last_of_step(props@, i as int, TAG_TITLE as nat);
                lemma_last_of_step(props@, i as int, TAG_RENDERER as nat);
                lemma_last_of_step(props@, i as int, TAG_POS_X as nat);
                lemma_last_of_step(props@, i as int, TAG_POS_Y as nat);
                lemma_last_of_step(props@, i as int, TAG_WIDTH as nat);
                lemma_last_of_step(props@, i as int, TAG_HEIGHT as nat);
                lemma_last_of_step(props@, i as int, TAG_CONTROL_ID as nat);
                lemma_last_of_step(props@, i as int, TAG_FONT_FACE as nat);
                lemma_last_of_step(props@, i as int, TAG_ANCHOR as nat);
                lemma_last_of_step(props@, i as int, TAG_SELECTED as nat);
                lemma_last_of_step(props@, i as int, TAG_SELECT_ITEMS as nat);
                lemma_last_of_step(props@, i as int, TAG_SELECTED_INDEX as nat);
            }
            match &props[i] {
                SharedProps::ClassName(v) => w.className = v.clone(),
                SharedProps::Title(v) => w.title = v.clone(),
                SharedProps::Renderer(v) => w.renderer = v.clone(),
                SharedProps::PosX(x) => w.posX = *x,
                SharedProps::PosY(y) => w.posY = *y,
                SharedProps::Width(x) => w.width = *x,
                SharedProps::Height(x) => w.height = *x,
                SharedProps::ControlId(x) => w.controlId = *x,
                SharedProps::FontFace(f) => w.fontFace = Some(f.clone()),
                SharedProps::Anchor(d) => w.dock = *d,
                SharedProps::Selected(b) => w.selected = *b,
                SharedProps::SelectItems(v) => w.selectItems = copy_strings(v),
                SharedProps::SelectedIndex(x) => w.selectedIndex = *x,
                _ => {},
            }
            i = i + 1;
        }
        proof {
            assert(props@.subrange(0, props@.len() as int) =~= props@);
        }
        w
    }

    /// The native style and extended style of the widget's render kind.
    pub fn nativeStyle(&self) -> (r: (u32, u32))
        ensures
            r == native_style(self.renderer@),
    {
        let r = &self.renderer;
        if *r == "window".to_owned() {
            (WS_OVERLAPPEDWINDOW | WS_VISIBLE, 0)
        } else if *r == "panel".to_owned() {
            (WS_TABSTOP | WS_CHILD | WS_VISIBLE | WS_CLIPSIBLINGS | WS_BORDER, 0)
        } else if *r == "check-box".to_owned() {
            (BS_CHECKBOX | WS_TABSTOP | WS_CHILD | WS_VISIBLE, 0)
        } else if *r == "group-box".to_owned() {
            (BS_GROUPBOX | WS_TABSTOP | WS_CHILD | WS_VISIBLE, WS_EX_CONTROLPARENT)
        } else if *r == "text-box".to_owned() {
            (WS_CHILD | WS_VISIBLE, WS_EX_CLIENTEDGE)
        } else if *r == "label".to_owned() {
            (WS_CHILD | WS_VISIBLE, 0)
        } else if *r == "button".to_owned() {
            (WS_TABSTOP | WS_BORDER | WS_CHILD | WS_VISIBLE, 0)
        } else if *r == "radio-box".to_owned() {
            (BS_RADIOBUTTON | WS_TABSTOP | WS_CHILD | WS_VISIBLE, 0)
        } else if *r == "select0".to_owned() {
            (CBS_HASSTRINGS | WS_CHILD | WS_VISIBLE | WS_VSCROLL, 0)
        } else if *r == "select".to_owned() {
            (CBS_DROPDOWN | CBS_HASSTRINGS | CBS_AUTOHSCROLL | WS_CHILD | WS_VISIBLE | WS_VSCROLL, 0)
        } else if *r == "select2".to_owned() {
            (CBS_DROPDOWNLIST | BS_DEFSPLITBUTTON | CBS_DROPDOWN | CBS_HASSTRINGS | WS_VISIBLE | WS_CHILD | WS_VSCROLL, 0)
        } else {
            (WS_BORDER, 0)
        }
    }

    /// Whether the widget is a top-level window (the kind that owns the layout).
    pub fn isWindow(&self) -> (r: bool)
        ensures
            r == (self.renderer@ == "window"@),
    {
        let w = "window".to_owned();
        self.renderer == w
    }
}

/// What the live native widget currently shows, as read before a sync (`None` where the
/// value could not be read).
pub struct LiveState {
    pub className: Option<String>,
    pub title: Option<String>,
    /// The face of the font handle cached for the widget, if there is one.
    pub cachedFontFace: Option<String>,
    pub selected: bool,
    pub items: Vec<String>,
    pub selectedIndex: Option<usize>,
    /// The text of the item at the wanted index, if the widget has one.
    pub selectedText: Option<String>,
}

/// The native updates a sync performs, each only where the live value differs.
#[derive(Clone, Copy, Debug, PartialEq, Eq)]
pub struct SyncPlan {
    /// The live class differs: destroy the widget and create it anew.
    pub recreate: bool,
    /// Drop the cached font and apply the wanted face.
    pub setFont: bool,
    pub setTitle: bool,
    pub setSelected: bool,
    pub setItems: bool,
    pub setIndex: bool,
}

/// The plan that brings `live` to `w`; `systemFont` is the face used where `w` names none.
pub open spec fn sync_plan(w: WidgetSpec, live: LiveState, systemFont: Seq<char>) -> SyncPlan {
    let wanted = match w.fontFace {
        Some(f) => f@,
        None => systemFont,
    };
    SyncPlan {
        recreate: match live.className {
            Some(c) => c@ != w.className@,
            None => false,
        },
        setFont: match live.cachedFontFace {
            Some(f) => f@ != wanted,
            None => true,
        },
        setTitle: match live.title {
            Some(t) => t@ != w.title@,
            None => false,
        },
        setSelected: live.selected != w.selected,
        setItems: live.items@.map_values(|s: String| s@) != w.selectItems@.map_values(|s: String| s@),
        setIndex: match live.selectedIndex {
            Some(i) => i != w.selectedIndex || match live.selectedText {
                Some(t) => t@ != w.title@,
                None => false,
            },
            None => false,
        },
    }
}

/// Whether two lists of strings hold the same texts.
pub fn same_texts(a: &Vec<String>, b: &Vec<String>) -> (r: bool)
    ensures
        r == (a@.map_values(|s: String| s@) == b@.map_values(|s: String| s@)),
{
    if a.len() != b.len() {
        proof {
            assert(a@.map_values(|s: String| s@).len() != b@.map_values(|s: String| s@).len());
        }
        return false;
    }
    let mut i: usize = 0;
    while i < a.len()
        invariant
            i <= a@.len(),
            a@.len() == b@.len(),
            forall|j: int| 0 <= j < i ==> a@[j]@ == b@[j]@,
        decreases a@.len() - i,
    {
        if a[i] != b[i] {
            proof {
                assert(a@.map_values(|s: String| s@)[i as int] != b@.map_values(|s: String| s@)[i as int]);
            }
            return false;
        }
        i = i + 1;
    }
    assert(a@.map_values(|s: String| s@) =~= b@.map_values(|s: String| s@));
    true
}

impl SyncPlan {
    /// Compares the wanted attributes with the live ones, field by field.
    pub fn plan(w: &WidgetSpec, live: &LiveState, systemFont: &String) -> (r: SyncPlan)
        ensures
            r == sync_plan(*w, *live, systemFont@),
    {
        let recreate = match &live.className {
            Some(c) => *c != w.className,
            None => false,
        };
        let setFont = match &live.cachedFontFace {
            Some(f) => match &w.fontFace {
                Some(want) => *f != *want,
                None => *f != *systemFont,
            },
            None => true,
        };
        let setTitle = match &live.title {
            Some(t) => *t != w.title,
            None => false,
        };
        let setSelected = live.selected != w.selected;
        let setItems = !same_texts(&live.items, &w.selectItems);
        let setIndex = match live.selectedIndex {
            Some(i) => i != w.selectedIndex || match &live.selectedText {
                Some(t) => *t != w.title,
                None => false,
            },
            None => false,
        };
        SyncPlan { recreate, setFont, setTitle, setSelected, setItems, setIndex }
    }
}

} // verus!
