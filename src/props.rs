//! Property records and the property-set algebra (lookup, merge, update).
#![allow(non_snake_case)]

use vstd::prelude::*;

verus! {

/// Identifies a callback held by the application; the library only carries it.
pub type ListenerId = usize;

/// One tagged attribute of a widget description.
#[derive(Clone, Debug, PartialEq, Eq)]
pub enum SharedProps {
    Renderer(String),
    ControlId(i32),
    ClassName(String),
    Title(String),
    Width(i32),
    Height(i32),
    PosX(i32),
    PosY(i32),
    FontFace(String),
    Anchor(usize),
    Selected(bool),
    SelectItems(Vec<String>),
    SelectedIndex(usize),
    ClientRect(usize, usize, usize, usize),
    DidCreate(ListenerId),
    DidClick(ListenerId),
    DidChange(ListenerId),
    DidResize(ListenerId),
    DidDestroy(ListenerId),
}

pub const TAG_RENDERER: u8 = 0;
pub const TAG_CONTROL_ID: u8 = 1;
pub const TAG_CLASS_NAME: u8 = 2;
pub const TAG_TITLE: u8 = 3;
pub const TAG_WIDTH: u8 = 4;
pub const TAG_HEIGHT: u8 = 5;
pub const TAG_POS_X: u8 = 6;
pub const TAG_POS_Y: u8 = 7;
pub const TAG_FONT_FACE: u8 = 8;
pub const TAG_ANCHOR: u8 = 9;
pub const TAG_SELECTED: u8 = 10;
pub const TAG_SELECT_ITEMS: u8 = 11;
pub const TAG_SELECTED_INDEX: u8 = 12;
pub const TAG_CLIENT_RECT: u8 = 13;
pub const TAG_DID_CREATE: u8 = 14;
pub const TAG_DID_CLICK: u8 = 15;
pub const TAG_DID_CHANGE: u8 = 16;
pub const TAG_DID_RESIZE: u8 = 17;
pub const TAG_DID_DESTROY: u8 = 18;

impl SharedProps {
    /// The record's kind; two records with the same tag describe the same attribute.
    pub open spec fn tag(&self) -> nat {
        match self {
            SharedProps::Renderer(_) => TAG_RENDERER as nat,
            SharedProps::ControlId(_) => TAG_CONTROL_ID as nat,
            SharedProps::ClassName(_) => TAG_CLASS_NAME as nat,
            SharedProps::Title(_) => TAG_TITLE as nat,
            SharedProps::Width(_) => TAG_WIDTH as nat,
            SharedProps::Height(_) => TAG_HEIGHT as nat,
            SharedProps::PosX(_) => TAG_POS_X as nat,
            SharedProps::PosY(_) => TAG_POS_Y as nat,
            SharedProps::FontFace(_) => TAG_FONT_FACE as nat,
            SharedProps::Anchor(_) => TAG_ANCHOR as nat,
            SharedProps::Selected(_) => TAG_SELECTED as nat,
            SharedProps::SelectItems(_) => TAG_SELECT_ITEMS as nat,
            SharedProps::SelectedIndex(_) => TAG_SELECTED_INDEX as nat,
            SharedProps::ClientRect(..) => TAG_CLIENT_RECT as nat,
            SharedProps::DidCreate(_) => TAG_DID_CREATE as nat,
            SharedProps::DidClick(_) => TAG_DID_CLICK as nat,
            SharedProps::DidChange(_) => TAG_DID_CHANGE as nat,
            SharedProps::DidResize(_) => TAG_DID_RESIZE as nat,
            SharedProps::DidDestroy(_) => TAG_DID_DESTROY as nat,
        }
    }

    /// Listener kinds that the event hub delivers (resize, click, change).
    pub open spec fn is_semantic_listener(&self) -> bool {
        ||| self is DidResize
        ||| self is DidClick
        ||| self is DidChange
    }

    pub fn kind(&self) -> (r: u8)
        ensures
            r as nat == self.tag(),
    {
        match self {
            SharedProps::Renderer(_) => TAG_RENDERER,
            SharedProps::ControlId(_) => TAG_CONTROL_ID,
            SharedProps::ClassName(_) => TAG_CLASS_NAME,
            SharedProps::Title(_) => TAG_TITLE,
            SharedProps::Width(_) => TAG_WIDTH,
            SharedProps::Height(_) => TAG_HEIGHT,
            SharedProps::PosX(_) => TAG_POS_X,
            SharedProps::PosY(_) => TAG_POS_Y,
            SharedProps::FontFace(_) => TAG_FONT_FACE,
            SharedProps::Anchor(_) => TAG_ANCHOR,
            SharedProps::Selected(_) => TAG_SELECTED,
            SharedProps::SelectItems(_) => TAG_SELECT_ITEMS,
            SharedProps::SelectedIndex(_) => TAG_SELECTED_INDEX,
            SharedProps::ClientRect(..) => TAG_CLIENT_RECT,
            SharedProps::DidCreate(_) => TAG_DID_CREATE,
            SharedProps::DidClick(_) => TAG_DID_CLICK,
            SharedProps::DidChange(_) => TAG_DID_CHANGE,
            SharedProps::DidResize(_) => TAG_DID_RESIZE,
            SharedProps::DidDestroy(_) => TAG_DID_DESTROY,
        }
    }

    pub fn is_listener(&self) -> (r: bool)
        ensures
            r == self.is_semantic_listener(),
    {
        match self {
            SharedProps::DidResize(_) | SharedProps::DidClick(_) | SharedProps::DidChange(_) => true,
            _ => false,
        }
    }

    /// A copy of `self`: equal to it, but for a list of items, which is equal as a sequence.
    pub fn copy(&self) -> (r: Self)
        ensures
            same_record(r, *self),
            !(self is SelectItems) ==> r == *self,
    {
        match self {
            SharedProps::Renderer(v) => SharedProps::Renderer(v.clone()),
            SharedProps::ControlId(v) => SharedProps::ControlId(*v),
            SharedProps::ClassName(v) => SharedProps::ClassName(v.clone()),
            SharedProps::Title(v) => SharedProps::Title(v.clone()),
            SharedProps::Width(v) => SharedProps::Width(*v),
            SharedProps::Height(v) => SharedProps::Height(*v),
            SharedProps::PosX(v) => SharedProps::PosX(*v),
            SharedProps::PosY(v) => SharedProps::PosY(*v),
            SharedProps::FontFace(v) => SharedProps::FontFace(v.clone()),
            SharedProps::Anchor(v) => SharedProps::Anchor(*v),
            SharedProps::Selected(v) => SharedProps::Selected(*v),
            SharedProps::SelectItems(v) => SharedProps::SelectItems(copy_strings(v)),
            SharedProps::SelectedIndex(v) => SharedProps::SelectedIndex(*v),
            SharedProps::ClientRect(x, y, w, h) => SharedProps::ClientRect(*x, *y, *w, *h),
            SharedProps::DidCreate(v) => SharedProps::DidCreate(*v),
            SharedProps::DidClick(v) => SharedProps::DidClick(*v),
            SharedProps::DidChange(v) => SharedProps::DidChange(*v),
            SharedProps::DidResize(v) => SharedProps::DidResize(*v),
            SharedProps::DidDestroy(v) => SharedProps::DidDestroy(*v),
        }
    }
}

/// A copy of a list of strings, element by element.
pub fn copy_strings(v: &Vec<String>) -> (r: Vec<String>)
    ensures
        r@ == v@,
{
    let mut r: Vec<String> = Vec::new();
    let mut i: usize = 0;
    while i < v.len()
        invariant
            i <= v@.len(),
            r@ == v@.subrange(0, i as int),
        decreases v@.len() - i,
    {
        r.push(v[i].clone());
        i = i + 1;
        assert(r@ =~= v@.subrange(0, i as int));
    }
    assert(r@ =~= v@);
    r
}

/// The text a string record holds (empty for the other kinds).
pub open spec fn text_of_record(p: SharedProps) -> Seq<char> {
    match p {
        SharedProps::ClassName(v) => v@,
        SharedProps::Title(v) => v@,
        SharedProps::Renderer(v) => v@,
        SharedProps::FontFace(v) => v@,
        _ => Seq::empty(),
    }
}

/// No record of `s` is a list of items.
pub open spec fn no_item_lists(s: Seq<SharedProps>) -> bool {
    forall|i: int| 0 <= i < s.len() ==> !(#[trigger] s[i] is SelectItems)
}

/// A copy of a property set, record by record.
pub fn copy_props(v: &Vec<SharedProps>) -> (r: Vec<SharedProps>)
    ensures
        r@.len() == v@.len(),
        forall|i: int| 0 <= i < v@.len() ==> same_record(#[trigger] r@[i], v@[i]),
        no_item_lists(v@) ==> r@ == v@,
{
    let mut r: Vec<SharedProps> = Vec::new();
    let mut i: usize = 0;
    while i < v.len()
        invariant
            i <= v@.len(),
            r@.len() == i,
            forall|k: int| 0 <= k < i ==> same_record(#[trigger] r@[k], v@[k]),
            forall|k: int| 0 <= k < i && !(v@[k] is SelectItems) ==> #[trigger] r@[k] == v@[k],
        decreases v@.len() - i,
    {
        r.push(v[i].copy());
        i = i + 1;
    }
    proof {
        if no_item_lists(v@) {
            assert(r@ =~= v@);
        }
    }
    r
}

/// Two records that hold the same value (a list of items compared as a sequence).
pub open spec fn same_record(a: SharedProps, b: SharedProps) -> bool {
    match (a, b) {
        (SharedProps::SelectItems(x), SharedProps::SelectItems(y)) => x@ == y@,
        _ => a == b,
    }
}

/// Some record of `s` has tag `t`.
pub open spec fn has_tag(s: Seq<SharedProps>, t: nat) -> bool {
    exists|i: int| 0 <= i < s.len() && #[trigger] s[i].tag() == t
}

/// The set of tags present in `s`.
pub open spec fn tag_set(s: Seq<SharedProps>) -> Set<nat> {
    Set::new(|t: nat| has_tag(s, t))
}

/// At most one record per tag.
pub open spec fn unique_tags(s: Seq<SharedProps>) -> bool {
    forall|i: int, j: int| 0 <= i < j < s.len() ==> #[trigger] s[i].tag() != #[trigger] s[j].tag()
}

/// The records of `a`, in order, whose tag does not occur in `b`.
pub open spec fn retained(a: Seq<SharedProps>, b: Seq<SharedProps>) -> Seq<SharedProps>
    decreases a.len(),
{
    if a.len() == 0 {
        Seq::empty()
    } else {
        let rest = retained(a.drop_last(), b);
        if has_tag(b, a.last().tag()) {
            rest
        } else {
            rest.push(a.last())
        }
    }
}

/// `merge(a, b)`: the records of `a` that `b` does not override, then all of `b`.
pub open spec fn merged(a: Seq<SharedProps>, b: Seq<SharedProps>) -> Seq<SharedProps> {
    retained(a, b) + b
}

/// `update(a, b)`: each record of `b`, in order, replaces the record of the same tag
/// in the running set; a record whose tag is absent there is dropped.
pub open spec fn updated(a: Seq<SharedProps>, b: Seq<SharedProps>) -> Seq<SharedProps>
    decreases b.len(),
{
    if b.len() == 0 {
        a
    } else {
        let next = if has_tag(a, b[0].tag()) {
            merged(a, seq![b[0]])
        } else {
            a
        };
        updated(next, b.drop_first())
    }
}

/// The first record of `s` with tag `t`, if any.
pub open spec fn lookup(s: Seq<SharedProps>, t: nat) -> Option<SharedProps>
    decreases s.len(),
{
    if s.len() == 0 {
        None
    } else if s[0].tag() == t {
        Some(s[0])
    } else {
        lookup(s.drop_first(), t)
    }
}

pub proof fn lemma_lookup_at(s: Seq<SharedProps>, t: nat, i: int)
    requires
        0 <= i < s.len(),
        s[i].tag() == t,
        forall|j: int| 0 <= j < i ==> #[trigger] s[j].tag() != t,
    ensures
        lookup(s, t) == Some(s[i]),
    decreases i,
{
    if i > 0 {
        let d = s.drop_first();
        assert forall|j: int| 0 <= j < i - 1 implies #[trigger] d[j].tag() != t by {
            assert(d[j] == s[j + 1]);
        }
        lemma_lookup_at(d, t, i - 1);
    }
}

pub proof fn lemma_lookup_none(s: Seq<SharedProps>, t: nat)
    requires
        !has_tag(s, t),
    ensures
        lookup(s, t) is None,
    decreases s.len(),
{
    if s.len() > 0 {
        let d = s.drop_first();
        if has_tag(d, t) {
            let i = choose|i: int| 0 <= i < d.len() && #[trigger] d[i].tag() == t;
            assert(s[i + 1].tag() == t);
        }
        lemma_lookup_none(d, t);
    }
}

pub proof fn lemma_lookup_some(s: Seq<SharedProps>, t: nat)
    ensures
        lookup(s, t) is Some <==> has_tag(s, t),
        lookup(s, t) matches Some(p) ==> p.tag() == t,
    decreases s.len(),
{
    if s.len() > 0 {
        let d = s.drop_first();
        lemma_lookup_some(d, t);
        if has_tag(d, t) {
            let i = choose|i: int| 0 <= i < d.len() && #[trigger] d[i].tag() == t;
            assert(s[i + 1].tag() == t);
        }
        if has_tag(s, t) && s[0].tag() != t {
            let i = choose|i: int| 0 <= i < s.len() && #[trigger] s[i].tag() == t;
            assert(d[i - 1].tag() == t);
        }
    }
}

/// Nothing is retained from an empty set.
pub proof fn lemma_retained_empty_left(b: Seq<SharedProps>)
    ensures
        merged(Seq::empty(), b) == b,
{
    assert(Seq::<SharedProps>::empty() + b =~= b);
}

/// A tag is in what `retained` keeps exactly when `a` has it and `b` does not.
pub proof fn lemma_retained_tags(a: Seq<SharedProps>, b: Seq<SharedProps>, t: nat)
    ensures
        has_tag(retained(a, b), t) <==> (has_tag(a, t) && !has_tag(b, t)),
    decreases a.len(),
{
    if a.len() > 0 {
        let d = a.drop_last();
        lemma_retained_tags(d, b, t);
        let rest = retained(d, b);
        if has_tag(a, t) {
            let i = choose|i: int| 0 <= i < a.len() && #[trigger] a[i].tag() == t;
            if i < a.len() - 1 {
                assert(d[i].tag() == t);
            }
        }
        if has_tag(d, t) {
            let i = choose|i: int| 0 <= i < d.len() && #[trigger] d[i].tag() == t;
            assert(a[i].tag() == t);
        }
        if !has_tag(b, a.last().tag()) {
            let r = rest.push(a.last());
            if has_tag(r, t) {
                let i = choose|i: int| 0 <= i < r.len() && #[trigger] r[i].tag() == t;
                if i < rest.len() {
                    assert(rest[i].tag() == t);
                }
            }
            if has_tag(rest, t) {
                let i = choose|i: int| 0 <= i < rest.len() && #[trigger] rest[i].tag() == t;
                assert(r[i].tag() == t);
            }
            assert(r[rest.len() as int] == a.last());
        }
    }
}

/// What `retained` keeps has no repeated tag when `a` has none.
pub proof fn lemma_retained_unique(a: Seq<SharedProps>, b: Seq<SharedProps>)
    requires
        unique_tags(a),
    ensures
        unique_tags(retained(a, b)),
    decreases a.len(),
{
    if a.len() > 0 {
        let d = a.drop_last();
        assert(unique_tags(d)) by {
            assert forall|i: int, j: int| 0 <= i < j < d.len() implies #[trigger] d[i].tag()
                != #[trigger] d[j].tag() by {
                assert(d[i] == a[i] && d[j] == a[j]);
            }
        }
        lemma_retained_unique(d, b);
        let rest = retained(d, b);
        if !has_tag(b, a.last().tag()) {
            lemma_retained_tags(d, b, a.last().tag());
            if has_tag(d, a.last().tag()) {
                let i = choose|i: int| 0 <= i < d.len() && #[trigger] d[i].tag() == a.last().tag();
                assert(a[i].tag() == a[a.len() - 1].tag());
            }
            let r = rest.push(a.last());
            assert forall|i: int, j: int| 0 <= i < j < r.len() implies #[trigger] r[i].tag()
                != #[trigger] r[j].tag() by {
                if j == rest.len() {
                    assert(rest[i].tag() == r[i].tag());
                    if rest[i].tag() == a.last().tag() {
                        assert(has_tag(rest, a.last().tag()));
                    }
                } else {
                    assert(rest[i] == r[i] && rest[j] == r[j]);
                }
            }
        }
    }
}

pub proof fn lemma_retained_empty(a: Seq<SharedProps>)
    ensures
        retained(a, Seq::empty()) == a,
    decreases a.len(),
{
    if a.len() > 0 {
        lemma_retained_empty(a.drop_last());
        assert(a.drop_last().push(a.last()) =~= a);
    }
}

/// The tags of `merge(a, b)` are those of `a` and those of `b`.
pub proof fn lemma_merged_tags(a: Seq<SharedProps>, b: Seq<SharedProps>, t: nat)
    ensures
        has_tag(merged(a, b), t) <==> (has_tag(a, t) || has_tag(b, t)),
{
    let r = retained(a, b);
    let m = r + b;
    lemma_retained_tags(a, b, t);
    if has_tag(m, t) {
        let i = choose|i: int| 0 <= i < m.len() && #[trigger] m[i].tag() == t;
        if i < r.len() {
            assert(r[i].tag() == t);
        } else {
            assert(b[i - r.len()].tag() == t);
        }
    }
    if has_tag(r, t) {
        let i = choose|i: int| 0 <= i < r.len() && #[trigger] r[i].tag() == t;
        assert(m[i].tag() == t);
    }
    if has_tag(b, t) {
        let i = choose|i: int| 0 <= i < b.len() && #[trigger] b[i].tag() == t;
        assert(m[i + r.len()].tag() == t);
    }
}

/// Merging with an empty set changes nothing.
pub proof fn lemma_merge_empty(a: Seq<SharedProps>)
    ensures
        merged(a, Seq::empty()) == a,
{
    lemma_retained_empty(a);
    assert(a + Seq::<SharedProps>::empty() =~= a);
}

/// Merging two sets that each hold at most one record per tag gives a set that does too.
pub proof fn lemma_merge_unique(a: Seq<SharedProps>, b: Seq<SharedProps>)
    requires
        unique_tags(a),
        unique_tags(b),
    ensures
        unique_tags(merged(a, b)),
{
    let r = retained(a, b);
    let m = r + b;
    lemma_retained_unique(a, b);
    assert forall|i: int, j: int| 0 <= i < j < m.len() implies #[trigger] m[i].tag()
        != #[trigger] m[j].tag() by {
        if j < r.len() {
            assert(m[i] == r[i] && m[j] == r[j]);
        } else if i >= r.len() {
            assert(m[i] == b[i - r.len()] && m[j] == b[j - r.len()]);
        } else {
            assert(m[i] == r[i] && m[j] == b[j - r.len()]);
            lemma_retained_tags(a, b, r[i].tag());
            assert(has_tag(r, r[i].tag()));
            if m[i].tag() == m[j].tag() {
                assert(has_tag(b, r[i].tag()));
            }
        }
    }
}

/// Update never changes the set of tags.
pub proof fn lemma_update_tags(a: Seq<SharedProps>, b: Seq<SharedProps>)
    ensures
        tag_set(updated(a, b)) == tag_set(a),
    decreases b.len(),
{
    if b.len() > 0 {
        let next = if has_tag(a, b[0].tag()) {
            merged(a, seq![b[0]])
        } else {
            a
        };
        if has_tag(a, b[0].tag()) {
            assert forall|t: nat| has_tag(next, t) <==> has_tag(a, t) by {
                lemma_merged_tags(a, seq![b[0]], t);
                let one = seq![b[0]];
                if has_tag(one, t) {
                    let i = choose|i: int| 0 <= i < one.len() && #[trigger] one[i].tag() == t;
                    assert(i == 0);
                }
                if t == b[0].tag() {
                    assert(one[0].tag() == t);
                }
            }
            assert(tag_set(next) =~= tag_set(a));
        }
        lemma_update_tags(next, b.drop_first());
    }
}

/// Every record of `s` is a listener that the event hub delivers.
pub open spec fn all_semantic(s: Seq<SharedProps>) -> bool {
    forall|i: int| 0 <= i < s.len() ==> (#[trigger] s[i]).is_semantic_listener()
}

pub proof fn lemma_retained_semantic(a: Seq<SharedProps>, b: Seq<SharedProps>)
    requires
        all_semantic(a),
    ensures
        all_semantic(retained(a, b)),
    decreases a.len(),
{
    if a.len() > 0 {
        let d = a.drop_last();
        assert(all_semantic(d)) by {
            assert forall|i: int| 0 <= i < d.len() implies (#[trigger] d[i]).is_semantic_listener() by {
                assert(d[i] == a[i]);
            }
        }
        lemma_retained_semantic(d, b);
        assert(a.last() == a[a.len() - 1]);
    }
}

/// Merging two sets of listeners gives a set of listeners.
pub proof fn lemma_merged_semantic(a: Seq<SharedProps>, b: Seq<SharedProps>)
    requires
        all_semantic(a),
        all_semantic(b),
    ensures
        all_semantic(merged(a, b)),
{
    lemma_retained_semantic(a, b);
    let r = retained(a, b);
    let m = r + b;
    assert forall|i: int| 0 <= i < m.len() implies (#[trigger] m[i]).is_semantic_listener() by {
        if i < r.len() {
            assert(m[i] == r[i]);
        } else {
            assert(m[i] == b[i - r.len()]);
        }
    }
}

/// The first record of `props` with the same tag as `variant`.
pub fn prop<'a>(props: &'a Vec<SharedProps>, variant: &SharedProps) -> (r: Option<&'a SharedProps>)
    ensures
        r matches Some(p) ==> Some(*p) == lookup(props@, variant.tag()),
        r is None ==> lookup(props@, variant.tag()) is None,
        r is Some <==> has_tag(props@, variant.tag()),
{
    let t = variant.kind();
    let mut i: usize = 0;
    while i < props.len()
        invariant
            i <= props@.len(),
            t as nat == variant.tag(),
            forall|j: int| 0 <= j < i ==> #[trigger] props@[j].tag() != t as nat,
        decreases props@.len() - i,
    {
        if props[i].kind() == t {
            proof {
                lemma_lookup_at(props@, t as nat, i as int);
                lemma_lookup_some(props@, t as nat);
            }
            return Some(&props[i]);
        }
        i = i + 1;
    }
    proof {
        lemma_lookup_none(props@, t as nat);
        lemma_lookup_some(props@, t as nat);
    }
    None
}

/// Whether some record of `props` has tag `t`.
pub fn contains_tag(props: &Vec<SharedProps>, t: u8) -> (r: bool)
    ensures
        r == has_tag(props@, t as nat),
{
    let mut i: usize = 0;
    while i < props.len()
        invariant
            i <= props@.len(),
            forall|j: int| 0 <= j < i ==> #[trigger] props@[j].tag() != t as nat,
        decreases props@.len() - i,
    {
        if props[i].kind() == t {
            return true;
        }
        i = i + 1;
    }
    false
}

/// `merge(left, right)`: keeps the records of `left` whose tag is absent from `right`,
/// then appends all of `right`.
pub fn merge_props(left: Vec<SharedProps>, right: Vec<SharedProps>) -> (r: Vec<SharedProps>)
    ensures
        r@ == merged(left@, right@),
{
    let mut difference: Vec<SharedProps> = Vec::new();
    let mut rest = left;
    let ghost n = rest@.len();
    while rest.len() > 0
        invariant
            rest@.len() <= n,
            n == left@.len(),
            rest@ == left@.subrange(n - rest@.len(), n as int),
            difference@ == retained(left@.subrange(0, n - rest@.len()), right@),
        decreases rest@.len(),
    {
        let ghost i = n - rest@.len();
        let item = rest.remove(0);
        let ghost sub = left@.subrange(0, i + 1);
        assert(sub.drop_last() =~= left@.subrange(0, i));
        assert(sub.last() == left@[i]);
        assert(rest@ =~= left@.subrange(n - rest@.len(), n as int));
        if !contains_tag(&right, item.kind()) {
            difference.push(item);
        }
    }
    assert(left@.subrange(0, n as int) =~= left@);
    let mut tail = right;
    difference.append(&mut tail);
    difference
}

/// `update(left, right)`: each record of `right` whose tag `left` already holds replaces
/// that record; the others are dropped.
pub fn update_props(left: Vec<SharedProps>, right: Vec<SharedProps>) -> (r: Vec<SharedProps>)
    ensures
        r@ == updated(left@, right@),
{
    let mut inst = left;
    let mut rest = right;
    while rest.len() > 0
        invariant
            updated(inst@, rest@) == updated(left@, right@),
        decreases rest@.len(),
    {
        let ghost before = rest@;
        let item = rest.remove(0);
        assert(before.drop_first() =~= rest@);
        if contains_tag(&inst, item.kind()) {
            let mut one: Vec<SharedProps> = Vec::new();
            one.push(item);
            assert(one@ =~= seq![before[0]]);
            inst = merge_props(inst, one);
        }
    }
    inst
}

/// Builder-style operations on a property set.
pub trait VectorExtention: Sized {
    spec fn records(&self) -> Seq<SharedProps>;

    fn prop(&self, variant: &SharedProps) -> (r: Option<&SharedProps>)
        ensures
            r matches Some(p) ==> Some(*p) == lookup(self.records(), variant.tag()),
            r is Some <==> has_tag(self.records(), variant.tag()),
    ;

    fn merge(self, right: Vec<SharedProps>) -> (r: Self)
        ensures
            r.records() == merged(self.records(), right@),
    ;

    fn update(self, right: Vec<SharedProps>) -> (r: Self)
        ensures
            r.records() == updated(self.records(), right@),
    ;
}

impl VectorExtention for Vec<SharedProps> {
    open spec fn records(&self) -> Seq<SharedProps> {
        self@
    }

    fn prop(&self, variant: &SharedProps) -> (r: Option<&SharedProps>) {
        prop(self, variant)
    }

    fn merge(self, right: Vec<SharedProps>) -> (r: Self) {
        merge_props(self, right)
    }

    fn update(self, right: Vec<SharedProps>) -> (r: Self) {
        update_props(self, right)
    }
}

/// Constructors of the string-valued and listener records.
pub struct SP;

impl SP {
    pub fn ClassName(className: &str) -> (r: SharedProps)
        ensures
            r matches SharedProps::ClassName(v) && v@ == className@,
    {
        SharedProps::ClassName(className.to_owned())
    }

    pub fn Renderer(name: &str) -> (r: SharedProps)
        ensures
            r matches SharedProps::Renderer(v) && v@ == name@,
    {
        SharedProps::Renderer(name.to_owned())
    }

    pub fn Title(title: &str) -> (r: SharedProps)
        ensures
            r matches SharedProps::Title(v) && v@ == title@,
    {
        SharedProps::Title(title.to_owned())
    }

    pub fn FontFace(face: &str) -> (r: SharedProps)
        ensures
            r matches SharedProps::FontFace(v) && v@ == face@,
    {
        SharedProps::FontFace(face.to_owned())
    }

    pub fn ClientRect(x: usize, y: usize, width: usize, height: usize) -> (r: SharedProps)
        ensures
            r == SharedProps::ClientRect(x, y, width, height),
    {
        SharedProps::ClientRect(x, y, width, height)
    }

    pub fn DidCreate(handler: ListenerId) -> (r: SharedProps)
        ensures
            r == SharedProps::DidCreate(handler),
    {
        SharedProps::DidCreate(handler)
    }

    pub fn DidChange(handler: ListenerId) -> (r: SharedProps)
        ensures
            r == SharedProps::DidChange(handler),
    {
        SharedProps::DidChange(handler)
    }

    pub fn DidResize(handler: ListenerId) -> (r: SharedProps)
        ensures
            r == SharedProps::DidResize(handler),
    {
        SharedProps::DidResize(handler)
    }

    pub fn DidDestroy(handler: ListenerId) -> (r: SharedProps)
        ensures
            r == SharedProps::DidDestroy(handler),
    {
        SharedProps::DidDestroy(handler)
    }
}

} // verus!
