//! The reconciliation context: the persisted state of each widget, keyed by its path.
#![allow(non_snake_case)]

use vstd::prelude::*;
use crate::props::{SharedProps, all_semantic, copy_props, has_tag, TAG_RENDERER, contains_tag};
use crate::renderable::{
    PathIndex, PathStep, RenderEntry, EntryView, entries_view, Node, flat, shape, paths_of,
    lemma_same_shape_same_paths,
};
use crate::event_hub::{Message, semantic_only, lemma_semantic_only, EventHub, EventView, attached, enqueued};
use crate::props::same_record;

verus! {

/// Persisted state of one widget: native handle, cached font handle, the initialization
/// counter (1 created, 2 laid out and steady) and the attached listeners.
#[derive(Clone, Debug)]
pub struct ControlInfo {
    pub hwnd: isize,
    pub hFont: Option<isize>,
    pub isInitialized: isize,
    pub listeners: Vec<SharedProps>,
}

pub struct InfoView {
    pub hwnd: isize,
    pub hFont: Option<isize>,
    pub isInitialized: isize,
    pub listeners: Seq<SharedProps>,
}

impl View for ControlInfo {
    type V = InfoView;

    open spec fn view(&self) -> InfoView {
        InfoView {
            hwnd: self.hwnd,
            hFont: self.hFont,
            isInitialized: self.isInitialized,
            listeners: self.listeners@,
        }
    }
}

pub type Entry = (PathIndex, ControlInfo);

/// The map an association list stands for; a later entry for a key wins.
pub open spec fn assoc(s: Seq<Entry>) -> Map<Seq<PathStep>, InfoView>
    decreases s.len(),
{
    if s.len() == 0 {
        Map::empty()
    } else {
        assoc(s.drop_last()).insert(s.last().0@, s.last().1@)
    }
}

pub open spec fn keys_unique(s: Seq<Entry>) -> bool {
    forall|i: int, j: int| 0 <= i < j < s.len() ==> #[trigger] s[i].0@ != #[trigger] s[j].0@
}

pub proof fn lemma_assoc_keys(s: Seq<Entry>, k: Seq<PathStep>)
    ensures
        assoc(s).contains_key(k) <==> exists|i: int| 0 <= i < s.len() && (#[trigger] s[i]).0@ == k,
    decreases s.len(),
{
    if s.len() > 0 {
        let d = s.drop_last();
        lemma_assoc_keys(d, k);
        if exists|i: int| 0 <= i < d.len() && (#[trigger] d[i]).0@ == k {
            let i = choose|i: int| 0 <= i < d.len() && (#[trigger] d[i]).0@ == k;
            assert(s[i] == d[i]);
        }
        if exists|i: int| 0 <= i < s.len() && (#[trigger] s[i]).0@ == k {
            let i = choose|i: int| 0 <= i < s.len() && (#[trigger] s[i]).0@ == k;
            if i < d.len() {
                assert(d[i] == s[i]);
            }
        }
    }
}

pub proof fn lemma_assoc_value(s: Seq<Entry>, i: int)
    requires
        keys_unique(s),
        0 <= i < s.len(),
    ensures
        assoc(s).contains_key(s[i].0@),
        assoc(s)[s[i].0@] == s[i].1@,
    decreases s.len(),
{
    let d = s.drop_last();
    if i < s.len() - 1 {
        assert(keys_unique(d)) by {
            assert forall|a: int, b: int| 0 <= a < b < d.len() implies #[trigger] d[a].0@ != #[trigger] d[b].0@ by {
                assert(d[a] == s[a] && d[b] == s[b]);
            }
        }
        assert(d[i] == s[i]);
        lemma_assoc_value(d, i);
        assert(s[i].0@ != s[s.len() - 1].0@);
    }
}

/// Replacing the value at a position of a list with unique keys replaces it in the map.
pub proof fn lemma_assoc_update(s: Seq<Entry>, i: int, e: Entry)
    requires
        keys_unique(s),
        0 <= i < s.len(),
        e.0@ == s[i].0@,
    ensures
        keys_unique(s.update(i, e)),
        assoc(s.update(i, e)) == assoc(s).insert(e.0@, e.1@),
{
    let t = s.update(i, e);
    assert(keys_unique(t)) by {
        assert forall|a: int, b: int| 0 <= a < b < t.len() implies #[trigger] t[a].0@ != #[trigger] t[b].0@ by {
            assert(t[a].0@ == s[a].0@ && t[b].0@ == s[b].0@);
        }
    }
    assert forall|k: Seq<PathStep>| #[trigger] assoc(t).contains_key(k) <==> assoc(s).insert(e.0@, e.1@).contains_key(k) by {
        lemma_assoc_keys(t, k);
        lemma_assoc_keys(s, k);
        if exists|j: int| 0 <= j < s.len() && (#[trigger] s[j]).0@ == k {
            let j = choose|j: int| 0 <= j < s.len() && (#[trigger] s[j]).0@ == k;
            assert(t[j].0@ == k);
        }
        if exists|j: int| 0 <= j < t.len() && (#[trigger] t[j]).0@ == k {
            let j = choose|j: int| 0 <= j < t.len() && (#[trigger] t[j]).0@ == k;
            assert(s[j].0@ == k);
        }
    }
    assert forall|k: Seq<PathStep>| #[trigger] assoc(t).contains_key(k) implies assoc(t)[k] == assoc(s).insert(
        e.0@,
        e.1@,
    )[k] by {
        lemma_assoc_keys(t, k);
        let j = choose|j: int| 0 <= j < t.len() && (#[trigger] t[j]).0@ == k;
        lemma_assoc_value(t, j);
        if j != i {
            lemma_assoc_value(s, j);
            assert(t[j] == s[j]);
        }
    }
    assert(assoc(t) =~= assoc(s).insert(e.0@, e.1@));
}

/// Adding an entry for a key the list does not hold keeps the keys unique.
pub proof fn lemma_push_unique(s: Seq<Entry>, e: Entry)
    requires
        keys_unique(s),
        !assoc(s).contains_key(e.0@),
    ensures
        keys_unique(s.push(e)),
        assoc(s.push(e)) == assoc(s).insert(e.0@, e.1@),
{
    let t = s.push(e);
    lemma_assoc_keys(s, e.0@);
    assert(t.drop_last() =~= s);
    assert forall|a: int, b: int| 0 <= a < b < t.len() implies #[trigger] t[a].0@ != #[trigger] t[b].0@ by {
        if b == s.len() {
            assert(t[a] == s[a]);
        } else {
            assert(t[a] == s[a] && t[b] == s[b]);
        }
    }
}

/// Position of `k` in the list, if it is there.
fn position(items: &Vec<Entry>, k: &PathIndex) -> (r: Option<usize>)
    ensures
        r matches Some(i) ==> i < items@.len() && items@[i as int].0@ == k@,
        r is None ==> !assoc(items@).contains_key(k@),
{
    let mut i: usize = 0;
    while i < items.len()
        invariant
            i <= items@.len(),
            forall|j: int| 0 <= j < i ==> (#[trigger] items@[j]).0@ != k@,
        decreases items@.len() - i,
    {
        if items[i].0.same(k) {
            return Some(i);
        }
        i = i + 1;
    }
    proof {
        lemma_assoc_keys(items@, k@);
    }
    None
}

/// Sets `k` to `v` in a list with unique keys.
fn put(items: &mut Vec<Entry>, k: PathIndex, v: ControlInfo)
    requires
        keys_unique(old(items)@),
    ensures
        keys_unique(final(items)@),
        assoc(final(items)@) == assoc(old(items)@).insert(k@, v@),
{
    match position(items, &k) {
        Some(i) => {
            proof {
                lemma_assoc_update(items@, i as int, (k, v));
            }
            items.set(i, (k, v));
        },
        None => {
            proof {
                lemma_push_unique(items@, (k, v));
            }
            items.push((k, v));
        },
    }
}

/// Merges two keyed lists; where both hold a key, the entry of `right` wins.
pub fn merge(left: Vec<Entry>, right: Vec<Entry>) -> (r: Vec<Entry>)
    requires
        keys_unique(left@),
    ensures
        keys_unique(r@),
        assoc(r@) == assoc(left@).union_prefer_right(assoc(right@)),
{
    let mut out = left;
    let mut rest = right;
    let ghost n = right@.len();
    assert(assoc(right@.subrange(0, 0)) =~= Map::empty());
    assert(assoc(out@) =~= assoc(left@).union_prefer_right(assoc(right@.subrange(0, 0))));
    while rest.len() > 0
        invariant
            keys_unique(out@),
            rest@.len() <= n,
            n == right@.len(),
            rest@ == right@.subrange(n - rest@.len(), n as int),
            assoc(out@) == assoc(left@).union_prefer_right(assoc(right@.subrange(0, n - rest@.len()))),
        decreases rest@.len(),
    {
        let ghost j = n - rest@.len();
        let ghost before = rest@;
        let (k, v) = rest.remove(0);
        assert(rest@ =~= right@.subrange(n - rest@.len(), n as int));
        let ghost sub = right@.subrange(0, j + 1);
        assert(sub.drop_last() =~= right@.subrange(0, j));
        assert(sub.last() == before[0]);
        put(&mut out, k, v);
        assert(assoc(out@) =~= assoc(left@).union_prefer_right(assoc(sub)));
    }
    assert(right@.subrange(0, n as int) =~= right@);
    out
}

/// Whether a counter transition lays the widget out for the first time, and the counter
/// that follows: a new widget starts at 1; a window reaching 2 is laid out; anything past
/// 2 stays at 2.
pub open spec fn next_counter(prior: Option<isize>, isWindow: bool) -> (isize, bool) {
    let c: int = match prior {
        Some(p) => p + 1,
        None => 1,
    };
    if isWindow && c == 2 {
        (2, true)
    } else if c > 2 {
        (2, false)
    } else {
        (c as isize, false)
    }
}

/// What creating or updating a widget produced: its native handle, its font handle, and
/// whether it is a top-level window.
#[derive(Clone, Copy, Debug, PartialEq, Eq)]
pub struct Outcome {
    pub hwnd: isize,
    pub hFont: Option<isize>,
    pub isWindow: bool,
}

/// The context after persisting an outcome at `k`: the counter advances, the listeners
/// already attached are kept.
pub open spec fn persisted(m: Map<Seq<PathStep>, InfoView>, k: Seq<PathStep>, o: Outcome) -> Map<
    Seq<PathStep>,
    InfoView,
> {
    let prior = if m.contains_key(k) {
        Some(m[k].isInitialized)
    } else {
        None
    };
    let listeners = if m.contains_key(k) {
        m[k].listeners
    } else {
        Seq::empty()
    };
    m.insert(k, InfoView { hwnd: o.hwnd, hFont: o.hFont, isInitialized: next_counter(prior, o.isWindow).0, listeners })
}

/// Whether persisting an outcome at `k` lays a window out for the first time.
pub open spec fn lays_out(m: Map<Seq<PathStep>, InfoView>, k: Seq<PathStep>, o: Outcome) -> bool {
    next_counter(
        if m.contains_key(k) {
            Some(m[k].isInitialized)
        } else {
            None
        },
        o.isWindow,
    ).1
}

/// One node of a full pass: a node with a render kind whose widget was created or updated
/// stores the outcome at its path; otherwise nothing changes.
pub open spec fn rendered_full(
    m: Map<Seq<PathStep>, InfoView>,
    k: Seq<PathStep>,
    props: Seq<SharedProps>,
    outcome: Option<Outcome>,
) -> Map<Seq<PathStep>, InfoView> {
    match outcome {
        Some(o) => if has_tag(props, TAG_RENDERER as nat) {
            persisted(m, k, o)
        } else {
            m
        },
        None => m,
    }
}

/// One node of an apply pass: the widget state at `k`, if any, takes the listeners of
/// `props` and nothing else changes.
pub open spec fn applied(m: Map<Seq<PathStep>, InfoView>, k: Seq<PathStep>, props: Seq<SharedProps>) -> Map<
    Seq<PathStep>,
    InfoView,
> {
    if m.contains_key(k) {
        m.insert(k, InfoView { listeners: semantic_only(props), ..m[k] })
    } else {
        m
    }
}

/// What a node of a full pass needs from the window system.
#[derive(Clone, Copy, Debug, PartialEq, Eq)]
pub enum NodePlan {
    /// No render kind: nothing to do.
    Skip,
    /// No widget yet at the path: create one under `parent`.
    Create { parent: Option<isize> },
    /// A widget is stored at the path: update it (identity follows the path).
    Update { hwnd: isize, hFont: Option<isize>, parent: Option<isize> },
}

/// The handle of the parent widget, where one is stored (the root has none).
pub open spec fn parent_handle(m: Map<Seq<PathStep>, InfoView>, parent: Seq<PathStep>, path: Seq<PathStep>) -> Option<
    isize,
> {
    if parent != path && m.contains_key(parent) {
        Some(m[parent].hwnd)
    } else {
        None
    }
}

pub open spec fn node_plan(
    m: Map<Seq<PathStep>, InfoView>,
    path: Seq<PathStep>,
    parent: Seq<PathStep>,
    props: Seq<SharedProps>,
) -> NodePlan {
    if !has_tag(props, TAG_RENDERER as nat) {
        NodePlan::Skip
    } else if m.contains_key(path) {
        NodePlan::Update { hwnd: m[path].hwnd, hFont: m[path].hFont, parent: parent_handle(m, parent, path) }
    } else {
        NodePlan::Create { parent: parent_handle(m, parent, path) }
    }
}

/// An apply pass over the widgets `es`, in order.
pub open spec fn applied_all(m: Map<Seq<PathStep>, InfoView>, es: Seq<EntryView>) -> Map<Seq<PathStep>, InfoView>
    decreases es.len(),
{
    if es.len() == 0 {
        m
    } else {
        applied(applied_all(m, es.drop_last()), es.last().path, es.last().props)
    }
}

/// The queue after uniting, path by path of `ks`, the listeners stored in `m` into the
/// queued event of the handle stored there.
pub open spec fn attached_keys(evs: Seq<EventView>, m: Map<Seq<PathStep>, InfoView>, ks: Seq<Seq<PathStep>>) -> Seq<
    EventView,
>
    decreases ks.len(),
{
    if ks.len() == 0 {
        evs
    } else {
        let prev = attached_keys(evs, m, ks.drop_last());
        let k = ks.last();
        attached(prev, m[k].hwnd, m[k].listeners)
    }
}

/// Copies that agree record by record keep the same listeners.
pub proof fn lemma_semantic_only_same(a: Seq<SharedProps>, b: Seq<SharedProps>)
    requires
        a.len() == b.len(),
        forall|i: int| 0 <= i < a.len() ==> same_record(#[trigger] a[i], b[i]),
    ensures
        semantic_only(a) == semantic_only(b),
    decreases a.len(),
{
    if a.len() > 0 {
        lemma_semantic_only_same(a.drop_last(), b.drop_last());
        assert(same_record(a[a.len() - 1], b[b.len() - 1]));
    }
}

/// A full pass over the widgets `es`, in order, where `outs` are the outcomes of creating or
/// updating each.
pub open spec fn full_pass(
    m: Map<Seq<PathStep>, InfoView>,
    es: Seq<EntryView>,
    outs: Seq<Option<Outcome>>,
) -> Map<Seq<PathStep>, InfoView>
    decreases es.len(),
{
    if es.len() == 0 || outs.len() == 0 {
        m
    } else {
        rendered_full(full_pass(m, es.drop_last(), outs.drop_last()), es.last().path, es.last().props, outs.last())
    }
}

/// The paths a full pass stores: those of widgets with a render kind and an outcome.
pub open spec fn stored_paths(es: Seq<EntryView>, outs: Seq<Option<Outcome>>) -> Set<Seq<PathStep>>
    decreases es.len(),
{
    if es.len() == 0 || outs.len() == 0 {
        Set::empty()
    } else {
        let rest = stored_paths(es.drop_last(), outs.drop_last());
        if outs.last() is Some && has_tag(es.last().props, TAG_RENDERER as nat) {
            rest.insert(es.last().path)
        } else {
            rest
        }
    }
}

/// A full pass keeps every path already stored and adds the paths it stores.
pub proof fn lemma_full_pass_paths(m: Map<Seq<PathStep>, InfoView>, es: Seq<EntryView>, outs: Seq<Option<Outcome>>)
    ensures
        full_pass(m, es, outs).dom() == m.dom().union(stored_paths(es, outs)),
    decreases es.len(),
{
    if es.len() == 0 || outs.len() == 0 {
        assert(m.dom().union(Set::empty()) =~= m.dom());
    } else {
        lemma_full_pass_paths(m, es.drop_last(), outs.drop_last());
        let prev = full_pass(m, es.drop_last(), outs.drop_last());
        let rest = stored_paths(es.drop_last(), outs.drop_last());
        if outs.last() is Some && has_tag(es.last().props, TAG_RENDERER as nat) {
            assert(prev.insert(es.last().path, InfoView { hwnd: 0, hFont: None, isInitialized: 0, listeners: Seq::empty() }).dom()
                =~= prev.dom().insert(es.last().path));
            assert(full_pass(m, es, outs).dom() =~= m.dom().union(rest.insert(es.last().path)));
        }
    }
}

/// Two passes over widgets at the same paths, with the same render kinds and every outcome
/// present, store the same paths.
pub proof fn lemma_stored_paths_same(
    es1: Seq<EntryView>,
    o1: Seq<Option<Outcome>>,
    es2: Seq<EntryView>,
    o2: Seq<Option<Outcome>>,
)
    requires
        es1.len() == es2.len(),
        o1.len() == es1.len(),
        o2.len() == es2.len(),
        forall|i: int| 0 <= i < es1.len() ==> (#[trigger] es1[i]).path == es2[i].path,
        forall|i: int| 0 <= i < es1.len() ==> has_tag((#[trigger] es1[i]).props, TAG_RENDERER as nat) == has_tag(
            es2[i].props,
            TAG_RENDERER as nat,
        ),
        forall|i: int| 0 <= i < o1.len() ==> (#[trigger] o1[i]) is Some && o2[i] is Some,
    ensures
        stored_paths(es1, o1) == stored_paths(es2, o2),
    decreases es1.len(),
{
    if es1.len() > 0 {
        let (d1, d2, t1, t2) = (es1.drop_last(), es2.drop_last(), o1.drop_last(), o2.drop_last());
        assert forall|i: int| 0 <= i < d1.len() implies (#[trigger] d1[i]).path == d2[i].path && has_tag(
            d1[i].props,
            TAG_RENDERER as nat,
        ) == has_tag(d2[i].props, TAG_RENDERER as nat) by {
            assert(d1[i] == es1[i] && d2[i] == es2[i]);
        }
        assert forall|i: int| 0 <= i < t1.len() implies (#[trigger] t1[i]) is Some && t2[i] is Some by {
            assert(t1[i] == o1[i] && t2[i] == o2[i]);
        }
        lemma_stored_paths_same(d1, t1, d2, t2);
        assert(es1.last() == es1[es1.len() - 1] && es2.last() == es2[es2.len() - 1]);
        assert(o1.last() == o1[o1.len() - 1] && o2.last() == o2[o2.len() - 1]);
    }
}

/// Re-rendering a structurally unchanged tree (same structure, same render kinds at the
/// same positions), every widget updated, leaves the context with the same paths as the
/// pass before it.
pub proof fn lemma_rerender_same_paths(
    m: Map<Seq<PathStep>, InfoView>,
    a: Node,
    b: Node,
    o1: Seq<Option<Outcome>>,
    o2: Seq<Option<Outcome>>,
)
    requires
        shape(a) == shape(b),
        flat(a, Seq::empty(), Seq::empty()).len() == flat(b, Seq::empty(), Seq::empty()).len(),
        forall|i: int| 0 <= i < flat(a, Seq::empty(), Seq::empty()).len() ==> has_tag(
            (#[trigger] flat(a, Seq::empty(), Seq::empty())[i]).props,
            TAG_RENDERER as nat,
        ) == has_tag(flat(b, Seq::empty(), Seq::empty())[i].props, TAG_RENDERER as nat),
        o1.len() == flat(a, Seq::empty(), Seq::empty()).len(),
        o2.len() == o1.len(),
        forall|i: int| 0 <= i < o1.len() ==> (#[trigger] o1[i]) is Some && o2[i] is Some,
    ensures
        ({
            let first = full_pass(m, flat(a, Seq::empty(), Seq::empty()), o1);
            full_pass(first, flat(b, Seq::empty(), Seq::empty()), o2).dom() == first.dom()
        }),
{
    let ea = flat(a, Seq::empty(), Seq::empty());
    let eb = flat(b, Seq::empty(), Seq::empty());
    lemma_same_shape_same_paths(a, b, Seq::empty(), Seq::empty());
    assert forall|i: int| 0 <= i < ea.len() implies (#[trigger] ea[i]).path == eb[i].path by {
        assert(paths_of(ea)[i] == paths_of(eb)[i]);
    }
    lemma_stored_paths_same(ea, o1, eb, o2);
    let first = full_pass(m, ea, o1);
    lemma_full_pass_paths(m, ea, o1);
    lemma_full_pass_paths(first, eb, o2);
    assert(first.dom().union(stored_paths(eb, o2)) =~= first.dom());
}

/// Identity follows position: a node at a stored path is planned as an update of the widget
/// stored there whatever its content, and a later pass over fewer nodes keeps every path
/// already stored.
pub proof fn lemma_identity_by_position(
    m: Map<Seq<PathStep>, InfoView>,
    path: Seq<PathStep>,
    parent: Seq<PathStep>,
    props: Seq<SharedProps>,
    es: Seq<EntryView>,
    outs: Seq<Option<Outcome>>,
)
    requires
        m.contains_key(path),
        has_tag(props, TAG_RENDERER as nat),
    ensures
        node_plan(m, path, parent, props) == (NodePlan::Update {
            hwnd: m[path].hwnd,
            hFont: m[path].hFont,
            parent: parent_handle(m, parent, path),
        }),
        m.dom().subset_of(full_pass(m, es, outs).dom()),
{
    lemma_full_pass_paths(m, es, outs);
}

pub struct UIContext {
    items: Vec<Entry>,
}

impl View for UIContext {
    type V = Map<Seq<PathStep>, InfoView>;

    closed spec fn view(&self) -> Map<Seq<PathStep>, InfoView> {
        assoc(self.items@)
    }
}

impl UIContext {
    /// The stored paths, in the order they were first stored.
    pub closed spec fn order(&self) -> Seq<Seq<PathStep>> {
        self.items@.map_values(|e: Entry| e.0@)
    }

    #[verifier::type_invariant]
    spec fn inv(&self) -> bool {
        keys_unique(self.items@)
    }

    pub fn new() -> (r: UIContext)
        ensures
            r@ == Map::<Seq<PathStep>, InfoView>::empty(),
    {
        UIContext { items: Vec::new() }
    }

    pub fn create() -> (r: UIContext)
        ensures
            r@ == Map::<Seq<PathStep>, InfoView>::empty(),
    {
        UIContext::new()
    }

    /// The state persisted at `index`.
    pub fn get(&self, index: &PathIndex) -> (r: Option<&ControlInfo>)
        ensures
            r is Some <==> self@.contains_key(index@),
            r matches Some(ci) ==> ci@ == self@[index@],
    {
        proof {
            use_type_invariant(self);
        }
        match position(&self.items, index) {
            Some(i) => {
                proof {
                    lemma_assoc_value(self.items@, i as int);
                }
                Some(&self.items[i].1)
            },
            None => None,
        }
    }

    /// The number of paths with persisted state.
    pub fn len(&self) -> (r: usize)
        ensures
            r == self@.len(),
    {
        proof {
            use_type_invariant(self);
            lemma_assoc_len(self.items@);
        }
        self.items.len()
    }

    /// The listeners among `props`, in order.
    pub fn collectEvents(props: &Vec<SharedProps>) -> (r: Vec<SharedProps>)
        ensures
            r@ == semantic_only(props@),
    {
        let mut r: Vec<SharedProps> = Vec::new();
        let mut i: usize = 0;
        while i < props.len()
            invariant
                i <= props@.len(),
                r@ == semantic_only(props@.subrange(0, i as int)),
            decreases props@.len() - i,
        {
            let ghost sub = props@.subrange(0, i as int + 1);
            assert(sub.drop_last() =~= props@.subrange(0, i as int));
            assert(sub.last() == props@[i as int]);
            if props[i].is_listener() {
                r.push(props[i].copy());
            }
            i = i + 1;
        }
        assert(props@.subrange(0, props@.len() as int) =~= props@);
        r
    }

    /// One node of a render pass. With an incoming event (apply mode) the widget state at
    /// `index`, if any, takes the listeners of `props` and nothing else changes. Without one
    /// (full mode) a node with a render kind stores `outcome`, what creating or updating its
    /// widget produced (`None` where that failed, which leaves the context as it is); every
    /// other path is untouched. The flag says whether a window is to be laid out now.
    pub fn render(self, index: &PathIndex, props: &Vec<SharedProps>, msg: Option<Message>, outcome: Option<Outcome>) -> (r: (
        UIContext,
        bool,
    ))
        ensures
            msg is Some ==> !r.1 && r.0@ == applied(self@, index@, props@),
            msg is None ==> r.0@ == rendered_full(self@, index@, props@, outcome) && r.1 == (
            outcome matches Some(o) && has_tag(props@, TAG_RENDERER as nat) && lays_out(self@, index@, o)),
    {
        proof {
            use_type_invariant(&self);
        }
        match msg {
            Some(_) => {
                let listeners = UIContext::collectEvents(props);
                match position(&self.items, index) {
                    Some(i) => {
                        proof {
                            lemma_assoc_value(self.items@, i as int);
                        }
                        let ghost before = self@;
                        let mut items = self.items;
                        let mut old_listeners = listeners;
                        std::mem::swap(&mut old_listeners, &mut items[i].1.listeners);
                        proof {
                            let t = items@;
                            assert(t == self.items@.update(i as int, t[i as int]));
                            lemma_assoc_update(self.items@, i as int, t[i as int]);
                            assert(t[i as int].1@ == InfoView { listeners: semantic_only(props@), ..before[index@] });
                        }
                        (UIContext { items }, false)
                    },
                    None => (self, false),
                }
            },
            None => {
                if !contains_tag(props, TAG_RENDERER) {
                    return (self, false);
                }
                match outcome {
                    Some(o) => self.renderProperties(index.copy(), o.hwnd, o.hFont, o.isWindow),
                    None => (self, false),
                }
            },
        }
    }

    /// What the node at `path` (under the widget at `parent`) needs: nothing without a
    /// render kind; an update of the widget stored at the path; or a new widget.
    pub fn planNode(&self, path: &PathIndex, parent: &PathIndex, props: &Vec<SharedProps>) -> (r: NodePlan)
        ensures
            r == node_plan(self@, path@, parent@, props@),
    {
        if !contains_tag(props, TAG_RENDERER) {
            return NodePlan::Skip;
        }
        let p = if parent.same(path) {
            None
        } else {
            match self.get(parent) {
                Some(ci) => Some(ci.hwnd),
                None => None,
            }
        };
        match self.get(path) {
            Some(ci) => NodePlan::Update { hwnd: ci.hwnd, hFont: ci.hFont, parent: p },
            None => NodePlan::Create { parent: p },
        }
    }

    /// One native message: queue it (with the ancestors of the handle it concerns), run the
    /// apply pass over the widgets `entries` of the current tree, then unite the listeners of
    /// every stored widget into the queued event of its handle.
    pub fn applyEvent(
        self,
        entries: &Vec<RenderEntry>,
        msg: Message,
        ancestors: &Vec<isize>,
        hub: &mut EventHub,
    ) -> (r: UIContext)
        ensures
            r@ == applied_all(self@, entries_view(entries@)),
            final(hub)@ == attached_keys(enqueued(old(hub)@, msg, ancestors@), r@, r.order()),
            forall|k: Seq<PathStep>| #[trigger] r@.contains_key(k) <==> r.order().contains(k),
            forall|a: int, b: int| 0 <= a < b < r.order().len() ==> r.order()[a] != r.order()[b],
    {
        hub.enqueueEvent(msg, ancestors);
        let ghost q = hub@;
        let ghost es = entries_view(entries@);
        let ghost m0 = self@;
        let mut ctx = self;
        let mut i: usize = 0;
        assert(es.subrange(0, 0) =~= Seq::<EntryView>::empty());
        while i < entries.len()
            invariant
                i <= entries@.len(),
                es == entries_view(entries@),
                ctx@ == applied_all(m0, es.subrange(0, i as int)),
            decreases entries@.len() - i,
        {
            let ghost sub = es.subrange(0, i as int + 1);
            assert(sub.drop_last() =~= es.subrange(0, i as int));
            assert(sub.last() == entries@[i as int]@);
            ctx = ctx.render(&entries[i].path, entries[i].props, Some(msg), None).0;
            i = i + 1;
        }
        assert(es.subrange(0, es.len() as int) =~= es);
        let ghost m1 = ctx@;
        proof {
            use_type_invariant(&ctx);
        }
        let ghost ks = ctx.order();
        let mut j: usize = 0;
        assert(ks.subrange(0, 0) =~= Seq::<Seq<PathStep>>::empty());
        while j < ctx.items.len()
            invariant
                j <= ctx.items@.len(),
                ks == ctx.order(),
                m1 == ctx@,
                keys_unique(ctx.items@),
                hub@ == attached_keys(q, m1, ks.subrange(0, j as int)),
            decreases ctx.items@.len() - j,
        {
            let ghost sub = ks.subrange(0, j as int + 1);
            assert(sub.drop_last() =~= ks.subrange(0, j as int));
            assert(sub.last() == ctx.items@[j as int].0@);
            proof {
                lemma_assoc_value(ctx.items@, j as int);
            }
            let ci = &ctx.items[j].1;
            let ls = copy_props(&ci.listeners);
            proof {
                lemma_semantic_only_same(ls@, ci.listeners@);
            }
            hub.putListener(ci.hwnd, ls);
            j = j + 1;
        }
        assert(ks.subrange(0, ks.len() as int) =~= ks);
        proof {
            assert forall|k: Seq<PathStep>| #[trigger] ctx@.contains_key(k) <==> ks.contains(k) by {
                lemma_assoc_keys(ctx.items@, k);
                if ks.contains(k) {
                    let i = choose|i: int| 0 <= i < ks.len() && ks[i] == k;
                    assert(ctx.items@[i].0@ == k);
                }
                if ctx@.contains_key(k) {
                    let i = choose|i: int| 0 <= i < ctx.items@.len() && (#[trigger] ctx.items@[i]).0@ == k;
                    assert(ks[i] == k);
                }
            }
            assert forall|a: int, b: int| 0 <= a < b < ks.len() implies ks[a] != ks[b] by {
                assert(ks[a] == ctx.items@[a].0@ && ks[b] == ctx.items@[b].0@);
            }
        }
        ctx
    }

    /// Persists the outcome of creating or updating the widget at `index` (its native handle
    /// and font handle): the counter advances, the listeners already attached are kept, and
    /// the result says whether a window is to be laid out for the first time now.
    pub fn renderProperties(self, index: PathIndex, hwnd: isize, hFont: Option<isize>, isWindow: bool) -> (r: (
        UIContext,
        bool,
    ))
        ensures
            r.0@ == persisted(self@, index@, Outcome { hwnd, hFont, isWindow }),
            r.1 == lays_out(self@, index@, Outcome { hwnd, hFont, isWindow }),
    {
        proof {
            use_type_invariant(&self);
        }
        let mut items = self.items;
        let pos = position(&items, &index);
        let (c, lay, listeners) = match pos {
            Some(i) => {
                proof {
                    lemma_assoc_value(items@, i as int);
                }
                let p = items[i].1.isInitialized;
                let mut ls: Vec<SharedProps> = Vec::new();
                std::mem::swap(&mut ls, &mut items[i].1.listeners);
                if p >= 2 {
                    (2isize, false, ls)
                } else if isWindow && p == 1 {
                    (2isize, true, ls)
                } else {
                    (p + 1, false, ls)
                }
            },
            None => (1isize, false, Vec::new()),
        };
        let ghost mid = items@;
        proof {
            match pos {
                Some(i) => {
                    lemma_assoc_update(self.items@, i as int, mid[i as int]);
                    assert(keys_unique(mid));
                },
                None => {},
            }
        }
        put(&mut items, index, ControlInfo { hwnd, hFont, isInitialized: c, listeners });
        proof {
            match pos {
                Some(i) => {
                    assert(assoc(items@) =~= self@.insert(index@, InfoView { hwnd, hFont, isInitialized: c, listeners: self@[index@].listeners }));
                },
                None => {
                    assert(listeners@ =~= Seq::<SharedProps>::empty());
                },
            }
        }
        (UIContext { items }, lay)
    }
}

pub proof fn lemma_assoc_len(s: Seq<Entry>)
    requires
        keys_unique(s),
    ensures
        assoc(s).len() == s.len(),
    decreases s.len(),
{
    if s.len() > 0 {
        let d = s.drop_last();
        assert(keys_unique(d)) by {
            assert forall|a: int, b: int| 0 <= a < b < d.len() implies #[trigger] d[a].0@ != #[trigger] d[b].0@ by {
                assert(d[a] == s[a] && d[b] == s[b]);
            }
        }
        lemma_assoc_len(d);
        lemma_assoc_keys(d, s.last().0@);
        if assoc(d).contains_key(s.last().0@) {
            let i = choose|i: int| 0 <= i < d.len() && (#[trigger] d[i]).0@ == s.last().0@;
            assert(s[i].0@ != s[s.len() - 1].0@);
        }
        lemma_assoc_finite(d);
    }
}

pub proof fn lemma_assoc_finite(s: Seq<Entry>)
    ensures
        assoc(s).dom().finite(),
    decreases s.len(),
{
    if s.len() > 0 {
        lemma_assoc_finite(s.drop_last());
    }
}

} // verus!
