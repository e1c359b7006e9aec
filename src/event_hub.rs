//! Classification of native messages, bubbling to ancestors, per-handle coalescing,
//! and the once-per-tick dispatch of listeners.
#![allow(non_snake_case)]

use vstd::prelude::*;
use crate::geometry::Rect;
use crate::props::{
    SharedProps, merged, no_item_lists, all_semantic, copy_props, merge_props,
    lemma_merged_semantic, lemma_retained_empty_left,
};

verus! {

pub const WM_SETCURSOR: u32 = 0x0020;
pub const WM_SIZE: u32 = 0x0005;
pub const WM_SIZING: u32 = 0x0214;
pub const WM_COMMAND: u32 = 0x0111;
pub const WM_CHAR: u32 = 0x0102;
pub const WM_KEYUP: u32 = 0x0101;
pub const WM_SYSKEYUP: u32 = 0x0105;
pub const BM_CLICK: u32 = 0x00F5;
pub const WM_LBUTTONUP: u32 = 0x0202;
pub const WM_RBUTTONUP: u32 = 0x0205;
pub const WM_MBUTTONUP: u32 = 0x0208;
/// Notification code of a combo box whose selection changed.
pub const CBN_SELCHANGE: usize = 1;
pub const KEY_ENTER: usize = 13;
pub const KEY_SPACE: usize = 32;

/// A native message: target handle, message code and its two parameters.
#[derive(Clone, Copy, Debug, PartialEq, Eq, Default)]
pub struct Message {
    pub hwnd: isize,
    pub message: u32,
    pub wParam: usize,
    pub lParam: isize,
}

/// The high 16 bits of the low word pair of `w`.
pub open spec fn hiword(w: usize) -> nat {
    ((w as nat) / 65536) % 65536
}

/// The listener kind a native message stands for, if any (with a placeholder listener id).
pub open spec fn listener_for(m: Message) -> Option<SharedProps> {
    let k = m.message;
    if k == WM_SIZE || k == WM_SIZING {
        Some(SharedProps::DidResize(0))
    } else if k == WM_COMMAND {
        if hiword(m.wParam) == CBN_SELCHANGE {
            Some(SharedProps::DidChange(0))
        } else {
            None
        }
    } else if k == WM_CHAR {
        Some(SharedProps::DidChange(0))
    } else if k == WM_SYSKEYUP || k == WM_KEYUP {
        if m.wParam == KEY_ENTER || m.wParam == KEY_SPACE {
            Some(SharedProps::DidClick(0))
        } else {
            None
        }
    } else if k == BM_CLICK || k == WM_LBUTTONUP || k == WM_RBUTTONUP || k == WM_MBUTTONUP {
        Some(SharedProps::DidClick(0))
    } else {
        None
    }
}

/// A queued event: the handle it is recorded against, its listener kinds, extra data and
/// the handle the native message was addressed to.
pub struct EventView {
    pub hwnd: isize,
    pub listeners: Seq<SharedProps>,
    pub props: Seq<SharedProps>,
    pub target: isize,
}

/// What a native message classifies to.
pub open spec fn classified(m: Message) -> EventView {
    match listener_for(m) {
        Some(l) => EventView {
            hwnd: if m.message == WM_COMMAND {
                m.lParam
            } else {
                m.hwnd
            },
            listeners: seq![l],
            props: Seq::empty(),
            target: m.hwnd,
        },
        None => if m.message == WM_SETCURSOR {
            EventView { hwnd: m.hwnd, listeners: Seq::empty(), props: Seq::empty(), target: m.hwnd }
        } else {
            EventView { hwnd: 0, listeners: Seq::empty(), props: Seq::empty(), target: 0 }
        },
    }
}

#[derive(Clone, Debug)]
pub struct EventInfo {
    pub hwnd: isize,
    pub listeners: Vec<SharedProps>,
    pub props: Vec<SharedProps>,
    pub target: isize,
}

impl View for EventInfo {
    type V = EventView;

    open spec fn view(&self) -> EventView {
        EventView {
            hwnd: self.hwnd,
            listeners: self.listeners@,
            props: self.props@,
            target: self.target,
        }
    }
}

impl EventInfo {
    /// Classifies a native message into at most one listener kind.
    pub fn classify(msg: Message) -> (r: EventInfo)
        ensures
            r@ == classified(msg),
    {
        let k = msg.message;
        let mut listeners: Vec<SharedProps> = Vec::new();
        let mut hwnd = msg.hwnd;
        if k == WM_SIZE || k == WM_SIZING {
            listeners.push(SharedProps::DidResize(0));
        } else if k == WM_COMMAND {
            if (msg.wParam / 65536) % 65536 == CBN_SELCHANGE {
                listeners.push(SharedProps::DidChange(0));
                hwnd = msg.lParam;
            }
        } else if k == WM_CHAR {
            listeners.push(SharedProps::DidChange(0));
        } else if k == WM_SYSKEYUP || k == WM_KEYUP {
            if msg.wParam == KEY_ENTER || msg.wParam == KEY_SPACE {
                listeners.push(SharedProps::DidClick(0));
            }
        } else if k == BM_CLICK || k == WM_LBUTTONUP || k == WM_RBUTTONUP || k == WM_MBUTTONUP {
            listeners.push(SharedProps::DidClick(0));
        }
        let target = if listeners.len() > 0 || k == WM_SETCURSOR {
            msg.hwnd
        } else {
            0
        };
        if listeners.len() == 0 && k != WM_SETCURSOR {
            hwnd = 0;
        }
        let r = EventInfo { hwnd, listeners, props: Vec::new(), target };
        assert(r@.listeners =~= classified(msg).listeners);
        assert(r@.props =~= classified(msg).props);
        r
    }
}

/// The handles of `s` up to, not including, the first null handle.
pub open spec fn until_null(s: Seq<isize>) -> Seq<isize>
    decreases s.len(),
{
    if s.len() == 0 || s[0] == 0 {
        Seq::empty()
    } else {
        seq![s[0]] + until_null(s.drop_first())
    }
}

/// The handles an event on `h` is recorded against: `h`, then its ancestors up to the root.
pub open spec fn chain(h: isize, ancestors: Seq<isize>) -> Seq<isize> {
    if h == 0 {
        Seq::empty()
    } else {
        seq![h] + until_null(ancestors)
    }
}

/// Queued events are keyed by distinct, non-null handles and carry only deliverable listeners.
pub open spec fn hub_wf(evs: Seq<EventView>) -> bool {
    &&& forall|i: int, j: int| 0 <= i < j < evs.len() ==> #[trigger] evs[i].hwnd != #[trigger] evs[j].hwnd
    &&& forall|i: int| 0 <= i < evs.len() ==> (#[trigger] evs[i]).hwnd != 0
    &&& forall|i: int| 0 <= i < evs.len() ==> all_semantic((#[trigger] evs[i]).listeners)
}

pub open spec fn has_handle(evs: Seq<EventView>, h: isize) -> bool {
    exists|i: int| 0 <= i < evs.len() && (#[trigger] evs[i]).hwnd == h
}

/// The position of the queued event for `h`.
pub open spec fn index_of(evs: Seq<EventView>, h: isize) -> int
    recommends
        has_handle(evs, h),
{
    choose|i: int| 0 <= i < evs.len() && (#[trigger] evs[i]).hwnd == h
}

/// Queued events are keyed by distinct handles.
pub open spec fn keys_distinct(evs: Seq<EventView>) -> bool {
    forall|i: int, j: int| 0 <= i < j < evs.len() ==> #[trigger] evs[i].hwnd != #[trigger] evs[j].hwnd
}

pub proof fn lemma_index_of(evs: Seq<EventView>, h: isize, i: int)
    requires
        keys_distinct(evs),
        0 <= i < evs.len(),
        evs[i].hwnd == h,
    ensures
        has_handle(evs, h),
        index_of(evs, h) == i,
{
    assert(evs[i].hwnd == h);
    let k = index_of(evs, h);
    if k < i {
        assert(evs[k].hwnd != evs[i].hwnd);
    } else if k > i {
        assert(evs[i].hwnd != evs[k].hwnd);
    }
}

/// Records `ev` against `h`: unions into the queued event for `h`, or queues a copy.
pub open spec fn upsert(evs: Seq<EventView>, h: isize, ev: EventView) -> Seq<EventView> {
    if has_handle(evs, h) {
        let i = index_of(evs, h);
        evs.update(
            i,
            EventView {
                hwnd: h,
                listeners: merged(evs[i].listeners, ev.listeners),
                props: merged(evs[i].props, ev.props),
                target: evs[i].target,
            },
        )
    } else {
        evs.push(EventView { hwnd: h, ..ev })
    }
}

/// Records `ev` against each handle of `hs` in turn.
pub open spec fn bubble(evs: Seq<EventView>, hs: Seq<isize>, ev: EventView) -> Seq<EventView>
    decreases hs.len(),
{
    if hs.len() == 0 {
        evs
    } else {
        bubble(upsert(evs, hs[0], ev), hs.drop_first(), ev)
    }
}

/// The queue after a native message, given the ancestors of the handle it classifies to.
pub open spec fn enqueued(evs: Seq<EventView>, m: Message, ancestors: Seq<isize>) -> Seq<EventView> {
    let ev = classified(m);
    if ev.listeners.len() == 0 {
        evs
    } else {
        bubble(evs, chain(ev.hwnd, ancestors), ev)
    }
}

/// The deliverable records among `ls`, in order.
pub open spec fn semantic_only(ls: Seq<SharedProps>) -> Seq<SharedProps>
    decreases ls.len(),
{
    if ls.len() == 0 {
        Seq::empty()
    } else {
        let rest = semantic_only(ls.drop_last());
        if ls.last().is_semantic_listener() {
            rest.push(ls.last())
        } else {
            rest
        }
    }
}

/// The queue after uniting the listeners `ls` into the queued event for `h`, if there is one.
pub open spec fn attached(evs: Seq<EventView>, h: isize, ls: Seq<SharedProps>) -> Seq<EventView> {
    if has_handle(evs, h) {
        let i = index_of(evs, h);
        evs.update(i, EventView { listeners: merged(evs[i].listeners, semantic_only(ls)), ..evs[i] })
    } else {
        evs
    }
}

/// One listener to invoke, on the handle its event was recorded against.
#[derive(Clone, Debug, PartialEq, Eq)]
pub struct Dispatch {
    pub hwnd: isize,
    pub listener: SharedProps,
}

pub open spec fn dispatches_of(e: EventView) -> Seq<Dispatch> {
    e.listeners.map_values(|l: SharedProps| Dispatch { hwnd: e.hwnd, listener: l })
}

/// The listeners to invoke for the queue `evs`, event by event.
pub open spec fn dispatched(evs: Seq<EventView>) -> Seq<Dispatch>
    decreases evs.len(),
{
    if evs.len() == 0 {
        Seq::empty()
    } else {
        dispatched(evs.drop_last()) + dispatches_of(evs.last())
    }
}

pub open spec fn cleared_event(e: EventView) -> EventView {
    EventView { listeners: Seq::empty(), ..e }
}

/// The queue with every listener set emptied.
pub open spec fn cleared(evs: Seq<EventView>) -> Seq<EventView> {
    evs.map_values(|e: EventView| cleared_event(e))
}

pub proof fn lemma_until_null_all(s: Seq<isize>)
    requires
        forall|i: int| 0 <= i < s.len() ==> s[i] != 0,
    ensures
        until_null(s) == s,
    decreases s.len(),
{
    if s.len() > 0 {
        lemma_until_null_all(s.drop_first());
        assert(seq![s[0]] + s.drop_first() =~= s);
    }
}

/// Recording an event against handles that nothing is queued for appends one fresh record each.
pub proof fn lemma_bubble_fresh(evs: Seq<EventView>, hs: Seq<isize>, ev: EventView)
    requires
        forall|i: int, j: int| 0 <= i < j < hs.len() ==> hs[i] != hs[j],
        forall|i: int, j: int| 0 <= i < evs.len() && 0 <= j < hs.len() ==> evs[i].hwnd != hs[j],
    ensures
        bubble(evs, hs, ev) == evs + hs.map_values(|h: isize| EventView { hwnd: h, ..ev }),
    decreases hs.len(),
{
    let f = |h: isize| EventView { hwnd: h, ..ev };
    if hs.len() == 0 {
        assert(evs + hs.map_values(f) =~= evs);
    } else {
        assert(!has_handle(evs, hs[0]));
        let next = evs.push(f(hs[0]));
        let d = hs.drop_first();
        assert forall|i: int, j: int| 0 <= i < next.len() && 0 <= j < d.len() implies next[i].hwnd
            != d[j] by {
            assert(d[j] == hs[j + 1]);
            if i < evs.len() {
                assert(next[i] == evs[i]);
            }
        }
        lemma_bubble_fresh(next, d, ev);
        assert(next + d.map_values(f) =~= evs + hs.map_values(f));
    }
}

/// The record for `h` after recording `ev` against it; records of other handles stay where
/// they are.
pub proof fn lemma_upsert_frame(evs: Seq<EventView>, h: isize, ev: EventView)
    requires
        keys_distinct(evs),
    ensures
        keys_distinct(upsert(evs, h, ev)),
        upsert(evs, h, ev).len() >= evs.len(),
        forall|k: int| 0 <= k < evs.len() && evs[k].hwnd != h ==> #[trigger] upsert(evs, h, ev)[k] == evs[k],
        forall|k: int| 0 <= k < upsert(evs, h, ev).len() && k >= evs.len() ==> #[trigger] upsert(evs, h, ev)[k].hwnd == h,
        has_handle(upsert(evs, h, ev), h),
        upsert(evs, h, ev)[index_of(upsert(evs, h, ev), h)].listeners == if has_handle(evs, h) {
            merged(evs[index_of(evs, h)].listeners, ev.listeners)
        } else {
            ev.listeners
        },
{
    let r = upsert(evs, h, ev);
    if has_handle(evs, h) {
        let i = index_of(evs, h);
        assert(keys_distinct(r)) by {
            assert forall|a: int, b: int| 0 <= a < b < r.len() implies #[trigger] r[a].hwnd != #[trigger] r[b].hwnd by {
                assert(r[a].hwnd == evs[a].hwnd && r[b].hwnd == evs[b].hwnd);
            }
        }
        lemma_index_of(r, h, i);
    } else {
        assert(keys_distinct(r)) by {
            assert forall|a: int, b: int| 0 <= a < b < r.len() implies #[trigger] r[a].hwnd != #[trigger] r[b].hwnd by {
                if b == evs.len() {
                    assert(r[a] == evs[a]);
                } else {
                    assert(r[a] == evs[a] && r[b] == evs[b]);
                }
            }
        }
        lemma_index_of(r, h, evs.len() as int);
    }
}

/// Bubbling onto handles whose queued records share the listener set `s` (a handle with no
/// record counts as the empty set) leaves every one of them with the same set: `s` united
/// with the event's kinds. Records of other handles are kept.
pub proof fn lemma_bubble_shared(evs: Seq<EventView>, hs: Seq<isize>, ev: EventView, s: Seq<SharedProps>)
    requires
        keys_distinct(evs),
        forall|i: int, j: int| 0 <= i < j < hs.len() ==> hs[i] != hs[j],
        forall|j: int| 0 <= j < hs.len() && has_handle(evs, #[trigger] hs[j]) ==> evs[index_of(evs, hs[j])].listeners == s,
        forall|j: int| 0 <= j < hs.len() && !has_handle(evs, #[trigger] hs[j]) ==> s == Seq::<SharedProps>::empty(),
    ensures
        keys_distinct(bubble(evs, hs, ev)),
        bubble(evs, hs, ev).len() >= evs.len(),
        forall|j: int| 0 <= j < hs.len() ==> has_handle(bubble(evs, hs, ev), #[trigger] hs[j]) && bubble(evs, hs, ev)[index_of(
            bubble(evs, hs, ev),
            hs[j],
        )].listeners == merged(s, ev.listeners),
        forall|k: int| 0 <= k < evs.len() && (forall|j: int| 0 <= j < hs.len() ==> hs[j] != evs[k].hwnd) ==> #[trigger] bubble(
            evs,
            hs,
            ev,
        )[k] == evs[k],
    decreases hs.len(),
{
    if hs.len() > 0 {
        let h = hs[0];
        let e1 = upsert(evs, h, ev);
        let t = hs.drop_first();
        lemma_upsert_frame(evs, h, ev);
        if !has_handle(evs, h) {
            assert(s == Seq::<SharedProps>::empty());
            lemma_retained_empty_left(ev.listeners);
            assert(merged(s, ev.listeners) =~= ev.listeners);
        }
        assert forall|j: int| 0 <= j < t.len() && has_handle(e1, #[trigger] t[j]) implies e1[index_of(e1, t[j])].listeners
            == s by {
            assert(t[j] == hs[j + 1]);
            let k = index_of(e1, t[j]);
            if k < evs.len() {
                assert(e1[k] == evs[k]);
                lemma_index_of(evs, t[j], k);
            }
        }
        assert forall|j: int| 0 <= j < t.len() && !has_handle(e1, #[trigger] t[j]) implies s == Seq::<SharedProps>::empty() by {
            assert(t[j] == hs[j + 1]);
            if has_handle(evs, t[j]) {
                let k = index_of(evs, t[j]);
                assert(e1[k] == evs[k]);
            }
        }
        assert forall|a: int, b: int| 0 <= a < b < t.len() implies t[a] != t[b] by {
            assert(t[a] == hs[a + 1] && t[b] == hs[b + 1]);
        }
        lemma_bubble_shared(e1, t, ev, s);
        let r = bubble(e1, t, ev);
        let k0 = index_of(e1, h);
        assert forall|j: int| 0 <= j < t.len() implies t[j] != e1[k0].hwnd by {
            assert(t[j] == hs[j + 1]);
        }
        assert(r[k0] == e1[k0]);
        lemma_index_of(r, h, k0);
        assert forall|j: int| 0 <= j < hs.len() implies has_handle(r, #[trigger] hs[j]) && r[index_of(r, hs[j])].listeners
            == merged(s, ev.listeners) by {
            if j > 0 {
                assert(hs[j] == t[j - 1]);
            }
        }
        assert forall|k: int| 0 <= k < evs.len() && (forall|j: int| 0 <= j < hs.len() ==> hs[j] != evs[k].hwnd) implies #[trigger] r[k]
            == evs[k] by {
            assert(hs[0] != evs[k].hwnd);
            assert(e1[k] == evs[k]);
            assert forall|j: int| 0 <= j < t.len() implies t[j] != e1[k].hwnd by {
                assert(t[j] == hs[j + 1]);
            }
        }
    }
}

/// Enqueuing an event on a handle with `n` distinct ancestors into an empty queue yields
/// `n + 1` records, one per handle from the target up, each with the event's listener kinds.
pub proof fn lemma_bubbling(m: Message, ancestors: Seq<isize>)
    requires
        classified(m).listeners.len() > 0,
        classified(m).hwnd != 0,
        forall|i: int| 0 <= i < ancestors.len() ==> ancestors[i] != 0,
        forall|i: int| 0 <= i < ancestors.len() ==> ancestors[i] != classified(m).hwnd,
        forall|i: int, j: int| 0 <= i < j < ancestors.len() ==> ancestors[i] != ancestors[j],
    ensures
        enqueued(Seq::empty(), m, ancestors).len() == ancestors.len() + 1,
        enqueued(Seq::empty(), m, ancestors)[0].hwnd == classified(m).hwnd,
        forall|i: int| 0 <= i < ancestors.len() ==> #[trigger] enqueued(Seq::empty(), m, ancestors)[i + 1].hwnd
            == ancestors[i],
        forall|i: int| 0 <= i <= ancestors.len() ==> #[trigger] enqueued(Seq::empty(), m, ancestors)[i].listeners
            == classified(m).listeners,
{
    let ev = classified(m);
    lemma_until_null_all(ancestors);
    let hs = chain(ev.hwnd, ancestors);
    assert(hs =~= seq![ev.hwnd] + ancestors);
    assert forall|i: int, j: int| 0 <= i < j < hs.len() implies hs[i] != hs[j] by {
        if i > 0 {
            assert(hs[i] == ancestors[i - 1] && hs[j] == ancestors[j - 1]);
        } else {
            assert(hs[j] == ancestors[j - 1]);
        }
    }
    lemma_bubble_fresh(Seq::empty(), hs, ev);
    let r = enqueued(Seq::empty(), m, ancestors);
    assert(r =~= hs.map_values(|h: isize| EventView { hwnd: h, ..ev }));
    assert forall|i: int| 0 <= i < ancestors.len() implies #[trigger] r[i + 1].hwnd == ancestors[i] by {
        assert(hs[i + 1] == ancestors[i]);
    }
}

/// Enqueuing an event on a handle whose queued records, and those of its ancestors, share
/// one listener set `s` (no record counting as the empty set) gives each of them the same
/// set, `s` united with the event's kind; records of other handles are kept.
pub proof fn lemma_bubbling_shared(evs: Seq<EventView>, m: Message, ancestors: Seq<isize>, s: Seq<SharedProps>)
    requires
        hub_wf(evs),
        classified(m).listeners.len() > 0,
        classified(m).hwnd != 0,
        forall|i: int| 0 <= i < ancestors.len() ==> ancestors[i] != 0,
        forall|i: int| 0 <= i < ancestors.len() ==> ancestors[i] != classified(m).hwnd,
        forall|i: int, j: int| 0 <= i < j < ancestors.len() ==> ancestors[i] != ancestors[j],
        forall|j: int| 0 <= j < chain(classified(m).hwnd, ancestors).len() && has_handle(
            evs,
            #[trigger] chain(classified(m).hwnd, ancestors)[j],
        ) ==> evs[index_of(evs, chain(classified(m).hwnd, ancestors)[j])].listeners == s,
        forall|j: int| 0 <= j < chain(classified(m).hwnd, ancestors).len() && !has_handle(
            evs,
            #[trigger] chain(classified(m).hwnd, ancestors)[j],
        ) ==> s == Seq::<SharedProps>::empty(),
    ensures
        chain(classified(m).hwnd, ancestors) == seq![classified(m).hwnd] + ancestors,
        forall|j: int| 0 <= j < chain(classified(m).hwnd, ancestors).len() ==> has_handle(
            enqueued(evs, m, ancestors),
            #[trigger] chain(classified(m).hwnd, ancestors)[j],
        ) && enqueued(evs, m, ancestors)[index_of(enqueued(evs, m, ancestors), chain(classified(m).hwnd, ancestors)[j])].listeners
            == merged(s, classified(m).listeners),
        forall|k: int| 0 <= k < evs.len() && (forall|j: int| 0 <= j < chain(classified(m).hwnd, ancestors).len() ==> chain(classified(m).hwnd, ancestors)[j]
            != evs[k].hwnd) ==> #[trigger] enqueued(evs, m, ancestors)[k] == evs[k],
{
    let ev = classified(m);
    lemma_until_null_all(ancestors);
    let hs = chain(ev.hwnd, ancestors);
    assert(hs =~= seq![ev.hwnd] + ancestors);
    assert forall|i: int, j: int| 0 <= i < j < hs.len() implies hs[i] != hs[j] by {
        if i > 0 {
            assert(hs[i] == ancestors[i - 1] && hs[j] == ancestors[j - 1]);
        } else {
            assert(hs[j] == ancestors[j - 1]);
        }
    }
    lemma_bubble_shared(evs, hs, ev, s);
}

/// Once dispatched, a queue has nothing more to dispatch until new events arrive.
pub proof fn lemma_dispatch_idempotent(evs: Seq<EventView>)
    ensures
        dispatched(cleared(evs)) == Seq::<Dispatch>::empty(),
    decreases evs.len(),
{
    if evs.len() > 0 {
        lemma_dispatch_idempotent(evs.drop_last());
        assert(cleared(evs).drop_last() =~= cleared(evs.drop_last()));
        assert(dispatches_of(cleared(evs).last()) =~= Seq::<Dispatch>::empty());
        assert(dispatched(cleared(evs)) =~= Seq::<Dispatch>::empty());
    }
}

/// The live class name and title handed to every listener, where they could be read.
pub open spec fn base_data(className: Option<String>, title: Option<String>) -> Seq<SharedProps> {
    (match className {
        Some(c) => seq![SharedProps::ClassName(c)],
        None => Seq::empty(),
    }) + (match title {
        Some(t) => seq![SharedProps::Title(t)],
        None => Seq::empty(),
    })
}

/// What a listener kind adds: the window rectangle for a resize or a creation (an empty
/// one where it could not be read), the selected index for a change, the checked flag for
/// a click.
pub open spec fn kind_data(
    listener: SharedProps,
    rect: Option<Rect>,
    selectedIndex: Option<usize>,
    checked: bool,
) -> Seq<SharedProps> {
    match listener {
        SharedProps::DidResize(_) | SharedProps::DidCreate(_) => {
            let r = match rect {
                Some(r) => r,
                None => Rect { left: 0, top: 0, right: 0, bottom: 0 },
            };
            seq![
                SharedProps::PosX(r.left),
                SharedProps::PosY(r.top),
                SharedProps::Width((r.right - r.left) as i32),
                SharedProps::Height((r.bottom - r.top) as i32),
            ]
        },
        SharedProps::DidChange(_) => match selectedIndex {
            Some(i) => seq![SharedProps::SelectedIndex(i)],
            None => Seq::empty(),
        },
        SharedProps::DidClick(_) => seq![SharedProps::Selected(checked)],
        _ => Seq::empty(),
    }
}

/// The queue itself; `EventHub` keeps it well formed.
struct EventQueue {
    events: Vec<EventInfo>,
}

impl View for EventQueue {
    type V = Seq<EventView>;

    closed spec fn view(&self) -> Seq<EventView> {
        self.events@.map_values(|e: EventInfo| e@)
    }
}

/// The queued events of one tick, one per handle.
pub struct EventHub {
    queue: EventQueue,
}

impl View for EventHub {
    type V = Seq<EventView>;

    closed spec fn view(&self) -> Seq<EventView> {
        self.queue@
    }
}

impl EventHub {
    #[verifier::type_invariant]
    spec fn inv(&self) -> bool {
        hub_wf(self.queue@)
    }

    pub fn new() -> (r: EventHub)
        ensures
            r@ == Seq::<EventView>::empty(),
    {
        let q = EventQueue { events: Vec::new() };
        assert(q@ =~= Seq::<EventView>::empty());
        EventHub { queue: q }
    }

    /// The queued events, in the order they were first queued.
    pub fn events(&self) -> (r: &Vec<EventInfo>)
        ensures
            r@.map_values(|e: EventInfo| e@) == self@,
    {
        &self.queue.events
    }

    /// Classifies `msg` and, if it maps to a listener kind, records it against the handle
    /// it concerns and each of that handle's `ancestors` (nearest first; the walk stops at
    /// the first null handle).
    pub fn enqueueEvent(&mut self, msg: Message, ancestors: &Vec<isize>)
        ensures
            final(self)@ == enqueued(old(self)@, msg, ancestors@),
    {
        proof {
            use_type_invariant(&*self);
        }
        let mut q = EventQueue { events: Vec::new() };
        std::mem::swap(&mut q, &mut self.queue);
        q.enqueueEvent(msg, ancestors);
        self.queue = q;
    }

    /// Unions the deliverable listeners among `listeners` into the queued event for `hwnd`:
    /// each replaces the record of its kind or adds its kind; no-op when nothing is queued
    /// for `hwnd`.
    pub fn putListener(&mut self, hwnd: isize, listeners: Vec<SharedProps>)
        ensures
            final(self)@ == attached(old(self)@, hwnd, listeners@),
    {
        proof {
            use_type_invariant(&*self);
        }
        let mut q = EventQueue { events: Vec::new() };
        std::mem::swap(&mut q, &mut self.queue);
        q.putListener(hwnd, listeners);
        self.queue = q;
    }

    /// Empties every queued event's listener set and returns the listeners to invoke,
    /// each at most once; the caller invokes them and renders again if any was returned.
    pub fn dispatchEvents(&mut self) -> (r: Vec<Dispatch>)
        ensures
            r@ == dispatched(old(self)@),
            final(self)@ == cleared(old(self)@),
    {
        proof {
            use_type_invariant(&*self);
        }
        let mut q = EventQueue { events: Vec::new() };
        std::mem::swap(&mut q, &mut self.queue);
        let r = q.dispatchEvents();
        self.queue = q;
        r
    }

    /// The data handed to `listener` when it fires, from what was read of the live widget:
    /// its class name and title, then what the listener's kind adds.
    pub fn eventData(
        listener: &SharedProps,
        className: Option<String>,
        title: Option<String>,
        rect: Option<Rect>,
        selectedIndex: Option<usize>,
        checked: bool,
    ) -> (r: Vec<SharedProps>)
        requires
            rect matches Some(x) ==> x.extent_fits(),
        ensures
            r@ == base_data(className, title) + kind_data(*listener, rect, selectedIndex, checked),
    {
        let ghost base = base_data(className, title);
        let mut props: Vec<SharedProps> = Vec::new();
        match className {
            Some(c) => props.push(SharedProps::ClassName(c)),
            None => {},
        }
        match title {
            Some(t) => props.push(SharedProps::Title(t)),
            None => {},
        }
        assert(props@ =~= base);
        match listener {
            SharedProps::DidResize(_) | SharedProps::DidCreate(_) => {
                let r = match rect {
                    Some(r) => r,
                    None => Rect { left: 0, top: 0, right: 0, bottom: 0 },
                };
                props.push(SharedProps::PosX(r.left));
                props.push(SharedProps::PosY(r.top));
                props.push(SharedProps::Width(r.width()));
                props.push(SharedProps::Height(r.height()));
            },
            SharedProps::DidChange(_) => {
                match selectedIndex {
                    Some(i) => props.push(SharedProps::SelectedIndex(i)),
                    None => {},
                }
            },
            SharedProps::DidClick(_) => props.push(SharedProps::Selected(checked)),
            _ => {},
        }
        assert(props@ =~= base + kind_data(*listener, rect, selectedIndex, checked));
        props
    }

}

impl EventQueue {
    fn upsert(&mut self, h: isize, event: &EventInfo)
        requires
            hub_wf(old(self)@),
            h != 0,
            all_semantic(event@.listeners),
            no_item_lists(event@.listeners),
            no_item_lists(event@.props),
        ensures
            final(self)@ == upsert(old(self)@, h, event@),
            hub_wf(final(self)@),
    {
        let ghost evs = self@;
        let mut i: usize = 0;
        while i < self.events.len()
            invariant
                i <= self.events@.len(),
                self@ == evs,
                evs == old(self)@,
                hub_wf(evs),
                h != 0,
                all_semantic(event@.listeners),
                no_item_lists(event@.listeners),
                no_item_lists(event@.props),
                forall|j: int| 0 <= j < i ==> (#[trigger] evs[j]).hwnd != h,
            decreases self.events@.len() - i,
        {
            if self.events[i].hwnd == h {
                proof {
                    lemma_index_of(evs, h, i as int);
                    lemma_merged_semantic(evs[i as int].listeners, event@.listeners);
                }
                let mut ls: Vec<SharedProps> = Vec::new();
                let mut ps: Vec<SharedProps> = Vec::new();
                std::mem::swap(&mut ls, &mut self.events[i].listeners);
                std::mem::swap(&mut ps, &mut self.events[i].props);
                self.events[i].listeners = merge_props(ls, copy_props(&event.listeners));
                self.events[i].props = merge_props(ps, copy_props(&event.props));
                proof {
                    assert(self.events@[i as int]@ == upsert(evs, h, event@)[i as int]);
                    assert(self@ =~= upsert(evs, h, event@));
                    assert(hub_wf(self@)) by {
                        assert forall|a: int, b: int| 0 <= a < b < self@.len() implies #[trigger] self@[a].hwnd
                            != #[trigger] self@[b].hwnd by {
                            assert(self@[a].hwnd == evs[a].hwnd && self@[b].hwnd == evs[b].hwnd);
                        }
                        assert forall|a: int| 0 <= a < self@.len() implies all_semantic((#[trigger] self@[a]).listeners) by {
                            if a != i {
                                assert(self@[a] == evs[a]);
                            }
                        }
                    }
                }
                return;
            }
            i = i + 1;
        }
        proof {
            assert(!has_handle(evs, h));
        }
        self.events.push(
            EventInfo {
                hwnd: h,
                listeners: copy_props(&event.listeners),
                props: copy_props(&event.props),
                target: event.target,
            },
        );
        proof {
            assert(self@ =~= upsert(evs, h, event@));
        }
    }

    pub fn enqueueEvent(&mut self, msg: Message, ancestors: &Vec<isize>)
        requires
            hub_wf(old(self)@),
        ensures
            final(self)@ == enqueued(old(self)@, msg, ancestors@),
            hub_wf(final(self)@),
    {
        let event = EventInfo::classify(msg);
        if event.listeners.len() == 0 {
            return;
        }
        let ghost ev = event@;
        proof {
            assert(all_semantic(ev.listeners)) by {
                assert(ev.listeners.len() == 1);
            }
            assert(no_item_lists(ev.listeners)) by {
                assert(ev.listeners.len() == 1);
            }
        }
        let mut current = event.hwnd;
        let mut k: usize = 0;
        let ghost n = ancestors@.len();
        assert(ancestors@.subrange(0, n as int) =~= ancestors@);
        while current != 0
            invariant
                hub_wf(self@),
                event@ == ev,
                all_semantic(ev.listeners),
                no_item_lists(ev.listeners),
                no_item_lists(ev.props),
                n == ancestors@.len(),
                k <= n,
                bubble(self@, chain(current, ancestors@.subrange(k as int, n as int)), ev)
                    == enqueued(old(self)@, msg, ancestors@),
            decreases n - k + (if current != 0 { 1int } else { 0int }),
        {
            let ghost rest = ancestors@.subrange(k as int, n as int);
            let ghost before = self@;
            self.upsert(current, &event);
            let next = if k < ancestors.len() {
                ancestors[k]
            } else {
                0
            };
            let ghost k0 = k;
            proof {
                let hs = chain(current, rest);
                if rest.len() > 0 {
                    assert(rest[0] == next);
                    assert(rest.drop_first() =~= ancestors@.subrange(k as int + 1, n as int));
                    if next != 0 {
                        assert(until_null(rest) == chain(next, rest.drop_first()));
                    } else {
                        assert(until_null(rest) =~= Seq::<isize>::empty());
                    }
                } else {
                    assert(until_null(rest) =~= Seq::<isize>::empty());
                }
                assert(hs.drop_first() =~= until_null(rest));
                assert(hs[0] == current);
            }
            current = next;
            if k < ancestors.len() {
                k = k + 1;
            }
            proof {
                if k0 == n {
                    assert(rest.len() == 0);
                    assert(chain(current, ancestors@.subrange(k as int, n as int)) =~= Seq::<isize>::empty());
                }
            }
        }
        proof {
            assert(chain(current, ancestors@.subrange(k as int, n as int)) =~= Seq::<isize>::empty());
        }
    }

    pub fn putListener(&mut self, hwnd: isize, listeners: Vec<SharedProps>)
        requires
            hub_wf(old(self)@),
        ensures
            final(self)@ == attached(old(self)@, hwnd, listeners@),
            hub_wf(final(self)@),
    {
        let ghost evs = self@;
        let mut picked: Vec<SharedProps> = Vec::new();
        let mut rest = listeners;
        let ghost n = rest@.len();
        while rest.len() > 0
            invariant
                rest@.len() <= n,
                n == listeners@.len(),
                rest@ == listeners@.subrange(n - rest@.len(), n as int),
                picked@ == semantic_only(listeners@.subrange(0, n - rest@.len())),
            decreases rest@.len(),
        {
            let ghost i = n - rest@.len();
            let item = rest.remove(0);
            let ghost sub = listeners@.subrange(0, i + 1);
            assert(sub.drop_last() =~= listeners@.subrange(0, i));
            assert(sub.last() == listeners@[i]);
            assert(rest@ =~= listeners@.subrange(n - rest@.len(), n as int));
            if item.is_listener() {
                picked.push(item);
            }
        }
        assert(listeners@.subrange(0, n as int) =~= listeners@);
        proof {
            lemma_semantic_only(listeners@);
        }
        let mut i: usize = 0;
        while i < self.events.len()
            invariant
                i <= self.events@.len(),
                self@ == evs,
                evs == old(self)@,
                hub_wf(evs),
                all_semantic(picked@),
                picked@ == semantic_only(listeners@),
                forall|j: int| 0 <= j < i ==> (#[trigger] evs[j]).hwnd != hwnd,
            decreases self.events@.len() - i,
        {
            if self.events[i].hwnd == hwnd {
                proof {
                    lemma_index_of(evs, hwnd, i as int);
                    lemma_merged_semantic(evs[i as int].listeners, picked@);
                }
                let mut ls: Vec<SharedProps> = Vec::new();
                std::mem::swap(&mut ls, &mut self.events[i].listeners);
                self.events[i].listeners = merge_props(ls, picked);
                proof {
                    assert(self.events@[i as int]@ == attached(evs, hwnd, listeners@)[i as int]);
                    assert(self@ =~= attached(evs, hwnd, listeners@));
                    assert(hub_wf(self@)) by {
                        assert forall|a: int, b: int| 0 <= a < b < self@.len() implies #[trigger] self@[a].hwnd
                            != #[trigger] self@[b].hwnd by {
                            assert(self@[a].hwnd == evs[a].hwnd && self@[b].hwnd == evs[b].hwnd);
                        }
                        assert forall|a: int| 0 <= a < self@.len() implies all_semantic((#[trigger] self@[a]).listeners) by {
                            if a != i {
                                assert(self@[a] == evs[a]);
                            }
                        }
                    }
                }
                return;
            }
            i = i + 1;
        }
        proof {
            assert(!has_handle(evs, hwnd));
        }
    }

    pub fn dispatchEvents(&mut self) -> (r: Vec<Dispatch>)
        requires
            hub_wf(old(self)@),
        ensures
            r@ == dispatched(old(self)@),
            final(self)@ == cleared(old(self)@),
            hub_wf(final(self)@),
    {
        let ghost evs = self@;
        let ghost n = evs.len();
        let mut out: Vec<Dispatch> = Vec::new();
        let mut i: usize = 0;
        assert(evs.subrange(0, 0) =~= Seq::<EventView>::empty());
        assert(cleared(evs.subrange(0, 0)) + evs.subrange(0, n as int) =~= evs);
        while i < self.events.len()
            invariant
                n == evs.len(),
                hub_wf(evs),
                self.events@.len() == n,
                i <= n,
                self@ == cleared(evs.subrange(0, i as int)) + evs.subrange(i as int, n as int),
                out@ == dispatched(evs.subrange(0, i as int)),
            decreases n - i,
        {
            let ghost before = self@;
            assert(before[i as int] == evs[i as int]);
            assert(all_semantic(evs[i as int].listeners));
            let mut ls: Vec<SharedProps> = Vec::new();
            std::mem::swap(&mut ls, &mut self.events[i].listeners);
            let hwnd = self.events[i].hwnd;
            assert(ls@ == evs[i as int].listeners);
            let ghost base = out@;
            let mut j: usize = 0;
            while j < ls.len()
                invariant
                    j <= ls@.len(),
                    i < n,
                    n == evs.len(),
                    ls@ == evs[i as int].listeners,
                    hwnd == evs[i as int].hwnd,
                    all_semantic(ls@),
                    out@ == base + dispatches_of(evs[i as int]).subrange(0, j as int),
                decreases ls@.len() - j,
            {
                let l = ls[j].copy();
                assert(ls@[j as int].is_semantic_listener());
                out.push(Dispatch { hwnd, listener: l });
                j = j + 1;
                assert(out@ =~= base + dispatches_of(evs[i as int]).subrange(0, j as int));
            }
            assert(dispatches_of(evs[i as int]).subrange(0, j as int) =~= dispatches_of(evs[i as int]));
            proof {
                assert(self@.len() == n);
                assert forall|k: int| 0 <= k < n implies #[trigger] self@[k] == (cleared(evs.subrange(0, i as int + 1))
                    + evs.subrange(i as int + 1, n as int))[k] by {
                    if k < i {
                        assert(self@[k] == before[k]);
                    } else if k > i {
                        assert(self@[k] == before[k]);
                    }
                }
                assert(self@[i as int] == cleared_event(evs[i as int]));
                assert forall|k: int| 0 <= k < n && k != i implies self@[k] == before[k] by {}
                let s1 = evs.subrange(0, i as int + 1);
                assert(s1.drop_last() =~= evs.subrange(0, i as int));
                assert(s1.last() == evs[i as int]);
                assert(cleared(s1) =~= cleared(evs.subrange(0, i as int)).push(cleared_event(evs[i as int])));
            }
            i = i + 1;
            proof {
                assert(self@ =~= cleared(evs.subrange(0, i as int)) + evs.subrange(i as int, n as int));
            }
        }
        proof {
            assert(evs.subrange(0, n as int) =~= evs);
            assert(self@ =~= cleared(evs));
        }
        out
    }
}

pub proof fn lemma_semantic_only(ls: Seq<SharedProps>)
    ensures
        all_semantic(semantic_only(ls)),
    decreases ls.len(),
{
    if ls.len() > 0 {
        lemma_semantic_only(ls.drop_last());
    }
}

} // verus!
