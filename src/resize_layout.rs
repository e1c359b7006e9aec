//! Anchor-based constraint layout: how each managed widget's rectangle follows the
//! parent's client area when the parent is resized.
#![allow(non_snake_case)]

use vstd::prelude::*;
use crate::geometry::Rect;

verus! {

/// proportionally moves the control with the size of the window
pub const ANF_NONE: usize = 0x0000;
/// docks the control to the top of the window
pub const ANF_DOCK_TOP: usize = 0x0001;
/// docks the control to the bottom of the window
pub const ANF_DOCK_BOTTOM: usize = 0x0002;
/// docks the control to the left of the window
pub const ANF_DOCK_LEFT: usize = 0x0004;
/// docks the control to the right of the window
pub const ANF_DOCK_RIGHT: usize = 0x0008;
/// docks the control to all sides of the window
pub const ANF_DOCK_ALL: usize = 0x000F;
/// distance of the control to the top of the window will be constant
pub const ANF_TOP: usize = 0x0010;
/// distance of the control to the bottom of the window will be constant
pub const ANF_BOTTOM: usize = 0x0020;
/// distance of the control to the left of the window will be constant
pub const ANF_LEFT: usize = 0x0040;
/// distance of the control to the right of the window will be constant
pub const ANF_RIGHT: usize = 0x0080;
/// automatically calculate the anchors, cannot be used with other flags
pub const ANF_AUTOMATIC: usize = 0x0100;
/// docks the top of the control to the top of the window
pub const ANF_DOCK_TOP_EX: usize = 0x0200;
/// docks the bottom of the control to the bottom of the window
pub const ANF_DOCK_BOTTOM_EX: usize = 0x0400;
/// docks the left-side of the control to the left-side of the window
pub const ANF_DOCK_LEFT_EX: usize = 0x0800;
/// docks the right-side of the control to the right-side of the window
pub const ANF_DOCK_RIGHT_EX: usize = 0x1000;
/// forces to erase the background of the control
pub const ANF_ERASE: usize = 0x2000;
pub const ANF_TOPLEFT: usize = 0x0050;
pub const ANF_TOPRIGHT: usize = 0x0090;
pub const ANF_BOTTOMLEFT: usize = 0x0060;
pub const ANF_BOTTOMRIGHT: usize = 0x00A0;
pub const ANF_TOPBOTTOM: usize = 0x0030;
pub const ANF_LEFTRIGHT: usize = 0x00C0;
/// All dock flags, full and single-edge.
pub const ANF_DOCK_MASK: usize = 0x1E0F;

/// initialization option: fit the parent to the extent of all controls
pub const ANIF_CALCSIZE: usize = 0x0001;
/// initialization option: add a sizing grip to the parent window
pub const ANIF_SIZEGRIP: usize = 0x0002;

/// One managed widget: its control id, anchor flags, tracked rectangle (client
/// coordinates of the parent) and native handle (0 when unknown).
#[derive(Clone, Copy, Debug, PartialEq, Eq)]
pub struct ControlEntry {
    pub controlId: i32,
    pub flags: usize,
    pub rect: Rect,
    pub hwnd: isize,
}

/// A geometry change to apply to a native widget.
#[derive(Clone, Copy, Debug, PartialEq, Eq)]
pub struct Placement {
    pub hwnd: isize,
    pub rect: Rect,
}

pub struct AnchorMap {
    pub prev: Rect,
    pub isInitialized: bool,
    pub current: Rect,
    pub client: Rect,
    pub sizedBorders: usize,
    pub deltaX: i64,
    pub deltaY: i64,
    pub parent: isize,
    pub controls: Vec<ControlEntry>,
    pub defaultEntry: bool,
    pub defaultFlags: usize,
    pub sizeGrip: isize,
}

/// `x / 2` rounded toward zero, as integer division does.
pub open spec fn half(x: int) -> int {
    if x >= 0 {
        x / 2
    } else {
        -((-x) / 2)
    }
}

pub open spec fn fits_i32(x: int) -> bool {
    i32::MIN <= x <= i32::MAX
}

/// A rectangle given by four integer edges, before it is known to fit `i32`.
pub struct Edges {
    pub left: int,
    pub top: int,
    pub right: int,
    pub bottom: int,
}

pub open spec fn edges_of(r: Rect) -> Edges {
    Edges { left: r.left as int, top: r.top as int, right: r.right as int, bottom: r.bottom as int }
}

pub open spec fn edges_fit(e: Edges) -> bool {
    fits_i32(e.left) && fits_i32(e.top) && fits_i32(e.right) && fits_i32(e.bottom)
}

pub open spec fn rect_of(e: Edges) -> Rect {
    Rect { left: e.left as i32, top: e.top as i32, right: e.right as i32, bottom: e.bottom as i32 }
}

/// Some dock flag is set.
pub open spec fn is_docked(flags: usize) -> bool {
    flags & ANF_DOCK_MASK != 0
}

/// The rectangle a dock flag gives (the first that applies, in the order full, top,
/// bottom, left, right, then the single-edge ones); `r` where none is set.
pub open spec fn docked(flags: usize, r: Edges, client: Rect) -> Edges {
    let w = r.right - r.left;
    let h = r.bottom - r.top;
    let cr = client.right as int;
    let cb = client.bottom as int;
    if flags & ANF_DOCK_ALL == ANF_DOCK_ALL {
        Edges { left: 0, top: 0, right: cr, bottom: cb }
    } else if flags & ANF_DOCK_TOP != 0 {
        Edges { left: 0, top: 0, right: cr, bottom: h }
    } else if flags & ANF_DOCK_BOTTOM != 0 {
        Edges { left: 0, top: cb - h, right: cr, bottom: cb }
    } else if flags & ANF_DOCK_LEFT != 0 {
        Edges { left: 0, top: 0, right: w, bottom: cb }
    } else if flags & ANF_DOCK_RIGHT != 0 {
        Edges { left: cr - w, top: 0, right: cr, bottom: cb }
    } else if flags & ANF_DOCK_LEFT_EX != 0 {
        Edges { left: 0, top: r.top, right: w, bottom: r.bottom }
    } else if flags & ANF_DOCK_RIGHT_EX != 0 {
        Edges { right: cr, ..r }
    } else if flags & ANF_DOCK_TOP_EX != 0 {
        Edges { top: 0, ..r }
    } else if flags & ANF_DOCK_BOTTOM_EX != 0 {
        Edges { bottom: cb, ..r }
    } else {
        r
    }
}

/// Edge-hold on the horizontal axis: both edges held stretch, the right one alone
/// translates, the left one alone keeps the widget, neither moves it by half the change.
pub open spec fn held_x(flags: usize, r: Edges, dx: int) -> Edges {
    let w = r.right - r.left;
    let m = flags & ANF_LEFTRIGHT;
    if m == ANF_LEFT {
        r
    } else if m == ANF_RIGHT {
        Edges { left: r.left + dx, right: r.left + dx + w, ..r }
    } else if m == ANF_LEFTRIGHT {
        Edges { right: r.right + dx, ..r }
    } else {
        Edges { left: r.left + half(dx), right: r.left + half(dx) + w, ..r }
    }
}

/// Edge-hold on the vertical axis, as `held_x`.
pub open spec fn held_y(flags: usize, r: Edges, dy: int) -> Edges {
    let h = r.bottom - r.top;
    let m = flags & ANF_TOPBOTTOM;
    if m == ANF_TOP {
        r
    } else if m == ANF_BOTTOM {
        Edges { top: r.top + dy, bottom: r.top + dy + h, ..r }
    } else if m == ANF_TOPBOTTOM {
        Edges { bottom: r.bottom + dy, ..r }
    } else {
        Edges { top: r.top + half(dy), bottom: r.top + half(dy) + h, ..r }
    }
}

/// The horizontal rule applies: a left or right border moved and the width changed.
pub open spec fn moves_x(flags: usize, sized: usize, dx: int) -> bool {
    sized & ANF_LEFTRIGHT != 0 && dx != 0 && flags & ANF_LEFTRIGHT != ANF_LEFT
}

/// The vertical rule applies: a top or bottom border moved and the height changed.
pub open spec fn moves_y(flags: usize, sized: usize, dy: int) -> bool {
    sized & ANF_TOPBOTTOM != 0 && dy != 0 && flags & ANF_TOPBOTTOM != ANF_TOP
}

/// The rectangle of a widget with `flags` after the parent's client area changed by
/// (`dx`, `dy`); docking overrides edge-hold.
pub open spec fn anchored(flags: usize, r: Edges, client: Rect, dx: int, dy: int, sized: usize) -> Edges {
    if is_docked(flags) {
        docked(flags, r, client)
    } else {
        let rx = if sized & ANF_LEFTRIGHT != 0 && dx != 0 {
            held_x(flags, r, dx)
        } else {
            r
        };
        if sized & ANF_TOPBOTTOM != 0 && dy != 0 {
            held_y(flags, rx, dy)
        } else {
            rx
        }
    }
}

/// Whether the resize touches the widget at all.
pub open spec fn anchor_changes(flags: usize, dx: int, dy: int, sized: usize) -> bool {
    is_docked(flags) || moves_x(flags, sized, dx) || moves_y(flags, sized, dy)
}

/// Whether the resize touches the widget: it has a handle, some rule applies, and the
/// new rectangle fits `i32` (where it does not, the widget keeps its rectangle).
pub open spec fn entry_moves(e: ControlEntry, client: Rect, dx: int, dy: int, sized: usize) -> bool {
    e.hwnd != 0 && anchor_changes(e.flags, dx, dy, sized) && edges_fit(
        anchored(e.flags, edges_of(e.rect), client, dx, dy, sized),
    )
}

/// The entry after one resize.
pub open spec fn entry_after(e: ControlEntry, client: Rect, dx: int, dy: int, sized: usize) -> ControlEntry {
    if entry_moves(e, client, dx, dy, sized) {
        ControlEntry { rect: rect_of(anchored(e.flags, edges_of(e.rect), client, dx, dy, sized)), ..e }
    } else {
        e
    }
}

/// The geometry changes of one resize, entry by entry.
pub open spec fn placements(es: Seq<ControlEntry>, client: Rect, dx: int, dy: int, sized: usize) -> Seq<Placement>
    decreases es.len(),
{
    if es.len() == 0 {
        Seq::empty()
    } else {
        let rest = placements(es.drop_last(), client, dx, dy, sized);
        let e = es.last();
        if entry_moves(e, client, dx, dy, sized) {
            rest.push(Placement { hwnd: e.hwnd, rect: entry_after(e, client, dx, dy, sized).rect })
        } else {
            rest
        }
    }
}

/// Borders of `cur` that differ from `prev`, as edge-hold flags.
pub open spec fn sized_borders(prev: Rect, cur: Rect) -> usize {
    (if cur.left != prev.left { ANF_LEFT } else { 0 }) | (if cur.top != prev.top { ANF_TOP } else { 0 }) | (
    if cur.right != prev.right { ANF_RIGHT } else { 0 }) | (if cur.bottom != prev.bottom { ANF_BOTTOM } else { 0 })
}

/// The change of the parent's width.
pub open spec fn delta_x(prev: Rect, cur: Rect) -> int {
    cur.width_spec() - prev.width_spec()
}

/// The change of the parent's height.
pub open spec fn delta_y(prev: Rect, cur: Rect) -> int {
    cur.height_spec() - prev.height_spec()
}

/// The parent rectangle `rect` can be taken in: the client area it gives fits `i32`.
pub open spec fn pre_process_fits(client: Rect, prev: Rect, rect: Rect) -> bool {
    fits_i32(client.right + delta_x(prev, rect)) && fits_i32(client.bottom + delta_y(prev, rect))
}

/// The flags `AUTOMATIC` resolves to, from where the widget lies in the client area.
pub open spec fn automatic_flags(r: Rect, client: Rect) -> usize {
    let cx = half(client.right - client.left);
    let cy = half(client.bottom - client.top);
    (if r.top < cy { ANF_TOP } else { 0 }) | (if r.bottom >= cy { ANF_BOTTOM } else { 0 }) | (if r.left < cx {
        ANF_LEFT
    } else {
        0
    }) | (if r.right >= cx { ANF_RIGHT } else { 0 })
}

/// An entry after initialization, given where its widget was found (if it was).
pub open spec fn entry_initialized(e: ControlEntry, found: Option<(isize, Rect)>, client: Rect) -> ControlEntry {
    let located = match found {
        Some((h, r)) => if h != 0 {
            ControlEntry { hwnd: h, rect: r, ..e }
        } else {
            e
        },
        None => e,
    };
    if located.flags == ANF_AUTOMATIC {
        ControlEntry { flags: automatic_flags(located.rect, client), ..located }
    } else {
        located
    }
}


/// `x / 2` rounded toward zero.
fn half_exec(x: i128) -> (r: i128)
    requires
        -0x1_0000_0000_0000_0000 <= x <= 0x1_0000_0000_0000_0000,
    ensures
        r == half(x as int),
{
    if x >= 0 {
        x / 2
    } else {
        -((-x) / 2)
    }
}

/// The rectangle `anchored` gives, computed without overflow.
fn anchor_edges(flags: usize, r: Rect, client: Rect, dx: i64, dy: i64, sized: usize) -> (res: (
    i128,
    i128,
    i128,
    i128,
))
    ensures
        res.0 == anchored(flags, edges_of(r), client, dx as int, dy as int, sized).left,
        res.1 == anchored(flags, edges_of(r), client, dx as int, dy as int, sized).top,
        res.2 == anchored(flags, edges_of(r), client, dx as int, dy as int, sized).right,
        res.3 == anchored(flags, edges_of(r), client, dx as int, dy as int, sized).bottom,
{
    let l = r.left as i128;
    let t = r.top as i128;
    let rr = r.right as i128;
    let b = r.bottom as i128;
    let w = rr - l;
    let h = b - t;
    let cr = client.right as i128;
    let cb = client.bottom as i128;
    if flags & ANF_DOCK_MASK != 0 {
        if flags & ANF_DOCK_ALL == ANF_DOCK_ALL {
            (0, 0, cr, cb)
        } else if flags & ANF_DOCK_TOP != 0 {
            (0, 0, cr, h)
        } else if flags & ANF_DOCK_BOTTOM != 0 {
            (0, cb - h, cr, cb)
        } else if flags & ANF_DOCK_LEFT != 0 {
            (0, 0, w, cb)
        } else if flags & ANF_DOCK_RIGHT != 0 {
            (cr - w, 0, cr, cb)
        } else if flags & ANF_DOCK_LEFT_EX != 0 {
            (0, t, w, b)
        } else if flags & ANF_DOCK_RIGHT_EX != 0 {
            (l, t, cr, b)
        } else if flags & ANF_DOCK_TOP_EX != 0 {
            (l, 0, rr, b)
        } else if flags & ANF_DOCK_BOTTOM_EX != 0 {
            (l, t, rr, cb)
        } else {
            (l, t, rr, b)
        }
    } else {
        let dxw = dx as i128;
        let dyw = dy as i128;
        let (mut nl, mut nr) = (l, rr);
        if sized & ANF_LEFTRIGHT != 0 && dx != 0 {
            let m = flags & ANF_LEFTRIGHT;
            if m == ANF_LEFT {
            } else if m == ANF_RIGHT {
                nl = l + dxw;
                nr = l + dxw + w;
            } else if m == ANF_LEFTRIGHT {
                nr = rr + dxw;
            } else {
                let hx = half_exec(dxw);
                nl = l + hx;
                nr = l + hx + w;
            }
        }
        let (mut nt, mut nb) = (t, b);
        if sized & ANF_TOPBOTTOM != 0 && dy != 0 {
            let m = flags & ANF_TOPBOTTOM;
            if m == ANF_TOP {
            } else if m == ANF_BOTTOM {
                nt = t + dyw;
                nb = t + dyw + h;
            } else if m == ANF_TOPBOTTOM {
                nb = b + dyw;
            } else {
                let hy = half_exec(dyw);
                nt = t + hy;
                nb = t + hy + h;
            }
        }
        (nl, nt, nr, nb)
    }
}

fn fits_i32_exec(x: i128) -> (r: bool)
    ensures
        r == fits_i32(x as int),
{
    i32::MIN as i128 <= x && x <= i32::MAX as i128
}

/// The entry's new rectangle, when the resize touches it.
fn anchor_entry(e: &ControlEntry, client: Rect, dx: i64, dy: i64, sized: usize) -> (r: Option<Rect>)
    ensures
        r is Some <==> entry_moves(*e, client, dx as int, dy as int, sized),
        r matches Some(x) ==> x == entry_after(*e, client, dx as int, dy as int, sized).rect,
{
    if e.hwnd == 0 {
        return None;
    }
    let flags = e.flags;
    let changes = flags & ANF_DOCK_MASK != 0 || (sized & ANF_LEFTRIGHT != 0 && dx != 0 && flags
        & ANF_LEFTRIGHT != ANF_LEFT) || (sized & ANF_TOPBOTTOM != 0 && dy != 0 && flags & ANF_TOPBOTTOM
        != ANF_TOP);
    if !changes {
        return None;
    }
    let (l, t, rr, b) = anchor_edges(flags, e.rect, client, dx, dy, sized);
    if fits_i32_exec(l) && fits_i32_exec(t) && fits_i32_exec(rr) && fits_i32_exec(b) {
        Some(Rect { left: l as i32, top: t as i32, right: rr as i32, bottom: b as i32 })
    } else {
        None
    }
}

/// Maps each entry through one resize.
pub open spec fn entries_after(es: Seq<ControlEntry>, client: Rect, dx: int, dy: int, sized: usize) -> Seq<ControlEntry> {
    es.map_values(|e: ControlEntry| entry_after(e, client, dx, dy, sized))
}

/// A docked-to-all widget fills the client area, whatever its previous rectangle.
pub proof fn lemma_dock_all_fills(e: ControlEntry, client: Rect, dx: int, dy: int, sized: usize)
    requires
        e.flags == ANF_DOCK_ALL,
        e.hwnd != 0,
        client.left == 0,
        client.top == 0,
    ensures
        entry_after(e, client, dx, dy, sized).rect == (Rect { left: 0, top: 0, right: client.right, bottom: client.bottom }),
{
    assert(ANF_DOCK_ALL & ANF_DOCK_MASK != 0) by (bit_vector);
    assert(ANF_DOCK_ALL & ANF_DOCK_ALL == ANF_DOCK_ALL) by (bit_vector);
}

/// A widget held by its top and left edges keeps its position and size on any resize.
pub proof fn lemma_top_left_fixed(e: ControlEntry, client: Rect, dx: int, dy: int, sized: usize)
    requires
        e.flags == ANF_TOP | ANF_LEFT,
    ensures
        entry_after(e, client, dx, dy, sized).rect == e.rect,
{
    assert((ANF_TOP | ANF_LEFT) & ANF_DOCK_MASK == 0) by (bit_vector);
    assert((ANF_TOP | ANF_LEFT) & ANF_LEFTRIGHT == ANF_LEFT) by (bit_vector);
    assert((ANF_TOP | ANF_LEFT) & ANF_TOPBOTTOM == ANF_TOP) by (bit_vector);
}

/// The horizontal border flags of a resize are set whenever the width changed.
pub proof fn lemma_width_change_sized(prev: Rect, cur: Rect)
    requires
        delta_x(prev, cur) != 0,
    ensures
        sized_borders(prev, cur) & ANF_LEFTRIGHT != 0,
{
    let a: usize = if cur.left != prev.left { ANF_LEFT } else { 0 };
    let b: usize = if cur.top != prev.top { ANF_TOP } else { 0 };
    let c: usize = if cur.right != prev.right { ANF_RIGHT } else { 0 };
    let d: usize = if cur.bottom != prev.bottom { ANF_BOTTOM } else { 0 };
    assert(a == 0x40 || a == 0);
    assert(c == 0x80 || c == 0);
    assert(a != 0 || c != 0);
    assert((a == 0x40usize || c == 0x80usize) && (b == 0 || b == 0x10usize) && (d == 0 || d == 0x20usize)
        ==> (a | b | c | d) & 0xC0usize != 0) by (bit_vector);
}

/// A widget held by both its left and right edges (and not docked) stretches by exactly the
/// change of the parent's width and keeps its left offset.
pub proof fn lemma_left_right_stretch(e: ControlEntry, client: Rect, prev: Rect, cur: Rect, dy: int)
    requires
        e.flags & ANF_DOCK_MASK == 0,
        e.flags & ANF_LEFTRIGHT == ANF_LEFTRIGHT,
        e.hwnd != 0,
        edges_fit(anchored(e.flags, edges_of(e.rect), client, delta_x(prev, cur), dy, sized_borders(prev, cur))),
    ensures
        entry_after(e, client, delta_x(prev, cur), dy, sized_borders(prev, cur)).rect.width_spec()
            == e.rect.width_spec() + cur.width_spec() - prev.width_spec(),
        entry_after(e, client, delta_x(prev, cur), dy, sized_borders(prev, cur)).rect.left == e.rect.left,
{
    let dx = delta_x(prev, cur);
    let sized = sized_borders(prev, cur);
    if dx != 0 {
        lemma_width_change_sized(prev, cur);
    }
    let m = e.flags & ANF_TOPBOTTOM;
    assert(ANF_LEFTRIGHT != ANF_LEFT);
}

/// The largest right and bottom edges among `es`, and at least 0.
pub open spec fn extent_of(es: Seq<ControlEntry>) -> (i32, i32)
    decreases es.len(),
{
    if es.len() == 0 {
        (0, 0)
    } else {
        let (r, b) = extent_of(es.drop_last());
        let e = es.last();
        (if e.rect.right > r { e.rect.right } else { r }, if e.rect.bottom > b { e.rect.bottom } else { b })
    }
}

impl AnchorMap {
    pub open spec fn has_hwnd(&self, hwnd: isize) -> bool {
        exists|i: int| 0 <= i < self.controls@.len() && (#[trigger] self.controls@[i]).hwnd == hwnd
    }

    pub fn new() -> (r: AnchorMap)
        ensures
            !r.isInitialized,
            r.controls@.len() == 0,
            !r.defaultEntry,
            r.parent == 0,
            r.sizeGrip == 0,
            r.deltaX == 0 && r.deltaY == 0 && r.sizedBorders == 0,
            r.defaultFlags == 0,
            r.prev == (Rect { left: 0, top: 0, right: 0, bottom: 0 }),
            r.current == r.prev && r.client == r.prev,
    {
        AnchorMap {
            prev: Rect::new(0, 0, 0, 0),
            isInitialized: false,
            current: Rect::new(0, 0, 0, 0),
            client: Rect::new(0, 0, 0, 0),
            sizedBorders: 0,
            deltaX: 0,
            deltaY: 0,
            parent: 0,
            controls: Vec::new(),
            defaultEntry: false,
            defaultFlags: 0,
            sizeGrip: 0,
        }
    }

    /// Registers a widget with `flags`; control id 0 instead sets the flags given to
    /// widgets discovered later.
    pub fn addControl(&mut self, controlId: i32, flags: usize, hwnd: Option<isize>) -> (r: bool)
        ensures
            r,
            controlId == 0 ==> final(self).defaultEntry && final(self).defaultFlags == flags
                && final(self).controls@ == old(self).controls@,
            controlId != 0 ==> final(self).controls@ == old(self).controls@.push(
                ControlEntry {
                    controlId,
                    flags,
                    rect: Rect { left: 0, top: 0, right: 0, bottom: 0 },
                    hwnd: match hwnd {
                        Some(h) => h,
                        None => 0,
                    },
                },
            ) && final(self).defaultEntry == old(self).defaultEntry
                && final(self).defaultFlags == old(self).defaultFlags,
            final(self).isInitialized == old(self).isInitialized,
            final(self).parent == old(self).parent,
    {
        if controlId == 0 {
            self.defaultEntry = true;
            self.defaultFlags = flags;
        } else {
            let h = match hwnd {
                Some(h) => h,
                None => 0,
            };
            self.controls.push(
                ControlEntry { controlId, flags, rect: Rect { left: 0, top: 0, right: 0, bottom: 0 }, hwnd: h },
            );
        }
        true
    }

    pub fn isInitialized(&self) -> (r: bool)
        ensures
            r == self.isInitialized,
    {
        self.isInitialized
    }

    /// The entry tracking `hwnd`, if any.
    pub fn findWindow(&self, hwnd: isize) -> (r: Option<&ControlEntry>)
        ensures
            r is Some <==> self.has_hwnd(hwnd),
            r matches Some(e) ==> e.hwnd == hwnd && exists|i: int|
                0 <= i < self.controls@.len() && self.controls@[i] == *e && forall|j: int|
                    0 <= j < i ==> (#[trigger] self.controls@[j]).hwnd != hwnd,
    {
        let mut i: usize = 0;
        while i < self.controls.len()
            invariant
                i <= self.controls@.len(),
                forall|j: int| 0 <= j < i ==> (#[trigger] self.controls@[j]).hwnd != hwnd,
            decreases self.controls@.len() - i,
        {
            if self.controls[i].hwnd == hwnd {
                return Some(&self.controls[i]);
            }
            i = i + 1;
        }
        None
    }

    /// Takes in the parent's new window rectangle: records which borders moved and by how
    /// much the client area grew, and grows the tracked client area by as much. A rectangle
    /// whose client area would not fit `i32` is ignored.
    pub fn preProcess(&mut self, rect: &Rect) -> (r: bool)
        ensures
            r == pre_process_fits(old(self).client, old(self).prev, *rect),
            r ==> final(self).current == *rect
                && final(self).sizedBorders == sized_borders(old(self).prev, *rect)
                && final(self).deltaX == delta_x(old(self).prev, *rect)
                && final(self).deltaY == delta_y(old(self).prev, *rect)
                && final(self).client == (Rect {
                    right: (old(self).client.right + delta_x(old(self).prev, *rect)) as i32,
                    bottom: (old(self).client.bottom + delta_y(old(self).prev, *rect)) as i32,
                    ..old(self).client
                }),
            !r ==> final(self).current == old(self).current && final(self).sizedBorders == old(self).sizedBorders
                && final(self).deltaX == old(self).deltaX && final(self).deltaY == old(self).deltaY
                && final(self).client == old(self).client,
            final(self).prev == old(self).prev,
            final(self).controls@ == old(self).controls@,
            final(self).isInitialized == old(self).isInitialized,
            final(self).parent == old(self).parent,
            final(self).sizeGrip == old(self).sizeGrip,
            final(self).defaultEntry == old(self).defaultEntry,
            final(self).defaultFlags == old(self).defaultFlags,
    {
        let dx: i64 = (rect.right as i64 - rect.left as i64) - (self.prev.right as i64 - self.prev.left as i64);
        let dy: i64 = (rect.bottom as i64 - rect.top as i64) - (self.prev.bottom as i64 - self.prev.top as i64);
        let nr: i64 = self.client.right as i64 + dx;
        let nb: i64 = self.client.bottom as i64 + dy;
        if nr < i32::MIN as i64 || nr > i32::MAX as i64 || nb < i32::MIN as i64 || nb > i32::MAX as i64 {
            return false;
        }
        self.current = *rect;
        let a: usize = if rect.left != self.prev.left { ANF_LEFT } else { 0 };
        let b: usize = if rect.top != self.prev.top { ANF_TOP } else { 0 };
        let c: usize = if rect.right != self.prev.right { ANF_RIGHT } else { 0 };
        let d: usize = if rect.bottom != self.prev.bottom { ANF_BOTTOM } else { 0 };
        let sized: usize = a | b | c | d;
        self.sizedBorders = sized;
        self.deltaX = dx;
        self.deltaY = dy;
        self.client.right = nr as i32;
        self.client.bottom = nb as i32;
        true
    }

    /// The current parent rectangle becomes the reference for the next resize.
    pub fn postProcess(&mut self)
        ensures
            final(self).prev == old(self).current,
            final(self).current == old(self).current,
            final(self).client == old(self).client,
            final(self).controls@ == old(self).controls@,
            final(self).isInitialized == old(self).isInitialized,
            final(self).parent == old(self).parent,
            final(self).sizeGrip == old(self).sizeGrip,
            final(self).defaultEntry == old(self).defaultEntry,
            final(self).defaultFlags == old(self).defaultFlags,
            final(self).deltaX == old(self).deltaX,
            final(self).deltaY == old(self).deltaY,
            final(self).sizedBorders == old(self).sizedBorders,
    {
        self.prev = self.current;
    }

    /// Re-applies the anchors after the parent changed size: no-op until initialized;
    /// otherwise takes in `parentRect` (where none is given, or it cannot be taken in, the
    /// change counts as zero), moves each widget by its rules, and returns the batch of
    /// geometry changes, one per widget that moved, in order.
    pub fn handleAnchors(&mut self, parentRect: Option<Rect>) -> (r: Vec<Placement>)
        ensures
            !old(self).isInitialized ==> r@.len() == 0 && final(self).controls@ == old(self).controls@
                && final(self).prev == old(self).prev && final(self).current == old(self).current
                && final(self).client == old(self).client,
            old(self).isInitialized ==> {
                &&& final(self).controls@ == entries_after(
                    old(self).controls@,
                    final(self).client,
                    final(self).deltaX as int,
                    final(self).deltaY as int,
                    final(self).sizedBorders,
                )
                &&& r@ == placements(
                    old(self).controls@,
                    final(self).client,
                    final(self).deltaX as int,
                    final(self).deltaY as int,
                    final(self).sizedBorders,
                )
                &&& final(self).prev == final(self).current
                &&& match parentRect {
                    Some(pr) => if pre_process_fits(old(self).client, old(self).prev, pr) {
                        &&& final(self).current == pr
                        &&& final(self).sizedBorders == sized_borders(old(self).prev, pr)
                        &&& final(self).deltaX == delta_x(old(self).prev, pr)
                        &&& final(self).deltaY == delta_y(old(self).prev, pr)
                        &&& final(self).client == (Rect {
                            right: (old(self).client.right + delta_x(old(self).prev, pr)) as i32,
                            bottom: (old(self).client.bottom + delta_y(old(self).prev, pr)) as i32,
                            ..old(self).client
                        })
                    } else {
                        final(self).current == old(self).current && final(self).client == old(self).client
                            && final(self).deltaX == 0 && final(self).deltaY == 0 && final(self).sizedBorders == 0
                    },
                    None => final(self).current == old(self).current && final(self).client == old(self).client
                        && final(self).deltaX == 0 && final(self).deltaY == 0 && final(self).sizedBorders == 0,
                }
            },
            final(self).isInitialized == old(self).isInitialized,
            final(self).parent == old(self).parent,
            final(self).sizeGrip == old(self).sizeGrip,
            final(self).defaultEntry == old(self).defaultEntry,
            final(self).defaultFlags == old(self).defaultFlags,
    {
        if !self.isInitialized {
            return Vec::new();
        }
        let taken = match parentRect {
            Some(pr) => self.preProcess(&pr),
            None => false,
        };
        if !taken {
            self.deltaX = 0;
            self.deltaY = 0;
            self.sizedBorders = 0;
        }
        let out = self.applyAnchors();
        self.postProcess();
        out
    }

    /// Moves each widget by its rules for the recorded resize; returns the changes.
    fn applyAnchors(&mut self) -> (r: Vec<Placement>)
        ensures
            final(self).controls@ == entries_after(
                old(self).controls@,
                old(self).client,
                old(self).deltaX as int,
                old(self).deltaY as int,
                old(self).sizedBorders,
            ),
            r@ == placements(
                old(self).controls@,
                old(self).client,
                old(self).deltaX as int,
                old(self).deltaY as int,
                old(self).sizedBorders,
            ),
            final(self).client == old(self).client,
            final(self).deltaX == old(self).deltaX,
            final(self).deltaY == old(self).deltaY,
            final(self).sizedBorders == old(self).sizedBorders,
            final(self).current == old(self).current,
            final(self).prev == old(self).prev,
            final(self).isInitialized == old(self).isInitialized,
            final(self).parent == old(self).parent,
            final(self).sizeGrip == old(self).sizeGrip,
            final(self).defaultEntry == old(self).defaultEntry,
            final(self).defaultFlags == old(self).defaultFlags,
    {
        let mut out: Vec<Placement> = Vec::new();
        let client = self.client;
        let dx = self.deltaX;
        let dy = self.deltaY;
        let sized = self.sizedBorders;
        let ghost es = self.controls@;
        let ghost n = es.len();
        let ghost cur0 = self.current;
        let ghost prev0 = self.prev;
        let ghost others = (self.isInitialized, self.parent, self.sizeGrip, self.defaultEntry, self.defaultFlags);
        let mut i: usize = 0;
        while i < self.controls.len()
            invariant
                n == es.len(),
                self.controls@.len() == n,
                i <= n,
                self.client == client,
                self.deltaX == dx,
                self.deltaY == dy,
                self.sizedBorders == sized,
                self.current == cur0,
                self.prev == prev0,
                es == old(self).controls@,
                client == old(self).client,
                dx == old(self).deltaX,
                dy == old(self).deltaY,
                sized == old(self).sizedBorders,
                cur0 == old(self).current,
                prev0 == old(self).prev,
                others == (old(self).isInitialized, old(self).parent, old(self).sizeGrip, old(self).defaultEntry, old(self).defaultFlags),
                others == (self.isInitialized, self.parent, self.sizeGrip, self.defaultEntry, self.defaultFlags),
                forall|k: int| 0 <= k < i ==> #[trigger] self.controls@[k] == entry_after(es[k], client, dx as int, dy as int, sized),
                forall|k: int| i <= k < n ==> #[trigger] self.controls@[k] == es[k],
                out@ == placements(es.subrange(0, i as int), client, dx as int, dy as int, sized),
            decreases n - i,
        {
            let e = self.controls[i];
            let moved = anchor_entry(&e, client, dx, dy, sized);
            proof {
                let s1 = es.subrange(0, i as int + 1);
                assert(s1.drop_last() =~= es.subrange(0, i as int));
                assert(s1.last() == es[i as int]);
            }
            match moved {
                Some(nr) => {
                    self.controls.set(i, ControlEntry { rect: nr, ..e });
                    out.push(Placement { hwnd: e.hwnd, rect: nr });
                },
                None => {},
            }
            i = i + 1;
        }
        proof {
            assert(es.subrange(0, n as int) =~= es);
            assert(self.controls@ =~= entries_after(es, client, dx as int, dy as int, sized));
        }
        out
    }

    /// Starts tracking the parent window: takes its window and client rectangles and, for
    /// each registered widget in order, where it was found (its handle and its rectangle in
    /// client coordinates; `None` where it could not be located, which leaves the entry as
    /// it is); then resolves `AUTOMATIC` flags against the client area.
    pub fn initialize(&mut self, parent: isize, window: Rect, client: Rect, found: &Vec<Option<(isize, Rect)>>)
        ensures
            final(self).isInitialized,
            final(self).parent == parent,
            final(self).prev == window,
            final(self).current == window,
            final(self).client == client,
            final(self).controls@.len() == old(self).controls@.len(),
            forall|i: int| 0 <= i < old(self).controls@.len() ==> #[trigger] final(self).controls@[i]
                == entry_initialized(
                    old(self).controls@[i],
                    if i < found@.len() {
                        found@[i]
                    } else {
                        None
                    },
                    client,
                ),
            final(self).defaultEntry == old(self).defaultEntry,
            final(self).defaultFlags == old(self).defaultFlags,
            final(self).sizeGrip == old(self).sizeGrip,
    {
        self.parent = parent;
        self.prev = window;
        self.current = window;
        self.client = client;
        let ghost es = self.controls@;
        let ghost n = es.len();
        let ghost others = (self.defaultEntry, self.defaultFlags, self.sizeGrip);
        let cx = half_exec(client.right as i128 - client.left as i128);
        let cy = half_exec(client.bottom as i128 - client.top as i128);
        let mut i: usize = 0;
        while i < self.controls.len()
            invariant
                n == es.len(),
                self.controls@.len() == n,
                i <= n,
                cx == half(client.right - client.left),
                self.parent == parent,
                self.prev == window,
                self.current == window,
                self.client == client,
                others == (self.defaultEntry, self.defaultFlags, self.sizeGrip),
                cy == half(client.bottom - client.top),
                forall|k: int| 0 <= k < i ==> #[trigger] self.controls@[k] == entry_initialized(
                    es[k],
                    if k < found@.len() {
                        found@[k]
                    } else {
                        None
                    },
                    client,
                ),
                forall|k: int| i <= k < n ==> #[trigger] self.controls@[k] == es[k],
            decreases n - i,
        {
            let mut e = self.controls[i];
            if i < found.len() {
                match found[i] {
                    Some((h, r)) => {
                        if h != 0 {
                            e.hwnd = h;
                            e.rect = r;
                        }
                    },
                    None => {},
                }
            }
            if e.flags == ANF_AUTOMATIC {
                let r = e.rect;
                let a: usize = if (r.top as i128) < cy { ANF_TOP } else { 0 };
                let b: usize = if (r.bottom as i128) >= cy { ANF_BOTTOM } else { 0 };
                let c: usize = if (r.left as i128) < cx { ANF_LEFT } else { 0 };
                let d: usize = if (r.right as i128) >= cx { ANF_RIGHT } else { 0 };
                e.flags = a | b | c | d;
            }
            self.controls.set(i, e);
            i = i + 1;
        }
        self.isInitialized = true;
    }

    /// Takes up a native child found under the parent: a child of another window, or one
    /// already tracked, is left alone; otherwise it is tracked with the default flags at
    /// `rect` (its rectangle in client coordinates, if it could be read).
    pub fn discoverControl(&mut self, hwnd: isize, parentOfHwnd: isize, controlId: i32, rect: Option<Rect>)
        ensures
            (parentOfHwnd == old(self).parent && !old(self).has_hwnd(hwnd) && rect is Some)
                ==> final(self).controls@ == old(self).controls@.push(
                ControlEntry { controlId, flags: old(self).defaultFlags, rect: rect->0, hwnd },
            ),
            !(parentOfHwnd == old(self).parent && !old(self).has_hwnd(hwnd) && rect is Some)
                ==> final(self).controls@ == old(self).controls@,
            final(self).isInitialized == old(self).isInitialized,
            final(self).parent == old(self).parent,
            final(self).defaultFlags == old(self).defaultFlags,
    {
        if parentOfHwnd != self.parent {
            return;
        }
        if self.findWindow(hwnd).is_some() {
            return;
        }
        match rect {
            Some(r) => {
                let flags = self.defaultFlags;
                self.controls.push(ControlEntry { controlId, flags, rect: r, hwnd });
            },
            None => {},
        }
    }

    /// The extent the widgets occupy: the largest right and bottom edges (at least 0).
    pub fn contentExtent(&self) -> (r: (i32, i32))
        ensures
            r == extent_of(self.controls@),
    {
        let mut r: i32 = 0;
        let mut b: i32 = 0;
        let mut i: usize = 0;
        while i < self.controls.len()
            invariant
                i <= self.controls@.len(),
                (r, b) == extent_of(self.controls@.subrange(0, i as int)),
            decreases self.controls@.len() - i,
        {
            let ghost sub = self.controls@.subrange(0, i as int + 1);
            assert(sub.drop_last() =~= self.controls@.subrange(0, i as int));
            assert(sub.last() == self.controls@[i as int]);
            let e = &self.controls[i];
            if e.rect.right > r {
                r = e.rect.right;
            }
            if e.rect.bottom > b {
                b = e.rect.bottom;
            }
            i = i + 1;
        }
        assert(self.controls@.subrange(0, self.controls@.len() as int) =~= self.controls@);
        (r, b)
    }

    /// Takes `frame` as the parent's window rectangle after it was grown to fit the
    /// widgets; the client area follows it in size. A frame whose client area would not
    /// fit `i32` is ignored.
    pub fn fitTo(&mut self, frame: Rect) -> (r: bool)
        ensures
            r == (fits_i32(old(self).client.left + frame.width_spec()) && fits_i32(
                old(self).client.top + frame.height_spec(),
            )),
            r ==> final(self).prev == frame && final(self).client == (Rect {
                right: (old(self).client.left + frame.width_spec()) as i32,
                bottom: (old(self).client.top + frame.height_spec()) as i32,
                ..old(self).client
            }),
            !r ==> final(self).prev == old(self).prev && final(self).client == old(self).client,
            final(self).controls@ == old(self).controls@,
            final(self).current == old(self).current,
            final(self).isInitialized == old(self).isInitialized,
            final(self).parent == old(self).parent,
    {
        let nr: i64 = self.client.left as i64 + (frame.right as i64 - frame.left as i64);
        let nb: i64 = self.client.top as i64 + (frame.bottom as i64 - frame.top as i64);
        if nr < i32::MIN as i64 || nr > i32::MAX as i64 || nb < i32::MIN as i64 || nb > i32::MAX as i64 {
            return false;
        }
        self.prev = frame;
        self.client.right = nr as i32;
        self.client.bottom = nb as i32;
        true
    }

    /// Registers the sizing grip, anchored to the bottom-right corner.
    pub fn addSizeGrip(&mut self, hwnd: isize, rect: Rect)
        ensures
            final(self).sizeGrip == hwnd,
            final(self).controls@ == old(self).controls@.push(
                ControlEntry { controlId: 0, flags: ANF_RIGHT | ANF_BOTTOM, rect, hwnd },
            ),
            final(self).isInitialized == old(self).isInitialized,
            final(self).parent == old(self).parent,
    {
        self.sizeGrip = hwnd;
        self.controls.push(ControlEntry { controlId: 0, flags: ANF_RIGHT | ANF_BOTTOM, rect, hwnd });
    }

    /// Whether the sizing grip should be hidden (`Some(false)`), shown (`Some(true)`) or
    /// left as it is, given whether the parent is maximized and the grip visible.
    pub fn gripVisibility(&self, maximized: bool, visible: bool) -> (r: Option<bool>)
        ensures
            r == (if self.sizeGrip == 0 || !visible {
                None::<bool>
            } else {
                Some(!maximized)
            }),
    {
        if self.sizeGrip == 0 || !visible {
            None
        } else {
            Some(!maximized)
        }
    }
}

} // verus!
