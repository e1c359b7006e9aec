//! Integer rectangles as the native window system reports them.

use vstd::prelude::*;

verus! {

/// A rectangle by its four edges, in pixels.
#[derive(Clone, Copy, Debug, PartialEq, Eq, Default)]
pub struct Rect {
    pub left: i32,
    pub top: i32,
    pub right: i32,
    pub bottom: i32,
}

impl Rect {
    pub open spec fn width_spec(&self) -> int {
        self.right - self.left
    }

    pub open spec fn height_spec(&self) -> int {
        self.bottom - self.top
    }

    /// Width and height are representable as `i32`.
    pub open spec fn extent_fits(&self) -> bool {
        i32::MIN <= self.width_spec() <= i32::MAX && i32::MIN <= self.height_spec() <= i32::MAX
    }

    pub fn new(left: i32, top: i32, right: i32, bottom: i32) -> (r: Rect)
        ensures
            r == (Rect { left, top, right, bottom }),
    {
        Rect { left, top, right, bottom }
    }

    pub fn extent_in_range(&self) -> (r: bool)
        ensures
            r == self.extent_fits(),
    {
        let w = self.right as i64 - self.left as i64;
        let h = self.bottom as i64 - self.top as i64;
        i32::MIN as i64 <= w && w <= i32::MAX as i64 && i32::MIN as i64 <= h && h <= i32::MAX as i64
    }

    pub fn width(&self) -> (r: i32)
        requires
            self.extent_fits(),
        ensures
            r == self.width_spec(),
    {
        self.right - self.left
    }

    pub fn height(&self) -> (r: i32)
        requires
            self.extent_fits(),
        ensures
            r == self.height_spec(),
    {
        self.bottom - self.top
    }
}

} // verus!
