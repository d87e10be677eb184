//! Unsigned layout-grid geometry: points and rectangles used by the
//! layout side of the toolkit.

use vstd::prelude::*;

verus! {

/// A point on the unsigned layout grid.
#[derive(Default, Debug, Clone, Copy, PartialEq, Eq, Structural)]
pub struct Point {
    pub x: u32,
    pub y: u32,
}

impl Point {
    pub fn new(x: u32, y: u32) -> (r: Point)
        ensures
            r.x == x,
            r.y == y,
    {
        Point { x, y }
    }

    /// Componentwise sum. The coordinates must not overflow.
    pub fn add(self, rhs: Point) -> (r: Point)
        requires
            self.x + rhs.x <= u32::MAX,
            self.y + rhs.y <= u32::MAX,
        ensures
            r.x == self.x + rhs.x,
            r.y == self.y + rhs.y,
    {
        Point { x: self.x + rhs.x, y: self.y + rhs.y }
    }
}

/// Rectangle capability: extent queries and translation onto the grid.
pub trait Rect: Sized {
    /// The rectangle is well formed: its extents are non-negative.
    spec fn spec_wf(self) -> bool;

    /// Left edge of the rectangle.
    spec fn spec_left(self) -> int;

    /// Top edge of the rectangle.
    spec fn spec_top(self) -> int;

    spec fn spec_width(self) -> int;

    spec fn spec_height(self) -> int;

    /// Translating by `offset` stays within the grid.
    spec fn can_offset(self, offset: Point) -> bool;

    fn width(self) -> (r: u32)
        requires
            self.spec_wf(),
        ensures
            r == self.spec_width(),
    ;

    fn height(self) -> (r: u32)
        requires
            self.spec_wf(),
        ensures
            r == self.spec_height(),
    ;

    fn offset(self, offset: Point) -> (r: OffsetRect)
        requires
            self.spec_wf(),
            self.can_offset(offset),
        ensures
            r.wf(),
            r.topleft.x == self.spec_left() + offset.x,
            r.topleft.y == self.spec_top() + offset.y,
            r.lowright.x - r.topleft.x == self.spec_width(),
            r.lowright.y - r.topleft.y == self.spec_height(),
    ;
}

/// A rectangle given by its top-left and lower-right corners.
#[derive(Default, Debug, Clone, Copy, PartialEq, Eq, Structural)]
pub struct OffsetRect {
    pub topleft: Point,
    pub lowright: Point,
}

impl OffsetRect {
    /// The rectangle is well formed: the top-left corner is not past the
    /// lower-right one.
    pub open spec fn wf(self) -> bool {
        self.topleft.x <= self.lowright.x && self.topleft.y <= self.lowright.y
    }

    pub fn new(tl_x: u32, tl_y: u32, lr_x: u32, lr_y: u32) -> (r: OffsetRect)
        ensures
            r.topleft.x == tl_x,
            r.topleft.y == tl_y,
            r.lowright.x == lr_x,
            r.lowright.y == lr_y,
    {
        OffsetRect { topleft: Point::new(tl_x, tl_y), lowright: Point::new(lr_x, lr_y) }
    }

    /// The smallest rectangle covering the areas of both rectangles.
    pub fn bitor(self, rhs: OffsetRect) -> (r: OffsetRect)
        ensures
            r.topleft.x == if self.topleft.x <= rhs.topleft.x { self.topleft.x } else { rhs.topleft.x },
            r.topleft.y == if self.topleft.y <= rhs.topleft.y { self.topleft.y } else { rhs.topleft.y },
            r.lowright.x == if self.lowright.x >= rhs.lowright.x { self.lowright.x } else { rhs.lowright.x },
            r.lowright.y == if self.lowright.y >= rhs.lowright.y { self.lowright.y } else { rhs.lowright.y },
    {
        OffsetRect::new(
            if self.topleft.x <= rhs.topleft.x { self.topleft.x } else { rhs.topleft.x },
            if self.topleft.y <= rhs.topleft.y { self.topleft.y } else { rhs.topleft.y },
            if self.lowright.x >= rhs.lowright.x { self.lowright.x } else { rhs.lowright.x },
            if self.lowright.y >= rhs.lowright.y { self.lowright.y } else { rhs.lowright.y },
        )
    }
}

impl Rect for OffsetRect {
    open spec fn spec_wf(self) -> bool {
        self.wf()
    }

    open spec fn spec_left(self) -> int {
        self.topleft.x as int
    }

    open spec fn spec_top(self) -> int {
        self.topleft.y as int
    }

    open spec fn spec_width(self) -> int {
        self.lowright.x - self.topleft.x
    }

    open spec fn spec_height(self) -> int {
        self.lowright.y - self.topleft.y
    }

    open spec fn can_offset(self, offset: Point) -> bool {
        self.lowright.x + offset.x <= u32::MAX && self.lowright.y + offset.y <= u32::MAX
    }

    fn width(self) -> u32 {
        self.lowright.x - self.topleft.x
    }

    fn height(self) -> u32 {
        self.lowright.y - self.topleft.y
    }

    fn offset(self, offset: Point) -> OffsetRect {
        OffsetRect { topleft: self.topleft.add(offset), lowright: self.lowright.add(offset) }
    }
}

/// A rectangle anchored at the grid origin, given by its lower-right corner.
#[derive(Default, Debug, Clone, Copy, PartialEq, Eq, Structural)]
pub struct OriginRect {
    pub lowright: Point,
}

impl OriginRect {
    pub fn new(lr_x: u32, lr_y: u32) -> (r: OriginRect)
        ensures
            r.lowright.x == lr_x,
            r.lowright.y == lr_y,
    {
        OriginRect { lowright: Point::new(lr_x, lr_y) }
    }
}

impl Rect for OriginRect {
    open spec fn spec_wf(self) -> bool {
        true
    }

    open spec fn spec_left(self) -> int {
        0
    }

    open spec fn spec_top(self) -> int {
        0
    }

    open spec fn spec_width(self) -> int {
        self.lowright.x as int
    }

    open spec fn spec_height(self) -> int {
        self.lowright.y as int
    }

    open spec fn can_offset(self, offset: Point) -> bool {
        self.lowright.x + offset.x <= u32::MAX && self.lowright.y + offset.y <= u32::MAX
    }

    fn width(self) -> u32 {
        self.lowright.x
    }

    fn height(self) -> u32 {
        self.lowright.y
    }

    fn offset(self, offset: Point) -> OffsetRect {
        OffsetRect { topleft: offset, lowright: self.lowright.add(offset) }
    }
}

impl From<OriginRect> for OffsetRect {
    fn from(ogr: OriginRect) -> (r: OffsetRect) {
        OffsetRect { topleft: Point::new(0, 0), lowright: ogr.lowright }
    }
}

impl vstd::std_specs::convert::FromSpecImpl<OriginRect> for OffsetRect {
    open spec fn obeys_from_spec() -> bool {
        true
    }

    open spec fn from_spec(ogr: OriginRect) -> OffsetRect {
        OffsetRect { topleft: Point { x: 0, y: 0 }, lowright: ogr.lowright }
    }
}

impl From<OffsetRect> for OriginRect {
    fn from(rect: OffsetRect) -> (r: OriginRect) {
        let x = if rect.topleft.x <= rect.lowright.x { rect.lowright.x - rect.topleft.x } else { 0 };
        let y = if rect.topleft.y <= rect.lowright.y { rect.lowright.y - rect.topleft.y } else { 0 };
        OriginRect { lowright: Point::new(x, y) }
    }
}

impl vstd::std_specs::convert::FromSpecImpl<OffsetRect> for OriginRect {
    open spec fn obeys_from_spec() -> bool {
        true
    }

    open spec fn from_spec(rect: OffsetRect) -> OriginRect {
        OriginRect {
            lowright: Point {
                x: if rect.topleft.x <= rect.lowright.x {
                    (rect.lowright.x - rect.topleft.x) as u32
                } else {
                    0
                },
                y: if rect.topleft.y <= rect.lowright.y {
                    (rect.lowright.y - rect.topleft.y) as u32
                } else {
                    0
                },
            },
        }
    }
}

} // verus!
