//! Signed pixel-space geometry for the widget tree: points, vectors,
//! bounding boxes, window dimensions, and exact segment/rectangle
//! crossing detection used by the pointer-motion router.

use vstd::prelude::*;

verus! {

/// Greatest coordinate magnitude allowed for node rectangles and pointer
/// positions (the 32-bit pixel range).
pub const COORD_LIMIT: i64 = 0x8000_0000;

/// Greatest magnitude a cumulative ancestor offset can reach.
pub const OFFSET_LIMIT: i64 = 0x0080_0000_0000_0000;

/// Greatest coordinate magnitude the segment-crossing routines accept.
pub const SEG_LIMIT: i64 = 0x0200_0000_0000_0000;

/// A coordinate within the 32-bit pixel range.
pub open spec fn c_ok(c: int) -> bool {
    -COORD_LIMIT <= c <= COORD_LIMIT
}

/// A coordinate within the range the segment-crossing routines accept.
pub open spec fn seg_ok(c: int) -> bool {
    -SEG_LIMIT <= c <= SEG_LIMIT
}

/// `m` lies between `a` and `b`, in whichever order.
pub open spec fn between(a: int, m: int, b: int) -> bool {
    (a <= m <= b) || (b <= m <= a)
}

/// A point in signed pixel space.
#[derive(Debug, Clone, Copy, PartialEq, Eq, Hash, Structural)]
pub struct Point2 {
    pub x: i64,
    pub y: i64,
}

impl Point2 {
    /// Both coordinates lie within the 32-bit pixel range.
    pub open spec fn in_range(self) -> bool {
        c_ok(self.x as int) && c_ok(self.y as int)
    }

    /// Both coordinates lie within the range the segment-crossing
    /// routines accept.
    pub open spec fn in_seg_range(self) -> bool {
        seg_ok(self.x as int) && seg_ok(self.y as int)
    }

    pub fn new(x: i64, y: i64) -> (r: Point2)
        ensures
            r.x == x,
            r.y == y,
    {
        Point2 { x, y }
    }
}

/// A displacement in signed pixel space.
#[derive(Debug, Clone, Copy, PartialEq, Eq, Hash, Structural)]
pub struct Vector2 {
    pub x: i64,
    pub y: i64,
}

impl Vector2 {
    pub fn new(x: i64, y: i64) -> (r: Vector2)
        ensures
            r.x == x,
            r.y == y,
    {
        Vector2 { x, y }
    }
}

/// An axis-aligned box given by two corners, both inclusive, in the
/// coordinate frame of the owning node's parent.
#[derive(Debug, Clone, Copy, PartialEq, Eq, Hash, Structural)]
pub struct BoundBox {
    pub min: Point2,
    pub max: Point2,
}

impl BoundBox {
    /// Corners are within the pixel range and properly ordered.
    pub open spec fn wf(self) -> bool {
        &&& self.min.in_range()
        &&& self.max.in_range()
        &&& self.min.x <= self.max.x
        &&& self.min.y <= self.max.y
    }

    /// The point lies in the closed box.
    pub open spec fn contains_sp(self, p: Point2) -> bool {
        &&& self.min.x <= p.x <= self.max.x
        &&& self.min.y <= p.y <= self.max.y
    }

    /// The point lies on the edge of the box.
    pub open spec fn on_edge(self, p: Point2) -> bool {
        p.x == self.min.x || p.x == self.max.x || p.y == self.min.y || p.y == self.max.y
    }

    pub fn new2(min_x: i64, min_y: i64, max_x: i64, max_y: i64) -> (r: BoundBox)
        ensures
            r.min.x == min_x,
            r.min.y == min_y,
            r.max.x == max_x,
            r.max.y == max_y,
    {
        BoundBox { min: Point2::new(min_x, min_y), max: Point2::new(max_x, max_y) }
    }

    pub fn contains(&self, p: Point2) -> (r: bool)
        ensures
            r == self.contains_sp(p),
    {
        self.min.x <= p.x && p.x <= self.max.x && self.min.y <= p.y && p.y <= self.max.y
    }
}

/// Unsigned window dimensions, as the platform layer reports them.
#[derive(Debug, Clone, Copy, PartialEq, Eq, Hash, Structural)]
pub struct DimsRect {
    pub width: u32,
    pub height: u32,
}

impl DimsRect {
    /// The dimensions fit the signed pixel range.
    pub open spec fn wf(self) -> bool {
        self.width <= 0x7fff_ffff && self.height <= 0x7fff_ffff
    }

    pub fn new(width: u32, height: u32) -> (r: DimsRect)
        ensures
            r.width == width,
            r.height == height,
    {
        DimsRect { width, height }
    }

    /// The box with this extent anchored at the origin.
    pub open spec fn into_box_sp(self) -> BoundBox {
        BoundBox {
            min: Point2 { x: 0, y: 0 },
            max: Point2 { x: self.width as i64, y: self.height as i64 },
        }
    }

    /// The box with this extent anchored at the origin.
    pub fn into_box(self) -> (r: BoundBox)
        requires
            self.wf(),
        ensures
            r == self.into_box_sp(),
            r.wf(),
    {
        BoundBox::new2(0, 0, self.width as i64, self.height as i64)
    }
}

proof fn lemma_mul_le(a: int, b: int, m: int, n: int)
    by (nonlinear_arith)
    requires
        0 <= a <= m,
        0 <= b <= n,
    ensures
        0 <= a * b <= m * n,
{
}

/// `v` forced into `[lo, hi]`; unchanged when already inside.
pub fn clamp64(v: i64, lo: i64, hi: i64) -> (r: i64)
    requires
        lo <= hi,
    ensures
        lo <= r <= hi,
        r == v || (v < lo && r == lo) || (v > hi && r == hi),
    {
    if v < lo {
        lo
    } else if v > hi {
        hi
    } else {
        v
    }
}

/// The point where the motion `start -> end` leaves `rect`, given that it
/// begins inside. `None` when the whole motion stays inside. The crossed
/// boundary coordinate is exact; the coordinate along the other axis is
/// interpolated and never leaves the box or the motion's span. Purely
/// horizontal or vertical motions get the geometrically exact answer.
pub fn segment_exit(rect: &BoundBox, start: Point2, end: Point2) -> (r: Option<Point2>)
    requires
        rect.wf(),
        start.in_seg_range(),
        end.in_seg_range(),
        rect.contains_sp(start),
    ensures
        (r is None) <==> rect.contains_sp(end),
        r is Some ==> rect.contains_sp(r->0),
        r is Some ==> rect.on_edge(r->0),
        r is Some ==> between(start.x as int, r->0.x as int, end.x as int),
        r is Some ==> between(start.y as int, r->0.y as int, end.y as int),
        r is Some && start.y == end.y ==> r->0.y == start.y,
        r is Some && start.x == end.x ==> r->0.x == start.x,
        start.y == end.y && end.x > rect.max.x ==> r == Some(Point2 { x: rect.max.x, y: start.y }),
        start.y == end.y && end.x < rect.min.x ==> r == Some(Point2 { x: rect.min.x, y: start.y }),
        start.x == end.x && end.y > rect.max.y ==> r == Some(Point2 { x: start.x, y: rect.max.y }),
        start.x == end.x && end.y < rect.min.y ==> r == Some(Point2 { x: start.x, y: rect.min.y }),
{
    if rect.contains(end) {
        return None;
    }
    let dx = end.x - start.x;
    let dy = end.y - start.y;

    // Fraction of the motion at which each axis' boundary is crossed,
    // as exit_num/exit_den in [0, 1]; den > 0 whenever hit is true.
    let x_hit: bool;
    let x_num: i64;
    let x_den: i64;
    let x_bound: i64;
    if end.x > rect.max.x {
        x_hit = true;
        x_num = rect.max.x - start.x;
        x_den = dx;
        x_bound = rect.max.x;
    } else if end.x < rect.min.x {
        x_hit = true;
        x_num = start.x - rect.min.x;
        x_den = -dx;
        x_bound = rect.min.x;
    } else {
        x_hit = false;
        x_num = 0;
        x_den = 1;
        x_bound = 0;
    }

    let y_hit: bool;
    let y_num: i64;
    let y_den: i64;
    let y_bound: i64;
    if end.y > rect.max.y {
        y_hit = true;
        y_num = rect.max.y - start.y;
        y_den = dy;
        y_bound = rect.max.y;
    } else if end.y < rect.min.y {
        y_hit = true;
        y_num = start.y - rect.min.y;
        y_den = -dy;
        y_bound = rect.min.y;
    } else {
        y_hit = false;
        y_num = 0;
        y_den = 1;
        y_bound = 0;
    }

    let use_x: bool = if x_hit && y_hit {
        proof {
            lemma_mul_le(x_num as int, y_den as int, SEG_LIMIT as int * 4, SEG_LIMIT as int * 4);
            lemma_mul_le(y_num as int, x_den as int, SEG_LIMIT as int * 4, SEG_LIMIT as int * 4);
        }
        (x_num as i128) * (y_den as i128) <= (y_num as i128) * (x_den as i128)
    } else {
        x_hit
    };

    if use_x {
        // The vertical boundary is crossed first: its x is exact, y is
        // interpolated along the motion and kept inside the box.
        let mag = if dy >= 0 { dy } else { -dy };
        proof {
            lemma_mul_le(mag as int, x_num as int, SEG_LIMIT as int * 4, SEG_LIMIT as int * 4);
        }
        let prod = (mag as i128) * (x_num as i128);
        let q0 = prod / (x_den as i128);
        let q = if q0 < 0 {
            0i64
        } else if q0 > mag as i128 {
            mag
        } else {
            q0 as i64
        };
        let y_raw = if dy >= 0 { start.y + q } else { start.y - q };
        let y = clamp64(y_raw, rect.min.y, rect.max.y);
        Some(Point2 { x: x_bound, y })
    } else {
        let mag = if dx >= 0 { dx } else { -dx };
        proof {
            lemma_mul_le(mag as int, y_num as int, SEG_LIMIT as int * 4, SEG_LIMIT as int * 4);
        }
        let prod = (mag as i128) * (y_num as i128);
        let q0 = prod / (y_den as i128);
        let q = if q0 < 0 {
            0i64
        } else if q0 > mag as i128 {
            mag
        } else {
            q0 as i64
        };
        let x_raw = if dx >= 0 { start.x + q } else { start.x - q };
        let x = clamp64(x_raw, rect.min.x, rect.max.x);
        Some(Point2 { x, y: y_bound })
    }
}

/// The point where the motion `start -> end` first enters `rect`, given
/// that it ends inside. `None` when the motion begins inside as well.
pub fn segment_enter(rect: &BoundBox, start: Point2, end: Point2) -> (r: Option<Point2>)
    requires
        rect.wf(),
        start.in_seg_range(),
        end.in_seg_range(),
        rect.contains_sp(end),
    ensures
        (r is None) <==> rect.contains_sp(start),
        r is Some ==> rect.contains_sp(r->0),
        r is Some ==> rect.on_edge(r->0),
        r is Some ==> between(start.x as int, r->0.x as int, end.x as int),
        r is Some ==> between(start.y as int, r->0.y as int, end.y as int),
        r is Some && start.y == end.y ==> r->0.y == start.y,
        r is Some && start.x == end.x ==> r->0.x == start.x,
        start.y == end.y && start.x > rect.max.x ==> r == Some(Point2 { x: rect.max.x, y: start.y }),
        start.y == end.y && start.x < rect.min.x ==> r == Some(Point2 { x: rect.min.x, y: start.y }),
        start.x == end.x && start.y > rect.max.y ==> r == Some(Point2 { x: start.x, y: rect.max.y }),
        start.x == end.x && start.y < rect.min.y ==> r == Some(Point2 { x: start.x, y: rect.min.y }),
{
    segment_exit(rect, end, start)
}

} // verus!
