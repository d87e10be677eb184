//! Geometry: layout-grid rectangles, pixel boxes, and the exact
//! segment/rectangle crossing detection.

use derin_core::bounds::{segment_enter, segment_exit, BoundBox, DimsRect, Point2};
use derin_core::geometry::{OffsetRect, OriginRect, Point, Rect};

#[test]
fn point_and_rect_basics() {
    let p = Point::new(3, 4);
    assert_eq!(p.x, 3);
    assert_eq!(p.y, 4);
    let q = p.add(Point::new(10, 20));
    assert_eq!((q.x, q.y), (13, 24));

    let rect = OffsetRect::new(2, 3, 10, 9);
    assert_eq!(rect.width(), 8);
    assert_eq!(rect.height(), 6);
    let moved = rect.offset(Point::new(5, 5));
    assert_eq!(moved, OffsetRect::new(7, 8, 15, 14));

    let og = OriginRect::new(4, 5);
    assert_eq!(og.width(), 4);
    assert_eq!(og.height(), 5);
    assert_eq!(og.offset(Point::new(1, 2)), OffsetRect::new(1, 2, 5, 7));
}

#[test]
fn rect_union_covers_both() {
    let a = OffsetRect::new(0, 0, 4, 4);
    let b = OffsetRect::new(2, 1, 10, 3);
    let u = a.bitor(b);
    assert_eq!(u, OffsetRect::new(0, 0, 10, 4));
}

#[test]
fn rect_conversions_round() {
    let og = OriginRect::new(7, 9);
    let off: OffsetRect = og.into();
    assert_eq!(off, OffsetRect::new(0, 0, 7, 9));
    let back: OriginRect = off.into();
    assert_eq!(back, og);
    let shifted = OffsetRect::new(5, 5, 12, 14);
    let sized: OriginRect = shifted.into();
    assert_eq!(sized, OriginRect::new(7, 9));
}

#[test]
fn dims_into_box() {
    let d = DimsRect::new(800, 600);
    let b = d.into_box();
    assert_eq!(b, BoundBox::new2(0, 0, 800, 600));
    assert!(b.contains(Point2::new(800, 600)));
    assert!(!b.contains(Point2::new(801, 600)));
}

#[test]
fn segment_crossing_exact_exit() {
    // the motion from (5,5) to (15,5) leaves [(0,0),(10,10)] at (10,5)
    let rect = BoundBox::new2(0, 0, 10, 10);
    let exit = segment_exit(&rect, Point2::new(5, 5), Point2::new(15, 5));
    assert_eq!(exit, Some(Point2::new(10, 5)));
}

#[test]
fn segment_crossing_stays_inside() {
    let rect = BoundBox::new2(0, 0, 10, 10);
    assert_eq!(segment_exit(&rect, Point2::new(5, 5), Point2::new(9, 9)), None);
    // boundary is inclusive
    assert_eq!(segment_exit(&rect, Point2::new(5, 5), Point2::new(10, 10)), None);
}

#[test]
fn segment_crossing_other_axes() {
    let rect = BoundBox::new2(0, 0, 10, 10);
    assert_eq!(
        segment_exit(&rect, Point2::new(5, 5), Point2::new(5, -7)),
        Some(Point2::new(5, 0))
    );
    assert_eq!(
        segment_exit(&rect, Point2::new(5, 5), Point2::new(-1, 5)),
        Some(Point2::new(0, 5))
    );
    assert_eq!(
        segment_exit(&rect, Point2::new(5, 5), Point2::new(5, 25)),
        Some(Point2::new(5, 10))
    );
}

#[test]
fn segment_crossing_diagonal() {
    let rect = BoundBox::new2(0, 0, 10, 10);
    // from the center to far right-and-down: leaves through the right
    // edge halfway down the remaining run
    let exit = segment_exit(&rect, Point2::new(5, 5), Point2::new(25, 15)).unwrap();
    assert_eq!(exit.x, 10);
    assert!(rect.contains(exit));
    assert!(5 <= exit.y && exit.y <= 15);
}

#[test]
fn segment_entry_exact() {
    let rect = BoundBox::new2(0, 0, 10, 10);
    let enter = segment_enter(&rect, Point2::new(15, 5), Point2::new(5, 5));
    assert_eq!(enter, Some(Point2::new(10, 5)));
    assert_eq!(segment_enter(&rect, Point2::new(5, 5), Point2::new(6, 5)), None);
}
