use gridgen::grid::Point;
use gridgen::rect::{abs_diff, halve, Rect};

#[test]
fn with_size_sets_second_corner() {
    let r = Rect::with_size(2, 3, 10, 5);
    assert_eq!((r.x1, r.y1, r.x2, r.y2), (2, 3, 12, 8));
    assert_eq!(r, Rect::with_exact(2, 3, 12, 8));
    assert_eq!(Rect::zero(), Rect::with_exact(0, 0, 0, 0));
}

#[test]
fn width_and_height() {
    let r = Rect::with_size(0, 0, 10, 7);
    assert_eq!(r.width(), 10);
    assert_eq!(r.height(), 7);
    let flipped = Rect::with_exact(10, 7, 0, 0);
    assert_eq!(flipped.width(), 10);
    assert_eq!(flipped.height(), 7);
}

#[test]
fn center_rounds_towards_zero() {
    assert_eq!(Rect::with_exact(0, 0, 10, 10).center(), Point::new(5, 5));
    assert_eq!(Rect::with_exact(1, 1, 4, 6).center(), Point::new(2, 3));
    assert_eq!(Rect::with_exact(-5, -5, 0, 2).center(), Point::new(-2, -1));
    assert_eq!(halve(7), 3);
    assert_eq!(halve(-7), -3);
    assert_eq!(halve(-8), -4);
    assert_eq!(halve(i32::MIN), -1073741824);
    assert_eq!(halve(i32::MAX), 1073741823);
}

#[test]
fn intersect_counts_both_corners() {
    let a = Rect::with_exact(0, 0, 5, 5);
    assert!(a.intersect(&Rect::with_exact(5, 5, 9, 9)));
    assert!(a.intersect(&Rect::with_exact(2, 2, 3, 3)));
    assert!(!a.intersect(&Rect::with_exact(6, 0, 9, 5)));
    assert!(!a.intersect(&Rect::with_exact(0, 6, 5, 9)));
    assert!(Rect::with_exact(6, 0, 9, 5).grown(1).intersect(&a));
}

#[test]
fn point_in_rect_is_half_open() {
    let r = Rect::with_exact(1, 1, 4, 3);
    assert!(r.point_in_rect(Point::new(1, 1)));
    assert!(r.point_in_rect(Point::new(3, 2)));
    assert!(!r.point_in_rect(Point::new(4, 2)));
    assert!(!r.point_in_rect(Point::new(3, 3)));
    assert!(!r.point_in_rect(Point::new(0, 1)));
}

#[test]
fn grown_pushes_every_side() {
    let r = Rect::with_exact(3, 4, 7, 9).grown(2);
    assert_eq!(r, Rect::with_exact(1, 2, 9, 11));
}

#[test]
fn abs_diff_is_symmetric() {
    assert_eq!(abs_diff(3, 10), 7);
    assert_eq!(abs_diff(10, 3), 7);
    assert_eq!(abs_diff(-4, 4), 8);
    assert_eq!(abs_diff(5, 5), 0);
}
