use dualmap::{Point, Rect};

#[test]
fn test_point_new_and_zero() {
    let p = Point::new(3i64, -4i64);
    assert_eq!(p.x, 3);
    assert_eq!(p.y, -4);
    let z = Point::zero();
    assert_eq!(z, Point::new(0, 0));
    assert!(z.is_zero());
    assert!(!p.is_zero());
}

#[test]
fn test_point_arithmetic() {
    let a = Point::new(1i64, 2i64);
    let b = Point::new(10i64, 20i64);
    assert_eq!(a + b, Point::new(11, 22));
    assert_eq!(b - a, Point::new(9, 18));
    assert_eq!(a * 3, Point::new(3, 6));
    assert_eq!(-a, Point::new(-1, -2));
}

#[test]
fn test_point_dot() {
    let a = Point::new(2i64, 3i64);
    let b = Point::new(4i64, 5i64);
    assert_eq!(a.dot(b), 23);
    assert_eq!(Point::new(1i64, 0i64).dot(Point::new(0i64, 1i64)), 0);
}

#[test]
fn test_rect_construction() {
    let r = Rect::new(Point::new(1i64, 2i64), Point::new(3i64, 4i64));
    assert_eq!(r.p1, Point::new(1, 2));
    assert_eq!(r.p2, Point::new(3, 4));
    let c = Rect::from_coords(1i64, 2i64, 3i64, 4i64);
    assert_eq!(c, r);
}

#[test]
fn test_rect_normalized() {
    let r = Rect::from_coords(5i64, 1i64, 2i64, 7i64).normalized();
    assert_eq!(r.p1, Point::new(2, 1));
    assert_eq!(r.p2, Point::new(5, 7));
}

#[test]
fn test_rect_contains() {
    let r = Rect::from_coords(5i64, 1i64, 2i64, 7i64);
    assert!(r.contains(Point::new(3, 4)));
    assert!(r.contains(Point::new(2, 1)));
    assert!(r.contains(Point::new(5, 7)));
    assert!(!r.contains(Point::new(1, 4)));
    assert!(!r.contains(Point::new(3, 8)));
}

#[test]
fn test_rect_dimensions() {
    let r = Rect::from_coords(5i64, 1i64, 2i64, 7i64);
    assert_eq!(r.width(), 3);
    assert_eq!(r.height(), 6);
    assert_eq!(r.area(), 18);
}

#[test]
fn test_rect_map() {
    let r = Rect::from_coords(1i64, 2i64, 3i64, 4i64);
    let doubled = r.map(|v| v * 2);
    assert_eq!(doubled, Rect::from_coords(2i64, 4i64, 6i64, 8i64));
    let shifted = r.map(|v| v + 10);
    assert_eq!(shifted, Rect::from_coords(11i64, 12i64, 13i64, 14i64));
}
