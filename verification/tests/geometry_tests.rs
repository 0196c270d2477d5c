use tinyrender::geometry::{mn, mx, Convert, Line, Point, Triangle};
use tinyrender::geometry3::{Line3, Point3, Triangle3, Vec3};

#[test]
fn mx_picks_the_larger() {
    assert_eq!(mx(3, 7), 7);
    assert_eq!(mx(7, 3), 7);
    assert_eq!(mx(-2i64, -5i64), -2);
    assert_eq!(mx(4u8, 4u8), 4);
}

#[test]
fn mn_picks_the_smaller() {
    assert_eq!(mn(3, 7), 3);
    assert_eq!(mn(7, 3), 3);
    assert_eq!(mn(-2i64, -5i64), -5);
}

#[test]
fn mx_mn_with_floats_and_nan() {
    assert_eq!(mx(1.5f32, 0.0f32), 1.5);
    assert_eq!(mx(-1.0f32, 0.0f32), 0.0);
    // An incomparable pair gives the second argument.
    assert_eq!(mx(f32::NAN, 2.0f32), 2.0);
    assert!(mx(2.0f32, f32::NAN).is_nan());
    assert_eq!(mn(f32::NAN, 2.0f32), 2.0);
}

#[test]
fn mn_mx_split_a_pair() {
    for (a, b) in [(1, 2), (2, 1), (5, 5), (-3, 9)] {
        let (lo, hi) = (mn(a, b), mx(a, b));
        assert!(lo <= hi);
        assert!((lo, hi) == (a, b) || (lo, hi) == (b, a));
    }
}

#[test]
fn convert_identity_and_casts() {
    assert_eq!(Convert::<i32>::convert(17i32), 17);
    let u: usize = Convert::<usize>::convert(5i32);
    assert_eq!(u, 5);
    let p: Point<i32> = (3, 4).convert();
    assert!(p == Point { x: 3, y: 4 });
    let q: Point3<i32> = (1, 2, 3).convert();
    assert!(q == Point3 { x: 1, y: 2, z: 3 });
}

#[test]
fn triangle_from_pairs() {
    let t = Triangle::<i32>::from((0, 5), Point { x: 1, y: 2 }, (4, 4));
    assert!(t.a == Point { x: 0, y: 5 });
    assert!(t.b == Point { x: 1, y: 2 });
    assert!(t.c == Point { x: 4, y: 4 });
    let u: Triangle<i32> = ((0, 5), (1, 2), (4, 4)).convert();
    assert!(u == t);
}

#[test]
fn normalize_by_y_sorts_corners() {
    let orders = [
        [(0, 1), (1, 2), (2, 3)],
        [(0, 1), (2, 3), (1, 2)],
        [(1, 2), (0, 1), (2, 3)],
        [(1, 2), (2, 3), (0, 1)],
        [(2, 3), (0, 1), (1, 2)],
        [(2, 3), (1, 2), (0, 1)],
    ];
    for o in orders.iter() {
        let mut t = Triangle::<i32>::from(o[0], o[1], o[2]);
        t.normalize_by_y();
        assert!(t.a == Point { x: 0, y: 1 });
        assert!(t.b == Point { x: 1, y: 2 });
        assert!(t.c == Point { x: 2, y: 3 });
    }
}

#[test]
fn normalize_by_y_keeps_equal_heights() {
    let mut t = Triangle::<i32>::from((5, 1), (6, 1), (7, 0));
    t.normalize_by_y();
    assert!(t.a == Point { x: 7, y: 0 });
    assert!(t.a.y <= t.b.y && t.b.y <= t.c.y);
    let xs = [t.a.x, t.b.x, t.c.x];
    assert!(xs.contains(&5) && xs.contains(&6) && xs.contains(&7));
}

#[test]
fn normalize3_by_y_sorts_corners() {
    let mut t = Triangle3::<i32>::from((1, 9, 0), (2, -4, 1), (3, 2, 2));
    t.normalize_by_y();
    assert!(t.a == Point3 { x: 2, y: -4, z: 1 });
    assert!(t.b == Point3 { x: 3, y: 2, z: 2 });
    assert!(t.c == Point3 { x: 1, y: 9, z: 0 });
}

#[test]
fn normalize3_by_y_with_floats() {
    let mut t = Triangle3::<f32>::from((0.0f32, 3.5f32, 0.0f32), (1.0, 1.5, 0.0), (2.0, 2.5, 0.0));
    t.normalize_by_y();
    assert_eq!((t.a.y, t.b.y, t.c.y), (1.5, 2.5, 3.5));
}

#[test]
fn vec3_from_converts_components() {
    let v = Vec3::<i32>::from(1, 2, 3);
    assert!(v == Vec3 { dx: 1, dy: 2, dz: 3 });
}

#[test]
fn point3_difference() {
    let a = Point3 { x: 5, y: 7, z: 9 };
    let b = Point3 { x: 1, y: 2, z: 3 };
    assert!(a - b == Vec3 { dx: 4, dy: 5, dz: 6 });
}

#[test]
fn cross_product_formula() {
    let u = Vec3 { dx: 4, dy: 5, dz: 6 };
    let v = Vec3 { dx: 1, dy: 0, dz: 0 };
    assert!((u ^ v) == Vec3 { dx: 0, dy: -6, dz: 5 });
    let x = Vec3 { dx: 1, dy: 0, dz: 0 };
    let y = Vec3 { dx: 0, dy: 1, dz: 0 };
    // `u ^ v` is `v × u`.
    assert!((x ^ y) == Vec3 { dx: 0, dy: 0, dz: -1 });
}

#[test]
fn cross_product_is_orthogonal() {
    let u = Vec3 { dx: 3, dy: -7, dz: 2 };
    let v = Vec3 { dx: -1, dy: 4, dz: 9 };
    let c = u ^ v;
    assert_eq!(c * u, 0);
    assert_eq!(c * v, 0);
}

#[test]
fn dot_and_scale() {
    let u = Vec3 { dx: 1, dy: 2, dz: 3 };
    let v = Vec3 { dx: 4, dy: 5, dz: 6 };
    assert_eq!(u * v, 32);
    assert!(u * 3 == Vec3 { dx: 3, dy: 6, dz: 9 });
}

#[test]
fn lines_hold_their_ends() {
    let l = Line { a: Point { x: 1, y: 2 }, b: Point { x: 3, y: 4 } };
    assert_eq!(l.b.x, 3);
    let l3 = Line3 { a: Point3 { x: 1, y: 2, z: 3 }, b: Point3 { x: 4, y: 5, z: 6 } };
    assert_eq!(l3.a.z, 3);
}

#[test]
fn normalize_by_y_twice_is_once() {
    for o in [[(0, 3), (1, 1), (2, 2)], [(0, 1), (1, 1), (2, 0)], [(4, 2), (5, 2), (6, 2)]] {
        let mut once = Triangle::<i32>::from(o[0], o[1], o[2]);
        once.normalize_by_y();
        let mut twice = once;
        twice.normalize_by_y();
        assert!(once == twice);
    }
    let mut t3 = Triangle3::<i32>::from((0, 7, 1), (1, 7, 2), (2, -1, 3));
    t3.normalize_by_y();
    let mut again = t3;
    again.normalize_by_y();
    assert!(again == t3);
}

#[test]
fn normalize_by_y_ignores_input_order() {
    let (p, q, r) = ((0, 4, 9), (1, -2, 8), (2, 6, 7));
    let orders = [(p, q, r), (p, r, q), (q, p, r), (q, r, p), (r, p, q), (r, q, p)];
    let mut first = Triangle3::<i32>::from(p, q, r);
    first.normalize_by_y();
    for (a, b, c) in orders {
        let mut t = Triangle3::<i32>::from(a, b, c);
        t.normalize_by_y();
        assert!(t == first);
        let mut t2 = Triangle::<i32>::from((a.0, a.1), (b.0, b.1), (c.0, c.1));
        t2.normalize_by_y();
        assert!(t2 == Triangle::<i32>::from((first.a.x, first.a.y), (first.b.x, first.b.y), (first.c.x, first.c.y)));
    }
}
