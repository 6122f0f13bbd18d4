use ecs_core::{Rect, Vec2, Vec3};

#[test]
fn rect() {
    let rects = vec![
        Rect::new(Vec2::new(2, 2), Vec2::new(8, 8)),
        Rect::from_bounds(2, 2, 8, 8),
        Rect::with_size(Vec2::new(2, 2), Vec2::new(6, 6)),
        Rect::with_center(Vec2::new(5, 5), Vec2::new(6, 6)),
    ];
    assert_eq!(rects[0].min, rects[1].min);
    assert_eq!(rects[0].max, rects[1].max);
    assert_eq!(rects[0].min, rects[2].min);
    assert_eq!(rects[0].max, rects[2].max);
    assert_eq!(rects[0].min, rects[3].min);
    assert_eq!(rects[0].max, rects[3].max);

    let mut r1 = rects[0].clone();
    r1.translate(Vec2::new(4, 2));
    assert_eq!(r1.min, Vec2::new(6, 4));
    assert_eq!(r1.max, Vec2::new(12, 10));

    r1.scale(Vec2::new(3, 2));
    assert_eq!(r1.min, Vec2::new(18, 8));
    assert_eq!(r1.max, Vec2::new(36, 20));

    assert_eq!(r1.contains(Vec2::new(20, 15)), true);
    assert_eq!(r1.contains(Vec2::new(20, 21)), false);
    assert_eq!(r1.contains(Vec2::new(20, 5)), false);
    assert_eq!(r1.contains(Vec2::new(17, 15)), false);
    assert_eq!(r1.contains(Vec2::new(37, 15)), false);

    let mut r2 = r1.clone();
    r2.translate(r1.size() / 2);
    assert_eq!(r1.overlaps(r2), true);

    let mut r3 = r1.clone();
    r3.translate(r1.size() + Vec2::new(1, 1));
    assert_eq!(r1.overlaps(r3), false);
}

#[test]
fn vec2() {
    assert_eq!(Vec2::new(14, 46), Vec2::new(14, 46));

    let mut v1 = Vec2::new(6, 2);
    let v2 = Vec2::new(2, 2);

    assert_eq!(v1 + v2, Vec2::new(8, 4));
    assert_eq!(v1 - v2, Vec2::new(4, 0));
    assert_eq!(v1 * v2, Vec2::new(12, 4));
    assert_eq!(v1 / v2, Vec2::new(3, 1));

    v1 += v2;
    assert_eq!(v1, Vec2::new(8, 4));
    v1 -= v2;
    assert_eq!(v1, Vec2::new(6, 2));
    v1 *= v2;
    assert_eq!(v1, Vec2::new(12, 4));
    v1 = v1 / v2;
    assert_eq!(v1, Vec2::new(6, 2));
}

#[test]
fn rect_edges_count_as_inside() {
    let r = Rect::new(Vec2::new(0, 0), Vec2::new(10, 10));
    assert!(r.contains(Vec2::new(0, 10)));
    assert!(r.overlaps(Rect::new(Vec2::new(10, 10), Vec2::new(20, 20))));
    assert!(!r.overlaps(Rect::new(Vec2::new(11, 0), Vec2::new(20, 20))));
}

#[test]
fn with_center_rounds_half_size_toward_zero() {
    let r = Rect::with_center(Vec2::new(0, 0), Vec2::new(5, -5));
    assert_eq!(r.min, Vec2::new(-2, 2));
    assert_eq!(r.max, Vec2::new(2, -2));
}

#[test]
fn vector_scalar_and_signed_division() {
    assert_eq!(Vec2::new(-7, 7) / Vec2::new(2, -2), Vec2::new(-3, -3));
    assert_eq!(Vec2::new(3, -4) * 5, Vec2::new(15, -20));
    assert_eq!(Vec2::new(9, -9) / 2, Vec2::new(4, -4));
    let mut v = Vec2::new(1, 2);
    v *= 3;
    assert_eq!(v, Vec2::new(3, 6));
    let mut w = Vec2::new(i32::MAX, 0);
    w += Vec2::new(1, 0);
    assert_eq!(w, Vec2::new(i32::MIN, 0));
    assert_eq!(Vec2::zero(), Vec2::new(0, 0));
}

#[test]
fn vec3_arithmetic() {
    let a = Vec3::new(1, 2, 3);
    let b = Vec3::new(4, 5, 6);
    assert_eq!(a + b, Vec3::new(5, 7, 9));
    assert_eq!(b - a, Vec3::new(3, 3, 3));
    assert_eq!(a * b, Vec3::new(4, 10, 18));
    assert_eq!(b / a, Vec3::new(4, 2, 2));
    assert_eq!(a * 2, Vec3::new(2, 4, 6));
    assert_eq!(b / 2, Vec3::new(2, 2, 3));
    let mut c = a;
    c += b;
    c -= a;
    c *= a;
    assert_eq!(c, Vec3::new(4, 10, 18));
    assert_eq!(Vec3::zero(), Vec3::new(0, 0, 0));
}
