use ascii_render::vec3::Vec3;
use ascii_render::FP;

#[test]
fn vector_arithmetic_follows_the_euclidean_formulas() {
    let a = Vec3::new(1, 2, 3);
    let b = Vec3::new(4, -5, 6);
    let sum = a.add_v(&b);
    assert_eq!((sum.x, sum.y, sum.z), (5, -3, 9));
    let diff = a.sub_v(&b);
    assert_eq!((diff.x, diff.y, diff.z), (-3, 7, -3));
    let neg = a.neg_v();
    assert_eq!((neg.x, neg.y, neg.z), (-1, -2, -3));
    let scaled = a.scale_v(10);
    assert_eq!((scaled.x, scaled.y, scaled.z), (10, 20, 30));
    assert_eq!(a.dot_v(&b), 4 - 10 + 18);
}

#[test]
fn cross_product_is_right_handed() {
    let x = Vec3::new(FP, 0, 0);
    let y = Vec3::new(0, FP, 0);
    let c = ascii_render::vec3::cross_wide(&x, &y);
    assert_eq!((c.x, c.y, c.z), (0, 0, (FP as i128) * (FP as i128)));
}

#[test]
fn length_is_the_floor_of_the_euclidean_norm() {
    assert_eq!(Vec3::new(3, 4, 0).length(), 5);
    assert_eq!(Vec3::new(1, 1, 1).length(), 1);
    assert_eq!(Vec3::new(0, 0, 0).length(), 0);
    assert_eq!(Vec3::new(0, 0, -7 * FP).length(), 7 * FP);
}

#[test]
fn normalize_gives_a_unit_fixed_point_vector() {
    let n = Vec3::new(0, 0, 5 * FP).normalize();
    assert_eq!((n.x, n.y, n.z), (0, 0, FP));
    let m = Vec3::new(-3000, 0, 0).normalize();
    assert_eq!((m.x, m.y, m.z), (-FP, 0, 0));
    let z = Vec3::new(0, 0, 0).normalize();
    assert_eq!((z.x, z.y, z.z), (0, 0, 0));
    // A diagonal: each component is FP/sqrt(3), truncated.
    let d = Vec3::new(FP, FP, FP).normalize();
    assert_eq!((d.x, d.y, d.z), (591, 591, 591));
}
