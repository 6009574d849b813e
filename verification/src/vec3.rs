//! Fixed-point 3D vectors. `Vec3` is the executable value (components in
//! `FP` sub-units); `V3` is its mathematical shadow with unbounded integer
//! components, and every operation's contract is stated over `V3`.
use vstd::prelude::*;
use crate::num::{
    div_fp, div_t, isqrt, lemma_div_t_scaled_bound, lemma_dot_abs_bound, lemma_mul_abs_bound,
    sqrt_floor,
};
use crate::FP;

verus! {

/// The mathematical value of a vector: unbounded integer components.
pub struct V3 {
    pub x: int,
    pub y: int,
    pub z: int,
}

/// An executable vector, components in fixed-point sub-units.
#[derive(Clone, Copy, PartialEq, Eq, Structural, Debug)]
pub struct Vec3 {
    pub x: i64,
    pub y: i64,
    pub z: i64,
}

impl View for Vec3 {
    type V = V3;

    open spec fn view(&self) -> V3 {
        V3 { x: self.x as int, y: self.y as int, z: self.z as int }
    }
}

/// Componentwise sum.
pub open spec fn vadd(a: V3, b: V3) -> V3 {
    V3 { x: a.x + b.x, y: a.y + b.y, z: a.z + b.z }
}

/// Componentwise difference.
pub open spec fn vsub(a: V3, b: V3) -> V3 {
    V3 { x: a.x - b.x, y: a.y - b.y, z: a.z - b.z }
}

/// Componentwise negation.
pub open spec fn vneg(a: V3) -> V3 {
    V3 { x: -a.x, y: -a.y, z: -a.z }
}

/// Scaling by an integer factor.
pub open spec fn vscale(a: V3, k: int) -> V3 {
    V3 { x: a.x * k, y: a.y * k, z: a.z * k }
}

/// The standard sum-of-products dot product.
pub open spec fn vdot(a: V3, b: V3) -> int {
    a.x * b.x + a.y * b.y + a.z * b.z
}

/// The right-handed cross product.
pub open spec fn vcross(a: V3, b: V3) -> V3 {
    V3 {
        x: a.y * b.z - a.z * b.y,
        y: a.z * b.x - a.x * b.z,
        z: a.x * b.y - a.y * b.x,
    }
}

/// Every component within `[-b, b]`.
pub open spec fn in_rangev(a: V3, b: int) -> bool {
    &&& -b <= a.x <= b
    &&& -b <= a.y <= b
    &&& -b <= a.z <= b
}

/// Fixed-point normalization: each component is scaled by `FP` and divided by
/// the floor of the Euclidean length; the zero vector maps to itself.
pub open spec fn norm_spec(v: V3) -> V3 {
    let s = vdot(v, v);
    if s == 0 {
        V3 { x: 0, y: 0, z: 0 }
    } else {
        let l = sqrt_floor(s);
        V3 { x: div_t(v.x * FP, l), y: div_t(v.y * FP, l), z: div_t(v.z * FP, l) }
    }
}

/// A dot product of a vector with itself is nonnegative.
pub proof fn lemma_vdot_self_nonneg(a: V3)
    by (nonlinear_arith)
    ensures
        vdot(a, a) >= 0,
{
}

/// Bound on a dot product from bounds on its operands.
pub proof fn lemma_vdot_bound(a: V3, b: V3, aa: int, bb: int)
    requires
        in_rangev(a, aa),
        in_rangev(b, bb),
    ensures
        -(3 * aa * bb) <= vdot(a, b) <= 3 * aa * bb,
{
    lemma_dot_abs_bound(a.x, a.y, a.z, b.x, b.y, b.z, aa, bb);
}

/// Bound on a cross product from bounds on its operands.
pub proof fn lemma_vcross_bound(a: V3, b: V3, aa: int, bb: int)
    requires
        in_rangev(a, aa),
        in_rangev(b, bb),
    ensures
        in_rangev(vcross(a, b), 2 * aa * bb),
{
    assert(2 * aa * bb == aa * bb + aa * bb) by (nonlinear_arith);
    lemma_mul_abs_bound(a.y, b.z, aa, bb);
    lemma_mul_abs_bound(a.z, b.y, aa, bb);
    lemma_mul_abs_bound(a.z, b.x, aa, bb);
    lemma_mul_abs_bound(a.x, b.z, aa, bb);
    lemma_mul_abs_bound(a.x, b.y, aa, bb);
    lemma_mul_abs_bound(a.y, b.x, aa, bb);
}

impl Vec3 {
    /// Build a vector from raw fixed-point components.
    pub fn new(x: i64, y: i64, z: i64) -> (r: Vec3)
        ensures
            r@ == (V3 { x: x as int, y: y as int, z: z as int }),
    {
        Vec3 { x, y, z }
    }

    /// Vector sum.
    pub fn add_v(&self, o: &Vec3) -> (r: Vec3)
        requires
            in_rangev(self@, 0x3fffffffffffffff),
            in_rangev(o@, 0x3fffffffffffffff),
        ensures
            r@ == vadd(self@, o@),
    {
        Vec3 { x: self.x + o.x, y: self.y + o.y, z: self.z + o.z }
    }

    /// Vector difference.
    pub fn sub_v(&self, o: &Vec3) -> (r: Vec3)
        requires
            in_rangev(self@, 0x3fffffffffffffff),
            in_rangev(o@, 0x3fffffffffffffff),
        ensures
            r@ == vsub(self@, o@),
    {
        Vec3 { x: self.x - o.x, y: self.y - o.y, z: self.z - o.z }
    }

    /// Vector negation.
    pub fn neg_v(&self) -> (r: Vec3)
        requires
            in_rangev(self@, 0x3fffffffffffffff),
        ensures
            r@ == vneg(self@),
    {
        Vec3 { x: -self.x, y: -self.y, z: -self.z }
    }

    /// Scaling by an integer factor.
    pub fn scale_v(&self, k: i64) -> (r: Vec3)
        requires
            in_rangev(self@, 0x7fffffff),
            -0x7fffffff <= k <= 0x7fffffff,
        ensures
            r@ == vscale(self@, k as int),
    {
        proof {
            lemma_mul_abs_bound(self@.x, k as int, 0x7fffffff, 0x7fffffff);
            lemma_mul_abs_bound(self@.y, k as int, 0x7fffffff, 0x7fffffff);
            lemma_mul_abs_bound(self@.z, k as int, 0x7fffffff, 0x7fffffff);
        }
        Vec3 { x: self.x * k, y: self.y * k, z: self.z * k }
    }

    /// Dot product, widened so that it cannot overflow.
    pub fn dot_v(&self, o: &Vec3) -> (r: i128)
        requires
            in_rangev(self@, 0x4000000000000000),
            in_rangev(o@, 0x4000000000000000),
        ensures
            r == vdot(self@, o@),
    {
        proof {
            lemma_dot_abs_bound(
                self@.x, self@.y, self@.z, o@.x, o@.y, o@.z,
                0x4000000000000000, 0x4000000000000000,
            );
            lemma_mul_abs_bound(self@.x, o@.x, 0x4000000000000000, 0x4000000000000000);
            lemma_mul_abs_bound(self@.y, o@.y, 0x4000000000000000, 0x4000000000000000);
            lemma_mul_abs_bound(self@.z, o@.z, 0x4000000000000000, 0x4000000000000000);
        }
        (self.x as i128) * (o.x as i128) + (self.y as i128) * (o.y as i128)
            + (self.z as i128) * (o.z as i128)
    }

    /// The floor of the Euclidean length, in fixed-point sub-units.
    pub fn length(&self) -> (r: i64)
        requires
            in_rangev(self@, 0x1000000000000000),
        ensures
            r == sqrt_floor(vdot(self@, self@)),
            0 <= r <= 0x2000000000000000,
    {
        proof {
            lemma_vdot_self_nonneg(self@);
            lemma_vdot_bound(self@, self@, 0x1000000000000000, 0x1000000000000000);
        }
        let s: i128 = self.dot_v(self);
        let l: u64 = isqrt(s as u128);
        proof {
            assert(l as int <= 0x2000000000000000) by (nonlinear_arith)
                requires
                    0 <= l as int,
                    (l as int) * (l as int) <= s as int,
                    s as int <= 3 * 0x1000000000000000 * 0x1000000000000000,
            ;
        }
        l as i64
    }

    /// Fixed-point unit vector in the direction of `self` (zero stays zero).
    /// The result's components never exceed `FP` in magnitude.
    pub fn normalize(&self) -> (r: Vec3)
        requires
            in_rangev(self@, 0x1000000000000000),
        ensures
            r@ == norm_spec(self@),
            in_rangev(r@, FP as int),
    {
        proof {
            lemma_vdot_self_nonneg(self@);
            lemma_vdot_bound(self@, self@, 0x1000000000000000, 0x1000000000000000);
        }
        let s: i128 = self.dot_v(self);
        if s == 0 {
            return Vec3 { x: 0, y: 0, z: 0 };
        }
        let l: u64 = isqrt(s as u128);
        proof {
            if l == 0 {
                assert((s as int) < (0 + 1) * (0 + 1));
            }
        }
        let li: i128 = l as i128;
        proof {
            assert(self@.y * self@.y >= 0 && self@.z * self@.z >= 0 && self@.x * self@.x >= 0)
                by (nonlinear_arith);
            assert(self@.x * self@.x <= vdot(self@, self@) && self@.y * self@.y <= vdot(self@, self@)
                && self@.z * self@.z <= vdot(self@, self@));
            lemma_component_le_sqrt(self@.x, s as int, l as int);
            lemma_component_le_sqrt(self@.y, s as int, l as int);
            lemma_component_le_sqrt(self@.z, s as int, l as int);
            lemma_mul_abs_bound(self@.x, FP as int, l as int, FP as int);
            lemma_mul_abs_bound(self@.y, FP as int, l as int, FP as int);
            lemma_mul_abs_bound(self@.z, FP as int, l as int, FP as int);
            assert(l as int * (FP as int) == (FP as int) * (l as int)) by (nonlinear_arith);
            lemma_div_t_scaled_bound(self@.x * FP, l as int, FP as int);
            lemma_div_t_scaled_bound(self@.y * FP, l as int, FP as int);
            lemma_div_t_scaled_bound(self@.z * FP, l as int, FP as int);
        }
        let rx: i128 = div_fp((self.x as i128) * (FP as i128), li);
        let ry: i128 = div_fp((self.y as i128) * (FP as i128), li);
        let rz: i128 = div_fp((self.z as i128) * (FP as i128), li);
        Vec3 { x: rx as i64, y: ry as i64, z: rz as i64 }
    }
}

/// A component of a vector is bounded by the floor square root of the
/// vector's squared length.
proof fn lemma_component_le_sqrt(c: int, s: int, l: int)
    by (nonlinear_arith)
    requires
        c * c <= s,
        0 <= l,
        s < (l + 1) * (l + 1),
    ensures
        -l <= c <= l,
{
}

/// A widened vector for intermediate products that outgrow `i64`.
pub struct Wide3 {
    pub x: i128,
    pub y: i128,
    pub z: i128,
}

impl View for Wide3 {
    type V = V3;

    open spec fn view(&self) -> V3 {
        V3 { x: self.x as int, y: self.y as int, z: self.z as int }
    }
}

/// Cross product, widened so that it cannot overflow.
pub fn cross_wide(a: &Vec3, b: &Vec3) -> (r: Wide3)
    requires
        in_rangev(a@, 0x1000000000000),
        in_rangev(b@, 0x1000000000000),
    ensures
        r@ == vcross(a@, b@),
{
    proof {
        lemma_mul_abs_bound(a@.y, b@.z, 0x1000000000000, 0x1000000000000);
        lemma_mul_abs_bound(a@.z, b@.y, 0x1000000000000, 0x1000000000000);
        lemma_mul_abs_bound(a@.z, b@.x, 0x1000000000000, 0x1000000000000);
        lemma_mul_abs_bound(a@.x, b@.z, 0x1000000000000, 0x1000000000000);
        lemma_mul_abs_bound(a@.x, b@.y, 0x1000000000000, 0x1000000000000);
        lemma_mul_abs_bound(a@.y, b@.x, 0x1000000000000, 0x1000000000000);
    }
    Wide3 {
        x: (a.y as i128) * (b.z as i128) - (a.z as i128) * (b.y as i128),
        y: (a.z as i128) * (b.x as i128) - (a.x as i128) * (b.z as i128),
        z: (a.x as i128) * (b.y as i128) - (a.y as i128) * (b.x as i128),
    }
}

/// Dot product of a widened vector with a narrow one.
pub fn dot_wv(w: &Wide3, v: &Vec3) -> (r: i128)
    requires
        in_rangev(w@, 0x10000000000000000000),
        in_rangev(v@, 0x4000000000),
    ensures
        r == vdot(w@, v@),
{
    proof {
        lemma_dot_abs_bound(
            w@.x, w@.y, w@.z, v@.x, v@.y, v@.z,
            0x10000000000000000000, 0x4000000000,
        );
        lemma_mul_abs_bound(w@.x, v@.x, 0x10000000000000000000, 0x4000000000);
        lemma_mul_abs_bound(w@.y, v@.y, 0x10000000000000000000, 0x4000000000);
        lemma_mul_abs_bound(w@.z, v@.z, 0x10000000000000000000, 0x4000000000);
    }
    w.x * (v.x as i128) + w.y * (v.y as i128) + w.z * (v.z as i128)
}

/// Dot product of two widened vectors.
pub fn dot_ww(a: &Wide3, b: &Wide3) -> (r: i128)
    requires
        in_rangev(a@, 0x1000000000000000),
        in_rangev(b@, 0x1000000000000000),
    ensures
        r == vdot(a@, b@),
{
    proof {
        lemma_dot_abs_bound(
            a@.x, a@.y, a@.z, b@.x, b@.y, b@.z,
            0x1000000000000000, 0x1000000000000000,
        );
        lemma_mul_abs_bound(a@.x, b@.x, 0x1000000000000000, 0x1000000000000000);
        lemma_mul_abs_bound(a@.y, b@.y, 0x1000000000000000, 0x1000000000000000);
        lemma_mul_abs_bound(a@.z, b@.z, 0x1000000000000000, 0x1000000000000000);
    }
    a.x * b.x + a.y * b.y + a.z * b.z
}

} // verus!
