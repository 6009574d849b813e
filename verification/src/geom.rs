//! Rays and the two primitives, sphere and triangle, with exact fixed-point
//! intersection tests. Each executable test is pinned to a spec-level
//! formula over the mathematical vectors, and the agreement between the
//! boolean test and the reported hit distance is proved as a lemma.
use vstd::prelude::*;
use crate::num::{
    div_fp, div_t, isqrt, lemma_div_t_nonneg, lemma_mul_abs_bound, lemma_sqrt_floor, sqrt_floor,
};
use crate::vec3::{
    cross_wide, dot_wv, dot_ww, in_rangev, lemma_vcross_bound, lemma_vdot_bound, vadd, vcross,
    vdot, vsub, V3, Vec3, Wide3,
};
use crate::{COORD_MAX, DIR_MAX, FP, T_MAX};

verus! {

/// A ray: origin and direction, both in fixed point. The direction is
/// usually a normalized vector (components within `FP`), but the contracts
/// only need the looser `ray_wf` bounds.
pub struct Ray {
    pub pos: Vec3,
    pub dir: Vec3,
}

/// The coordinate bounds under which every intersection formula is exact.
pub open spec fn ray_wf(r: Ray) -> bool {
    &&& in_rangev(r.pos@, COORD_MAX as int)
    &&& in_rangev(r.dir@, DIR_MAX as int)
}

/// A sphere: center and radius.
pub struct Sphere {
    pub pos: Vec3,
    pub rad: i64,
}

pub open spec fn sphere_wf(s: Sphere) -> bool {
    &&& in_rangev(s.pos@, COORD_MAX as int)
    &&& 0 <= s.rad <= COORD_MAX
}

/// A triangle: three ordered vertices; the winding fixes the normal.
pub struct Trig {
    pub v0: Vec3,
    pub v1: Vec3,
    pub v2: Vec3,
}

pub open spec fn trig_wf(t: Trig) -> bool {
    &&& in_rangev(t.v0@, COORD_MAX as int)
    &&& in_rangev(t.v1@, COORD_MAX as int)
    &&& in_rangev(t.v2@, COORD_MAX as int)
}

/// Hit distances saturate at `T_MAX`.
pub open spec fn cap_t(t: int) -> int {
    if t > T_MAX {
        T_MAX as int
    } else {
        t
    }
}

/// The point a parameter `t` (in sub-units) reaches along a ray, in the
/// renderer's truncating fixed-point arithmetic.
pub open spec fn hit_point(p: V3, d: V3, t: int) -> V3 {
    vadd(p, V3 { x: div_t(d.x * t, FP as int), y: div_t(d.y * t, FP as int), z: div_t(d.z * t, FP as int) })
}

// --- the sphere quadratic, in integers ---
// With v = origin - center, the ray meets the sphere where
// a*t^2 + 2*h*t + c == 0, for a = d.d, h = v.d, c = v.v - rad^2.

pub open spec fn sph_h(s: Sphere, p: V3, d: V3) -> int {
    vdot(vsub(p, s.pos@), d)
}

pub open spec fn sph_a(d: V3) -> int {
    vdot(d, d)
}

pub open spec fn sph_c(s: Sphere, p: V3) -> int {
    vdot(vsub(p, s.pos@), vsub(p, s.pos@)) - s.rad * s.rad
}

/// The (quarter) discriminant `h^2 - a*c` of the sphere quadratic.
pub open spec fn sph_disc(s: Sphere, p: V3, d: V3) -> int {
    sph_h(s, p, d) * sph_h(s, p, d) - sph_a(d) * sph_c(s, p)
}

/// The ray hits the sphere at a positive parameter: real roots exist and
/// one of them is positive (equivalently `h < 0` or `c < 0`; a grazing
/// start exactly on the surface pointing outward is no hit, and the
/// degenerate zero direction never hits).
pub open spec fn sphere_hit(s: Sphere, p: V3, d: V3) -> bool {
    &&& sph_a(d) > 0
    &&& sph_disc(s, p, d) >= 0
    &&& (sph_h(s, p, d) < 0 || sph_c(s, p) < 0)
}

/// The reported hit distance: the smaller root where it is positive, else
/// the larger; `-1` when there is no hit. In sub-units, truncated, capped.
pub open spec fn sphere_t(s: Sphere, p: V3, d: V3) -> int {
    if !sphere_hit(s, p, d) {
        -1
    } else {
        let rt = sqrt_floor(sph_disc(s, p, d));
        let num = if -sph_h(s, p, d) - rt > 0 {
            -sph_h(s, p, d) - rt
        } else {
            -sph_h(s, p, d) + rt
        };
        cap_t(div_t(num * FP, sph_a(d)))
    }
}

/// When the sphere is hit, the reported distance is well formed.
pub proof fn lemma_sphere_hit_t_bounds(s: Sphere, p: V3, d: V3)
    requires
        sphere_hit(s, p, d),
    ensures
        0 <= sphere_t(s, p, d) <= T_MAX,
{
    let h = sph_h(s, p, d);
    let a = sph_a(d);
    let c = sph_c(s, p);
    let disc = sph_disc(s, p, d);
    lemma_sqrt_floor(disc);
    let rt = sqrt_floor(disc);
    let num = if -h - rt > 0 { -h - rt } else { -h + rt };
    if !(-h - rt > 0) && -h + rt < 0 {
        assert(h >= rt + 1);
        assert(h * h > disc) by (nonlinear_arith)
            requires
                h >= rt + 1,
                rt >= 0,
                disc < (rt + 1) * (rt + 1),
        ;
        assert(a * c > 0);
        assert(c > 0) by (nonlinear_arith)
            requires
                a > 0,
                a * c > 0,
        ;
        assert(false);
    }
    assert(num >= 0);
    assert(num * FP >= 0) by (nonlinear_arith)
        requires
            num >= 0,
    ;
    lemma_div_t_nonneg(num * FP, a);
}

/// `intersects` agrees with `hit_distance`: a sphere reports a hit exactly
/// when its reported distance is nonnegative.
pub proof fn lemma_sphere_intersect_iff_hit_distance(s: Sphere, p: V3, d: V3)
    ensures
        sphere_hit(s, p, d) <==> sphere_t(s, p, d) >= 0,
{
    if sphere_hit(s, p, d) {
        lemma_sphere_hit_t_bounds(s, p, d);
    }
}

/// A ray whose line stays farther from the center than the radius reaches
/// (negative discriminant) misses the sphere.
pub proof fn lemma_sphere_clear_miss(s: Sphere, p: V3, d: V3)
    requires
        sph_a(d) * sph_c(s, p) > sph_h(s, p, d) * sph_h(s, p, d),
    ensures
        !sphere_hit(s, p, d),
        sphere_t(s, p, d) == -1,
{
}

/// A ray fired along the z axis straight at a sphere's center from outside
/// reports exactly the center distance minus the radius.
pub proof fn lemma_sphere_axial_hit_distance(s: Sphere, p: V3, d: V3, dist: int)
    requires
        d == (V3 { x: 0, y: 0, z: FP as int }),
        s.pos@ == (V3 { x: p.x, y: p.y, z: p.z + dist }),
        0 < s.rad,
        (s.rad as int) < dist,
        dist <= T_MAX,
    ensures
        sphere_hit(s, p, d),
        sphere_t(s, p, d) == dist - s.rad,
{
    let h = sph_h(s, p, d);
    let a = sph_a(d);
    let c = sph_c(s, p);
    let disc = sph_disc(s, p, d);
    let fp = FP as int;
    let rad = s.rad as int;
    assert(vsub(p, s.pos@) == (V3 { x: 0, y: 0, z: -dist }));
    assert(h == -dist * fp);
    assert(a == fp * fp);
    assert((-dist) * (-dist) == dist * dist) by (nonlinear_arith);
    assert(c == dist * dist - rad * rad);
    assert(disc == (dist * fp) * (dist * fp) - (fp * fp) * (dist * dist - rad * rad))
        by (nonlinear_arith)
        requires
            h == -dist * fp,
            a == fp * fp,
            c == dist * dist - rad * rad,
            disc == h * h - a * c,
    ;
    assert(disc == (fp * rad) * (fp * rad)) by (nonlinear_arith)
        requires
            disc == (dist * fp) * (dist * fp) - (fp * fp) * (dist * dist - rad * rad),
    ;
    assert(disc >= 0) by (nonlinear_arith)
        requires
            disc == (fp * rad) * (fp * rad),
    ;
    assert(h < 0) by (nonlinear_arith)
        requires
            h == -dist * fp,
            dist > 0,
            fp > 0,
    ;
    assert(sphere_hit(s, p, d));
    // The discriminant is an exact square, so its root floor is exact.
    assert((fp * rad) * (fp * rad) <= disc && disc < (fp * rad + 1) * (fp * rad + 1))
        by (nonlinear_arith)
        requires
            disc == (fp * rad) * (fp * rad),
            fp * rad >= 0,
    ;
    lemma_sqrt_floor(disc);
    crate::num::lemma_sqrt_unique(disc, fp * rad, sqrt_floor(disc));
    let rt = sqrt_floor(disc);
    assert(rt == fp * rad);
    assert(-h - rt == dist * fp - fp * rad) by (nonlinear_arith)
        requires
            h == -dist * fp,
            rt == fp * rad,
    ;
    assert(-h - rt == (dist - rad) * fp) by (nonlinear_arith)
        requires
            -h - rt == dist * fp - fp * rad,
    ;
    assert(-h - rt > 0) by (nonlinear_arith)
        requires
            -h - rt == (dist - rad) * fp,
            dist - rad > 0,
            fp > 0,
    ;
    let num = -h - rt;
    assert(num * fp == (dist - rad) * (fp * fp)) by (nonlinear_arith)
        requires
            num == (dist - rad) * fp,
    ;
    assert(a == fp * fp);
    crate::num::lemma_div_t_exact(dist - rad, fp * fp);
    assert(div_t(num * fp, a) == dist - rad);
    assert(num * FP == num * fp);
    assert(cap_t(dist - rad) == dist - rad);
}

// --- the triangle: plane parameter and same-side test ---

/// The triangle's (unnormalized) plane normal.
pub open spec fn tri_n(t: Trig) -> V3 {
    vcross(vsub(t.v1@, t.v0@), vsub(t.v2@, t.v0@))
}

/// Denominator of the ray-plane solution.
pub open spec fn tri_den(t: Trig, d: V3) -> int {
    vdot(tri_n(t), d)
}

/// Numerator of the ray-plane solution.
pub open spec fn tri_tnum(t: Trig, p: V3) -> int {
    vdot(tri_n(t), vsub(t.v0@, p))
}

/// The plane parameter in sub-units: `-1` for a parallel ray or a plane
/// behind the origin, otherwise truncated and capped. This alone says
/// nothing about containment: see `trig_t` for the reported hit distance.
pub open spec fn trig_plane_t(t: Trig, p: V3, d: V3) -> int {
    let den = tri_den(t, d);
    let num = tri_tnum(t, p);
    if den == 0 {
        -1
    } else if den > 0 && num < 0 {
        -1
    } else if den < 0 && num > 0 {
        -1
    } else {
        let nn = if den < 0 { -num } else { num };
        let dd = if den < 0 { -den } else { den };
        cap_t(div_t(nn * FP, dd))
    }
}

/// The same-side value of one edge: positive when the plane point `m` lies
/// on the triangle's inner side of the edge `a -> b`.
pub open spec fn tri_side(a: V3, b: V3, m: V3, n: V3) -> int {
    vdot(vcross(vsub(b, a), vsub(m, a)), n)
}

/// The ray meets the triangle's plane at a representable point that passes
/// the same-side test against all three edges.
pub open spec fn trig_hit(t: Trig, p: V3, d: V3) -> bool {
    let tt = trig_plane_t(t, p, d);
    let m = hit_point(p, d, tt);
    let n = tri_n(t);
    &&& tt >= 0
    &&& in_rangev(m, COORD_MAX as int)
    &&& tri_side(t.v0@, t.v1@, m, n) >= 0
    &&& tri_side(t.v1@, t.v2@, m, n) >= 0
    &&& tri_side(t.v2@, t.v0@, m, n) >= 0
}

/// The reported hit distance: the plane parameter when the ray truly meets
/// the triangle, the `-1` sentinel otherwise, so that the distance query
/// agrees with the intersection test.
pub open spec fn trig_t(t: Trig, p: V3, d: V3) -> int {
    if trig_hit(t, p, d) {
        trig_plane_t(t, p, d)
    } else {
        -1
    }
}

/// The triangle's plane parameter is never below the miss sentinel and
/// never above the cap.
pub proof fn lemma_trig_plane_t_bounds(t: Trig, p: V3, d: V3)
    ensures
        -1 <= trig_plane_t(t, p, d) <= T_MAX,
{
    let den = tri_den(t, d);
    let num = tri_tnum(t, p);
    if den != 0 && !(den > 0 && num < 0) && !(den < 0 && num > 0) {
        let nn = if den < 0 { -num } else { num };
        let dd = if den < 0 { -den } else { den };
        assert(nn >= 0 && dd > 0);
        assert(nn * FP >= 0) by (nonlinear_arith)
            requires
                nn >= 0,
        ;
        lemma_div_t_nonneg(nn * FP, dd);
    }
}

/// The reported hit distance is the sentinel or a capped distance.
pub proof fn lemma_trig_t_bounds(t: Trig, p: V3, d: V3)
    ensures
        -1 <= trig_t(t, p, d) <= T_MAX,
{
    lemma_trig_plane_t_bounds(t, p, d);
}

/// `intersects` agrees with `hit_distance` for triangles too: a hit is
/// reported exactly when the reported distance is nonnegative.
pub proof fn lemma_trig_intersect_iff_hit_distance(t: Trig, p: V3, d: V3)
    ensures
        trig_hit(t, p, d) <==> trig_t(t, p, d) >= 0,
{
}

// --- the closed set of primitives ---

/// The scene's primitives: a closed sum over the two supported shapes.
pub enum Object3d {
    Sphere(Sphere),
    Trig(Trig),
}

pub open spec fn obj_wf(o: Object3d) -> bool {
    match o {
        Object3d::Sphere(s) => sphere_wf(s),
        Object3d::Trig(t) => trig_wf(t),
    }
}

/// Whether the primitive reports a hit.
pub open spec fn obj_hit(o: Object3d, p: V3, d: V3) -> bool {
    match o {
        Object3d::Sphere(s) => sphere_hit(s, p, d),
        Object3d::Trig(t) => trig_hit(t, p, d),
    }
}

/// The primitive's reported hit distance (sub-units; `-1` on a miss).
pub open spec fn obj_t(o: Object3d, p: V3, d: V3) -> int {
    match o {
        Object3d::Sphere(s) => sphere_t(s, p, d),
        Object3d::Trig(t) => trig_t(t, p, d),
    }
}

impl Sphere {
    /// Whether the ray hits this sphere at a positive parameter.
    pub fn is_ray_intersect(&self, r: &Ray) -> (res: bool)
        requires
            sphere_wf(*self),
            ray_wf(*r),
        ensures
            res == sphere_hit(*self, r.pos@, r.dir@),
    {
        let v: Vec3 = r.pos.sub_v(&self.pos);
        proof {
            lemma_vdot_bound(v@, r.dir@, 0x20000000, 4096);
            lemma_vdot_bound(r.dir@, r.dir@, 4096, 4096);
            lemma_vdot_bound(v@, v@, 0x20000000, 0x20000000);
            lemma_mul_abs_bound(self.rad as int, self.rad as int, 0x10000000, 0x10000000);
        }
        let h: i128 = v.dot_v(&r.dir);
        let a: i128 = r.dir.dot_v(&r.dir);
        let vv: i128 = v.dot_v(&v);
        let c: i128 = vv - (self.rad as i128) * (self.rad as i128);
        proof {
            lemma_mul_abs_bound(h as int, h as int, 0x200000000000, 0x200000000000);
            lemma_mul_abs_bound(a as int, c as int, 0x4000000, 0x2000000000000000);
        }
        let disc: i128 = h * h - a * c;
        a > 0 && disc >= 0 && (h < 0 || c < 0)
    }

    /// The reported hit distance in sub-units, `-1` on a miss.
    pub fn give_t(&self, r: &Ray) -> (res: i64)
        requires
            sphere_wf(*self),
            ray_wf(*r),
        ensures
            res == sphere_t(*self, r.pos@, r.dir@),
    {
        let v: Vec3 = r.pos.sub_v(&self.pos);
        proof {
            lemma_vdot_bound(v@, r.dir@, 0x20000000, 4096);
            lemma_vdot_bound(r.dir@, r.dir@, 4096, 4096);
            lemma_vdot_bound(v@, v@, 0x20000000, 0x20000000);
            lemma_mul_abs_bound(self.rad as int, self.rad as int, 0x10000000, 0x10000000);
        }
        let h: i128 = v.dot_v(&r.dir);
        let a: i128 = r.dir.dot_v(&r.dir);
        let vv: i128 = v.dot_v(&v);
        let c: i128 = vv - (self.rad as i128) * (self.rad as i128);
        proof {
            lemma_mul_abs_bound(h as int, h as int, 0x200000000000, 0x200000000000);
            lemma_mul_abs_bound(a as int, c as int, 0x4000000, 0x2000000000000000);
        }
        let disc: i128 = h * h - a * c;
        if !(a > 0 && disc >= 0 && (h < 0 || c < 0)) {
            return -1;
        }
        let rt: u64 = isqrt(disc as u128);
        proof {
            assert(rt as int <= 0x100000000000000) by (nonlinear_arith)
                requires
                    0 <= rt as int,
                    (rt as int) * (rt as int) <= disc as int,
                    disc as int <= 0x100000000000000 * 0x100000000000000,
            ;
            lemma_sqrt_floor(disc as int);
            crate::num::lemma_sqrt_unique(disc as int, rt as int, sqrt_floor(disc as int));
        }
        let t0n: i128 = -h - (rt as i128);
        let num: i128 = if t0n > 0 {
            t0n
        } else {
            -h + (rt as i128)
        };
        proof {
            lemma_mul_abs_bound(num as int, FP as int, 0x400000000000000, 1024);
            lemma_sphere_hit_t_bounds(*self, r.pos@, r.dir@);
        }
        let wide: i128 = num * (FP as i128);
        let tt: i128 = div_fp(wide, a);
        if tt > (T_MAX as i128) {
            T_MAX
        } else {
            tt as i64
        }
    }
}

impl Trig {
    /// The plane parameter of the ray against this triangle's plane,
    /// in sub-units; `-1` for a parallel ray or a plane behind the origin.
    /// Says nothing about containment: `give_t` builds on this.
    fn plane_t(&self, r: &Ray) -> (res: i64)
        requires
            trig_wf(*self),
            ray_wf(*r),
        ensures
            res == trig_plane_t(*self, r.pos@, r.dir@),
            -1 <= res <= T_MAX,
    {
        let e1: Vec3 = self.v1.sub_v(&self.v0);
        let e2: Vec3 = self.v2.sub_v(&self.v0);
        let n: Wide3 = cross_wide(&e1, &e2);
        proof {
            lemma_vcross_bound(e1@, e2@, 0x20000000, 0x20000000);
        }
        let den: i128 = dot_wv(&n, &r.dir);
        let vp: Vec3 = self.v0.sub_v(&r.pos);
        let num: i128 = dot_wv(&n, &vp);
        proof {
            lemma_vdot_bound(n@, r.dir@, 0x800000000000000, 4096);
            lemma_vdot_bound(n@, vp@, 0x800000000000000, 0x20000000);
        }
        if den == 0 {
            return -1;
        }
        if den > 0 && num < 0 {
            return -1;
        }
        if den < 0 && num > 0 {
            return -1;
        }
        let nn: i128 = if den < 0 { -num } else { num };
        let dd: i128 = if den < 0 { -den } else { den };
        proof {
            lemma_mul_abs_bound(nn as int, FP as int, 0x40000000000000000000000, 1024);
        }
        let wide: i128 = nn * (FP as i128);
        let tt: i128 = div_fp(wide, dd);
        proof {
            assert(nn >= 0);
            assert(wide >= 0) by (nonlinear_arith)
                requires
                    nn >= 0,
                    wide == nn * (FP as i128),
            ;
            lemma_div_t_nonneg(wide as int, dd as int);
        }
        if tt > (T_MAX as i128) {
            T_MAX
        } else {
            tt as i64
        }
    }

    /// Whether the ray meets the triangle: plane hit at a nonnegative,
    /// representable point that lies on the inner side of all three edges.
    pub fn is_ray_intersect(&self, r: &Ray) -> (res: bool)
        requires
            trig_wf(*self),
            ray_wf(*r),
        ensures
            res == trig_hit(*self, r.pos@, r.dir@),
    {
        let tt: i64 = self.plane_t(r);
        if tt < 0 {
            return false;
        }
        proof {
            lemma_mul_abs_bound(r.dir@.x, tt as int, 4096, T_MAX as int);
            lemma_mul_abs_bound(r.dir@.y, tt as int, 4096, T_MAX as int);
            lemma_mul_abs_bound(r.dir@.z, tt as int, 4096, T_MAX as int);
        }
        let mx: i128 = (r.pos.x as i128) + div_fp((r.dir.x as i128) * (tt as i128), FP as i128);
        let my: i128 = (r.pos.y as i128) + div_fp((r.dir.y as i128) * (tt as i128), FP as i128);
        let mz: i128 = (r.pos.z as i128) + div_fp((r.dir.z as i128) * (tt as i128), FP as i128);
        if !(-COORD_MAX as i128 <= mx && mx <= COORD_MAX as i128
            && -COORD_MAX as i128 <= my && my <= COORD_MAX as i128
            && -COORD_MAX as i128 <= mz && mz <= COORD_MAX as i128)
        {
            return false;
        }
        let m: Vec3 = Vec3 { x: mx as i64, y: my as i64, z: mz as i64 };
        assert(m@ == hit_point(r.pos@, r.dir@, tt as int));
        let e1: Vec3 = self.v1.sub_v(&self.v0);
        let e2: Vec3 = self.v2.sub_v(&self.v0);
        let n: Wide3 = cross_wide(&e1, &e2);
        proof {
            lemma_vcross_bound(e1@, e2@, 0x20000000, 0x20000000);
        }
        let ea: Vec3 = self.v1.sub_v(&self.v0);
        let ma: Vec3 = m.sub_v(&self.v0);
        let ca: Wide3 = cross_wide(&ea, &ma);
        let eb: Vec3 = self.v2.sub_v(&self.v1);
        let mb: Vec3 = m.sub_v(&self.v1);
        let cb: Wide3 = cross_wide(&eb, &mb);
        let ec: Vec3 = self.v0.sub_v(&self.v2);
        let mc: Vec3 = m.sub_v(&self.v2);
        let cc: Wide3 = cross_wide(&ec, &mc);
        proof {
            lemma_vcross_bound(ea@, ma@, 0x20000000, 0x20000000);
            lemma_vcross_bound(eb@, mb@, 0x20000000, 0x20000000);
            lemma_vcross_bound(ec@, mc@, 0x20000000, 0x20000000);
        }
        let s1: i128 = dot_ww(&ca, &n);
        let s2: i128 = dot_ww(&cb, &n);
        let s3: i128 = dot_ww(&cc, &n);
        s1 >= 0 && s2 >= 0 && s3 >= 0
    }

    /// The reported hit distance in sub-units, `-1` on a miss: the plane
    /// parameter is reported only when the containment test passes, so
    /// this agrees with `is_ray_intersect`.
    pub fn give_t(&self, r: &Ray) -> (res: i64)
        requires
            trig_wf(*self),
            ray_wf(*r),
        ensures
            res == trig_t(*self, r.pos@, r.dir@),
            -1 <= res <= T_MAX,
    {
        if self.is_ray_intersect(r) {
            self.plane_t(r)
        } else {
            -1
        }
    }
}

/// `intersects` agrees with `hit_distance` for every primitive: a hit is
/// reported exactly when the reported distance is nonnegative.
pub proof fn lemma_obj_intersect_iff_hit_distance(o: Object3d, p: V3, d: V3)
    ensures
        obj_hit(o, p, d) <==> obj_t(o, p, d) >= 0,
{
    match o {
        Object3d::Sphere(s) => lemma_sphere_intersect_iff_hit_distance(s, p, d),
        Object3d::Trig(t) => lemma_trig_intersect_iff_hit_distance(t, p, d),
    }
}

impl Object3d {
    /// Whether the ray hits this primitive.
    pub fn is_ray_intersect(&self, r: &Ray) -> (res: bool)
        requires
            obj_wf(*self),
            ray_wf(*r),
        ensures
            res == obj_hit(*self, r.pos@, r.dir@),
    {
        match self {
            Object3d::Sphere(s) => s.is_ray_intersect(r),
            Object3d::Trig(t) => t.is_ray_intersect(r),
        }
    }

    /// The reported hit distance in sub-units, `-1` on a miss.
    pub fn give_t(&self, r: &Ray) -> (res: i64)
        requires
            obj_wf(*self),
            ray_wf(*r),
        ensures
            res == obj_t(*self, r.pos@, r.dir@),
    {
        match self {
            Object3d::Sphere(s) => s.give_t(r),
            Object3d::Trig(t) => t.give_t(r),
        }
    }
}

} // verus!
