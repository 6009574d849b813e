//! Brightness: shadow rays, per-light accumulation, and the caster that
//! picks the nearest hit primitive. The accumulated sum is exact integer
//! arithmetic; the contracts give each returned brightness as a closed
//! formula over the scene.
use vstd::prelude::*;
use crate::geom::{
    hit_point, lemma_sphere_clear_miss, lemma_sphere_hit_t_bounds, lemma_trig_t_bounds, obj_hit,
    obj_t, obj_wf, ray_wf, sphere_hit, sphere_t, trig_hit, trig_t, Object3d, Ray, Sphere, Trig,
};
use crate::num::{div_fp, div_t, lemma_div_t_scaled_bound, lemma_mul_abs_bound};
use crate::vec3::{
    in_rangev, lemma_vdot_bound, norm_spec, vadd, vdot, vneg, vsub, V3, Vec3,
};
use crate::{COORD_MAX, FP, SHADOW_EPS, T_MAX};

verus! {

/// A point light: position and fixed-point intensity.
pub struct Light {
    pub pos: Vec3,
    pub intensity: i64,
}

pub open spec fn light_wf(l: Light) -> bool {
    &&& in_rangev(l.pos@, COORD_MAX as int)
    &&& -COORD_MAX <= l.intensity <= COORD_MAX
}

pub open spec fn lights_wf(ls: Seq<Light>) -> bool {
    forall|i: int| 0 <= i < ls.len() ==> #[trigger] light_wf(ls[i])
}

pub open spec fn objs_wf(os: Seq<Object3d>) -> bool {
    forall|i: int| 0 <= i < os.len() ==> #[trigger] obj_wf(os[i])
}

/// Where a shadow ray starts: the hit parameter pulled back by
/// `SHADOW_EPS` sub-units along the viewing ray, clear of the surface.
pub open spec fn shadow_origin(p: V3, d: V3, t: int) -> V3 {
    hit_point(p, d, t - SHADOW_EPS)
}

/// Something in the scene blocks a ray from `p` in direction `d`.
pub open spec fn occluded(os: Seq<Object3d>, p: V3, d: V3) -> bool {
    exists|i: int| 0 <= i < os.len() && #[trigger] obj_hit(os[i], p, d)
}

/// One light's contribution at the hit parameter `t` of a viewing ray:
/// zero when the shadow ray toward the light is blocked, otherwise
/// `intensity * dot(-d, light - hit)` (a value at scale `FP^3`).
pub open spec fn light_term(l: Light, p: V3, d: V3, t: int, os: Seq<Object3d>) -> int {
    let hit = hit_point(p, d, t);
    let ldir = vsub(l.pos@, hit);
    if occluded(os, shadow_origin(p, d, t), norm_spec(ldir)) {
        0
    } else {
        l.intensity * vdot(vneg(d), ldir)
    }
}

/// The sum of the first `k` lights' contributions.
pub open spec fn shade_sum(ls: Seq<Light>, p: V3, d: V3, t: int, os: Seq<Object3d>, k: int) -> int
    decreases k,
{
    if k <= 0 {
        0
    } else {
        shade_sum(ls, p, d, t, os, k - 1) + light_term(ls[k - 1], p, d, t, os)
    }
}

/// The brightness at hit parameter `t`: the light sum scaled back to a
/// plain integer; zero when the hit point cannot be represented within
/// the geometry's coordinate range.
pub open spec fn shade_spec(p: V3, d: V3, t: int, ls: Seq<Light>, os: Seq<Object3d>) -> int {
    let hit = hit_point(p, d, t);
    let so = shadow_origin(p, d, t);
    if !(in_rangev(hit, COORD_MAX as int) && in_rangev(so, COORD_MAX as int)) {
        0
    } else {
        div_t(shade_sum(ls, p, d, t, os, ls.len() as int), (FP as int) * (FP as int) * (FP as int))
    }
}

/// Brightness a sphere reports for a viewing ray: zero on a miss.
pub open spec fn sphere_brightness(s: Sphere, p: V3, d: V3, ls: Seq<Light>, os: Seq<Object3d>) -> int {
    if !sphere_hit(s, p, d) {
        0
    } else {
        shade_spec(p, d, sphere_t(s, p, d), ls, os)
    }
}

/// Brightness a triangle reports for a viewing ray: zero on a miss.
pub open spec fn trig_brightness(t: Trig, p: V3, d: V3, ls: Seq<Light>, os: Seq<Object3d>) -> int {
    if !trig_hit(t, p, d) {
        0
    } else {
        shade_spec(p, d, trig_t(t, p, d), ls, os)
    }
}

pub open spec fn obj_brightness(o: Object3d, p: V3, d: V3, ls: Seq<Light>, os: Seq<Object3d>) -> int {
    match o {
        Object3d::Sphere(s) => sphere_brightness(s, p, d, ls, os),
        Object3d::Trig(t) => trig_brightness(t, p, d, ls, os),
    }
}

/// The shadow law: a light whose shadow ray is blocked by some primitive
/// contributes nothing, and an unblocked light contributes exactly
/// `intensity * dot(-d, light - hit)`.
pub proof fn lemma_shadow_occlusion(l: Light, p: V3, d: V3, t: int, os: Seq<Object3d>)
    ensures
        occluded(os, shadow_origin(p, d, t), norm_spec(vsub(l.pos@, hit_point(p, d, t))))
            ==> light_term(l, p, d, t, os) == 0,
        !occluded(os, shadow_origin(p, d, t), norm_spec(vsub(l.pos@, hit_point(p, d, t))))
            ==> light_term(l, p, d, t, os) == l.intensity * vdot(vneg(d), vsub(l.pos@, hit_point(p, d, t))),
{
}

/// A ray whose line keeps clear of a sphere (squared perpendicular reach
/// beyond the squared radius, i.e. a negative discriminant) not only
/// reports no hit: the sphere's brightness along that ray is zero.
pub proof fn lemma_sphere_miss_is_dark(s: Sphere, p: V3, d: V3, ls: Seq<Light>, os: Seq<Object3d>)
    requires
        crate::geom::sph_a(d) * crate::geom::sph_c(s, p) > crate::geom::sph_h(s, p, d) * crate::geom::sph_h(s, p, d),
    ensures
        !sphere_hit(s, p, d),
        sphere_t(s, p, d) == -1,
        sphere_brightness(s, p, d, ls, os) == 0,
{
    lemma_sphere_clear_miss(s, p, d);
}

/// Brightness of a viewing ray known to hit at parameter `t`: casts one
/// shadow ray per light and accumulates the unblocked contributions.
pub fn shade_at(r: &Ray, t: i64, lights: &Vec<Light>, objs: &Vec<Object3d>) -> (br: i64)
    requires
        ray_wf(*r),
        0 <= t <= T_MAX,
        lights_wf(lights@),
        objs_wf(objs@),
        lights@.len() <= 0x100000,
    ensures
        br == shade_spec(r.pos@, r.dir@, t as int, lights@, objs@),
{
    let ghost p = r.pos@;
    let ghost d = r.dir@;
    proof {
        lemma_mul_abs_bound(d.x, t as int, 4096, T_MAX as int);
        lemma_mul_abs_bound(d.y, t as int, 4096, T_MAX as int);
        lemma_mul_abs_bound(d.z, t as int, 4096, T_MAX as int);
        lemma_mul_abs_bound(d.x, t - SHADOW_EPS, 4096, (T_MAX + SHADOW_EPS) as int);
        lemma_mul_abs_bound(d.y, t - SHADOW_EPS, 4096, (T_MAX + SHADOW_EPS) as int);
        lemma_mul_abs_bound(d.z, t - SHADOW_EPS, 4096, (T_MAX + SHADOW_EPS) as int);
    }
    let hx: i128 = (r.pos.x as i128) + div_fp((r.dir.x as i128) * (t as i128), FP as i128);
    let hy: i128 = (r.pos.y as i128) + div_fp((r.dir.y as i128) * (t as i128), FP as i128);
    let hz: i128 = (r.pos.z as i128) + div_fp((r.dir.z as i128) * (t as i128), FP as i128);
    let te: i128 = (t as i128) - (SHADOW_EPS as i128);
    let sx: i128 = (r.pos.x as i128) + div_fp((r.dir.x as i128) * te, FP as i128);
    let sy: i128 = (r.pos.y as i128) + div_fp((r.dir.y as i128) * te, FP as i128);
    let sz: i128 = (r.pos.z as i128) + div_fp((r.dir.z as i128) * te, FP as i128);
    let cm: i128 = COORD_MAX as i128;
    if !(-cm <= hx && hx <= cm && -cm <= hy && hy <= cm && -cm <= hz && hz <= cm && -cm <= sx
        && sx <= cm && -cm <= sy && sy <= cm && -cm <= sz && sz <= cm) {
        return 0;
    }
    let hit: Vec3 = Vec3 { x: hx as i64, y: hy as i64, z: hz as i64 };
    let so: Vec3 = Vec3 { x: sx as i64, y: sy as i64, z: sz as i64 };
    proof {
        assert(hit@ == hit_point(p, d, t as int));
        assert(so@ == shadow_origin(p, d, t as int));
    }
    let mut acc: i128 = 0;
    let mut i: usize = 0;
    while i < lights.len()
        invariant
            ray_wf(*r),
            p == r.pos@,
            d == r.dir@,
            lights_wf(lights@),
            objs_wf(objs@),
            lights@.len() <= 0x100000,
            0 <= i <= lights@.len(),
            hit@ == hit_point(p, d, t as int),
            so@ == shadow_origin(p, d, t as int),
            in_rangev(hit@, COORD_MAX as int),
            in_rangev(so@, COORD_MAX as int),
            0 <= t <= T_MAX,
            acc == shade_sum(lights@, p, d, t as int, objs@, i as int),
            -0x800000000000000000 * (i as int) <= acc
                <= 0x800000000000000000 * (i as int),
        decreases lights@.len() - i,
    {
        let l: &Light = &lights[i];
        assert(light_wf(lights@[i as int]));
        let ldir: Vec3 = l.pos.sub_v(&hit);
        let sdir: Vec3 = ldir.normalize();
        let sray: Ray = Ray { pos: so, dir: sdir };
        let mut occ: bool = false;
        let mut j: usize = 0;
        while j < objs.len()
            invariant
                objs_wf(objs@),
                ray_wf(sray),
                0 <= j <= objs@.len(),
                occ == exists|k: int| 0 <= k < j && #[trigger] obj_hit(objs@[k], sray.pos@, sray.dir@),
            decreases objs@.len() - j,
        {
            assert(obj_wf(objs@[j as int]));
            let h: bool = objs[j].is_ray_intersect(&sray);
            proof {
                if h {
                    assert(obj_hit(objs@[j as int], sray.pos@, sray.dir@));
                }
            }
            occ = occ || h;
            j = j + 1;
        }
        proof {
            assert(occ == occluded(objs@, sray.pos@, sray.dir@));
        }
        let term: i128 = if occ {
            0
        } else {
            proof {
                lemma_vdot_bound(vneg(d), ldir@, 4096, 0x20000000);
                lemma_mul_abs_bound(
                    l.intensity as int,
                    vdot(vneg(d), ldir@),
                    0x10000000,
                    0x80000000000,
                );
            }
            let nd: Vec3 = r.dir.neg_v();
            let dd: i128 = nd.dot_v(&ldir);
            (l.intensity as i128) * dd
        };
        proof {
            assert(term == light_term(lights@[i as int], p, d, t as int, objs@));
            assert(-0x800000000000000000 <= term <= 0x800000000000000000);
        }
        acc = acc + term;
        i = i + 1;
        proof {
            assert(acc == shade_sum(lights@, p, d, t as int, objs@, i as int));
            assert(-0x800000000000000000 * (i as int) <= acc
                <= 0x800000000000000000 * (i as int)) by (nonlinear_arith)
                requires
                    -0x800000000000000000 * (i as int - 1) <= acc - term
                        <= 0x800000000000000000 * (i as int - 1),
                    -0x800000000000000000 <= term <= 0x800000000000000000,
                    acc - term + term == acc,
            ;
        }
    }
    let scale: i128 = (FP as i128) * (FP as i128) * (FP as i128);
    proof {
        assert(-0x800000000000000000 * 0x100000 <= acc
            <= 0x800000000000000000 * 0x100000) by (nonlinear_arith)
            requires
                -0x800000000000000000 * (i as int) <= acc
                    <= 0x800000000000000000 * (i as int),
                0 <= i as int <= 0x100000,
        ;
        lemma_div_t_scaled_bound(acc as int, scale as int, 0x2000000000000000);
        assert(0x2000000000000000 * scale
            >= 0x800000000000000000 * 0x100000);
    }
    let q: i128 = div_fp(acc, scale);
    q as i64
}

impl Sphere {
    /// Brightness this sphere contributes along a viewing ray, with the
    /// whole scene consulted for shadows; zero on a miss.
    pub fn get_ray_brightness(&self, r: &Ray, lights: &Vec<Light>, objs: &Vec<Object3d>) -> (br: i64)
        requires
            crate::geom::sphere_wf(*self),
            ray_wf(*r),
            lights_wf(lights@),
            objs_wf(objs@),
            lights@.len() <= 0x100000,
        ensures
            br == sphere_brightness(*self, r.pos@, r.dir@, lights@, objs@),
    {
        if !self.is_ray_intersect(r) {
            return 0;
        }
        let t: i64 = self.give_t(r);
        proof {
            lemma_sphere_hit_t_bounds(*self, r.pos@, r.dir@);
        }
        shade_at(r, t, lights, objs)
    }
}

impl Trig {
    /// Brightness this triangle contributes along a viewing ray, with the
    /// whole scene consulted for shadows; zero on a miss.
    pub fn get_ray_brightness(&self, r: &Ray, lights: &Vec<Light>, objs: &Vec<Object3d>) -> (br: i64)
        requires
            crate::geom::trig_wf(*self),
            ray_wf(*r),
            lights_wf(lights@),
            objs_wf(objs@),
            lights@.len() <= 0x100000,
        ensures
            br == trig_brightness(*self, r.pos@, r.dir@, lights@, objs@),
    {
        if !self.is_ray_intersect(r) {
            return 0;
        }
        let t: i64 = self.give_t(r);
        proof {
            lemma_trig_t_bounds(*self, r.pos@, r.dir@);
        }
        shade_at(r, t, lights, objs)
    }
}

impl Object3d {
    /// Brightness this primitive contributes along a viewing ray.
    pub fn get_ray_brightness(&self, r: &Ray, lights: &Vec<Light>, objs: &Vec<Object3d>) -> (br: i64)
        requires
            obj_wf(*self),
            ray_wf(*r),
            lights_wf(lights@),
            objs_wf(objs@),
            lights@.len() <= 0x100000,
        ensures
            br == obj_brightness(*self, r.pos@, r.dir@, lights@, objs@),
    {
        match self {
            Object3d::Sphere(s) => s.get_ray_brightness(r, lights, objs),
            Object3d::Trig(t) => t.get_ray_brightness(r, lights, objs),
        }
    }
}

/// The index of the nearest hit primitive among the first `k`, scanning in
/// order and keeping the earlier index on equal distances.
pub open spec fn nearest_hit(os: Seq<Object3d>, p: V3, d: V3, k: int) -> Option<int>
    decreases k,
{
    if k <= 0 {
        Option::<int>::None
    } else {
        let prev = nearest_hit(os, p, d, k - 1);
        if !obj_hit(os[k - 1], p, d) {
            prev
        } else {
            match prev {
                Option::None => Option::Some(k - 1),
                Option::Some(i) => {
                    if obj_t(os[k - 1], p, d) < obj_t(os[i], p, d) {
                        Option::Some(k - 1)
                    } else {
                        Option::Some(i)
                    }
                },
            }
        }
    }
}

/// What a cast returns: zero when nothing is hit, else the brightness of
/// the nearest hit primitive.
pub open spec fn cast_spec(os: Seq<Object3d>, ls: Seq<Light>, p: V3, d: V3) -> int {
    match nearest_hit(os, p, d, os.len() as int) {
        Option::None => 0,
        Option::Some(i) => obj_brightness(os[i], p, d, ls, os),
    }
}

/// Casts one ray through the scene: finds the primitive with the smallest
/// reported hit distance (first encountered wins ties) and asks it for its
/// shadow-aware brightness; zero when nothing is hit.
pub fn cast_ray(objs: &Vec<Object3d>, lights: &Vec<Light>, r: &Ray) -> (br: i64)
    requires
        ray_wf(*r),
        objs_wf(objs@),
        lights_wf(lights@),
        lights@.len() <= 0x100000,
    ensures
        br == cast_spec(objs@, lights@, r.pos@, r.dir@),
{
    let ghost p = r.pos@;
    let ghost d = r.dir@;
    let mut found: bool = false;
    let mut best: usize = 0;
    let mut best_t: i64 = -1;
    let mut i: usize = 0;
    while i < objs.len()
        invariant
            ray_wf(*r),
            p == r.pos@,
            d == r.dir@,
            objs_wf(objs@),
            0 <= i <= objs@.len(),
            found ==> nearest_hit(objs@, p, d, i as int) == Option::Some(best as int),
            found ==> best < i && best_t == obj_t(objs@[best as int], p, d),
            !found ==> nearest_hit(objs@, p, d, i as int) == Option::<int>::None,
        decreases objs@.len() - i,
    {
        assert(obj_wf(objs@[i as int]));
        if objs[i].is_ray_intersect(r) {
            let t: i64 = objs[i].give_t(r);
            if !found || t < best_t {
                found = true;
                best = i;
                best_t = t;
            }
        }
        i = i + 1;
    }
    if !found {
        return 0;
    }
    assert(obj_wf(objs@[best as int]));
    objs[best].get_ray_brightness(r, lights, objs)
}

} // verus!
