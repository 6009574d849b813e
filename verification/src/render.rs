//! The frame pipeline: camera rays from pixel coordinates, the hardcoded
//! animated scene, the per-pixel brightness grid, and quantization of
//! brightness values onto the character ramp.
use vstd::prelude::*;
use crate::geom::{obj_wf, ray_wf, Object3d, Ray, Trig};
use crate::num::{div_fp, div_t, lemma_div_t_abs_le, lemma_div_t_scaled_bound};
use crate::shade::{cast_ray, cast_spec, lights_wf, light_wf, objs_wf, Light};
use crate::vec3::{in_rangev, norm_spec, vadd, V3, Vec3};
use crate::{COORD_MAX, DIR_MAX, FP};

verus! {

/// The camera: a position and a base viewing direction.
pub struct Camera {
    pub pos: Vec3,
    pub dir: Vec3,
}

pub open spec fn camera_wf(c: Camera) -> bool {
    &&& in_rangev(c.pos@, COORD_MAX as int)
    &&& in_rangev(c.dir@, DIR_MAX as int)
}

/// The direction of the ray for screen offsets `(u, v)`: the base direction
/// nudged by `u` along the x axis and `v` along the y axis, renormalized.
pub open spec fn cam_ray_dir(cd: V3, u: int, v: int) -> V3 {
    norm_spec(vadd(cd, V3 { x: u, y: v, z: 0 }))
}

impl Camera {
    /// The world-space ray for normalized screen offsets `(u, v)`
    /// (both in sub-units).
    pub fn get_ray(&self, u: i64, v: i64) -> (r: Ray)
        requires
            camera_wf(*self),
            -0x4000000 <= u <= 0x4000000,
            -0x4000000 <= v <= 0x4000000,
        ensures
            r.pos == self.pos,
            r.dir@ == cam_ray_dir(self.dir@, u as int, v as int),
            ray_wf(r),
    {
        let w: Vec3 = Vec3 { x: self.dir.x + u, y: self.dir.y + v, z: self.dir.z };
        let nd: Vec3 = w.normalize();
        Ray { pos: self.pos, dir: nd }
    }
}

/// Clamping a brightness value into the valid index range of a ramp of
/// length `len`.
pub open spec fn clamp_spec(b: int, len: int) -> int {
    if b < 0 {
        0
    } else if b >= len {
        len - 1
    } else {
        b
    }
}

/// Clamping is idempotent and always lands in `[0, len - 1]`.
pub proof fn lemma_clamp_idempotent(b: int, len: int)
    requires
        len >= 1,
    ensures
        0 <= clamp_spec(b, len) < len,
        clamp_spec(clamp_spec(b, len), len) == clamp_spec(b, len),
{
}

/// The character ramp, darkest to brightest.
pub open spec fn gradient_seq() -> Seq<char> {
    seq![' ', '.', ':', '!', '/', 'r', '(', 'l', '1', 'Z', '4', 'H', '9', 'W', '8', '$', '@']
}

/// One corner of the scene's unit cube (coordinates are `-FP` or `FP`).
pub open spec fn cvert(i: int, j: int, k: int) -> Vec3 {
    Vec3 {
        x: if i == 1 { 1024i64 } else { -1024i64 },
        y: if j == 1 { 1024i64 } else { -1024i64 },
        z: if k == 1 { 1024i64 } else { -1024i64 },
    }
}

pub open spec fn ctri(a: Vec3, b: Vec3, c: Vec3) -> Object3d {
    Object3d::Trig(Trig { v0: a, v1: b, v2: c })
}

/// The hardcoded scene: the twelve triangles of a cube of side two
/// centered on the origin.
pub open spec fn cube_scene_seq() -> Seq<Object3d> {
    seq![
        ctri(cvert(0, 0, 0), cvert(0, 1, 0), cvert(0, 0, 1)),
        ctri(cvert(0, 1, 1), cvert(0, 1, 0), cvert(0, 0, 1)),
        ctri(cvert(1, 0, 0), cvert(1, 1, 0), cvert(1, 0, 1)),
        ctri(cvert(1, 1, 1), cvert(1, 0, 1), cvert(1, 1, 0)),
        ctri(cvert(0, 0, 0), cvert(1, 0, 0), cvert(0, 0, 1)),
        ctri(cvert(1, 0, 1), cvert(1, 0, 0), cvert(0, 0, 1)),
        ctri(cvert(0, 1, 0), cvert(1, 1, 0), cvert(0, 1, 1)),
        ctri(cvert(1, 1, 1), cvert(0, 1, 1), cvert(1, 1, 0)),
        ctri(cvert(0, 0, 0), cvert(0, 1, 0), cvert(1, 0, 0)),
        ctri(cvert(1, 1, 0), cvert(0, 1, 0), cvert(1, 0, 0)),
        ctri(cvert(0, 0, 1), cvert(0, 1, 1), cvert(1, 0, 1)),
        ctri(cvert(1, 1, 1), cvert(1, 0, 1), cvert(0, 1, 1)),
    ]
}

/// The hardcoded light: above and to the side of the camera, in front of
/// the cube, at unit intensity.
pub open spec fn cube_lights_seq() -> Seq<Light> {
    seq![Light { pos: Vec3 { x: 2048, y: 2048, z: -10240i64 }, intensity: 1024 }]
}

/// Appends one triangle to a scene, keeping the scene well formed.
pub fn push_tri(objs: &mut Vec<Object3d>, v0: Vec3, v1: Vec3, v2: Vec3)
    requires
        objs_wf(old(objs)@),
        in_rangev(v0@, COORD_MAX as int),
        in_rangev(v1@, COORD_MAX as int),
        in_rangev(v2@, COORD_MAX as int),
    ensures
        final(objs)@ == old(objs)@.push(ctri(v0, v1, v2)),
        objs_wf(final(objs)@),
{
    objs.push(Object3d::Trig(Trig { v0, v1, v2 }));
    proof {
        assert forall|k: int| 0 <= k < objs@.len() implies obj_wf(#[trigger] objs@[k]) by {
            if k < objs@.len() - 1 {
                assert(obj_wf(objs@[k]));
            } else {
                assert(obj_wf(ctri(v0, v1, v2)));
            }
        }
    }
}

/// Builds the hardcoded cube scene.
pub fn cube_scene() -> (objs: Vec<Object3d>)
    ensures
        objs@ == cube_scene_seq(),
        objs_wf(objs@),
{
    let v000: Vec3 = Vec3 { x: -1024, y: -1024, z: -1024 };
    let v001: Vec3 = Vec3 { x: -1024, y: -1024, z: 1024 };
    let v010: Vec3 = Vec3 { x: -1024, y: 1024, z: -1024 };
    let v011: Vec3 = Vec3 { x: -1024, y: 1024, z: 1024 };
    let v100: Vec3 = Vec3 { x: 1024, y: -1024, z: -1024 };
    let v101: Vec3 = Vec3 { x: 1024, y: -1024, z: 1024 };
    let v110: Vec3 = Vec3 { x: 1024, y: 1024, z: -1024 };
    let v111: Vec3 = Vec3 { x: 1024, y: 1024, z: 1024 };
    let mut objs: Vec<Object3d> = Vec::new();
    push_tri(&mut objs, v000, v010, v001);
    push_tri(&mut objs, v011, v010, v001);
    push_tri(&mut objs, v100, v110, v101);
    push_tri(&mut objs, v111, v101, v110);
    push_tri(&mut objs, v000, v100, v001);
    push_tri(&mut objs, v101, v100, v001);
    push_tri(&mut objs, v010, v110, v011);
    push_tri(&mut objs, v111, v011, v110);
    push_tri(&mut objs, v000, v010, v100);
    push_tri(&mut objs, v110, v010, v100);
    push_tri(&mut objs, v001, v011, v101);
    push_tri(&mut objs, v111, v101, v011);
    proof {
        assert(objs@ =~= cube_scene_seq());
    }
    objs
}

/// Builds the hardcoded light list.
pub fn cube_lights() -> (ls: Vec<Light>)
    ensures
        ls@ == cube_lights_seq(),
        lights_wf(ls@),
        ls@.len() == 1,
{
    let mut ls: Vec<Light> = Vec::new();
    ls.push(Light { pos: Vec3 { x: 2048, y: 2048, z: -10240 }, intensity: 1024 });
    proof {
        assert(ls@ =~= cube_lights_seq());
        assert(light_wf(ls@[0]));
    }
    ls
}

/// The brightness the hardcoded scene yields for screen offsets `(u, v)`.
pub open spec fn scene_brightness(cp: V3, cd: V3, u: int, v: int) -> int {
    cast_spec(cube_scene_seq(), cube_lights_seq(), cp, cam_ray_dir(cd, u, v))
}

/// The screen: cell grid dimensions, the ramp, and the brightness of every
/// cell of the current frame.
pub struct Play {
    pub width: usize,
    pub height: usize,
    pub gradient: Vec<char>,
    pub brightness: Vec<Vec<i64>>,
}

/// Well-formed screen: the grid matches the stated dimensions. The 4096
/// cap on each dimension is a machine limit, not a feature: it keeps the
/// pixel-to-screen-offset arithmetic inside the camera's bounds while
/// exceeding any real terminal by far.
pub open spec fn play_wf(p: Play) -> bool {
    &&& p.width <= 4096
    &&& p.height <= 4096
    &&& 1 <= p.gradient@.len() <= 256
    &&& p.brightness@.len() == p.height
    &&& forall|i: int| 0 <= i < p.height ==> #[trigger] p.brightness@[i]@.len() == p.width
}

impl Play {
    /// A fresh screen of the given dimensions, every cell at brightness 1.
    pub fn new(w: usize, h: usize) -> (p: Play)
        requires
            w <= 4096,
            h <= 4096,
        ensures
            play_wf(p),
            p.width == w,
            p.height == h,
            p.gradient@ == gradient_seq(),
            forall|i: int, j: int|
                0 <= i < h && 0 <= j < w ==> #[trigger] p.brightness@[i]@[j] == 1,
    {
        let mut g: Vec<char> = Vec::new();
        g.push(' ');
        g.push('.');
        g.push(':');
        g.push('!');
        g.push('/');
        g.push('r');
        g.push('(');
        g.push('l');
        g.push('1');
        g.push('Z');
        g.push('4');
        g.push('H');
        g.push('9');
        g.push('W');
        g.push('8');
        g.push('$');
        g.push('@');
        proof {
            assert(g@ =~= gradient_seq());
        }
        let mut mat: Vec<Vec<i64>> = Vec::new();
        let mut i: usize = 0;
        while i < h
            invariant
                0 <= i <= h,
                mat@.len() == i,
                forall|k: int| 0 <= k < i ==> #[trigger] mat@[k]@.len() == w,
                forall|k: int, j: int|
                    0 <= k < i && 0 <= j < w ==> #[trigger] mat@[k]@[j] == 1,
            decreases h - i,
        {
            let mut row: Vec<i64> = Vec::new();
            let mut j: usize = 0;
            while j < w
                invariant
                    0 <= j <= w,
                    row@.len() == j,
                    forall|k: int| 0 <= k < j ==> #[trigger] row@[k] == 1,
                decreases w - j,
            {
                row.push(1);
                j = j + 1;
            }
            mat.push(row);
            i = i + 1;
        }
        Play { width: w, height: h, gradient: g, brightness: mat }
    }

    /// The brightness of the hardcoded scene seen through `cam` at screen
    /// offsets `(u, v)` (sub-units). The time parameter is carried for the
    /// animation interface; the hardcoded scene does not yet move with it.
    #[allow(unused_variables)]
    pub fn get_brightness(cam: &Camera, u: i64, v: i64, t: i64) -> (br: i64)
        requires
            camera_wf(*cam),
            -0x4000000 <= u <= 0x4000000,
            -0x4000000 <= v <= 0x4000000,
        ensures
            br == scene_brightness(cam.pos@, cam.dir@, u as int, v as int),
    {
        let objs: Vec<Object3d> = cube_scene();
        let lights: Vec<Light> = cube_lights();
        let r: Ray = cam.get_ray(u, v);
        cast_ray(&objs, &lights, &r)
    }

    /// Clamps a brightness value into the ramp's valid index range.
    pub fn clamp(&self, brightness: i64) -> (r: usize)
        requires
            play_wf(*self),
        ensures
            r == clamp_spec(brightness as int, self.gradient@.len() as int),
            0 <= r < self.gradient@.len(),
    {
        let len: usize = self.gradient.len();
        if brightness < 0 {
            0
        } else if brightness >= len as i64 {
            len - 1
        } else {
            brightness as usize
        }
    }
}

/// The row screen offset of pixel row `i` on a screen of height `h`:
/// `i/h` mapped onto `[-1, 1)`, in sub-units.
pub open spec fn u_spec(i: int, h: int) -> int {
    div_t((2 * i - h) * FP, h)
}

/// The column screen offset of pixel column `j`: `j/w` mapped onto
/// `[-1, 1)`, aspect-corrected by `w/h` and by the empirical `11/24`
/// terminal cell factor, in sub-units.
pub open spec fn v_spec(j: int, w: int, h: int) -> int {
    div_t((2 * j - w) * 11 * FP, 24 * h)
}

/// The brightness of pixel `(i, j)` of a `w` by `h` frame of the given
/// scene, seen from a camera at `cp` looking along `cd`.
pub open spec fn pixel_spec(
    os: Seq<Object3d>,
    ls: Seq<Light>,
    cp: V3,
    cd: V3,
    w: int,
    h: int,
    i: int,
    j: int,
) -> int {
    cast_spec(os, ls, cp, cam_ray_dir(cd, u_spec(i, h), v_spec(j, w, h)))
}

pub open spec fn default_cam_pos() -> V3 {
    V3 { x: 2048, y: 2048, z: -3072 }
}

pub open spec fn default_cam_dir() -> V3 {
    norm_spec(V3 { x: -1024, y: -1024, z: 1024 })
}

/// The hardcoded camera: above and in front of the cube, looking at it.
pub fn default_camera() -> (c: Camera)
    ensures
        camera_wf(c),
        c.pos@ == default_cam_pos(),
        c.dir@ == default_cam_dir(),
{
    let base: Vec3 = Vec3 { x: -1024, y: -1024, z: 1024 };
    let d: Vec3 = base.normalize();
    Camera { pos: Vec3 { x: 2048, y: 2048, z: -3072 }, dir: d }
}

impl Play {
    /// Renders one frame of an arbitrary scene into the brightness grid:
    /// every cell receives exactly the cast of its camera ray.
    pub fn render_scene(&mut self, objs: &Vec<Object3d>, lights: &Vec<Light>, cam: &Camera)
        requires
            play_wf(*old(self)),
            objs_wf(objs@),
            lights_wf(lights@),
            lights@.len() <= 0x100000,
            camera_wf(*cam),
        ensures
            play_wf(*final(self)),
            final(self).width == old(self).width,
            final(self).height == old(self).height,
            final(self).gradient == old(self).gradient,
            forall|i: int, j: int|
                0 <= i < old(self).height && 0 <= j < old(self).width
                    ==> #[trigger] final(self).brightness@[i]@[j] == pixel_spec(
                    objs@,
                    lights@,
                    cam.pos@,
                    cam.dir@,
                    old(self).width as int,
                    old(self).height as int,
                    i,
                    j,
                ),
    {
        let w: usize = self.width;
        let h: usize = self.height;
        let mut mat: Vec<Vec<i64>> = Vec::new();
        let mut i: usize = 0;
        while i < h
            invariant
                objs_wf(objs@),
                lights_wf(lights@),
                lights@.len() <= 0x100000,
                camera_wf(*cam),
                w <= 4096,
                h <= 4096,
                0 <= i <= h,
                mat@.len() == i,
                forall|k: int| 0 <= k < i ==> #[trigger] mat@[k]@.len() == w,
                forall|k: int, j: int|
                    0 <= k < i && 0 <= j < w ==> #[trigger] mat@[k]@[j] == pixel_spec(
                        objs@, lights@, cam.pos@, cam.dir@, w as int, h as int, k, j),
            decreases h - i,
        {
            let ui_num: i64 = 2 * (i as i64) - (h as i64);
            proof {
                crate::num::lemma_mul_abs_bound(ui_num as int, FP as int, h as int, FP as int);
                lemma_div_t_scaled_bound((ui_num as int) * (FP as int), h as int, FP as int);
            }
            let u: i64 = div_fp((ui_num as i128) * (FP as i128), h as i128) as i64;
            let mut row: Vec<i64> = Vec::new();
            let mut j: usize = 0;
            while j < w
                invariant
                    objs_wf(objs@),
                    lights_wf(lights@),
                    lights@.len() <= 0x100000,
                    camera_wf(*cam),
                    w <= 4096,
                    h <= 4096,
                    0 <= i < h,
                    0 <= j <= w,
                    -1024 <= u <= 1024,
                    u == u_spec(i as int, h as int),
                    row@.len() == j,
                    forall|k: int|
                        0 <= k < j ==> #[trigger] row@[k] == pixel_spec(
                            objs@, lights@, cam.pos@, cam.dir@, w as int, h as int, i as int, k),
                decreases w - j,
            {
                let vj_num: i64 = (2 * (j as i64) - (w as i64)) * 11 * FP;
                let den: i64 = 24 * (h as i64);
                proof {
                    lemma_div_t_abs_le(vj_num as int, den as int);
                }
                let v: i64 = div_fp(vj_num as i128, den as i128) as i64;
                let ray: Ray = cam.get_ray(u, v);
                let b: i64 = cast_ray(objs, lights, &ray);
                row.push(b);
                j = j + 1;
            }
            mat.push(row);
            i = i + 1;
        }
        self.brightness = mat;
    }

    /// Renders one frame of the hardcoded scene. The time parameter is the
    /// animation clock; the hardcoded scene does not yet move with it.
    #[allow(unused_variables)]
    pub fn render(&mut self, t: i64)
        requires
            play_wf(*old(self)),
        ensures
            play_wf(*final(self)),
            final(self).width == old(self).width,
            final(self).height == old(self).height,
            final(self).gradient == old(self).gradient,
            forall|i: int, j: int|
                0 <= i < old(self).height && 0 <= j < old(self).width
                    ==> #[trigger] final(self).brightness@[i]@[j] == pixel_spec(
                    cube_scene_seq(),
                    cube_lights_seq(),
                    default_cam_pos(),
                    default_cam_dir(),
                    old(self).width as int,
                    old(self).height as int,
                    i,
                    j,
                ),
    {
        let objs: Vec<Object3d> = cube_scene();
        let lights: Vec<Light> = cube_lights();
        let cam: Camera = default_camera();
        self.render_scene(&objs, &lights, &cam);
    }
}

/// The character the frame shows for cell `(i, j)`.
pub open spec fn cell_char(p: Play, i: int, j: int) -> char {
    p.gradient@[clamp_spec(p.brightness@[i]@[j] as int, p.gradient@.len() as int)]
}

/// The first `k` characters of row `i` of the frame's text.
pub open spec fn row_text(p: Play, i: int, k: int) -> Seq<char>
    decreases k,
{
    if k <= 0 {
        Seq::empty()
    } else {
        row_text(p, i, k - 1).push(cell_char(p, i, k - 1))
    }
}

/// The text of the first `k` rows of the frame, each row ended by a
/// line break.
pub open spec fn frame_text(p: Play, k: int) -> Seq<char>
    decreases k,
{
    if k <= 0 {
        Seq::empty()
    } else {
        frame_text(p, k - 1) + row_text(p, k - 1, p.width as int) + seq!['\n']
    }
}

impl Play {
    /// Serializes the current frame: each cell's brightness clamped onto
    /// the ramp, rows separated by line breaks.
    pub fn render_frame(&self) -> (out: Vec<char>)
        requires
            play_wf(*self),
        ensures
            out@ == frame_text(*self, self.height as int),
    {
        let mut out: Vec<char> = Vec::new();
        let mut i: usize = 0;
        proof {
            assert(out@ =~= frame_text(*self, 0));
        }
        while i < self.height
            invariant
                play_wf(*self),
                0 <= i <= self.height,
                out@ == frame_text(*self, i as int),
            decreases self.height - i,
        {
            let mut j: usize = 0;
            proof {
                assert(out@ =~= frame_text(*self, i as int) + row_text(*self, i as int, 0));
            }
            while j < self.width
                invariant
                    play_wf(*self),
                    0 <= i < self.height,
                    0 <= j <= self.width,
                    out@ == frame_text(*self, i as int) + row_text(*self, i as int, j as int),
                decreases self.width - j,
            {
                let idx: usize = self.clamp(self.brightness[i][j]);
                out.push(self.gradient[idx]);
                proof {
                    assert(out@ =~= frame_text(*self, i as int)
                        + row_text(*self, i as int, j as int + 1));
                }
                j = j + 1;
            }
            out.push('\n');
            proof {
                assert(out@ =~= frame_text(*self, i as int + 1));
            }
            i = i + 1;
        }
        out
    }
}

} // verus!
