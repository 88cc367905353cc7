//! Visibility raycasting.
//!
//! Once per frame, a regular grid of rays is cast from the camera through a
//! rectangle on the far plane; each ray walks the voxel grid one boundary
//! crossing at a time (a DDA traversal) until it hits a solid voxel, leaves
//! the volume after having entered it, or exhausts its step budget.  The
//! first-hit voxels are collected in traversal order, each at most once per
//! frame.
//!
//! The whole computation is specified exactly: `visible_model` is the
//! mathematical value of the returned sequence, so equal inputs give equal
//! outputs by construction.

use vstd::prelude::*;

verus! {

use vstd::arithmetic::div_mod::lemma_div_denominator;
use vstd::arithmetic::div_mod::lemma_fundamental_div_mod;
use vstd::arithmetic::div_mod::lemma_fundamental_div_mod_converse;
use vstd::arithmetic::div_mod::lemma_mod_bound;
use vstd::arithmetic::div_mod::lemma_div_multiples_vanish;
use vstd::arithmetic::div_mod::lemma_div_pos_is_pos;
use vstd::arithmetic::div_mod::lemma_multiply_divide_lt;
use vstd::arithmetic::mul::lemma_mul_strict_inequality;
use crate::chunk::AIR;
use crate::chunk::Chunk;
use crate::chunk::MAX_DIM;
use crate::chunk::lemma_grid_index_bounds;
use crate::chunk::lemma_grid_index_decompose;
use crate::fixed::FX_ONE;
use crate::fixed::fx_div;
use crate::fixed::fx_div_spec;
use crate::fixed::fx_floor;
use crate::fixed::fx_mul;
use crate::fixed::fx_mul_spec;
use crate::fixed::lemma_fx_div_mag;
use crate::fixed::lemma_fx_div_nonneg;
use crate::fixed::lemma_fx_mul_mag;
use crate::fixed::lemma_fx_mul_sign;
use crate::fixed::mag;
use crate::vec3::Vec3Fx;
use crate::vec3::v3;
use crate::vec3::v3_add;
use crate::vec3::v3_cross;
use crate::vec3::v3_norm;
use crate::vec3::v3_scale;
use crate::vec3::v3_sub;
use crate::vec3::vadd;
use crate::vec3::vcross;
use crate::vec3::vnorm;
use crate::vec3::vscale;
use crate::vec3::vsub;

/// Magnitude cap on camera coordinates (position and direction vectors).
pub const CAM_MAX: i64 = 0x400_0000;

/// Cap on the aspect ratio and on the tangent of the half field of view.
pub const RATIO_MAX: i64 = 0x40_0000;

/// Cap on the far-plane widening factor (at most two units).
pub const WIDEN_MAX: i64 = 0x2_0000;

/// Cap on the far-plane distance, in whole voxels.
pub const FAR_MAX: u32 = 4096;

/// Cap on the sample counts of the screen-space grid.
pub const SAMPLES_MAX: usize = 65536;

/// Boundary distance assigned to an axis the ray never crosses.
pub const T_INF: i64 = 0x4000_0000_0000_0000;

/// The camera pose: position, view direction and up direction, as
/// fixed-point world coordinates.
#[derive(Clone, Copy, Debug)]
pub struct Camera {
    pub pos: Vec3Fx,
    pub forward: Vec3Fx,
    pub up: Vec3Fx,
}

impl Camera {
    /// Machine limits on the camera coordinates, so that the fixed-point
    /// frustum construction cannot overflow.
    pub open spec fn wf(self) -> bool {
        &&& -CAM_MAX <= self.pos.x <= CAM_MAX
        &&& -CAM_MAX <= self.pos.y <= CAM_MAX
        &&& -CAM_MAX <= self.pos.z <= CAM_MAX
        &&& -CAM_MAX <= self.forward.x <= CAM_MAX
        &&& -CAM_MAX <= self.forward.y <= CAM_MAX
        &&& -CAM_MAX <= self.forward.z <= CAM_MAX
        &&& -CAM_MAX <= self.up.x <= CAM_MAX
        &&& -CAM_MAX <= self.up.y <= CAM_MAX
        &&& -CAM_MAX <= self.up.z <= CAM_MAX
    }
}

/// The frustum and sampling configuration: aspect ratio, the tangent of
/// half the vertical field of view, a widening safety factor applied to the
/// far-plane height, the far-plane distance, and the sample counts of the
/// screen-space grid.  The two ratios are fixed-point; the caller computes
/// `tan(fov_y / 2)` once.
#[derive(Clone, Copy, Debug)]
pub struct Projection {
    pub aspect: i64,
    pub tan_half_fov: i64,
    pub widen: i64,
    pub far: u32,
    pub samples_u: usize,
    pub samples_v: usize,
}

impl Projection {
    pub open spec fn wf(self) -> bool {
        &&& 0 < self.aspect <= RATIO_MAX
        &&& 0 < self.tan_half_fov <= RATIO_MAX
        &&& FX_ONE <= self.widen <= WIDEN_MAX
        &&& 1 <= self.far <= FAR_MAX
        &&& 1 <= self.samples_u <= SAMPLES_MAX
        &&& 1 <= self.samples_v <= SAMPLES_MAX
    }
}

/// One voxel cell of the output, in chunk coordinates.
#[derive(Clone, Copy, PartialEq, Eq, Structural, Debug)]
pub struct VoxelCoord {
    pub x: usize,
    pub y: usize,
    pub z: usize,
}

pub open spec fn coord_triple(cv: VoxelCoord) -> (int, int, int) {
    (cv.x as int, cv.y as int, cv.z as int)
}

pub open spec fn coord_triples(s: Seq<VoxelCoord>) -> Seq<(int, int, int)> {
    s.map_values(|cv: VoxelCoord| coord_triple(cv))
}

/// The far-plane distance in fixed-point units.
pub open spec fn far_fx(proj: Projection) -> int {
    proj.far * 65536
}

/// Far-plane rectangle height: `2 * tan(fov_y / 2) * far`, widened by the
/// safety factor.
pub open spec fn far_height(proj: Projection) -> int {
    fx_mul_spec(fx_mul_spec(far_fx(proj), 2 * proj.tan_half_fov), proj.widen as int)
}

/// Far-plane rectangle width: the height scaled by the aspect ratio.
pub open spec fn far_width(proj: Projection) -> int {
    fx_mul_spec(far_height(proj), proj.aspect as int)
}

/// The camera's right direction: the normalized cross product of the view
/// and up directions.
pub open spec fn right_vec(cam: Camera) -> (int, int, int) {
    vnorm(vcross(v3(cam.forward), v3(cam.up)))
}

/// The camera's true up direction: the normalized cross product of the
/// right and view directions.
pub open spec fn up_vec(cam: Camera) -> (int, int, int) {
    vnorm(vcross(right_vec(cam), v3(cam.forward)))
}

/// The center of the far-plane rectangle.
pub open spec fn far_center(cam: Camera, proj: Projection) -> (int, int, int) {
    vadd(v3(cam.pos), vscale(far_fx(proj), v3(cam.forward)))
}

/// The bottom-left corner of the far-plane rectangle.
pub open spec fn far_bottom_left(cam: Camera, proj: Projection) -> (int, int, int) {
    vsub(
        vsub(far_center(cam, proj), vscale(far_height(proj) / 2, up_vec(cam))),
        vscale(far_width(proj) / 2, right_vec(cam)),
    )
}

/// The fixed-point fraction `i / n` of the sampling grid.
pub open spec fn grid_frac(i: int, n: int) -> int {
    (i * 65536) / n
}

/// The point on the far plane that sample `(u, v)` aims at.
pub open spec fn sample_target(cam: Camera, proj: Projection, u: int, v: int) -> (int, int, int) {
    vadd(
        far_bottom_left(cam, proj),
        vadd(
            vscale(fx_mul_spec(far_height(proj), grid_frac(v, proj.samples_v as int)), up_vec(cam)),
            vscale(
                fx_mul_spec(far_width(proj), grid_frac(u, proj.samples_u as int)),
                right_vec(cam),
            ),
        ),
    )
}

/// The unit direction of the ray for sample `(u, v)`.
pub open spec fn ray_dir(cam: Camera, proj: Projection, u: int, v: int) -> (int, int, int) {
    vnorm(vsub(sample_target(cam, proj, u, v), v3(cam.pos)))
}

pub open spec fn sgn(d: int) -> int {
    if d > 0 {
        1
    } else if d < 0 {
        -1
    } else {
        0
    }
}

/// Distance along the ray to the first voxel-boundary crossing on one axis,
/// from the fractional position of the ray origin inside its voxel.
pub open spec fn axis_t_init(p: int, d: int) -> int {
    if d > 0 {
        fx_div_spec(65536 - p % 65536, d)
    } else if d < 0 {
        fx_div_spec(p % 65536, -d)
    } else {
        T_INF as int
    }
}

/// Distance along the ray between two voxel-boundary crossings on one axis.
pub open spec fn axis_t_delta(d: int) -> int {
    if d == 0 {
        0
    } else {
        fx_div_spec(65536, mag(d))
    }
}

/// The per-ray traversal state: the current voxel, the accumulated boundary
/// distances per axis, and whether the ray has been inside the volume.
pub ghost struct RayState {
    pub vox: (int, int, int),
    pub tmax: (int, int, int),
    pub entered: bool,
}

/// The per-ray constants: the step direction and boundary spacing per axis.
pub ghost struct RaySetup {
    pub step: (int, int, int),
    pub tdelta: (int, int, int),
}

pub open spec fn ray_setup(dir: (int, int, int)) -> RaySetup {
    RaySetup {
        step: (sgn(dir.0), sgn(dir.1), sgn(dir.2)),
        tdelta: (axis_t_delta(dir.0), axis_t_delta(dir.1), axis_t_delta(dir.2)),
    }
}

pub open spec fn ray_start(c: Chunk, pos: (int, int, int), dir: (int, int, int)) -> RayState {
    let vox = (pos.0 / 65536, pos.1 / 65536, pos.2 / 65536);
    RayState {
        vox,
        tmax: (axis_t_init(pos.0, dir.0), axis_t_init(pos.1, dir.1), axis_t_init(pos.2, dir.2)),
        entered: vox_in_chunk(c, vox),
    }
}

pub open spec fn vox_in_chunk(c: Chunk, v: (int, int, int)) -> bool {
    &&& 0 <= v.0 < c.dim_x()
    &&& 0 <= v.1 < c.dim_y()
    &&& 0 <= v.2 < c.dim_z()
}

pub open spec fn solid_at(c: Chunk, v: (int, int, int)) -> bool {
    c.spec_get(v.0, v.1, v.2) != AIR
}

/// One traversal step: advance along the axis with the smallest accumulated
/// boundary distance.
pub open spec fn advance(st: RayState, rs: RaySetup) -> RayState {
    if st.tmax.0 < st.tmax.1 {
        if st.tmax.0 < st.tmax.2 {
            RayState {
                vox: (st.vox.0 + rs.step.0, st.vox.1, st.vox.2),
                tmax: (st.tmax.0 + rs.tdelta.0, st.tmax.1, st.tmax.2),
                entered: st.entered,
            }
        } else {
            RayState {
                vox: (st.vox.0, st.vox.1, st.vox.2 + rs.step.2),
                tmax: (st.tmax.0, st.tmax.1, st.tmax.2 + rs.tdelta.2),
                entered: st.entered,
            }
        }
    } else {
        if st.tmax.1 < st.tmax.2 {
            RayState {
                vox: (st.vox.0, st.vox.1 + rs.step.1, st.vox.2),
                tmax: (st.tmax.0, st.tmax.1 + rs.tdelta.1, st.tmax.2),
                entered: st.entered,
            }
        } else {
            RayState {
                vox: (st.vox.0, st.vox.1, st.vox.2 + rs.step.2),
                tmax: (st.tmax.0, st.tmax.1, st.tmax.2 + rs.tdelta.2),
                entered: st.entered,
            }
        }
    }
}

/// The traversal itself: step, then stop on the first solid voxel (a hit),
/// on leaving the volume after having entered it (a miss), or when the step
/// budget is spent.
pub open spec fn walk(c: Chunk, st: RayState, rs: RaySetup, fuel: nat) -> Option<(int, int, int)>
    decreases fuel,
{
    if fuel == 0 {
        None
    } else {
        let n = advance(st, rs);
        if vox_in_chunk(c, n.vox) {
            if solid_at(c, n.vox) {
                Some(n.vox)
            } else {
                walk(
                    c,
                    RayState { vox: n.vox, tmax: n.tmax, entered: true },
                    rs,
                    (fuel - 1) as nat,
                )
            }
        } else if st.entered {
            None
        } else {
            walk(c, n, rs, (fuel - 1) as nat)
        }
    }
}

/// The step budget: enough steps to cross the far-plane distance along the
/// worst-case diagonal (`far * sqrt(3)` voxel boundaries, rounded up).
pub open spec fn step_cap(far: int) -> nat {
    ((far * 7) / 4 + 2) as nat
}

/// The first solid voxel hit by the ray from `pos` along `dir`, if any.
pub open spec fn cast_hit(c: Chunk, pos: (int, int, int), dir: (int, int, int), far: int) -> Option<
    (int, int, int),
> {
    walk(c, ray_start(c, pos, dir), ray_setup(dir), step_cap(far))
}

/// The first solid voxel hit by sample `(u, v)`, if any.
pub open spec fn ray_hit(c: Chunk, cam: Camera, proj: Projection, u: int, v: int) -> Option<
    (int, int, int),
> {
    cast_hit(c, v3(cam.pos), ray_dir(cam, proj, u, v), proj.far as int)
}

/// The deduplicated hit sequence after the first `n` samples, taken in
/// row-major order (`u` fastest): a hit is appended only the first time any
/// sample reports it.
pub open spec fn sample_hits(c: Chunk, cam: Camera, proj: Projection, n: nat) -> Seq<
    (int, int, int),
>
    decreases n,
{
    if n == 0 {
        Seq::empty()
    } else {
        let prev = sample_hits(c, cam, proj, (n - 1) as nat);
        let su = proj.samples_u as int;
        match ray_hit(c, cam, proj, (n - 1) as int % su, (n - 1) as int / su) {
            Some(t) => if prev.contains(t) {
                prev
            } else {
                prev.push(t)
            },
            None => prev,
        }
    }
}

/// The mathematical value of one frame's visibility computation.
pub open spec fn visible_model(c: Chunk, cam: Camera, proj: Projection) -> Seq<(int, int, int)> {
    sample_hits(c, cam, proj, (proj.samples_u * proj.samples_v) as nat)
}

/// Walks the voxel grid along one ray and returns its first hit.
fn trace_ray(c: &Chunk, pos: Vec3Fx, dir: Vec3Fx, far: u32) -> (r: Option<VoxelCoord>)
    requires
        c.wf(),
        -CAM_MAX <= pos.x <= CAM_MAX,
        -CAM_MAX <= pos.y <= CAM_MAX,
        -CAM_MAX <= pos.z <= CAM_MAX,
        -FX_ONE <= dir.x <= FX_ONE,
        -FX_ONE <= dir.y <= FX_ONE,
        -FX_ONE <= dir.z <= FX_ONE,
        1 <= far <= FAR_MAX,
    ensures
        match r {
            Some(cv) => cast_hit(*c, v3(pos), v3(dir), far as int) == Some(coord_triple(cv))
                && cv.x < c.dim_x() && cv.y < c.dim_y() && cv.z < c.dim_z() && c.spec_get(
                cv.x as int,
                cv.y as int,
                cv.z as int,
            ) != AIR,
            None => cast_hit(*c, v3(pos), v3(dir), far as int) is None,
        },
{
    proof {
        c.lemma_wf_dims();
    }
    let d = c.dimensions();
    let sx: usize = d.0;
    let sy: usize = d.1;
    let sz: usize = d.2;

    let mut vx: i64 = fx_floor(pos.x);
    let mut vy: i64 = fx_floor(pos.y);
    let mut vz: i64 = fx_floor(pos.z);

    let stx: i64 = if dir.x > 0 {
        1
    } else if dir.x < 0 {
        -1
    } else {
        0
    };
    let sty: i64 = if dir.y > 0 {
        1
    } else if dir.y < 0 {
        -1
    } else {
        0
    };
    let stz: i64 = if dir.z > 0 {
        1
    } else if dir.z < 0 {
        -1
    } else {
        0
    };

    proof {
        lemma_fundamental_div_mod(pos.x as int, 65536);
        lemma_fundamental_div_mod(pos.y as int, 65536);
        lemma_fundamental_div_mod(pos.z as int, 65536);
        lemma_mod_bound(pos.x as int, 65536);
        lemma_mod_bound(pos.y as int, 65536);
        lemma_mod_bound(pos.z as int, 65536);
    }
    let frx: i64 = pos.x - vx * 65536;
    let fry: i64 = pos.y - vy * 65536;
    let frz: i64 = pos.z - vz * 65536;

    proof {
        lemma_fx_div_nonneg_all(frx as int, fry as int, frz as int, dir);
    }
    let mut tx: i64 = if dir.x > 0 {
        fx_div(65536 - frx, dir.x)
    } else if dir.x < 0 {
        fx_div(frx, -dir.x)
    } else {
        T_INF
    };
    let mut ty: i64 = if dir.y > 0 {
        fx_div(65536 - fry, dir.y)
    } else if dir.y < 0 {
        fx_div(fry, -dir.y)
    } else {
        T_INF
    };
    let mut tz: i64 = if dir.z > 0 {
        fx_div(65536 - frz, dir.z)
    } else if dir.z < 0 {
        fx_div(frz, -dir.z)
    } else {
        T_INF
    };

    let tdx: i64 = if dir.x == 0 {
        0
    } else {
        fx_div(65536, if dir.x < 0 { -dir.x } else { dir.x })
    };
    let tdy: i64 = if dir.y == 0 {
        0
    } else {
        fx_div(65536, if dir.y < 0 { -dir.y } else { dir.y })
    };
    let tdz: i64 = if dir.z == 0 {
        0
    } else {
        fx_div(65536, if dir.z < 0 { -dir.z } else { dir.z })
    };

    let mut entered: bool = vx >= 0 && vy >= 0 && vz >= 0 && vx < sx as i64 && vy < sy as i64 && vz
        < sz as i64;

    let ghost st0 = ray_start(*c, v3(pos), v3(dir));
    let ghost setup = ray_setup(v3(dir));
    proof {
        assert(st0.vox == (vx as int, vy as int, vz as int));
        assert(st0.tmax == (tx as int, ty as int, tz as int));
        assert(st0.entered == entered);
        assert(setup.step == (stx as int, sty as int, stz as int));
        assert(setup.tdelta == (tdx as int, tdy as int, tdz as int));
        lemma_fx_div_mag(65536 - frx as int, dir.x as int, 65536);
        lemma_fx_div_mag(frx as int, -(dir.x as int), 65536);
        lemma_fx_div_mag(65536 - fry as int, dir.y as int, 65536);
        lemma_fx_div_mag(fry as int, -(dir.y as int), 65536);
        lemma_fx_div_mag(65536 - frz as int, dir.z as int, 65536);
        lemma_fx_div_mag(frz as int, -(dir.z as int), 65536);
        lemma_fx_div_mag(65536, mag(dir.x as int), 65536);
        lemma_fx_div_mag(65536, mag(dir.y as int), 65536);
        lemma_fx_div_mag(65536, mag(dir.z as int), 65536);
    }

    let cap: u32 = far * 7 / 4 + 2;
    let mut k: u32 = 0;
    while k < cap
        invariant
            c.wf(),
            sx == c.dim_x() && sy == c.dim_y() && sz == c.dim_z(),
            1 <= sx <= MAX_DIM && 1 <= sy <= MAX_DIM && 1 <= sz <= MAX_DIM,
            k <= cap,
            cap == far * 7 / 4 + 2,
            1 <= far <= FAR_MAX,
            st0 == ray_start(*c, v3(pos), v3(dir)),
            setup == ray_setup(v3(dir)),
            setup.step == (stx as int, sty as int, stz as int),
            setup.tdelta == (tdx as int, tdy as int, tdz as int),
            -1 <= stx <= 1 && -1 <= sty <= 1 && -1 <= stz <= 1,
            0 <= tdx <= 0x1_0000_0000 && 0 <= tdy <= 0x1_0000_0000 && 0 <= tdz <= 0x1_0000_0000,
            stx == 0 ==> tx == T_INF && tdx == 0,
            sty == 0 ==> ty == T_INF && tdy == 0,
            stz == 0 ==> tz == T_INF && tdz == 0,
            stx != 0 ==> 0 <= tx <= 0x1_0000_0000 * (k + 1),
            sty != 0 ==> 0 <= ty <= 0x1_0000_0000 * (k + 1),
            stz != 0 ==> 0 <= tz <= 0x1_0000_0000 * (k + 1),
            -1024 - k <= vx <= 1024 + k,
            -1024 - k <= vy <= 1024 + k,
            -1024 - k <= vz <= 1024 + k,
            walk(
                *c,
                RayState {
                    vox: (vx as int, vy as int, vz as int),
                    tmax: (tx as int, ty as int, tz as int),
                    entered,
                },
                setup,
                (cap - k) as nat,
            ) == walk(*c, st0, setup, step_cap(far as int)),
        decreases cap - k,
    {
        let ghost pre = RayState {
            vox: (vx as int, vy as int, vz as int),
            tmax: (tx as int, ty as int, tz as int),
            entered,
        };
        let ghost fuel = (cap - k) as nat;
        if tx < ty {
            if tx < tz {
                vx = vx + stx;
                tx = tx + tdx;
            } else {
                vz = vz + stz;
                tz = tz + tdz;
            }
        } else {
            if ty < tz {
                vy = vy + sty;
                ty = ty + tdy;
            } else {
                vz = vz + stz;
                tz = tz + tdz;
            }
        }
        k = k + 1;
        proof {
            assert(advance(pre, setup) == RayState {
                vox: (vx as int, vy as int, vz as int),
                tmax: (tx as int, ty as int, tz as int),
                entered,
            });
        }
        let inb: bool = vx >= 0 && vy >= 0 && vz >= 0 && vx < sx as i64 && vy < sy as i64 && vz
            < sz as i64;
        proof {
            assert(inb == vox_in_chunk(*c, (vx as int, vy as int, vz as int)));
        }
        if inb {
            let m: u32 = c.get_unchecked(vx as usize, vy as usize, vz as usize);
            if m != AIR {
                proof {
                    assert(walk(*c, pre, setup, fuel) == Some((vx as int, vy as int, vz as int)));
                }
                return Some(VoxelCoord { x: vx as usize, y: vy as usize, z: vz as usize });
            }
            entered = true;
            proof {
                assert(walk(*c, pre, setup, fuel) == walk(
                    *c,
                    RayState {
                        vox: (vx as int, vy as int, vz as int),
                        tmax: (tx as int, ty as int, tz as int),
                        entered,
                    },
                    setup,
                    (fuel - 1) as nat,
                ));
            }
        } else {
            if entered {
                proof {
                    assert(walk(*c, pre, setup, fuel) is None);
                }
                return None;
            }
            proof {
                assert(walk(*c, pre, setup, fuel) == walk(
                    *c,
                    RayState {
                        vox: (vx as int, vy as int, vz as int),
                        tmax: (tx as int, ty as int, tz as int),
                        entered,
                    },
                    setup,
                    (fuel - 1) as nat,
                ));
            }
        }
    }
    None
}

/// Cap on the far-plane rectangle height in fixed-point units.
pub const FH_MAX: i64 = 0x10_0000_0000;

/// Cap on the far-plane rectangle width in fixed-point units.
pub const FW_MAX: i64 = 0x400_0000_0000;

/// Cap on the far-plane corner coordinates in fixed-point units.
pub const FBL_MAX: i64 = 0x400_0000_0000;

/// The per-frame frustum data shared by every sampled ray.
struct FrustumBasis {
    right: Vec3Fx,
    upv: Vec3Fx,
    fbl: Vec3Fx,
    fh: i64,
    fw: i64,
}

/// Computes the far-plane rectangle and the camera's orthonormal basis.
fn frustum_basis(cam: &Camera, proj: &Projection) -> (b: FrustumBasis)
    requires
        cam.wf(),
        proj.wf(),
    ensures
        v3(b.right) == right_vec(*cam),
        v3(b.upv) == up_vec(*cam),
        v3(b.fbl) == far_bottom_left(*cam, *proj),
        b.fh == far_height(*proj),
        b.fw == far_width(*proj),
        -FX_ONE <= b.right.x <= FX_ONE && -FX_ONE <= b.right.y <= FX_ONE && -FX_ONE <= b.right.z
            <= FX_ONE,
        -FX_ONE <= b.upv.x <= FX_ONE && -FX_ONE <= b.upv.y <= FX_ONE && -FX_ONE <= b.upv.z
            <= FX_ONE,
        0 <= b.fh <= FH_MAX,
        0 <= b.fw <= FW_MAX,
        -FBL_MAX <= b.fbl.x <= FBL_MAX && -FBL_MAX <= b.fbl.y <= FBL_MAX && -FBL_MAX <= b.fbl.z
            <= FBL_MAX,
{
    let farfx: i64 = (proj.far as i64) * 65536;
    let two_tan: i64 = 2 * proj.tan_half_fov;
    proof {
        lemma_fx_mul_mag(farfx as int, two_tan as int, 0x1000_0000, 0x80_0000);
        lemma_fx_mul_sign(farfx as int, two_tan as int);
    }
    let fh0: i64 = fx_mul(farfx, two_tan);
    proof {
        lemma_fx_mul_mag(fh0 as int, proj.widen as int, 0x8_0000_0000, 0x2_0000);
        lemma_fx_mul_sign(fh0 as int, proj.widen as int);
    }
    let fh: i64 = fx_mul(fh0, proj.widen);
    proof {
        lemma_fx_mul_mag(fh as int, proj.aspect as int, 0x10_0000_0000, 0x40_0000);
        lemma_fx_mul_sign(fh as int, proj.aspect as int);
    }
    let fw: i64 = fx_mul(fh, proj.aspect);

    let right = v3_norm(v3_cross(cam.forward, cam.up));
    let upv = v3_norm(v3_cross(right, cam.forward));

    proof {
        lemma_fx_mul_mag(farfx as int, cam.forward.x as int, 0x1000_0000, 0x400_0000);
        lemma_fx_mul_mag(farfx as int, cam.forward.y as int, 0x1000_0000, 0x400_0000);
        lemma_fx_mul_mag(farfx as int, cam.forward.z as int, 0x1000_0000, 0x400_0000);
    }
    let fc = v3_add(cam.pos, v3_scale(farfx, cam.forward));

    let fh2: i64 = ((fh as u64) / 2) as i64;
    let fw2: i64 = ((fw as u64) / 2) as i64;
    proof {
        lemma_fx_mul_mag(fh2 as int, upv.x as int, 0x8_0000_0000, 0x1_0000);
        lemma_fx_mul_mag(fh2 as int, upv.y as int, 0x8_0000_0000, 0x1_0000);
        lemma_fx_mul_mag(fh2 as int, upv.z as int, 0x8_0000_0000, 0x1_0000);
        lemma_fx_mul_mag(fw2 as int, right.x as int, 0x200_0000_0000, 0x1_0000);
        lemma_fx_mul_mag(fw2 as int, right.y as int, 0x200_0000_0000, 0x1_0000);
        lemma_fx_mul_mag(fw2 as int, right.z as int, 0x200_0000_0000, 0x1_0000);
    }
    let fbl = v3_sub(v3_sub(fc, v3_scale(fh2, upv)), v3_scale(fw2, right));
    proof {
        assert(v3(fc) == far_center(*cam, *proj));
        assert(v3(fbl) == far_bottom_left(*cam, *proj));
    }
    FrustumBasis { right, upv, fbl, fh, fw }
}

/// Computes the unit ray direction for one sample of the screen grid.
fn sample_dir(cam: &Camera, proj: &Projection, b: &FrustumBasis, u: usize, v: usize) -> (dir:
    Vec3Fx)
    requires
        cam.wf(),
        proj.wf(),
        u < proj.samples_u,
        v < proj.samples_v,
        v3(b.right) == right_vec(*cam),
        v3(b.upv) == up_vec(*cam),
        v3(b.fbl) == far_bottom_left(*cam, *proj),
        b.fh == far_height(*proj),
        b.fw == far_width(*proj),
        -FX_ONE <= b.right.x <= FX_ONE && -FX_ONE <= b.right.y <= FX_ONE && -FX_ONE <= b.right.z
            <= FX_ONE,
        -FX_ONE <= b.upv.x <= FX_ONE && -FX_ONE <= b.upv.y <= FX_ONE && -FX_ONE <= b.upv.z
            <= FX_ONE,
        0 <= b.fh <= FH_MAX,
        0 <= b.fw <= FW_MAX,
        -FBL_MAX <= b.fbl.x <= FBL_MAX && -FBL_MAX <= b.fbl.y <= FBL_MAX && -FBL_MAX <= b.fbl.z
            <= FBL_MAX,
    ensures
        v3(dir) == ray_dir(*cam, *proj, u as int, v as int),
        -FX_ONE <= dir.x <= FX_ONE,
        -FX_ONE <= dir.y <= FX_ONE,
        -FX_ONE <= dir.z <= FX_ONE,
{
    proof {
        lemma_mul_strict_inequality(u as int, proj.samples_u as int, 65536);
        lemma_mul_strict_inequality(v as int, proj.samples_v as int, 65536);
        lemma_multiply_divide_lt((u * 65536) as int, proj.samples_u as int, 65536);
        lemma_multiply_divide_lt((v * 65536) as int, proj.samples_v as int, 65536);
        lemma_div_pos_is_pos((u * 65536) as int, proj.samples_u as int);
        lemma_div_pos_is_pos((v * 65536) as int, proj.samples_v as int);
    }
    let du: i64 = (((u as u64) * 65536) / (proj.samples_u as u64)) as i64;
    let dv: i64 = (((v as u64) * 65536) / (proj.samples_v as u64)) as i64;
    proof {
        assert(du == grid_frac(u as int, proj.samples_u as int));
        assert(dv == grid_frac(v as int, proj.samples_v as int));
        lemma_fx_mul_mag(b.fh as int, dv as int, 0x10_0000_0000, 0x1_0000);
        lemma_fx_mul_mag(b.fw as int, du as int, 0x400_0000_0000, 0x1_0000);
    }
    let th: i64 = fx_mul(b.fh, dv);
    let tw: i64 = fx_mul(b.fw, du);
    proof {
        lemma_fx_mul_mag(th as int, b.upv.x as int, 0x10_0000_0000, 0x1_0000);
        lemma_fx_mul_mag(th as int, b.upv.y as int, 0x10_0000_0000, 0x1_0000);
        lemma_fx_mul_mag(th as int, b.upv.z as int, 0x10_0000_0000, 0x1_0000);
        lemma_fx_mul_mag(tw as int, b.right.x as int, 0x400_0000_0000, 0x1_0000);
        lemma_fx_mul_mag(tw as int, b.right.y as int, 0x400_0000_0000, 0x1_0000);
        lemma_fx_mul_mag(tw as int, b.right.z as int, 0x400_0000_0000, 0x1_0000);
    }
    let target = v3_add(b.fbl, v3_add(v3_scale(th, b.upv), v3_scale(tw, b.right)));
    let dir = v3_norm(v3_sub(target, cam.pos));
    proof {
        assert(v3(target) == sample_target(*cam, *proj, u as int, v as int));
    }
    dir
}

/// Linear index of a cell in the flat per-frame marker array.
pub open spec fn lin_index(t: (int, int, int), sx: int, sy: int) -> int {
    t.2 * (sy * sx) + t.1 * sx + t.0
}

/// The cell a linear index stands for.
pub open spec fn index_triple(i: int, sx: int, sy: int) -> (int, int, int) {
    (i % sx, (i / sx) % sy, i / (sx * sy))
}

/// Rebuilding a linear index from its cell gives the index back.
proof fn lemma_lin_index_roundtrip(i: int, sx: int, sy: int)
    requires
        0 <= i,
        0 < sx,
        0 < sy,
    ensures
        lin_index(index_triple(i, sx, sy), sx, sy) == i,
{
    let x = i % sx;
    let q = i / sx;
    let y = q % sy;
    let z = q / sy;
    lemma_fundamental_div_mod(i, sx);
    lemma_fundamental_div_mod(q, sy);
    lemma_div_pos_is_pos(i, sx);
    lemma_div_denominator(i, sx, sy);
    assert(z * (sy * sx) + y * sx + x == i) by (nonlinear_arith)
        requires
            i == sx * q + x,
            q == sy * z + y,
    ;
}

/// Computes the visible-voxel list for one frame: every solid voxel that is
/// the first hit of at least one sampled ray, in traversal order, each
/// exactly once.
#[verifier::loop_isolation(false)]
pub fn compute_visible(chunk: &Chunk, cam: &Camera, proj: &Projection) -> (out: Vec<VoxelCoord>)
    requires
        chunk.wf(),
        cam.wf(),
        proj.wf(),
    ensures
        coord_triples(out@) == visible_model(*chunk, *cam, *proj),
        forall|i: int|
            0 <= i < out@.len() ==> (#[trigger] out@[i]).x < chunk.dim_x() && out@[i].y
                < chunk.dim_y() && out@[i].z < chunk.dim_z(),
        forall|i: int|
            0 <= i < out@.len() ==> chunk.spec_get(
                (#[trigger] out@[i]).x as int,
                out@[i].y as int,
                out@[i].z as int,
            ) != AIR,
        forall|i: int, j: int| 0 <= i < j < out@.len() ==> out@[i] != out@[j],
{
    proof {
        chunk.lemma_wf_dims();
    }
    let d = chunk.dimensions();
    let sx: usize = d.0;
    let sy: usize = d.1;
    let sz: usize = d.2;
    proof {
        assert(sy * sx <= sx * sy * sz && (sy * sx) * sz == sx * sy * sz) by (nonlinear_arith)
            requires
                1 <= sx,
                1 <= sy,
                1 <= sz,
        ;
    }
    let area: usize = sy * sx;
    let ncells: usize = area * sz;

    let mut used: Vec<bool> = Vec::new();
    let mut i: usize = 0;
    while i < ncells
        invariant
            i <= ncells,
            used@.len() == i,
            forall|j: int| 0 <= j < i ==> !(#[trigger] used@[j]),
        decreases ncells - i,
    {
        used.push(false);
        i = i + 1;
    }

    let b = frustum_basis(cam, proj);
    let su_n: usize = proj.samples_u;
    let sv_n: usize = proj.samples_v;
    let mut out: Vec<VoxelCoord> = Vec::new();

    let mut v: usize = 0;
    while v < sv_n
        invariant
            v <= sv_n,
            used@.len() == ncells,
            coord_triples(out@) == sample_hits(*chunk, *cam, *proj, (v * su_n) as nat),
            forall|j: int|
                0 <= j < ncells ==> ((#[trigger] used@[j]) <==> sample_hits(
                    *chunk,
                    *cam,
                    *proj,
                    (v * su_n) as nat,
                ).contains(index_triple(j, sx as int, sy as int))),
            forall|i: int|
                0 <= i < out@.len() ==> (#[trigger] out@[i]).x < sx && out@[i].y < sy && out@[i].z
                    < sz,
            forall|i: int|
                0 <= i < out@.len() ==> chunk.spec_get(
                    (#[trigger] out@[i]).x as int,
                    out@[i].y as int,
                    out@[i].z as int,
                ) != AIR,
            forall|i: int, j: int| 0 <= i < j < out@.len() ==> out@[i] != out@[j],
        decreases sv_n - v,
    {
        let mut u: usize = 0;
        while u < su_n
            invariant
                u <= su_n,
                v < sv_n,
                used@.len() == ncells,
                coord_triples(out@) == sample_hits(*chunk, *cam, *proj, (v * su_n + u) as nat),
                forall|j: int|
                    0 <= j < ncells ==> ((#[trigger] used@[j]) <==> sample_hits(
                        *chunk,
                        *cam,
                        *proj,
                        (v * su_n + u) as nat,
                    ).contains(index_triple(j, sx as int, sy as int))),
                forall|i: int|
                    0 <= i < out@.len() ==> (#[trigger] out@[i]).x < sx && out@[i].y < sy
                        && out@[i].z < sz,
                forall|i: int|
                    0 <= i < out@.len() ==> chunk.spec_get(
                        (#[trigger] out@[i]).x as int,
                        out@[i].y as int,
                        out@[i].z as int,
                    ) != AIR,
                forall|i: int, j: int| 0 <= i < j < out@.len() ==> out@[i] != out@[j],
            decreases su_n - u,
        {
            let ghost n = (v * su_n + u) as nat;
            let dirv = sample_dir(cam, proj, &b, u, v);
            let hit = trace_ray(chunk, cam.pos, dirv, proj.far);
            proof {
                assert(ray_hit(*chunk, *cam, *proj, u as int, v as int) == cast_hit(
                    *chunk,
                    v3(cam.pos),
                    v3(dirv),
                    proj.far as int,
                ));
                lemma_fundamental_div_mod_converse(
                    n as int,
                    su_n as int,
                    v as int,
                    u as int,
                );
                assert(sample_hits(*chunk, *cam, *proj, n + 1) == match ray_hit(
                    *chunk,
                    *cam,
                    *proj,
                    u as int,
                    v as int,
                ) {
                    Some(t) => if sample_hits(*chunk, *cam, *proj, n).contains(t) {
                        sample_hits(*chunk, *cam, *proj, n)
                    } else {
                        sample_hits(*chunk, *cam, *proj, n).push(t)
                    },
                    None => sample_hits(*chunk, *cam, *proj, n),
                });
            }
            match hit {
                None => {
                },
                Some(cv) => {
                    proof {
                        lemma_grid_index_bounds(
                            cv.x as int,
                            cv.y as int,
                            cv.z as int,
                            sx as int,
                            sy as int,
                            sz as int,
                        );
                        lemma_grid_index_decompose(
                            cv.x as int,
                            cv.y as int,
                            cv.z as int,
                            sx as int,
                            sy as int,
                        );
                    }
                    let idx: usize = cv.z * area + cv.y * sx + cv.x;
                    proof {
                        assert(index_triple(idx as int, sx as int, sy as int) == coord_triple(cv));
                        assert(lin_index(coord_triple(cv), sx as int, sy as int) == idx);
                    }
                    let ghost t = coord_triple(cv);
                    let ghost prev = sample_hits(*chunk, *cam, *proj, n);
                    let ghost out0 = out@;
                    let ghost used0 = used@;
                    if !used[idx] {
                        used[idx] = true;
                        out.push(cv);
                        proof {
                            assert(coord_triples(out@) =~= coord_triples(out0).push(t));
                            assert forall|j: int| 0 <= j < ncells implies ((#[trigger] used@[j])
                                <==> sample_hits(*chunk, *cam, *proj, n + 1).contains(
                                index_triple(j, sx as int, sy as int),
                            )) by {
                                let q = index_triple(j, sx as int, sy as int);
                                vstd::seq_lib::lemma_seq_contains_after_push(prev, t, q);
                                if j != idx {
                                    lemma_lin_index_roundtrip(j, sx as int, sy as int);
                                }
                            }
                            assert forall|i: int, j: int|
                                0 <= i < j < out@.len() implies out@[i] != out@[j] by {
                                if j == out@.len() - 1 && out@[i] == out@[j] {
                                    assert(coord_triples(out0)[i] == t);
                                    assert(prev.contains(t));
                                }
                            }
                        }
                    } else {
                        proof {
                            assert(prev.contains(t));
                        }
                    }
                },
            }
            u = u + 1;
        }
        v = v + 1;
        proof {
            assert(v * su_n == (v - 1) * su_n + su_n) by (nonlinear_arith);
        }
    }
    proof {
        assert(sv_n * su_n == su_n * sv_n) by (nonlinear_arith);
    }
    out
}

/// A traversal can only report a solid voxel inside the volume.
proof fn lemma_walk_hit_solid(c: Chunk, st: RayState, rs: RaySetup, fuel: nat)
    ensures
        walk(c, st, rs, fuel) matches Some(t) ==> vox_in_chunk(c, t) && solid_at(c, t),
    decreases fuel,
{
    if fuel > 0 {
        let n = advance(st, rs);
        if vox_in_chunk(c, n.vox) {
            if !solid_at(c, n.vox) {
                lemma_walk_hit_solid(
                    c,
                    RayState { vox: n.vox, tmax: n.tmax, entered: true },
                    rs,
                    (fuel - 1) as nat,
                );
            }
        } else if !st.entered {
            lemma_walk_hit_solid(c, n, rs, (fuel - 1) as nat);
        }
    }
}

proof fn lemma_sample_hits_all_air(c: Chunk, cam: Camera, proj: Projection, n: nat)
    requires
        forall|x: int, y: int, z: int| #[trigger] c.spec_get(x, y, z) == AIR,
    ensures
        sample_hits(c, cam, proj, n) == Seq::<(int, int, int)>::empty(),
    decreases n,
{
    if n > 0 {
        lemma_sample_hits_all_air(c, cam, proj, (n - 1) as nat);
        let su = proj.samples_u as int;
        let u = (n - 1) as int % su;
        let v = (n - 1) as int / su;
        let dir = ray_dir(cam, proj, u, v);
        lemma_walk_hit_solid(
            c,
            ray_start(c, v3(cam.pos), dir),
            ray_setup(dir),
            step_cap(proj.far as int),
        );
    }
}

/// Degenerate chunk: a volume with no solid voxel yields an empty output
/// for any camera pose and sampling configuration.
pub proof fn lemma_all_air_empty(c: Chunk, cam: Camera, proj: Projection)
    requires
        forall|x: int, y: int, z: int| #[trigger] c.spec_get(x, y, z) == AIR,
    ensures
        visible_model(c, cam, proj) == Seq::<(int, int, int)>::empty(),
{
    lemma_sample_hits_all_air(c, cam, proj, (proj.samples_u * proj.samples_v) as nat);
}

/// Determinism: the visible-voxel list is a function of the chunk, the
/// camera and the projection alone, so any two result sequences whose
/// coordinates equal the model of the same inputs are equal.
pub proof fn lemma_visible_deterministic(
    r1: Seq<VoxelCoord>,
    r2: Seq<VoxelCoord>,
    c: Chunk,
    cam: Camera,
    proj: Projection,
)
    requires
        coord_triples(r1) == visible_model(c, cam, proj),
        coord_triples(r2) == visible_model(c, cam, proj),
    ensures
        r1 == r2,
{
    assert(coord_triples(r1).len() == r1.len());
    assert(coord_triples(r2).len() == r2.len());
    assert(r1.len() == r2.len());
    assert forall|i: int| 0 <= i < r1.len() implies r1[i] == r2[i] by {
        assert(coord_triples(r1)[i] == coord_triples(r2)[i]);
        assert(coord_triple(r1[i]) == coord_triple(r2[i]));
    }
    assert(r1 =~= r2);
}

/// A sample whose ray first hits `t`, with its position in the row-major
/// sample order bounded by `n`.
pub open spec fn hit_witness(
    c: Chunk,
    cam: Camera,
    proj: Projection,
    n: nat,
    t: (int, int, int),
    u: int,
    v: int,
) -> bool {
    &&& 0 <= u < proj.samples_u
    &&& 0 <= v
    &&& v * (proj.samples_u as int) + u < n
    &&& ray_hit(c, cam, proj, u, v) == Some(t)
}

/// A voxel is in the deduplicated hit sequence exactly when some earlier
/// sample's ray first hits it.
proof fn lemma_sample_hits_contains(
    c: Chunk,
    cam: Camera,
    proj: Projection,
    n: nat,
    t: (int, int, int),
)
    requires
        1 <= proj.samples_u,
    ensures
        sample_hits(c, cam, proj, n).contains(t) <==> exists|u: int, v: int|
            #[trigger] hit_witness(c, cam, proj, n, t, u, v),
    decreases n,
{
    let su = proj.samples_u as int;
    if n == 0 {
        assert forall|u: int, v: int| !hit_witness(c, cam, proj, n, t, u, v) by {
            if 0 <= v && 0 <= u {
                assert(0 <= v * su) by (nonlinear_arith)
                    requires
                        0 <= v,
                        0 < su,
                ;
            }
        }
    } else {
        lemma_sample_hits_contains(c, cam, proj, (n - 1) as nat, t);
        let prev = sample_hits(c, cam, proj, (n - 1) as nat);
        let u0 = (n - 1) as int % su;
        let v0 = (n - 1) as int / su;
        lemma_mod_bound((n - 1) as int, su);
        lemma_div_pos_is_pos((n - 1) as int, su);
        lemma_fundamental_div_mod((n - 1) as int, su);
        if sample_hits(c, cam, proj, n).contains(t) {
            match ray_hit(c, cam, proj, u0, v0) {
                Some(h) => {
                    vstd::seq_lib::lemma_seq_contains_after_push(prev, h, t);
                    if h == t && !prev.contains(t) {
                        assert(hit_witness(c, cam, proj, n, t, u0, v0));
                    } else {
                        assert(prev.contains(t));
                        let (uu, vv) = choose|uu: int, vv: int|
                            #[trigger] hit_witness(c, cam, proj, (n - 1) as nat, t, uu, vv);
                        assert(hit_witness(c, cam, proj, n, t, uu, vv));
                    }
                },
                None => {
                    let (uu, vv) = choose|uu: int, vv: int|
                        #[trigger] hit_witness(c, cam, proj, (n - 1) as nat, t, uu, vv);
                    assert(hit_witness(c, cam, proj, n, t, uu, vv));
                },
            }
        }
        if exists|uu: int, vv: int| #[trigger] hit_witness(c, cam, proj, n, t, uu, vv) {
            let (uu, vv) = choose|uu: int, vv: int|
                #[trigger] hit_witness(c, cam, proj, n, t, uu, vv);
            if vv * su + uu == n - 1 {
                lemma_fundamental_div_mod_converse((n - 1) as int, su, vv, uu);
                assert(uu == u0 && vv == v0);
                assert(ray_hit(c, cam, proj, u0, v0) == Some(t));
                if prev.contains(t) {
                    assert(sample_hits(c, cam, proj, n).contains(t));
                } else {
                    vstd::seq_lib::lemma_seq_contains_after_push(prev, t, t);
                }
            } else {
                assert(hit_witness(c, cam, proj, (n - 1) as nat, t, uu, vv));
                assert(prev.contains(t));
                match ray_hit(c, cam, proj, u0, v0) {
                    Some(h) => {
                        vstd::seq_lib::lemma_seq_contains_after_push(prev, h, t);
                    },
                    None => {
                    },
                }
            }
        }
    }
}

/// The result guarantee in both directions: a voxel is in the visible
/// model exactly when the ray of at least one sample reports it as its
/// first hit — nothing occluded along every sampled ray can appear.
pub proof fn lemma_visible_iff_ray_hit(c: Chunk, cam: Camera, proj: Projection, t: (int, int, int))
    requires
        1 <= proj.samples_u,
    ensures
        visible_model(c, cam, proj).contains(t) <==> exists|u: int, v: int|
            #[trigger] hit_witness(
                c,
                cam,
                proj,
                (proj.samples_u * proj.samples_v) as nat,
                t,
                u,
                v,
            ),
{
    lemma_sample_hits_contains(c, cam, proj, (proj.samples_u * proj.samples_v) as nat, t);
}

/// Scaling numerator and denominator of a grid fraction by a common factor
/// leaves it unchanged: a refined grid revisits every coarse sample point.
proof fn lemma_grid_frac_scale(i: int, n: int, k: int)
    requires
        0 <= i,
        0 < n,
        0 < k,
    ensures
        grid_frac(k * i, k * n) == grid_frac(i, n),
{
    let a = i * 65536;
    assert(k * i * 65536 == k * a) by (nonlinear_arith)
        requires
            a == i * 65536,
    ;
    assert(0 <= k * a) by (nonlinear_arith)
        requires
            0 <= a,
            0 < k,
    ;
    lemma_div_denominator(k * a, k, n);
    lemma_div_multiples_vanish(a, k);
}

/// Sampling-density monotonicity: refining the sampling grid by integer
/// factors on both axes never loses a voxel from the visible set.
pub proof fn lemma_sampling_refinement(
    c: Chunk,
    cam: Camera,
    proj: Projection,
    proj2: Projection,
    k: int,
    m: int,
)
    requires
        proj.wf(),
        proj2.wf(),
        1 <= k,
        1 <= m,
        proj2.samples_u == k * proj.samples_u,
        proj2.samples_v == m * proj.samples_v,
        proj2.aspect == proj.aspect,
        proj2.tan_half_fov == proj.tan_half_fov,
        proj2.widen == proj.widen,
        proj2.far == proj.far,
    ensures
        forall|t: (int, int, int)|
            visible_model(c, cam, proj).contains(t) ==> visible_model(c, cam, proj2).contains(t),
{
    let su = proj.samples_u as int;
    let sv = proj.samples_v as int;
    let su2 = proj2.samples_u as int;
    let sv2 = proj2.samples_v as int;
    assert forall|t: (int, int, int)| visible_model(c, cam, proj).contains(t) implies visible_model(
        c,
        cam,
        proj2,
    ).contains(t) by {
        lemma_sample_hits_contains(c, cam, proj, (proj.samples_u * proj.samples_v) as nat, t);
        let (uu, vv) = choose|uu: int, vv: int|
            #[trigger] hit_witness(c, cam, proj, (proj.samples_u * proj.samples_v) as nat, t, uu, vv);
        assert(vv < sv) by (nonlinear_arith)
            requires
                vv * su + uu < su * sv,
                0 <= uu,
                0 <= vv,
                0 < su,
                0 < sv,
        ;
        lemma_grid_frac_scale(uu, su, k);
        lemma_grid_frac_scale(vv, sv, m);
        assert(ray_dir(cam, proj2, k * uu, m * vv) == ray_dir(cam, proj, uu, vv));
        assert(ray_hit(c, cam, proj2, k * uu, m * vv) == Some(t));
        assert(0 <= k * uu < su2 && 0 <= m * vv && (m * vv) * su2 + k * uu < su2 * sv2)
            by (nonlinear_arith)
            requires
                0 <= uu < su,
                0 <= vv < sv,
                1 <= k,
                1 <= m,
                su2 == k * su,
                sv2 == m * sv,
                0 < su,
                0 < sv,
        ;
        assert(hit_witness(
            c,
            cam,
            proj2,
            (proj2.samples_u * proj2.samples_v) as nat,
            t,
            k * uu,
            m * vv,
        ));
        lemma_sample_hits_contains(c, cam, proj2, (proj2.samples_u * proj2.samples_v) as nat, t);
    }
}

/// Groups the nonnegativity facts for the initial boundary distances.
proof fn lemma_fx_div_nonneg_all(frx: int, fry: int, frz: int, dir: Vec3Fx)
    requires
        0 <= frx < 65536,
        0 <= fry < 65536,
        0 <= frz < 65536,
    ensures
        dir.x > 0 ==> 0 <= fx_div_spec(65536 - frx, dir.x as int),
        dir.x < 0 ==> 0 <= fx_div_spec(frx, -(dir.x as int)),
        dir.y > 0 ==> 0 <= fx_div_spec(65536 - fry, dir.y as int),
        dir.y < 0 ==> 0 <= fx_div_spec(fry, -(dir.y as int)),
        dir.z > 0 ==> 0 <= fx_div_spec(65536 - frz, dir.z as int),
        dir.z < 0 ==> 0 <= fx_div_spec(frz, -(dir.z as int)),
{
    if dir.x > 0 {
        lemma_fx_div_nonneg(65536 - frx, dir.x as int);
    }
    if dir.x < 0 {
        lemma_fx_div_nonneg(frx, -(dir.x as int));
    }
    if dir.y > 0 {
        lemma_fx_div_nonneg(65536 - fry, dir.y as int);
    }
    if dir.y < 0 {
        lemma_fx_div_nonneg(fry, -(dir.y as int));
    }
    if dir.z > 0 {
        lemma_fx_div_nonneg(65536 - frz, dir.z as int);
    }
    if dir.z < 0 {
        lemma_fx_div_nonneg(frz, -(dir.z as int));
    }
}

} // verus!
