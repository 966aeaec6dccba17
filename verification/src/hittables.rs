//! Spheres, scenes, and the ray/sphere intersection.
//!
//! The intersection solves the quadratic `a*t^2 + 2*hb*t + c = 0` exactly in
//! scaled integers; `sphere_time` is the specification of which parameter, if
//! any, a sphere reports for a ray within `[t_min, t_max]`.

use crate::fixed::{
    iabs, lemma_mul_abs_bound, lemma_mul_fx_bound, lemma_sqrt_floor_def, lemma_sqrt_floor_is,
    lemma_tdiv_bounds, mul_fx, mul_fx_wide, mul_i128, sqrt_floor, sqrt_floor_i128, tdiv, tdiv_i128,
    COORD_LIMIT, DIR_LIMIT, POS_LIMIT, SCALE, T_LIMIT, WIDE_LIMIT,
};
use crate::materials::{
    absorbed_result, mat_wf, result_att, result_ray, scattered_result, Material,
};
use crate::ray::{at_comp, Ray};
use crate::vec3::{bounded, dot3, dot_wide, unit_spec, Vec3};
use vstd::arithmetic::div_mod::{lemma_div_multiples_vanish, lemma_fundamental_div_mod};
use vstd::prelude::*;

verus! {

/// The outcome a material reports for a hit: attenuation and outgoing ray.
#[derive(Debug, Clone, Copy, PartialEq, Eq, Structural)]
pub enum HitResult {
    Scatter(Vec3, Ray),
}

/// A hit: the ray parameter at the surface and the scatter outcome there.
#[derive(Debug, Clone, Copy, PartialEq, Eq, Structural)]
pub struct Hit {
    pub result: HitResult,
    pub time: i64,
}

/// A sphere with its material.
#[derive(Debug, Clone, Copy, PartialEq, Eq, Structural)]
pub struct Sphere {
    pub center: Vec3,
    pub radius: i64,
    pub material: Material,
}

/// Sphere data lies in the scene coordinate range and its material is valid.
pub open spec fn sph_wf(s: Sphere) -> bool {
    &&& bounded(s.center, COORD_LIMIT as int)
    &&& 0 <= s.radius <= COORD_LIMIT
    &&& mat_wf(s.material)
}

/// Quadratic coefficient `a`: the direction dotted with itself.
pub open spec fn quad_a(r: Ray) -> int {
    dot3(r.direction, r.direction)
}

/// Quadratic half-coefficient `hb`: direction dotted with `origin - center`.
pub open spec fn quad_hb(s: Sphere, r: Ray) -> int {
    mul_fx(r.direction.0 as int, r.origin.0 - s.center.0) + mul_fx(
        r.direction.1 as int,
        r.origin.1 - s.center.1,
    ) + mul_fx(r.direction.2 as int, r.origin.2 - s.center.2)
}

/// Quadratic coefficient `c`: `|origin - center|^2 - radius^2`.
pub open spec fn quad_c(s: Sphere, r: Ray) -> int {
    mul_fx(r.origin.0 - s.center.0, r.origin.0 - s.center.0) + mul_fx(
        r.origin.1 - s.center.1,
        r.origin.1 - s.center.1,
    ) + mul_fx(r.origin.2 - s.center.2, r.origin.2 - s.center.2) - mul_fx(
        s.radius as int,
        s.radius as int,
    )
}

/// The discriminant `hb^2 - a*c`, in squared stored units.
pub open spec fn disc2(s: Sphere, r: Ray) -> int {
    quad_hb(s, r) * quad_hb(s, r) - quad_a(r) * quad_c(s, r)
}

/// The smaller quadratic root, in stored units.
pub open spec fn root_small(s: Sphere, r: Ray) -> int {
    tdiv((-quad_hb(s, r) - sqrt_floor(disc2(s, r))) * (SCALE as int), quad_a(r))
}

/// The larger quadratic root, in stored units.
pub open spec fn root_large(s: Sphere, r: Ray) -> int {
    tdiv((-quad_hb(s, r) + sqrt_floor(disc2(s, r))) * (SCALE as int), quad_a(r))
}

/// Which parameter, if any, the sphere reports for the ray in
/// `[t_min, t_max]`: the smaller root is tried first, then the larger.  A
/// non-positive discriminant (including tangency) is a miss, as is a
/// degenerate direction with `a == 0`.
pub open spec fn sphere_time(s: Sphere, r: Ray, t_min: int, t_max: int) -> Option<int> {
    if quad_a(r) <= 0 {
        None
    } else if disc2(s, r) <= 0 {
        None
    } else if t_min <= root_small(s, r) && root_small(s, r) <= t_max {
        Some(root_small(s, r))
    } else if t_min <= root_large(s, r) && root_large(s, r) <= t_max {
        Some(root_large(s, r))
    } else {
        None
    }
}

/// The surface point hit at parameter `t`.
pub open spec fn hit_point(r: Ray, t: int) -> Vec3 {
    Vec3(
        at_comp(r.origin.0 as int, t, r.direction.0 as int) as i64,
        at_comp(r.origin.1 as int, t, r.direction.1 as int) as i64,
        at_comp(r.origin.2 as int, t, r.direction.2 as int) as i64,
    )
}

/// The outward unit normal at the surface point for parameter `t`; the zero
/// vector in the degenerate case where the point coincides with the center.
pub open spec fn hit_normal(s: Sphere, r: Ray, t: int) -> Vec3 {
    let p = hit_point(r, t);
    let d = Vec3((p.0 - s.center.0) as i64, (p.1 - s.center.1) as i64, (p.2 - s.center.2) as i64);
    if dot3(d, d) > 0 {
        unit_spec(d)
    } else {
        Vec3(0i64, 0i64, 0i64)
    }
}

/// What a sphere promises of a reported hit at parameter `t`: the scatter
/// outcome was produced at the surface point, with the sphere's material and
/// the outward normal there.
pub open spec fn hit_ok(s: Sphere, r: Ray, t: int, h: Hit) -> bool {
    &&& h.time as int == t
    &&& absorbed_result(hit_point(r, t), r.direction, h.result) || scattered_result(
        s.material,
        hit_point(r, t),
        r.direction,
        hit_normal(s, r, t),
        h.result,
    )
    &&& 0 <= result_att(h.result).0 <= SCALE
    &&& 0 <= result_att(h.result).1 <= SCALE
    &&& 0 <= result_att(h.result).2 <= SCALE
    &&& result_ray(h.result).origin == hit_point(r, t)
}

/// A ray the intersector accepts: capped direction and origin components.
pub open spec fn ray_in_range(r: Ray) -> bool {
    bounded(r.direction, DIR_LIMIT as int) && bounded(r.origin, POS_LIMIT as int)
}

/// Bounds for every intermediate of the quadratic, from the input caps.
proof fn lemma_quad_bounds(s: Sphere, r: Ray)
    requires
        sph_wf(s),
        ray_in_range(r),
    ensures
        0 <= quad_a(r) <= 30_000_000_000_000,
        iabs(quad_hb(s, r)) <= 3_100_000_000_000_000_000,
        iabs(quad_c(s, r)) <= 400_000_000_000_000_000_000_000,
        iabs(disc2(s, r)) < WIDE_LIMIT as int,
        iabs(quad_hb(s, r) * quad_hb(s, r)) <= 9_610_000_000_000_000_000_000_000_000_000_000_000,
        iabs(quad_a(r) * quad_c(s, r)) <= 12_000_000_000_000_000_000_000_000_000_000_000_000,
        iabs(mul_fx(s.radius as int, s.radius as int)) <= 100_000_000_000_000_000,
        iabs(quad_c(s, r) + mul_fx(s.radius as int, s.radius as int))
            <= 310_000_000_000_000_000_000_000,
{
    let d = r.direction;
    let o0 = r.origin.0 - s.center.0;
    let o1 = r.origin.1 - s.center.1;
    let o2 = r.origin.2 - s.center.2;
    lemma_mul_fx_bound(d.0 as int, d.0 as int, DIR_LIMIT as int, DIR_LIMIT as int);
    lemma_mul_fx_bound(d.1 as int, d.1 as int, DIR_LIMIT as int, DIR_LIMIT as int);
    lemma_mul_fx_bound(d.2 as int, d.2 as int, DIR_LIMIT as int, DIR_LIMIT as int);
    lemma_self_products_nonneg(d.0 as int, d.1 as int, d.2 as int);
    let oc_lim: int = 101_000_000_000_000;
    lemma_mul_fx_bound(d.0 as int, o0, DIR_LIMIT as int, oc_lim);
    lemma_mul_fx_bound(d.1 as int, o1, DIR_LIMIT as int, oc_lim);
    lemma_mul_fx_bound(d.2 as int, o2, DIR_LIMIT as int, oc_lim);
    lemma_mul_fx_bound(o0, o0, oc_lim, oc_lim);
    lemma_mul_fx_bound(o1, o1, oc_lim, oc_lim);
    lemma_mul_fx_bound(o2, o2, oc_lim, oc_lim);
    lemma_mul_fx_bound(s.radius as int, s.radius as int, COORD_LIMIT as int, COORD_LIMIT as int);
    lemma_mul_abs_bound(quad_hb(s, r), quad_hb(s, r), 3_100_000_000_000_000_000, 3_100_000_000_000_000_000);
    lemma_mul_abs_bound(quad_a(r), quad_c(s, r), 30_000_000_000_000, 400_000_000_000_000_000_000_000);
}

/// Squared components never contribute negatively to a dot product.
proof fn lemma_self_products_nonneg(x: int, y: int, z: int)
    ensures
        mul_fx(x, x) >= 0,
        mul_fx(y, y) >= 0,
        mul_fx(z, z) >= 0,
{
    assert(x * x >= 0) by (nonlinear_arith);
    assert(y * y >= 0) by (nonlinear_arith);
    assert(z * z >= 0) by (nonlinear_arith);
    lemma_tdiv_bounds(x * x, SCALE as int);
    lemma_tdiv_bounds(y * y, SCALE as int);
    lemma_tdiv_bounds(z * z, SCALE as int);
}

impl Sphere {
    /// Tests `sph_wf` at runtime, for callers outside verified code.
    pub fn in_range(&self) -> (b: bool)
        ensures
            b == sph_wf(*self),
    {
        crate::vec3::in_box(&self.center, COORD_LIMIT) && 0 <= self.radius && self.radius
            <= COORD_LIMIT && self.material.in_range()
    }

    /// The sphere's material.
    pub fn material(&self) -> (m: Material)
        ensures
            m == self.material,
    {
        self.material
    }

    /// Intersects the ray with this sphere: reports the hit at
    /// `sphere_time`, with the scatter outcome decided by the material at
    /// the surface point.  The lower bound is strictly positive, so a
    /// negative solution truncated toward zero is never reported as a hit.
    pub fn hits(
        &self,
        rng: &mut rand::rngs::StdRng,
        ray: Ray,
        t_min: i64,
        t_max: i64,
    ) -> (h: Option<Hit>)
        requires
            sph_wf(*self),
            ray_in_range(ray),
            1 <= t_min <= T_LIMIT,
            0 <= t_max <= T_LIMIT,
        ensures
            h.is_some() <==> sphere_time(*self, ray, t_min as int, t_max as int).is_some(),
            h matches Some(hit) ==> sphere_time(*self, ray, t_min as int, t_max as int) == Some(
                hit.time as int,
            ) && hit_ok(*self, ray, hit.time as int, hit),
            h matches Some(hit) ==> t_min <= hit.time <= t_max,
    {
        proof {
            lemma_quad_bounds(*self, ray);
        }
        let oc = ray.origin.sub(&self.center);
        let a: i128 = dot_wide(&ray.direction, &ray.direction);
        let hb: i128 = dot_wide(&ray.direction, &oc);
        let c_q: i128 = dot_wide(&oc, &oc) - mul_fx_wide(self.radius as i128, self.radius as i128);
        proof {
            assert(a == quad_a(ray));
            assert(hb == quad_hb(*self, ray));
            assert(c_q == quad_c(*self, ray));
        }
        if a <= 0 {
            return None;
        }
        let d2: i128 = mul_i128(hb, hb) - mul_i128(a, c_q);
        if d2 <= 0 {
            return None;
        }
        let root: i128 = sqrt_floor_i128(d2);
        proof {
            lemma_sqrt_floor_def(d2 as int);
            assert((root as int) * (root as int) <= d2 as int);
            assert(root <= 4_700_000_000_000_000_000i128) by (nonlinear_arith)
                requires
                    0 <= root,
                    (root as int) * (root as int) <= d2 as int,
                    (d2 as int) <= 22_000_000_000_000_000_000_000_000_000_000_000_000,
            ;
            lemma_mul_abs_bound(-hb as int - root as int, SCALE as int, 7_800_000_000_000_000_000, SCALE as int);
            lemma_mul_abs_bound(-hb as int + root as int, SCALE as int, 7_800_000_000_000_000_000, SCALE as int);
            assert(d2 == disc2(*self, ray));
        }
        let t1: i128 = tdiv_i128(mul_i128(-hb - root, SCALE as i128), a);
        proof {
            assert(t1 == root_small(*self, ray));
        }
        if t_min as i128 <= t1 && t1 <= t_max as i128 {
            return Some(self.finish_hit(rng, ray, t1 as i64));
        }
        let t2: i128 = tdiv_i128(mul_i128(-hb + root, SCALE as i128), a);
        proof {
            assert(t2 == root_large(*self, ray));
        }
        if t_min as i128 <= t2 && t2 <= t_max as i128 {
            return Some(self.finish_hit(rng, ray, t2 as i64));
        }
        None
    }

    /// Builds the hit record at a parameter already known to be in range.
    fn finish_hit(&self, rng: &mut rand::rngs::StdRng, ray: Ray, t: i64) -> (h: Hit)
        requires
            sph_wf(*self),
            ray_in_range(ray),
            0 <= t <= T_LIMIT,
        ensures
            hit_ok(*self, ray, t as int, h),
    {
        proof {
            lemma_point_bounds(*self, ray, t as int);
        }
        let point = ray.at(t);
        let diff = point.sub(&self.center);
        let lsqd: i128 = dot_wide(&diff, &diff);
        let normal: Vec3 = if lsqd > 0 {
            diff.unit_vector()
        } else {
            Vec3::zeros()
        };
        proof {
            assert(point == hit_point(ray, t as int));
            assert(normal == hit_normal(*self, ray, t as int));
        }
        let result = self.material.get_hit_result(rng, point, ray.direction, normal);
        Hit { result, time: t }
    }
}

/// The surface point and its offset from the center stay in range.
proof fn lemma_point_bounds(s: Sphere, r: Ray, t: int)
    requires
        sph_wf(s),
        ray_in_range(r),
        0 <= t <= T_LIMIT,
    ensures
        iabs(at_comp(r.origin.0 as int, t, r.direction.0 as int)) <= 10_100_000_000_000_000,
        iabs(at_comp(r.origin.1 as int, t, r.direction.1 as int)) <= 10_100_000_000_000_000,
        iabs(at_comp(r.origin.2 as int, t, r.direction.2 as int)) <= 10_100_000_000_000_000,
        bounded(hit_point(r, t), 10_100_000_000_000_000),
{
    lemma_mul_abs_bound(t, r.direction.0 as int, T_LIMIT as int, DIR_LIMIT as int);
    lemma_mul_abs_bound(t, r.direction.1 as int, T_LIMIT as int, DIR_LIMIT as int);
    lemma_mul_abs_bound(t, r.direction.2 as int, T_LIMIT as int, DIR_LIMIT as int);
    lemma_tdiv_bounds(t * (r.direction.0 as int), SCALE as int);
    lemma_tdiv_bounds(t * (r.direction.1 as int), SCALE as int);
    lemma_tdiv_bounds(t * (r.direction.2 as int), SCALE as int);
}

/// An ordered scene of spheres, scanned linearly per query.
pub struct Hittables {
    pub spheres: Vec<Sphere>,
}

/// Every sphere of the scene is well formed.
pub open spec fn scene_wf(w: Hittables) -> bool {
    forall|i: int| 0 <= i < w.spheres@.len() ==> sph_wf(#[trigger] w.spheres@[i])
}

/// What the scene promises of a reported hit: its parameter is some
/// sphere's `sphere_time`, the hit is valid for that sphere, and no sphere
/// reports an earlier parameter.
pub open spec fn scene_hit_ok(w: Hittables, r: Ray, t_min: int, t_max: int, h: Hit) -> bool {
    &&& exists|i: int|
        0 <= i < w.spheres@.len() && #[trigger] sphere_time(w.spheres@[i], r, t_min, t_max)
            == Some(h.time as int) && hit_ok(w.spheres@[i], r, h.time as int, h)
    &&& forall|j: int|
        0 <= j < w.spheres@.len() && (#[trigger] sphere_time(w.spheres@[j], r, t_min, t_max)).is_some()
            ==> h.time as int <= sphere_time(w.spheres@[j], r, t_min, t_max).unwrap()
}

/// No sphere of the scene reports a parameter for this ray and range.
pub open spec fn scene_misses(w: Hittables, r: Ray, t_min: int, t_max: int) -> bool {
    forall|i: int|
        0 <= i < w.spheres@.len() ==> (#[trigger] sphere_time(
            w.spheres@[i],
            r,
            t_min,
            t_max,
        )).is_none()
}

impl Hittables {
    /// An empty scene.
    pub fn new() -> (w: Hittables)
        ensures
            w.spheres@.len() == 0,
    {
        Hittables { spheres: Vec::new() }
    }

    /// Tests `scene_wf` at runtime, for callers outside verified code.
    pub fn in_range(&self) -> (b: bool)
        ensures
            b == scene_wf(*self),
    {
        let mut k: usize = 0;
        while k < self.spheres.len()
            invariant
                k <= self.spheres@.len(),
                forall|i: int| 0 <= i < k ==> sph_wf(#[trigger] self.spheres@[i]),
            decreases self.spheres@.len() - k,
        {
            if !self.spheres[k].in_range() {
                return false;
            }
            k = k + 1;
        }
        true
    }

    /// Adds a sphere to the scene.
    pub fn push(&mut self, s: Sphere)
        ensures
            final(self).spheres@ == old(self).spheres@.push(s),
    {
        self.spheres.push(s);
    }

    /// A placeholder material for the scene as a whole; never consulted by
    /// the intersection logic.
    pub fn material(&self) -> (m: Material)
        ensures
            m == (Material {
                absorption_p: 0i64,
                scattering_p: 0i64,
                roughness: 0i64,
                reflectance: crate::materials::Reflectance::Diffuse,
                color: Vec3(SCALE, SCALE, SCALE),
            }),
    {
        Material::new()
    }

    /// The nearest valid intersection over the whole scene: a hit whose
    /// parameter is some sphere's `sphere_time` and is no later than any
    /// other sphere's; `None` exactly when every sphere misses.
    pub fn hits(
        &self,
        rng: &mut rand::rngs::StdRng,
        ray: Ray,
        t_min: i64,
        t_max: i64,
    ) -> (h: Option<Hit>)
        requires
            scene_wf(*self),
            ray_in_range(ray),
            1 <= t_min <= T_LIMIT,
            0 <= t_max <= T_LIMIT,
        ensures
            h.is_none() <==> scene_misses(*self, ray, t_min as int, t_max as int),
            h matches Some(hit) ==> scene_hit_ok(*self, ray, t_min as int, t_max as int, hit),
    {
        let mut best: Option<Hit> = None;
        let mut k: usize = 0;
        while k < self.spheres.len()
            invariant
                scene_wf(*self),
                ray_in_range(ray),
                1 <= t_min <= T_LIMIT,
                0 <= t_max <= T_LIMIT,
                k <= self.spheres@.len(),
                best.is_none() <==> (forall|i: int|
                    0 <= i < k ==> (#[trigger] sphere_time(
                        self.spheres@[i],
                        ray,
                        t_min as int,
                        t_max as int,
                    )).is_none()),
                best matches Some(hit) ==> (exists|i: int|
                    0 <= i < k && #[trigger] sphere_time(
                        self.spheres@[i],
                        ray,
                        t_min as int,
                        t_max as int,
                    ) == Some(hit.time as int) && hit_ok(
                        self.spheres@[i],
                        ray,
                        hit.time as int,
                        hit,
                    )),
                best matches Some(hit) ==> (forall|j: int|
                    0 <= j < k && (#[trigger] sphere_time(
                        self.spheres@[j],
                        ray,
                        t_min as int,
                        t_max as int,
                    )).is_some() ==> hit.time as int <= sphere_time(
                        self.spheres@[j],
                        ray,
                        t_min as int,
                        t_max as int,
                    ).unwrap()),
            decreases self.spheres@.len() - k,
        {
            let cur = self.spheres[k].hits(rng, ray, t_min, t_max);
            match cur {
                Some(hit) => {
                    match best {
                        Some(b) => {
                            if hit.time < b.time {
                                best = Some(hit);
                            }
                        },
                        None => {
                            best = Some(hit);
                        },
                    }
                },
                None => {},
            }
            k = k + 1;
        }
        best
    }
}

/// A ray that starts outside a sphere and points away from it misses: with
/// the origin outside (`c > 0`) and the direction not toward the center
/// (`hb >= 0`), both quadratic roots are non-positive, so no parameter at or
/// above a positive `t_min` exists.
pub proof fn lemma_outside_pointing_away_misses(s: Sphere, r: Ray, t_min: int, t_max: int)
    requires
        quad_c(s, r) > 0,
        quad_hb(s, r) >= 0,
        t_min > 0,
    ensures
        sphere_time(s, r, t_min, t_max).is_none(),
        quad_a(r) > 0 && disc2(s, r) > 0 ==> root_small(s, r) <= 0 && root_large(s, r) <= 0,
{
    let a = quad_a(r);
    let hb = quad_hb(s, r);
    let c = quad_c(s, r);
    if a <= 0 {
    } else if disc2(s, r) <= 0 {
    } else {
        let d2 = disc2(s, r);
        lemma_sqrt_floor_def(d2);
        let root = sqrt_floor(d2);
        assert(a * c > 0) by (nonlinear_arith)
            requires
                a > 0,
                c > 0,
        ;
        assert(root < hb) by (nonlinear_arith)
            requires
                root >= 0,
                hb >= 0,
                root * root <= d2,
                d2 == hb * hb - a * c,
                a * c > 0,
        ;
        assert((-hb - root) * (SCALE as int) <= 0) by (nonlinear_arith)
            requires
                -hb - root <= 0,
                SCALE as int > 0,
        ;
        assert((-hb + root) * (SCALE as int) <= 0) by (nonlinear_arith)
            requires
                -hb + root <= 0,
                SCALE as int > 0,
        ;
        lemma_tdiv_bounds((-hb - root) * (SCALE as int), a);
        lemma_tdiv_bounds((-hb + root) * (SCALE as int), a);
        assert(root_small(s, r) <= 0);
        assert(root_large(s, r) <= 0);
    }
}

/// The scene-wide form: a ray outside every sphere and pointing away from
/// each of them misses the whole scene.
pub proof fn lemma_scene_outside_pointing_away_misses(w: Hittables, r: Ray, t_min: int, t_max: int)
    requires
        t_min > 0,
        forall|i: int|
            0 <= i < w.spheres@.len() ==> quad_c(#[trigger] w.spheres@[i], r) > 0 && quad_hb(
                w.spheres@[i],
                r,
            ) >= 0,
    ensures
        scene_misses(w, r, t_min, t_max),
{
    assert forall|i: int| 0 <= i < w.spheres@.len() implies (#[trigger] sphere_time(
        w.spheres@[i],
        r,
        t_min,
        t_max,
    )).is_none() by {
        lemma_outside_pointing_away_misses(w.spheres@[i], r, t_min, t_max);
    }
}

/// A ray through a sphere's center meets it at `center_dist - radius` and
/// `center_dist + radius`: stated for a unit ray along `-z` from any origin
/// on the axis through the center, with the distances exactly
/// representable, and the smaller root is the one reported when it lies
/// within `[t_min, t_max]`.
pub proof fn lemma_through_center_roots(s: Sphere, r: Ray, center_dist: int, t_min: int, t_max: int)
    requires
        r.direction.0 == 0 && r.direction.1 == 0 && r.direction.2 as int == -(SCALE as int),
        s.center.0 == r.origin.0 && s.center.1 == r.origin.1,
        r.origin.2 - s.center.2 == center_dist,
        0 <= center_dist <= COORD_LIMIT as int,
        1 <= s.radius as int <= center_dist,
        (center_dist * center_dist) % (SCALE as int) == 0,
        ((s.radius as int) * (s.radius as int)) % (SCALE as int) == 0,
    ensures
        root_small(s, r) == center_dist - s.radius as int,
        root_large(s, r) == center_dist + s.radius as int,
        disc2(s, r) > 0,
        t_min <= center_dist - s.radius as int <= t_max ==> sphere_time(s, r, t_min, t_max)
            == Some(center_dist - s.radius as int),
{
    let sc: int = SCALE as int;
    let rr: int = s.radius as int;
    let cd: int = center_dist;
    // a = (S*S)/S = S
    assert((-sc) * (-sc) == sc * sc) by (nonlinear_arith);
    assert(mul_fx(-sc, -sc) == tdiv(sc * sc, sc));
    assert((sc * sc) / sc == sc) by {
        lemma_div_multiples_vanish(sc, sc);
    }
    assert(quad_a(r) == sc);
    // hb = -((S*cd)/S) = -cd
    assert(mul_fx(-sc, 0 - (-cd)) == tdiv(-sc * cd, sc));
    assert(-sc * cd == -(sc * cd)) by (nonlinear_arith);
    assert((sc * cd) / sc == cd) by {
        lemma_div_multiples_vanish(cd, sc);
    }
    assert(quad_hb(s, r) == -cd);
    // c = cd^2/S - rr^2/S, exactly
    lemma_fundamental_div_mod(cd * cd, sc);
    lemma_fundamental_div_mod(rr * rr, sc);
    assert(cd * cd >= 0) by (nonlinear_arith)
        requires
            cd >= 0,
    ;
    assert(rr * rr >= 0) by (nonlinear_arith)
        requires
            rr >= 1,
    ;
    let qc = (cd * cd) / sc;
    let qr = (rr * rr) / sc;
    assert(cd * cd == sc * qc);
    assert(rr * rr == sc * qr);
    assert(quad_c(s, r) == qc - qr);
    // disc2 = cd^2 - S*(qc - qr) = rr^2
    assert(disc2(s, r) == (-cd) * (-cd) - sc * (qc - qr));
    assert((-cd) * (-cd) == cd * cd) by (nonlinear_arith);
    assert(sc * (qc - qr) == sc * qc - sc * qr) by (nonlinear_arith);
    assert(disc2(s, r) == rr * rr);
    assert(rr * rr > 0) by (nonlinear_arith)
        requires
            rr >= 1,
    ;
    assert(crate::fixed::is_sqrt_floor(rr * rr, rr)) by (nonlinear_arith)
        requires
            rr >= 1,
    ;
    lemma_sqrt_floor_is(rr * rr, rr);
    // roots: ((cd -+ rr) * S) / S
    assert((cd - rr) * sc == sc * (cd - rr)) by (nonlinear_arith);
    assert((cd + rr) * sc == sc * (cd + rr)) by (nonlinear_arith);
    lemma_div_multiples_vanish(cd - rr, sc);
    lemma_div_multiples_vanish(cd + rr, sc);
    assert(root_small(s, r) == tdiv((cd - rr) * sc, sc));
    assert(root_small(s, r) == cd - rr);
    assert(root_large(s, r) == cd + rr);
}

} // verus!
