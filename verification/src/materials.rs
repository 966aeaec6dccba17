//! The probabilistic material model: absorb or scatter, with attenuation.

use crate::fixed::{iabs, lemma_mul_fx_bound, mul_fx, DIR_LIMIT, SCALE};
use crate::hittables::HitResult;
use crate::ray::Ray;
use crate::rng::rand_below;
use crate::vec3::{bounded, dot3, len_fx, Vec3};
use vstd::prelude::*;

verus! {

#[derive(Debug, Clone, Copy, PartialEq, Eq, Structural)]
pub enum Reflectance {
    Diffuse,
    Mirrory,
}

/// Scattering parameters of a primitive.  The probabilities and the
/// roughness are stored reals in `[0, 1]`, the color has channels in
/// `[0, 1]`; `wf` states exactly that.
#[derive(Debug, Clone, Copy, PartialEq, Eq, Structural)]
pub struct Material {
    pub absorption_p: i64,
    pub scattering_p: i64,
    pub roughness: i64,
    pub reflectance: Reflectance,
    pub color: Vec3,
}

/// All stored parameters lie in `[0, 1]`.
pub open spec fn mat_wf(m: Material) -> bool {
    &&& 0 <= m.absorption_p <= SCALE
    &&& 0 <= m.scattering_p <= SCALE
    &&& 0 <= m.roughness <= SCALE
    &&& 0 <= m.color.0 <= SCALE
    &&& 0 <= m.color.1 <= SCALE
    &&& 0 <= m.color.2 <= SCALE
}

/// One attenuation channel: `(1 - absorption_p) * channel`.
pub open spec fn att_val(m: Material, c: int) -> int {
    mul_fx(SCALE as int - m.absorption_p as int, c)
}

/// A vector drawn from the unit cube with length at most one.
pub open spec fn ball_vec(b: Vec3) -> bool {
    &&& 0 <= b.0 < SCALE
    &&& 0 <= b.1 < SCALE
    &&& 0 <= b.2 < SCALE
    &&& len_fx(b) <= SCALE as int
}

/// One component of the scatter base direction: the surface normal for a
/// diffuse surface, the mirror reflection of the incoming direction for a
/// mirrory one.
pub open spec fn base_comp(m: Material, in_c: int, n_c: int, in_dot_n: int) -> int {
    match m.reflectance {
        Reflectance::Diffuse => n_c,
        Reflectance::Mirrory => in_c - mul_fx(2 * in_dot_n, n_c),
    }
}

/// The attenuation carried by a hit outcome.
pub open spec fn result_att(h: HitResult) -> Vec3 {
    match h {
        HitResult::Scatter(att, _) => att,
    }
}

/// The outgoing ray carried by a hit outcome.
pub open spec fn result_ray(h: HitResult) -> Ray {
    match h {
        HitResult::Scatter(_, r) => r,
    }
}

/// The absorbed branch: zero attenuation, the ray continues unchanged.
pub open spec fn absorbed_result(point: Vec3, in_dir: Vec3, h: HitResult) -> bool {
    &&& result_att(h) == Vec3(0i64, 0i64, 0i64)
    &&& result_ray(h).origin == point
    &&& result_ray(h).direction == in_dir
}

/// The scatter branch: full attenuation, and an outgoing direction that is
/// the base direction perturbed by `roughness` times some unit-ball vector.
pub open spec fn scattered_result(
    m: Material,
    point: Vec3,
    in_dir: Vec3,
    normal: Vec3,
    h: HitResult,
) -> bool {
    let d = dot3(in_dir, normal);
    &&& result_att(h).0 as int == att_val(m, m.color.0 as int)
    &&& result_att(h).1 as int == att_val(m, m.color.1 as int)
    &&& result_att(h).2 as int == att_val(m, m.color.2 as int)
    &&& result_ray(h).origin == point
    &&& exists|b: Vec3|
        #[trigger] ball_vec(b) && result_ray(h).direction.0 as int == base_comp(
            m,
            in_dir.0 as int,
            normal.0 as int,
            d,
        ) + mul_fx(m.roughness as int, b.0 as int) && result_ray(h).direction.1 as int == base_comp(
            m,
            in_dir.1 as int,
            normal.1 as int,
            d,
        ) + mul_fx(m.roughness as int, b.1 as int) && result_ray(h).direction.2 as int == base_comp(
            m,
            in_dir.2 as int,
            normal.2 as int,
            d,
        ) + mul_fx(m.roughness as int, b.2 as int)
}

impl Material {
    /// A fresh material: nothing absorbed, nothing scattered, white, smooth.
    pub fn new() -> (m: Material)
        ensures
            m == (Material {
                absorption_p: 0i64,
                scattering_p: 0i64,
                roughness: 0i64,
                reflectance: Reflectance::Diffuse,
                color: Vec3(SCALE, SCALE, SCALE),
            }),
            mat_wf(m),
    {
        Material {
            absorption_p: 0,
            scattering_p: 0,
            roughness: 0,
            reflectance: Reflectance::Diffuse,
            color: Vec3(SCALE, SCALE, SCALE),
        }
    }

    /// Sets the absorption probability.
    pub fn absorption_p(self, absorption_p: i64) -> (m: Material)
        requires
            0 <= absorption_p <= SCALE,
        ensures
            m == (Material { absorption_p, ..self }),
            mat_wf(self) ==> mat_wf(m),
    {
        Material { absorption_p, ..self }
    }

    /// Sets the scattering probability.
    pub fn scattering_p(self, scattering_p: i64) -> (m: Material)
        requires
            0 <= scattering_p <= SCALE,
        ensures
            m == (Material { scattering_p, ..self }),
            mat_wf(self) ==> mat_wf(m),
    {
        Material { scattering_p, ..self }
    }

    /// Sets the roughness.
    pub fn roughness(self, roughness: i64) -> (m: Material)
        requires
            0 <= roughness <= SCALE,
        ensures
            m == (Material { roughness, ..self }),
            mat_wf(self) ==> mat_wf(m),
    {
        Material { roughness, ..self }
    }

    /// Sets the reflectance mode.
    pub fn reflectance(self, reflectance: Reflectance) -> (m: Material)
        ensures
            m == (Material { reflectance, ..self }),
            mat_wf(self) ==> mat_wf(m),
    {
        Material { reflectance, ..self }
    }

    /// Sets the base color.
    pub fn color(self, color: Vec3) -> (m: Material)
        requires
            0 <= color.0 <= SCALE,
            0 <= color.1 <= SCALE,
            0 <= color.2 <= SCALE,
        ensures
            m == (Material { color, ..self }),
            mat_wf(self) ==> mat_wf(m),
    {
        Material { color, ..self }
    }

    /// Tests `mat_wf` at runtime, for callers outside verified code.
    pub fn in_range(&self) -> (b: bool)
        ensures
            b == mat_wf(*self),
    {
        0 <= self.absorption_p && self.absorption_p <= SCALE && 0 <= self.scattering_p
            && self.scattering_p <= SCALE && 0 <= self.roughness && self.roughness <= SCALE && 0
            <= self.color.0 && self.color.0 <= SCALE && 0 <= self.color.1 && self.color.1 <= SCALE
            && 0 <= self.color.2 && self.color.2 <= SCALE
    }

    /// Ends a builder chain.
    pub fn finalize(self) -> (m: Material)
        ensures
            m == self,
    {
        self
    }

    /// The stochastic scatter decision at a surface point.  With probability
    /// `scattering_p` the light scatters: the attenuation is
    /// `(1 - absorption_p) * color` and the outgoing direction is the base
    /// direction perturbed by `roughness` times a random unit-ball vector.
    /// Otherwise the light is absorbed: the attenuation is exactly zero and
    /// the ray continues in its incoming direction.
    pub fn get_hit_result(
        &self,
        rng: &mut rand::rngs::StdRng,
        point: Vec3,
        in_ray_direction: Vec3,
        normal: Vec3,
    ) -> (h: HitResult)
        requires
            mat_wf(*self),
            bounded(in_ray_direction, DIR_LIMIT as int),
            bounded(normal, DIR_LIMIT as int),
        ensures
            absorbed_result(point, in_ray_direction, h) || scattered_result(
                *self,
                point,
                in_ray_direction,
                normal,
                h,
            ),
            self.scattering_p == SCALE ==> scattered_result(
                *self,
                point,
                in_ray_direction,
                normal,
                h,
            ),
            self.scattering_p == 0 ==> absorbed_result(point, in_ray_direction, h),
            0 <= result_att(h).0 as int <= att_val(*self, self.color.0 as int),
            0 <= result_att(h).1 as int <= att_val(*self, self.color.1 as int),
            0 <= result_att(h).2 as int <= att_val(*self, self.color.2 as int),
            result_att(h).0 <= SCALE,
            result_att(h).1 <= SCALE,
            result_att(h).2 <= SCALE,
            result_ray(h).origin == point,
    {
        proof {
            lemma_att_range(*self);
        }
        let dice: i64 = rand_below(rng, SCALE as u64) as i64;
        if dice < self.scattering_p {
            let base: Vec3 = match self.reflectance {
                Reflectance::Diffuse => normal,
                Reflectance::Mirrory => {
                    proof {
                        lemma_reflect_bounds(in_ray_direction, normal);
                    }
                    let d: i64 = in_ray_direction.dot(&normal);
                    in_ray_direction.sub(&normal.scale(2 * d))
                },
            };
            let ball = Vec3::random_in_unit_sphere(rng);
            proof {
                lemma_mul_fx_bound(self.roughness as int, ball.0 as int, SCALE as int, SCALE as int);
                lemma_mul_fx_bound(self.roughness as int, ball.1 as int, SCALE as int, SCALE as int);
                lemma_mul_fx_bound(self.roughness as int, ball.2 as int, SCALE as int, SCALE as int);
            }
            let direction = base.add(&ball.scale(self.roughness));
            let att = Vec3(
                crate::vec3::mul_fx_i64(SCALE - self.absorption_p, self.color.0),
                crate::vec3::mul_fx_i64(SCALE - self.absorption_p, self.color.1),
                crate::vec3::mul_fx_i64(SCALE - self.absorption_p, self.color.2),
            );
            let h = HitResult::Scatter(att, Ray { origin: point, direction });
            proof {
                assert(ball_vec(ball));
                assert(scattered_result(*self, point, in_ray_direction, normal, h));
            }
            h
        } else {
            HitResult::Scatter(Vec3::zeros(), Ray { origin: point, direction: in_ray_direction })
        }
    }
}

/// Attenuation channels are in `[0, 1]` and bounded by their own value.
proof fn lemma_att_range(m: Material)
    requires
        mat_wf(m),
    ensures
        0 <= att_val(m, m.color.0 as int) <= SCALE as int,
        0 <= att_val(m, m.color.1 as int) <= SCALE as int,
        0 <= att_val(m, m.color.2 as int) <= SCALE as int,
{
    lemma_mul_fx_bound(SCALE as int - m.absorption_p as int, m.color.0 as int, SCALE as int, SCALE as int);
    lemma_mul_fx_bound(SCALE as int - m.absorption_p as int, m.color.1 as int, SCALE as int, SCALE as int);
    lemma_mul_fx_bound(SCALE as int - m.absorption_p as int, m.color.2 as int, SCALE as int, SCALE as int);
    assert((SCALE as int - m.absorption_p as int) * (m.color.0 as int) >= 0) by (nonlinear_arith)
        requires
            SCALE as int - m.absorption_p as int >= 0,
            m.color.0 as int >= 0,
    ;
    assert((SCALE as int - m.absorption_p as int) * (m.color.1 as int) >= 0) by (nonlinear_arith)
        requires
            SCALE as int - m.absorption_p as int >= 0,
            m.color.1 as int >= 0,
    ;
    assert((SCALE as int - m.absorption_p as int) * (m.color.2 as int) >= 0) by (nonlinear_arith)
        requires
            SCALE as int - m.absorption_p as int >= 0,
            m.color.2 as int >= 0,
    ;
}

/// Bounds for the mirror-reflection arithmetic on capped directions.
proof fn lemma_reflect_bounds(in_dir: Vec3, n: Vec3)
    requires
        bounded(in_dir, DIR_LIMIT as int),
        bounded(n, DIR_LIMIT as int),
    ensures
        iabs(dot3(in_dir, n)) <= 30_000_000_000_000,
        iabs(mul_fx(2 * dot3(in_dir, n), n.0 as int)) <= 600_000_000_000_000_000,
        iabs(mul_fx(2 * dot3(in_dir, n), n.1 as int)) <= 600_000_000_000_000_000,
        iabs(mul_fx(2 * dot3(in_dir, n), n.2 as int)) <= 600_000_000_000_000_000,
{
    lemma_mul_fx_bound(in_dir.0 as int, n.0 as int, DIR_LIMIT as int, DIR_LIMIT as int);
    lemma_mul_fx_bound(in_dir.1 as int, n.1 as int, DIR_LIMIT as int, DIR_LIMIT as int);
    lemma_mul_fx_bound(in_dir.2 as int, n.2 as int, DIR_LIMIT as int, DIR_LIMIT as int);
    lemma_mul_fx_bound(2 * dot3(in_dir, n), n.0 as int, 60_000_000_000_000, DIR_LIMIT as int);
    lemma_mul_fx_bound(2 * dot3(in_dir, n), n.1 as int, 60_000_000_000_000, DIR_LIMIT as int);
    lemma_mul_fx_bound(2 * dot3(in_dir, n), n.2 as int, 60_000_000_000_000, DIR_LIMIT as int);
}

} // verus!
