//! The path integrator and the rendering loop.
//!
//! `ray_color` estimates the radiance along a ray by bounded recursion:
//! black at the depth bound, the sky gradient on a miss, and otherwise the
//! material's attenuation filtering the recursive estimate.  The renderer
//! averages jittered samples per pixel, rows written top to bottom (row `j`
//! of the buffer uses plane coordinate `v` computed from `height - j`).

use crate::cameras::{cam_wf, get_ray_spec, SimpleCamera};
use crate::fixed::{
    iabs, lemma_mul_abs_bound, lemma_mul_fx_bound, lemma_sqrt_floor_is, lemma_tdiv_bounds, mul_fx,
    mul_i128, tdiv, tdiv_i128, COLOR_LIMIT, DIR_LIMIT, EPS_T, POS_LIMIT, SCALE, T_LIMIT,
};
use crate::hittables::{
    ray_in_range, scene_hit_ok, scene_misses, scene_wf, sphere_time, Hit, HitResult, Hittables,
};
use crate::materials::{result_att, result_ray};
use crate::io::{Img, Pixel};
use crate::ray::Ray;
use crate::rng::rand_below;
use crate::vec3::{bounded, channel_byte, dot3, dot_wide, in_box, unit_spec, Vec3};
use vstd::arithmetic::div_mod::{lemma_div_is_ordered, lemma_div_multiples_vanish, lemma_div_pos_is_pos};
use vstd::prelude::*;

verus! {

/// Sky-blue channels (0.5, 0.7, 1.0 in stored units); white is all ones.
pub const SKY_R: i64 = 50_000;

pub const SKY_G: i64 = 70_000;

pub const SKY_B: i64 = 100_000;

/// The blend parameter of the sky gradient: `(unit_y + 1) / 2`.
pub open spec fn sky_t(d: Vec3) -> int {
    tdiv(unit_spec(d).1 + SCALE as int, 2)
}

/// One channel of the white-to-blue blend.
pub open spec fn lerp_comp(t: int, w: int, b: int) -> int {
    tdiv((SCALE as int - t) * w + t * b, SCALE as int)
}

/// The sky color seen along direction `d`.
pub open spec fn sky_vec(d: Vec3) -> Vec3 {
    let t = sky_t(d);
    Vec3(
        lerp_comp(t, SCALE as int, SKY_R as int) as i64,
        lerp_comp(t, SCALE as int, SKY_G as int) as i64,
        lerp_comp(t, SCALE as int, SKY_B as int) as i64,
    )
}

/// A ray the integrator can trace: in the intersector's range, with a
/// direction long enough to normalize.
pub open spec fn trace_ok(r: Ray) -> bool {
    ray_in_range(r) && dot3(r.direction, r.direction) > 0
}

/// `c` is `att` filtering `rec`, channel by channel: the attenuation chain
/// of the rendering equation.
pub open spec fn filtered(att: Vec3, rec: Vec3, c: Vec3) -> bool {
    &&& c.0 as int == mul_fx(att.0 as int, rec.0 as int)
    &&& c.1 as int == mul_fx(att.1 as int, rec.1 as int)
    &&& c.2 as int == mul_fx(att.2 as int, rec.2 as int)
}

/// Every channel of `c` lies in the integrator's output range.
pub open spec fn color_in_range(c: Vec3) -> bool {
    &&& 0 <= c.0 <= COLOR_LIMIT
    &&& 0 <= c.1 <= COLOR_LIMIT
    &&& 0 <= c.2 <= COLOR_LIMIT
}

/// Everything the integrator promises of a color `c` returned for ray `r`
/// at the given depth: channels in range; zero at the depth bound, for an
/// untraceable ray, and nowhere else but through the cases below; the sky
/// gradient where the scene misses; and on a hit, the attenuation of a
/// valid nearest scene hit filtering a color the integrator admits for that
/// hit's outgoing ray, one bounce deeper.
pub open spec fn color_admitted(world: Hittables, r: Ray, depth: int, c: Vec3) -> bool
    decreases depth,
{
    &&& color_in_range(c)
    &&& depth <= 0 ==> c == Vec3(0i64, 0i64, 0i64)
    &&& depth > 0 && !trace_ok(r) ==> c == Vec3(0i64, 0i64, 0i64)
    &&& depth > 0 && trace_ok(r) && scene_misses(world, r, EPS_T as int, T_LIMIT as int) ==> c
        == sky_vec(r.direction)
    &&& depth > 0 && trace_ok(r) && !scene_misses(world, r, EPS_T as int, T_LIMIT as int) ==> (
    exists|h: Hit, rec: Vec3|
        {
            &&& #[trigger] filtered(result_att(h.result), rec, c)
            &&& scene_hit_ok(world, r, EPS_T as int, T_LIMIT as int, h)
            &&& color_admitted(world, result_ray(h.result), depth - 1, rec)
        })
}

/// The radiance reaching the camera along `r`, estimated to a bounded
/// number of scatters.  Zero at the depth bound; the sky gradient where the
/// scene misses; attenuation times the recursive estimate on a hit.  A ray
/// outside the representable range is treated as extinguished.
pub fn ray_color(
    r: Ray,
    world: &Hittables,
    max_scatter_depth: i32,
    rng: &mut rand::rngs::StdRng,
) -> (c: Vec3)
    requires
        scene_wf(*world),
        max_scatter_depth >= 0,
    ensures
        color_admitted(*world, r, max_scatter_depth as int, c),
    decreases max_scatter_depth,
{
    if max_scatter_depth == 0 {
        return Vec3::zeros();
    }
    if !in_box(&r.direction, DIR_LIMIT) || !in_box(&r.origin, POS_LIMIT) {
        return Vec3::zeros();
    }
    let a: i128 = dot_wide(&r.direction, &r.direction);
    if a <= 0 {
        return Vec3::zeros();
    }
    match world.hits(rng, r, EPS_T, T_LIMIT) {
        Some(hit) => {
            match hit.result {
                HitResult::Scatter(att, new_ray) => {
                    let rec = ray_color(new_ray, world, max_scatter_depth - 1, rng);
                    proof {
                        lemma_filter_bounds(att, rec);
                    }
                    let c = att.mul(&rec);
                    proof {
                        assert(filtered(result_att(hit.result), rec, c));
                        assert(color_admitted(*world, r, max_scatter_depth as int, c));
                    }
                    c
                },
            }
        },
        None => {
            let unit_direction = r.direction.unit_vector();
            proof {
                lemma_sky_bounds(unit_direction.1 as int);
            }
            let t: i64 = tdiv_i128(unit_direction.1 as i128 + SCALE as i128, 2) as i64;
            let x: i64 = lerp_channel(t, SKY_R);
            let y: i64 = lerp_channel(t, SKY_G);
            let z: i64 = lerp_channel(t, SKY_B);
            Vec3(x, y, z)
        },
    }
}

/// One exec channel of the sky blend, exact against `lerp_comp`.
fn lerp_channel(t: i64, b: i64) -> (r: i64)
    requires
        0 <= t <= SCALE,
        50_000 <= b <= SCALE,
    ensures
        r as int == lerp_comp(t as int, SCALE as int, b as int),
        0 <= r <= COLOR_LIMIT,
{
    proof {
        lemma_mul_abs_bound(SCALE as int - t as int, SCALE as int, SCALE as int, SCALE as int);
        lemma_mul_abs_bound(t as int, b as int, SCALE as int, SCALE as int);
        assert(0 <= (SCALE as int - t as int) * (SCALE as int) + (t as int) * (b as int)
            <= 10_000_000_000) by (nonlinear_arith)
            requires
                0 <= t as int <= 100_000,
                50_000 <= b as int <= 100_000,
                SCALE as int == 100_000,
        ;
        lemma_tdiv_bounds((SCALE as int - t as int) * (SCALE as int) + (t as int) * (b as int), SCALE as int);
    }
    let num: i128 = mul_i128(SCALE as i128 - t as i128, SCALE as i128) + mul_i128(
        t as i128,
        b as i128,
    );
    tdiv_i128(num, SCALE as i128) as i64
}

/// The normalized y-component lies within one unit, so the blend parameter
/// lies in `[0, 1]`.
proof fn lemma_sky_bounds(uy: int)
    requires
        iabs(uy) <= SCALE as int,
    ensures
        0 <= tdiv(uy + SCALE as int, 2) <= SCALE as int,
{
    lemma_tdiv_bounds(uy + SCALE as int, 2);
}

/// Attenuation channels in `[0, 1]` keep the filtered color in range.
proof fn lemma_filter_bounds(att: Vec3, rec: Vec3)
    requires
        0 <= att.0 <= SCALE,
        0 <= att.1 <= SCALE,
        0 <= att.2 <= SCALE,
        color_in_range(rec),
    ensures
        0 <= mul_fx(att.0 as int, rec.0 as int) <= COLOR_LIMIT as int,
        0 <= mul_fx(att.1 as int, rec.1 as int) <= COLOR_LIMIT as int,
        0 <= mul_fx(att.2 as int, rec.2 as int) <= COLOR_LIMIT as int,
{
    lemma_mul_fx_bound(att.0 as int, rec.0 as int, SCALE as int, COLOR_LIMIT as int);
    lemma_mul_fx_bound(att.1 as int, rec.1 as int, SCALE as int, COLOR_LIMIT as int);
    lemma_mul_fx_bound(att.2 as int, rec.2 as int, SCALE as int, COLOR_LIMIT as int);
    assert((att.0 as int) * (rec.0 as int) >= 0) by (nonlinear_arith)
        requires
            att.0 as int >= 0,
            rec.0 as int >= 0,
    ;
    assert((att.1 as int) * (rec.1 as int) >= 0) by (nonlinear_arith)
        requires
            att.1 as int >= 0,
            rec.1 as int >= 0,
    ;
    assert((att.2 as int) * (rec.2 as int) >= 0) by (nonlinear_arith)
        requires
            att.2 as int >= 0,
            rec.2 as int >= 0,
    ;
}

/// The screen coordinate of sample column `i` with jitter `jit`.
pub open spec fn sample_u(i: int, jit: int, w: int) -> int {
    tdiv(i * (SCALE as int) + jit, w)
}

/// The screen coordinate of sample row `j` with jitter `jit`, counted from
/// the bottom: row 0 of the buffer is the top of the image.
pub open spec fn sample_v(j: int, jit: int, h: int) -> int {
    tdiv((h - j) * (SCALE as int) + jit, h)
}

/// A non-negative numerator below `w * cap` divides to at most `cap`.
proof fn lemma_coord_bound(n: int, w: int, cap: int)
    requires
        0 <= n,
        n <= w * cap,
        1 <= w,
        0 <= cap,
    ensures
        0 <= tdiv(n, w) <= cap,
{
    lemma_div_pos_is_pos(n, w);
    lemma_div_is_ordered(n, w * cap, w);
    lemma_div_multiples_vanish(cap, w);
}

/// The first components of the sample colors, summed exactly.
pub open spec fn sum_x(cs: Seq<Vec3>) -> int
    decreases cs.len(),
{
    if cs.len() == 0 {
        0
    } else {
        sum_x(cs.drop_last()) + cs.last().0
    }
}

/// The second components of the sample colors, summed exactly.
pub open spec fn sum_y(cs: Seq<Vec3>) -> int
    decreases cs.len(),
{
    if cs.len() == 0 {
        0
    } else {
        sum_y(cs.drop_last()) + cs.last().1
    }
}

/// The third components of the sample colors, summed exactly.
pub open spec fn sum_z(cs: Seq<Vec3>) -> int
    decreases cs.len(),
{
    if cs.len() == 0 {
        0
    } else {
        sum_z(cs.drop_last()) + cs.last().2
    }
}

/// One Monte Carlo sample of pixel `(i, j)`: jitters drawn from `[0, 1)`
/// and a color the integrator admits for the camera ray through the
/// jittered screen coordinates.
pub open spec fn sample_ok(
    cam: SimpleCamera,
    world: Hittables,
    i: int,
    j: int,
    w: int,
    h: int,
    depth: int,
    ju: int,
    jv: int,
    c: Vec3,
) -> bool {
    &&& 0 <= ju < SCALE
    &&& 0 <= jv < SCALE
    &&& color_admitted(world, get_ray_spec(cam, sample_u(i, ju, w), sample_v(j, jv, h)), depth, c)
}

/// `spp` valid samples of pixel `(i, j)`, with the jitters that made them.
pub open spec fn samples_ok(
    cam: SimpleCamera,
    world: Hittables,
    i: int,
    j: int,
    w: int,
    h: int,
    spp: int,
    depth: int,
    js: Seq<(int, int)>,
    cs: Seq<Vec3>,
) -> bool {
    &&& js.len() == spp
    &&& cs.len() == spp
    &&& forall|k: int|
        0 <= k < spp ==> #[trigger] sample_ok(cam, world, i, j, w, h, depth, js[k].0, js[k].1, cs[k])
}

/// The pixel at `(i, j)`: for some sequence of `spp` valid samples, the
/// channel-wise truncated average of their colors, clamped and scaled to
/// eight bits.
pub open spec fn pixel_ok(
    cam: SimpleCamera,
    world: Hittables,
    i: int,
    j: int,
    w: int,
    h: int,
    spp: int,
    depth: int,
    p: Pixel,
) -> bool {
    exists|js: Seq<(int, int)>, cs: Seq<Vec3>|
        {
            &&& #[trigger] samples_ok(cam, world, i, j, w, h, spp, depth, js, cs)
            &&& p.0 as int == channel_byte(tdiv(sum_x(cs), spp))
            &&& p.1 as int == channel_byte(tdiv(sum_y(cs), spp))
            &&& p.2 as int == channel_byte(tdiv(sum_z(cs), spp))
        }
}

/// Row `j` of the image: `w` pixels, each a valid averaged pixel.
pub open spec fn row_ok(
    cam: SimpleCamera,
    world: Hittables,
    j: int,
    w: int,
    h: int,
    spp: int,
    depth: int,
    row: Seq<Pixel>,
) -> bool {
    &&& row.len() == w
    &&& forall|i: int| 0 <= i < w ==> pixel_ok(cam, world, i, j, w, h, spp, depth, #[trigger] row[i])
}

/// One row of the image: `width` pixels, each the average of
/// `samples_per_pixel` jittered path samples.
pub fn render_row(
    camera: &SimpleCamera,
    world: &Hittables,
    width: usize,
    height: usize,
    j: usize,
    samples_per_pixel: u32,
    max_scatter_depth: i32,
    rng: &mut rand::rngs::StdRng,
) -> (row: Vec<Pixel>)
    requires
        cam_wf(*camera),
        scene_wf(*world),
        width <= 100_000,
        1 <= height <= 100_000,
        j < height,
        1 <= samples_per_pixel <= 1_000_000,
        max_scatter_depth >= 0,
    ensures
        row_ok(
            *camera,
            *world,
            j as int,
            width as int,
            height as int,
            samples_per_pixel as int,
            max_scatter_depth as int,
            row@,
        ),
{
    let mut row: Vec<Pixel> = Vec::new();
    let mut i: usize = 0;
    while i < width
        invariant
            cam_wf(*camera),
            scene_wf(*world),
            width <= 100_000,
            1 <= height <= 100_000,
            j < height,
            1 <= samples_per_pixel <= 1_000_000,
            max_scatter_depth >= 0,
            i <= width,
            row@.len() == i,
            forall|ii: int|
                0 <= ii < i ==> pixel_ok(
                    *camera,
                    *world,
                    ii,
                    j as int,
                    width as int,
                    height as int,
                    samples_per_pixel as int,
                    max_scatter_depth as int,
                    #[trigger] row@[ii],
                ),
        decreases width - i,
    {
        let mut color = Vec3::zeros();
        let ghost mut js: Seq<(int, int)> = Seq::empty();
        let ghost mut cs: Seq<Vec3> = Seq::empty();
        let mut s: u32 = 0;
        while s < samples_per_pixel
            invariant
                cam_wf(*camera),
                scene_wf(*world),
                width <= 100_000,
                1 <= height <= 100_000,
                j < height,
                i < width,
                1 <= samples_per_pixel <= 1_000_000,
                max_scatter_depth >= 0,
                s <= samples_per_pixel,
                js.len() == s as int,
                cs.len() == s as int,
                forall|k: int|
                    0 <= k < s as int ==> #[trigger] sample_ok(
                        *camera,
                        *world,
                        i as int,
                        j as int,
                        width as int,
                        height as int,
                        max_scatter_depth as int,
                        js[k].0,
                        js[k].1,
                        cs[k],
                    ),
                color.0 as int == sum_x(cs),
                color.1 as int == sum_y(cs),
                color.2 as int == sum_z(cs),
                0 <= color.0 <= (s as int) * (COLOR_LIMIT as int),
                0 <= color.1 <= (s as int) * (COLOR_LIMIT as int),
                0 <= color.2 <= (s as int) * (COLOR_LIMIT as int),
            decreases samples_per_pixel - s,
        {
            let ju: i64 = rand_below(rng, SCALE as u64) as i64;
            let jv: i64 = rand_below(rng, SCALE as u64) as i64;
            proof {
                assert((i as int) * (SCALE as int) + ju <= (width as int) * (SCALE as int))
                    by (nonlinear_arith)
                    requires
                        0 <= i as int,
                        (i as int) < width as int,
                        0 <= ju < SCALE as int,
                        SCALE as int == 100_000,
                ;
                lemma_coord_bound((i as int) * (SCALE as int) + ju, width as int, SCALE as int);
                assert(((height - j) as int) * (SCALE as int) + jv <= (height as int) * (2 * SCALE
                    as int)) by (nonlinear_arith)
                    requires
                        0 <= j as int,
                        (j as int) < height as int,
                        1 <= height as int,
                        0 <= jv < SCALE as int,
                        SCALE as int == 100_000,
                ;
                lemma_coord_bound(
                    ((height - j) as int) * (SCALE as int) + jv,
                    height as int,
                    2 * SCALE as int,
                );
            }
            let u: i64 = tdiv_i128((i as i128) * (SCALE as i128) + ju as i128, width as i128)
                as i64;
            let v: i64 = tdiv_i128(
                ((height - j) as i128) * (SCALE as i128) + jv as i128,
                height as i128,
            ) as i64;
            let ray = camera.get_ray(u, v);
            let sample = ray_color(ray, world, max_scatter_depth, rng);
            proof {
                assert(sample_ok(
                    *camera,
                    *world,
                    i as int,
                    j as int,
                    width as int,
                    height as int,
                    max_scatter_depth as int,
                    ju as int,
                    jv as int,
                    sample,
                ));
            }
            color = color.add(&sample);
            proof {
                let jsp = js.push((ju as int, jv as int));
                let csp = cs.push(sample);
                assert(csp.drop_last() =~= cs);
                assert(sum_x(csp) == sum_x(cs) + sample.0);
                assert(sum_y(csp) == sum_y(cs) + sample.1);
                assert(sum_z(csp) == sum_z(cs) + sample.2);
                js = jsp;
                cs = csp;
            }
            s = s + 1;
        }
        let avg = color.div_count(samples_per_pixel as i64);
        let px = avg.as_pixel();
        proof {
            assert(samples_ok(
                *camera,
                *world,
                i as int,
                j as int,
                width as int,
                height as int,
                samples_per_pixel as int,
                max_scatter_depth as int,
                js,
                cs,
            ));
            assert(pixel_ok(
                *camera,
                *world,
                i as int,
                j as int,
                width as int,
                height as int,
                samples_per_pixel as int,
                max_scatter_depth as int,
                px,
            ));
        }
        row.push(px);
        i = i + 1;
    }
    row
}

/// The sequential renderer.
pub struct SingleThreadedRenderer;

impl SingleThreadedRenderer {
    /// Renders the whole image: `height` rows of `width` pixels, written
    /// top to bottom.
    pub fn render(
        width: usize,
        height: usize,
        camera: &SimpleCamera,
        world: &Hittables,
        samples_per_pixel: u32,
        max_scatter_depth: i32,
        rng: &mut rand::rngs::StdRng,
    ) -> (img: Img)
        requires
            cam_wf(*camera),
            scene_wf(*world),
            width <= 100_000,
            height <= 100_000,
            1 <= samples_per_pixel <= 1_000_000,
            max_scatter_depth >= 0,
        ensures
            img@.len() == height,
            forall|r: int|
                0 <= r < height ==> row_ok(
                    *camera,
                    *world,
                    r,
                    width as int,
                    height as int,
                    samples_per_pixel as int,
                    max_scatter_depth as int,
                    (#[trigger] img@[r])@,
                ),
    {
        let mut img: Img = Vec::new();
        let mut j: usize = 0;
        while j < height
            invariant
                cam_wf(*camera),
                scene_wf(*world),
                width <= 100_000,
                height <= 100_000,
                1 <= samples_per_pixel <= 1_000_000,
                max_scatter_depth >= 0,
                j <= height,
                img@.len() == j,
                forall|r: int|
                    0 <= r < j ==> row_ok(
                        *camera,
                        *world,
                        r,
                        width as int,
                        height as int,
                        samples_per_pixel as int,
                        max_scatter_depth as int,
                        (#[trigger] img@[r])@,
                    ),
            decreases height - j,
        {
            let row = render_row(
                camera,
                world,
                width,
                height,
                j,
                samples_per_pixel,
                max_scatter_depth,
                rng,
            );
            img.push(row);
            j = j + 1;
        }
        img
    }
}

/// The sky gradient at the two poles: a ray looking straight down is pure
/// white, a ray looking straight up is pure sky blue.
pub proof fn lemma_sky_extremes()
    ensures
        sky_vec(Vec3(0i64, -100_000i64, 0i64)) == Vec3(SCALE, SCALE, SCALE),
        sky_vec(Vec3(0i64, 100_000i64, 0i64)) == Vec3(SKY_R, SKY_G, SKY_B),
{
    lemma_sky_pole(Vec3(0i64, -100_000i64, 0i64));
    lemma_sky_pole(Vec3(0i64, 100_000i64, 0i64));
}

/// Shared computation for the two pole directions.
proof fn lemma_sky_pole(d: Vec3)
    requires
        d.0 == 0,
        d.2 == 0,
        d.1 as int == -100_000 || d.1 as int == 100_000,
    ensures
        d.1 as int == -100_000 ==> sky_vec(d) == Vec3(SCALE, SCALE, SCALE),
        d.1 as int == 100_000 ==> sky_vec(d) == Vec3(SKY_R, SKY_G, SKY_B),
{
    let sc: int = SCALE as int;
    assert(mul_fx(0, 0) == 0);
    assert((d.1 as int) * (d.1 as int) == 10_000_000_000) by (nonlinear_arith)
        requires
            d.1 as int == -100_000 || d.1 as int == 100_000,
    ;
    assert(mul_fx(d.1 as int, d.1 as int) == tdiv(10_000_000_000, 100_000));
    assert(tdiv(10_000_000_000, 100_000) == 100_000);
    assert(dot3(d, d) == sc);
    assert(crate::fixed::is_sqrt_floor(10_000_000_000, 100_000));
    lemma_sqrt_floor_is(10_000_000_000, 100_000);
    assert(crate::vec3::len_fx(d) == sc);
    assert(crate::vec3::unit_comp(0, sc) == 0);
    if d.1 as int == -100_000 {
        assert(crate::vec3::unit_comp(d.1 as int, sc) == tdiv(-10_000_000_000, 100_000));
        assert(tdiv(-10_000_000_000, 100_000) == -100_000);
        assert(unit_spec(d) == Vec3(0i64, -100_000i64, 0i64));
        assert(sky_t(d) == tdiv(0, 2));
        assert(sky_t(d) == 0);
        assert(lerp_comp(0, sc, SKY_R as int) == tdiv(10_000_000_000, 100_000));
        assert(lerp_comp(0, sc, SKY_G as int) == tdiv(10_000_000_000, 100_000));
        assert(lerp_comp(0, sc, SKY_B as int) == tdiv(10_000_000_000, 100_000));
    } else {
        assert(crate::vec3::unit_comp(d.1 as int, sc) == tdiv(10_000_000_000, 100_000));
        assert(unit_spec(d) == Vec3(0i64, 100_000i64, 0i64));
        assert(sky_t(d) == tdiv(200_000, 2));
        assert(sky_t(d) == 100_000);
        assert(lerp_comp(sc, sc, SKY_R as int) == tdiv(5_000_000_000, 100_000));
        assert(tdiv(5_000_000_000, 100_000) == 50_000);
        assert(lerp_comp(sc, sc, SKY_G as int) == tdiv(7_000_000_000, 100_000));
        assert(tdiv(7_000_000_000, 100_000) == 70_000);
        assert(lerp_comp(sc, sc, SKY_B as int) == tdiv(10_000_000_000, 100_000));
    }
}

/// Which primitives are hit depends on the screen coordinates alone: two
/// samples that land on the same `(u, v)` — whatever resolution, pixel
/// index or jitter produced them — see identical intersection outcomes for
/// every sphere of the scene.
pub proof fn lemma_same_uv_same_hits(
    cam: SimpleCamera,
    world: Hittables,
    i1: int,
    j1: int,
    w1: int,
    h1: int,
    ju1: int,
    jv1: int,
    i2: int,
    j2: int,
    w2: int,
    h2: int,
    ju2: int,
    jv2: int,
    t_min: int,
    t_max: int,
)
    requires
        sample_u(i1, ju1, w1) == sample_u(i2, ju2, w2),
        sample_v(j1, jv1, h1) == sample_v(j2, jv2, h2),
    ensures
        forall|k: int|
            0 <= k < world.spheres@.len() ==> sphere_time(
                #[trigger] world.spheres@[k],
                get_ray_spec(cam, sample_u(i1, ju1, w1), sample_v(j1, jv1, h1)),
                t_min,
                t_max,
            ) == sphere_time(
                world.spheres@[k],
                get_ray_spec(cam, sample_u(i2, ju2, w2), sample_v(j2, jv2, h2)),
                t_min,
                t_max,
            ),
{
}

} // verus!
