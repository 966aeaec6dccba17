//! Rays: an origin and a direction, with point-at-parameter evaluation.

use crate::fixed::{lemma_mul_abs_bound, lemma_tdiv_bounds, mul_i128, tdiv, tdiv_i128, SCALE};
use crate::vec3::Vec3;
use vstd::prelude::*;

verus! {

#[derive(Debug, Clone, Copy, PartialEq, Eq, Structural)]
pub struct Ray {
    pub origin: Vec3,
    pub direction: Vec3,
}

/// One component of `origin + t * direction`, before any range clipping.
pub open spec fn at_comp(o: int, t: int, d: int) -> int {
    o + tdiv(t * d, SCALE as int)
}

impl Ray {
    /// The point reached after parameter `t` along the ray.
    pub fn at(&self, t: i64) -> (p: Vec3)
        requires
            (i64::MIN as int) <= at_comp(self.origin.0 as int, t as int, self.direction.0 as int)
                <= i64::MAX as int,
            (i64::MIN as int) <= at_comp(self.origin.1 as int, t as int, self.direction.1 as int)
                <= i64::MAX as int,
            (i64::MIN as int) <= at_comp(self.origin.2 as int, t as int, self.direction.2 as int)
                <= i64::MAX as int,
        ensures
            p.0 as int == at_comp(self.origin.0 as int, t as int, self.direction.0 as int),
            p.1 as int == at_comp(self.origin.1 as int, t as int, self.direction.1 as int),
            p.2 as int == at_comp(self.origin.2 as int, t as int, self.direction.2 as int),
    {
        proof {
            let m: int = 0x8000_0000_0000_0000;
            lemma_mul_abs_bound(t as int, self.direction.0 as int, m, m);
            lemma_mul_abs_bound(t as int, self.direction.1 as int, m, m);
            lemma_mul_abs_bound(t as int, self.direction.2 as int, m, m);
            assert(m * m == 0x4000_0000_0000_0000_0000_0000_0000_0000) by (nonlinear_arith)
                requires
                    m == 0x8000_0000_0000_0000,
            ;
            lemma_tdiv_bounds((t as int) * (self.direction.0 as int), SCALE as int);
            lemma_tdiv_bounds((t as int) * (self.direction.1 as int), SCALE as int);
            lemma_tdiv_bounds((t as int) * (self.direction.2 as int), SCALE as int);
        }
        let x: i128 = self.origin.0 as i128 + tdiv_i128(
            mul_i128(t as i128, self.direction.0 as i128),
            SCALE as i128,
        );
        let y: i128 = self.origin.1 as i128 + tdiv_i128(
            mul_i128(t as i128, self.direction.1 as i128),
            SCALE as i128,
        );
        let z: i128 = self.origin.2 as i128 + tdiv_i128(
            mul_i128(t as i128, self.direction.2 as i128),
            SCALE as i128,
        );
        Vec3(x as i64, y as i64, z as i64)
    }
}

} // verus!
