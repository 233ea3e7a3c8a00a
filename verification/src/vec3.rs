//! Three-component vectors over fixed-point scalars.
//!
//! A `Vec3` serves as a point, a direction and an RGB colour. Its
//! mathematical value is a `V3`: the three coordinates as unbounded
//! integers, each scaled by `FP_ONE`. Every operation's contract is an
//! exact statement over that model.

use vstd::prelude::*;
use crate::num::FP_ONE;
use crate::num::div_t;
use crate::num::div_trunc;
use crate::num::is_sqrt;
use crate::num::isqrt;
use crate::num::sqrt_floor;
use crate::num::lemma_sqrt_floor;
use crate::num::lemma_sqrt_ordered;
use crate::num::lemma_div_t_bound;
use crate::num::lemma_div_t_ordered;
use crate::num::lemma_div_t_nonneg;
use crate::num::lemma_div_t_mul_cancel;
use crate::num::lemma_mul_bound;
use crate::rng::RandomSource;

verus! {

/// Componentwise bound on the operands of products: keeps every
/// product of two scalars, and every sum of three such products,
/// within `i64`.
pub const VEC_MAX: i64 = 0x4000_0000;

/// The mathematical value of a vector: its coordinates as unbounded
/// integers, scaled by `FP_ONE`.
pub ghost struct V3 {
    pub x: int,
    pub y: int,
    pub z: int,
}

pub open spec fn v3_in(a: V3, b: int) -> bool {
    -b <= a.x <= b && -b <= a.y <= b && -b <= a.z <= b
}

pub open spec fn v3_nonneg(a: V3) -> bool {
    a.x >= 0 && a.y >= 0 && a.z >= 0
}

pub open spec fn v3_zero() -> V3 {
    V3 { x: 0, y: 0, z: 0 }
}

pub open spec fn v3_add(a: V3, b: V3) -> V3 {
    V3 { x: a.x + b.x, y: a.y + b.y, z: a.z + b.z }
}

pub open spec fn v3_sub(a: V3, b: V3) -> V3 {
    V3 { x: a.x - b.x, y: a.y - b.y, z: a.z - b.z }
}

pub open spec fn v3_neg(a: V3) -> V3 {
    V3 { x: -a.x, y: -a.y, z: -a.z }
}

/// Scaling by the fixed-point scalar `s`, truncating toward zero.
pub open spec fn v3_scale(a: V3, s: int) -> V3 {
    V3 {
        x: div_t(a.x * s, FP_ONE as int),
        y: div_t(a.y * s, FP_ONE as int),
        z: div_t(a.z * s, FP_ONE as int),
    }
}

/// Division by the fixed-point scalar `s`, truncating toward zero.
pub open spec fn v3_div(a: V3, s: int) -> V3 {
    V3 {
        x: div_t(a.x * FP_ONE, s),
        y: div_t(a.y * FP_ONE, s),
        z: div_t(a.z * FP_ONE, s),
    }
}

/// The raw sum of componentwise products, at twice the fixed-point
/// scale.
pub open spec fn v3_dot_raw(a: V3, b: V3) -> int {
    a.x * b.x + a.y * b.y + a.z * b.z
}

/// The dot product, back at the fixed-point scale.
pub open spec fn v3_dot(a: V3, b: V3) -> int {
    div_t(v3_dot_raw(a, b), FP_ONE as int)
}

pub open spec fn v3_cross(a: V3, b: V3) -> V3 {
    V3 {
        x: div_t(a.y * b.z - a.z * b.y, FP_ONE as int),
        y: div_t(a.z * b.x - a.x * b.z, FP_ONE as int),
        z: div_t(a.x * b.y - a.y * b.x, FP_ONE as int),
    }
}

pub open spec fn v3_hadamard(a: V3, b: V3) -> V3 {
    V3 {
        x: div_t(a.x * b.x, FP_ONE as int),
        y: div_t(a.y * b.y, FP_ONE as int),
        z: div_t(a.z * b.z, FP_ONE as int),
    }
}

/// The squared magnitude, at twice the fixed-point scale.
pub open spec fn v3_mag_sq_raw(a: V3) -> int {
    v3_dot_raw(a, a)
}

/// The magnitude at the fixed-point scale: the integer square root of
/// the raw squared magnitude.
pub open spec fn v3_mag(a: V3) -> int {
    sqrt_floor(v3_mag_sq_raw(a))
}

/// The normalised vector: each coordinate rescaled by the magnitude,
/// truncating toward zero.
pub open spec fn v3_normalised(a: V3) -> V3 {
    V3 {
        x: div_t(a.x * FP_ONE, v3_mag(a)),
        y: div_t(a.y * FP_ONE, v3_mag(a)),
        z: div_t(a.z * FP_ONE, v3_mag(a)),
    }
}

/// One 8-bit colour channel from an accumulated radiance sum and a
/// sample count: average, clamp negative radiance up to zero,
/// gamma-correct by square root, clamp just below one, then quantise
/// to [0, 256). Out-of-range radiance clamps at both ends; nothing
/// wraps.
pub open spec fn channel_value(s: int, n: int) -> int {
    let avg = div_t(s, n);
    let lifted = if avg < 0 {
        0
    } else {
        avg
    };
    let gamma = sqrt_floor(lifted * FP_ONE);
    let clamped = if gamma <= FP_ONE - 1 {
        gamma
    } else {
        FP_ONE - 1
    };
    div_t(clamped * 256, FP_ONE as int)
}

#[derive(Clone, Copy, PartialEq, Eq, Structural, Debug)]
pub struct Vec3 {
    pub x: i64,
    pub y: i64,
    pub z: i64,
}

impl View for Vec3 {
    type V = V3;

    open spec fn view(&self) -> V3 {
        V3 { x: self.x as int, y: self.y as int, z: self.z as int }
    }
}

impl Vec3 {
    pub fn new(x: i64, y: i64, z: i64) -> (r: Vec3)
        ensures
            r@ == (V3 { x: x as int, y: y as int, z: z as int }),
    {
        Vec3 { x, y, z }
    }

    pub fn zero() -> (r: Vec3)
        ensures
            r@ == v3_zero(),
    {
        Vec3 { x: 0, y: 0, z: 0 }
    }

    pub fn ones() -> (r: Vec3)
        ensures
            r@ == (V3 { x: FP_ONE as int, y: FP_ONE as int, z: FP_ONE as int }),
    {
        Vec3 { x: FP_ONE, y: FP_ONE, z: FP_ONE }
    }

    pub fn up() -> (r: Vec3)
        ensures
            r@ == (V3 { x: 0, y: FP_ONE as int, z: 0 }),
    {
        Vec3 { x: 0, y: FP_ONE, z: 0 }
    }

    pub fn down() -> (r: Vec3)
        ensures
            r@ == (V3 { x: 0, y: -(FP_ONE as int), z: 0 }),
    {
        Vec3 { x: 0, y: -FP_ONE, z: 0 }
    }

    pub fn left() -> (r: Vec3)
        ensures
            r@ == (V3 { x: -(FP_ONE as int), y: 0, z: 0 }),
    {
        Vec3 { x: -FP_ONE, y: 0, z: 0 }
    }

    pub fn right() -> (r: Vec3)
        ensures
            r@ == (V3 { x: FP_ONE as int, y: 0, z: 0 }),
    {
        Vec3 { x: FP_ONE, y: 0, z: 0 }
    }

    pub fn forw() -> (r: Vec3)
        ensures
            r@ == (V3 { x: 0, y: 0, z: FP_ONE as int }),
    {
        Vec3 { x: 0, y: 0, z: FP_ONE }
    }

    pub fn backw() -> (r: Vec3)
        ensures
            r@ == (V3 { x: 0, y: 0, z: -(FP_ONE as int) }),
    {
        Vec3 { x: 0, y: 0, z: -FP_ONE }
    }

    pub fn add(&self, rhs: &Vec3) -> (r: Vec3)
        requires
            i64::MIN <= self@.x + rhs@.x <= i64::MAX,
            i64::MIN <= self@.y + rhs@.y <= i64::MAX,
            i64::MIN <= self@.z + rhs@.z <= i64::MAX,
        ensures
            r@ == v3_add(self@, rhs@),
    {
        Vec3 { x: self.x + rhs.x, y: self.y + rhs.y, z: self.z + rhs.z }
    }

    pub fn sub(&self, rhs: &Vec3) -> (r: Vec3)
        requires
            i64::MIN <= self@.x - rhs@.x <= i64::MAX,
            i64::MIN <= self@.y - rhs@.y <= i64::MAX,
            i64::MIN <= self@.z - rhs@.z <= i64::MAX,
        ensures
            r@ == v3_sub(self@, rhs@),
    {
        Vec3 { x: self.x - rhs.x, y: self.y - rhs.y, z: self.z - rhs.z }
    }

    pub fn add_assign(&mut self, rhs: &Vec3)
        requires
            i64::MIN <= old(self)@.x + rhs@.x <= i64::MAX,
            i64::MIN <= old(self)@.y + rhs@.y <= i64::MAX,
            i64::MIN <= old(self)@.z + rhs@.z <= i64::MAX,
        ensures
            final(self)@ == v3_add(old(self)@, rhs@),
    {
        *self = self.add(rhs);
    }

    pub fn sub_assign(&mut self, rhs: &Vec3)
        requires
            i64::MIN <= old(self)@.x - rhs@.x <= i64::MAX,
            i64::MIN <= old(self)@.y - rhs@.y <= i64::MAX,
            i64::MIN <= old(self)@.z - rhs@.z <= i64::MAX,
        ensures
            final(self)@ == v3_sub(old(self)@, rhs@),
    {
        *self = self.sub(rhs);
    }

    pub fn mul_assign(&mut self, rhs: i64)
        requires
            v3_in(old(self)@, 0x8000_0000),
            -0x8000_0000 <= rhs <= 0x8000_0000,
        ensures
            final(self)@ == v3_scale(old(self)@, rhs as int),
    {
        *self = self.mul(rhs);
    }

    pub fn div_assign(&mut self, rhs: i64)
        requires
            v3_in(old(self)@, 0x4000_0000_0000),
            rhs > 0,
        ensures
            final(self)@ == v3_div(old(self)@, rhs as int),
    {
        *self = self.div(rhs);
    }

    pub fn neg(&self) -> (r: Vec3)
        requires
            self.x > i64::MIN,
            self.y > i64::MIN,
            self.z > i64::MIN,
        ensures
            r@ == v3_neg(self@),
    {
        Vec3 { x: -self.x, y: -self.y, z: -self.z }
    }

    /// Scaling by the fixed-point scalar `rhs`.
    pub fn mul(&self, rhs: i64) -> (r: Vec3)
        requires
            v3_in(self@, 0x8000_0000),
            -0x8000_0000 <= rhs <= 0x8000_0000,
        ensures
            r@ == v3_scale(self@, rhs as int),
    {
        proof {
            lemma_mul_bound(self@.x, rhs as int, 0x8000_0000, 0x8000_0000);
            lemma_mul_bound(self@.y, rhs as int, 0x8000_0000, 0x8000_0000);
            lemma_mul_bound(self@.z, rhs as int, 0x8000_0000, 0x8000_0000);
        }
        Vec3 {
            x: div_trunc(self.x * rhs, FP_ONE),
            y: div_trunc(self.y * rhs, FP_ONE),
            z: div_trunc(self.z * rhs, FP_ONE),
        }
    }

    /// Division by the positive fixed-point scalar `rhs`.
    pub fn div(&self, rhs: i64) -> (r: Vec3)
        requires
            v3_in(self@, 0x4000_0000_0000),
            rhs > 0,
        ensures
            r@ == v3_div(self@, rhs as int),
    {
        proof {
            lemma_mul_bound(self@.x, FP_ONE as int, 0x4000_0000_0000, FP_ONE as int);
            lemma_mul_bound(self@.y, FP_ONE as int, 0x4000_0000_0000, FP_ONE as int);
            lemma_mul_bound(self@.z, FP_ONE as int, 0x4000_0000_0000, FP_ONE as int);
        }
        Vec3 {
            x: div_trunc(self.x * FP_ONE, rhs),
            y: div_trunc(self.y * FP_ONE, rhs),
            z: div_trunc(self.z * FP_ONE, rhs),
        }
    }

    /// The raw sum of componentwise products, at twice the fixed-point
    /// scale.
    pub fn dot_raw(&self, rhs: &Vec3) -> (r: i64)
        requires
            v3_in(self@, VEC_MAX as int),
            v3_in(rhs@, VEC_MAX as int),
        ensures
            r == v3_dot_raw(self@, rhs@),
            -3 * (VEC_MAX as int) * (VEC_MAX as int) <= r <= 3 * (VEC_MAX as int) * (VEC_MAX
                as int),
    {
        proof {
            lemma_mul_bound(self@.x, rhs@.x, VEC_MAX as int, VEC_MAX as int);
            lemma_mul_bound(self@.y, rhs@.y, VEC_MAX as int, VEC_MAX as int);
            lemma_mul_bound(self@.z, rhs@.z, VEC_MAX as int, VEC_MAX as int);
        }
        self.x * rhs.x + self.y * rhs.y + self.z * rhs.z
    }

    pub fn dot(&self, rhs: &Vec3) -> (r: i64)
        requires
            v3_in(self@, VEC_MAX as int),
            v3_in(rhs@, VEC_MAX as int),
        ensures
            r == v3_dot(self@, rhs@),
    {
        div_trunc(self.dot_raw(rhs), FP_ONE)
    }

    pub fn cross(&self, rhs: &Vec3) -> (r: Vec3)
        requires
            v3_in(self@, VEC_MAX as int),
            v3_in(rhs@, VEC_MAX as int),
        ensures
            r@ == v3_cross(self@, rhs@),
    {
        proof {
            lemma_mul_bound(self@.x, rhs@.x, VEC_MAX as int, VEC_MAX as int);
            lemma_mul_bound(self@.x, rhs@.y, VEC_MAX as int, VEC_MAX as int);
            lemma_mul_bound(self@.x, rhs@.z, VEC_MAX as int, VEC_MAX as int);
            lemma_mul_bound(self@.y, rhs@.x, VEC_MAX as int, VEC_MAX as int);
            lemma_mul_bound(self@.y, rhs@.y, VEC_MAX as int, VEC_MAX as int);
            lemma_mul_bound(self@.y, rhs@.z, VEC_MAX as int, VEC_MAX as int);
            lemma_mul_bound(self@.z, rhs@.x, VEC_MAX as int, VEC_MAX as int);
            lemma_mul_bound(self@.z, rhs@.y, VEC_MAX as int, VEC_MAX as int);
            lemma_mul_bound(self@.z, rhs@.z, VEC_MAX as int, VEC_MAX as int);
        }
        Vec3 {
            x: div_trunc(self.y * rhs.z - self.z * rhs.y, FP_ONE),
            y: div_trunc(self.z * rhs.x - self.x * rhs.z, FP_ONE),
            z: div_trunc(self.x * rhs.y - self.y * rhs.x, FP_ONE),
        }
    }

    /// The componentwise (Hadamard) product.
    pub fn hadamard(&self, rhs: &Vec3) -> (r: Vec3)
        requires
            v3_in(self@, VEC_MAX as int),
            v3_in(rhs@, VEC_MAX as int),
        ensures
            r@ == v3_hadamard(self@, rhs@),
    {
        proof {
            lemma_mul_bound(self@.x, rhs@.x, VEC_MAX as int, VEC_MAX as int);
            lemma_mul_bound(self@.y, rhs@.y, VEC_MAX as int, VEC_MAX as int);
            lemma_mul_bound(self@.z, rhs@.z, VEC_MAX as int, VEC_MAX as int);
        }
        Vec3 {
            x: div_trunc(self.x * rhs.x, FP_ONE),
            y: div_trunc(self.y * rhs.y, FP_ONE),
            z: div_trunc(self.z * rhs.z, FP_ONE),
        }
    }

    /// The squared magnitude, back at the fixed-point scale.
    pub fn magnitude_squared(&self) -> (r: i64)
        requires
            v3_in(self@, VEC_MAX as int),
        ensures
            r == div_t(v3_mag_sq_raw(self@), FP_ONE as int),
    {
        div_trunc(self.dot_raw(self), FP_ONE)
    }

    /// The magnitude at the fixed-point scale: the integer square root
    /// of the raw squared magnitude.
    pub fn magnitude(&self) -> (r: i64)
        requires
            v3_in(self@, VEC_MAX as int),
        ensures
            r == v3_mag(self@),
            is_sqrt(v3_mag_sq_raw(self@), r as int),
            0 <= r <= 0x1_0000_0000,
    {
        let raw: i64 = self.dot_raw(self);
        proof {
            assert(raw >= 0) by (nonlinear_arith)
                requires
                    raw == self@.x * self@.x + self@.y * self@.y + self@.z * self@.z,
            ;
        }
        let root: u128 = isqrt(raw as u128);
        proof {
            assert((root as int) * (root as int) <= raw as int);
            assert(root <= 0x1_0000_0000) by (nonlinear_arith)
                requires
                    (root as int) * (root as int) <= raw as int,
                    raw as int <= 3 * (VEC_MAX as int) * (VEC_MAX as int),
                    root >= 0,
            ;
        }
        root as i64
    }

    /// Rescales to (approximately) unit magnitude. The result is exact
    /// truncating division of each coordinate by the magnitude, so
    /// every component lies within `FP_ONE`.
    pub fn normalise(&self) -> (r: Vec3)
        requires
            v3_in(self@, VEC_MAX as int),
            v3_mag_sq_raw(self@) >= 1,
        ensures
            r@ == v3_normalised(self@),
            v3_in(r@, FP_ONE as int),
    {
        let m: i64 = self.magnitude();
        proof {
            let msq = v3_mag_sq_raw(self@);
            assert(m >= 1) by (nonlinear_arith)
                requires
                    is_sqrt(msq, m as int),
                    msq >= 1,
            ;
            assert(-(m as int) <= self@.x <= m as int && -(m as int) <= self@.y <= m as int
                && -(m as int) <= self@.z <= m as int) by (nonlinear_arith)
                requires
                    is_sqrt(msq, m as int),
                    msq == self@.x * self@.x + self@.y * self@.y + self@.z * self@.z,
            ;
            lemma_mul_bound(self@.x, FP_ONE as int, m as int, FP_ONE as int);
            lemma_mul_bound(self@.y, FP_ONE as int, m as int, FP_ONE as int);
            lemma_mul_bound(self@.z, FP_ONE as int, m as int, FP_ONE as int);
            assert((m as int) * (FP_ONE as int) == (FP_ONE as int) * (m as int)) by (nonlinear_arith);
            lemma_div_t_bound(self@.x * FP_ONE, m as int, FP_ONE as int);
            lemma_div_t_bound(self@.y * FP_ONE, m as int, FP_ONE as int);
            lemma_div_t_bound(self@.z * FP_ONE, m as int, FP_ONE as int);
        }
        Vec3 {
            x: div_trunc(self.x * FP_ONE, m),
            y: div_trunc(self.y * FP_ONE, m),
            z: div_trunc(self.z * FP_ONE, m),
        }
    }

    /// Accumulated radiance and a sample count, to one 8-bit RGB
    /// triple: average, square-root gamma correction, clamp to the
    /// displayable range (negative radiance to zero, radiance past
    /// one just below one), quantise.
    pub fn to_colour(&self, samples_per_pixel: u32) -> (r: [u8; 3])
        requires
            samples_per_pixel >= 1,
            v3_in(self@, 0x4_0000_0000_0000),
        ensures
            r[0] == channel_value(self@.x, samples_per_pixel as int),
            r[1] == channel_value(self@.y, samples_per_pixel as int),
            r[2] == channel_value(self@.z, samples_per_pixel as int),
    {
        let pix_r = Self::channel(self.x, samples_per_pixel);
        let pix_g = Self::channel(self.y, samples_per_pixel);
        let pix_b = Self::channel(self.z, samples_per_pixel);
        [pix_r, pix_g, pix_b]
    }

    fn channel(s: i64, n: u32) -> (r: u8)
        requires
            n >= 1,
            -0x4_0000_0000_0000 <= s <= 0x4_0000_0000_0000,
        ensures
            r == channel_value(s as int, n as int),
    {
        let avg: i64 = div_trunc(s, n as i64);
        if avg < 0 {
            proof {
                assert(is_sqrt(0, 0));
                lemma_sqrt_floor(0, 0);
                lemma_div_t_nonneg(0, FP_ONE as int);
            }
            return 0;
        }
        proof {
            if s >= 0 {
                lemma_div_t_nonneg(s as int, n as int);
            } else {
                lemma_div_t_nonneg(-(s as int), n as int);
            }
        }
        let gamma_wide: u128 = isqrt((avg as u128) * (FP_ONE as u128));
        proof {
            assert(gamma_wide as int == sqrt_floor((avg as int) * (FP_ONE as int)));
        }
        let clamped: i64 = if gamma_wide <= (FP_ONE - 1) as u128 {
            gamma_wide as i64
        } else {
            FP_ONE - 1
        };
        proof {
            lemma_div_t_nonneg(clamped * 256, FP_ONE as int);
            lemma_mul_bound(clamped as int, 256, FP_ONE as int, 256);
            lemma_div_t_bound(clamped * 256, FP_ONE as int, 256);
            assert(div_t((FP_ONE - 1) * 256, FP_ONE as int) <= 255);
            lemma_div_t_ordered(clamped * 256, (FP_ONE - 1) * 256, FP_ONE as int);
            assert(clamped * 256 <= (FP_ONE - 1) * 256) by (nonlinear_arith)
                requires
                    0 <= clamped <= FP_ONE - 1,
            ;
        }
        let q: i64 = div_trunc(clamped * 256, FP_ONE);
        q as u8
    }
}

/// Gamma-corrected quantisation never decreases when the accumulated
/// radiance grows, the sample count held fixed, up to the clamp
/// ceiling.
pub proof fn lemma_channel_monotonic(s1: int, s2: int, n: int)
    requires
        s1 <= s2,
        n >= 1,
    ensures
        channel_value(s1, n) <= channel_value(s2, n),
{
    lemma_div_t_ordered(s1, s2, n);
    let a1 = if div_t(s1, n) < 0 {
        0
    } else {
        div_t(s1, n)
    };
    let a2 = if div_t(s2, n) < 0 {
        0
    } else {
        div_t(s2, n)
    };
    assert(0 <= a1 <= a2);
    assert(a1 * FP_ONE <= a2 * FP_ONE && 0 <= a1 * FP_ONE) by (nonlinear_arith)
        requires
            0 <= a1 <= a2,
    ;
    lemma_sqrt_ordered(a1 * FP_ONE, a2 * FP_ONE);
    let g1 = sqrt_floor(a1 * FP_ONE);
    let g2 = sqrt_floor(a2 * FP_ONE);
    let c1 = if g1 <= FP_ONE - 1 { g1 } else { FP_ONE - 1 as int };
    let c2 = if g2 <= FP_ONE - 1 { g2 } else { FP_ONE - 1 as int };
    assert(c1 <= c2);
    assert(c1 * 256 <= c2 * 256) by (nonlinear_arith)
        requires
            c1 <= c2,
    ;
    lemma_div_t_ordered(c1 * 256, c2 * 256, FP_ONE as int);
}

/// A Hadamard product of boxed nonnegative vectors stays boxed:
/// within `q` whenever the product of the operand bounds is at most
/// `q` scaled up.
pub proof fn lemma_hadamard_box(a: V3, b: V3, ba: int, bb: int, q: int)
    requires
        0 <= a.x <= ba,
        0 <= a.y <= ba,
        0 <= a.z <= ba,
        0 <= b.x <= bb,
        0 <= b.y <= bb,
        0 <= b.z <= bb,
        q >= 0,
        ba * bb <= q * FP_ONE,
    ensures
        v3_nonneg(v3_hadamard(a, b)),
        v3_in(v3_hadamard(a, b), q),
{
    crate::num::lemma_mul_nonneg(a.x, b.x);
    crate::num::lemma_mul_nonneg(a.y, b.y);
    crate::num::lemma_mul_nonneg(a.z, b.z);
    lemma_mul_bound(a.x, b.x, ba, bb);
    lemma_mul_bound(a.y, b.y, ba, bb);
    lemma_mul_bound(a.z, b.z, ba, bb);
    lemma_div_t_nonneg(a.x * b.x, FP_ONE as int);
    lemma_div_t_nonneg(a.y * b.y, FP_ONE as int);
    lemma_div_t_nonneg(a.z * b.z, FP_ONE as int);
    lemma_div_t_bound(a.x * b.x, FP_ONE as int, q);
    lemma_div_t_bound(a.y * b.y, FP_ONE as int, q);
    lemma_div_t_bound(a.z * b.z, FP_ONE as int, q);
}

/// Scaling a boxed nonnegative vector by a boxed nonnegative scalar
/// stays boxed, under the same side condition.
pub proof fn lemma_scale_box(a: V3, s: int, ba: int, bs: int, q: int)
    requires
        0 <= a.x <= ba,
        0 <= a.y <= ba,
        0 <= a.z <= ba,
        0 <= s <= bs,
        q >= 0,
        ba * bs <= q * FP_ONE,
    ensures
        v3_nonneg(v3_scale(a, s)),
        v3_in(v3_scale(a, s), q),
{
    crate::num::lemma_mul_nonneg(a.x, s);
    crate::num::lemma_mul_nonneg(a.y, s);
    crate::num::lemma_mul_nonneg(a.z, s);
    lemma_mul_bound(a.x, s, ba, bs);
    lemma_mul_bound(a.y, s, ba, bs);
    lemma_mul_bound(a.z, s, ba, bs);
    lemma_div_t_nonneg(a.x * s, FP_ONE as int);
    lemma_div_t_nonneg(a.y * s, FP_ONE as int);
    lemma_div_t_nonneg(a.z * s, FP_ONE as int);
    lemma_div_t_bound(a.x * s, FP_ONE as int, q);
    lemma_div_t_bound(a.y * s, FP_ONE as int, q);
    lemma_div_t_bound(a.z * s, FP_ONE as int, q);
}

/// A channel whose accumulated radiance reaches one unit per sample
/// saturates at 255: it clamps, never wraps.
pub proof fn lemma_channel_saturates(s: int, n: int)
    requires
        n >= 1,
        s >= n * (FP_ONE as int),
    ensures
        channel_value(s, n) == 255,
{
    lemma_div_t_mul_cancel(FP_ONE as int, n);
    assert((FP_ONE as int) * n == n * (FP_ONE as int)) by (nonlinear_arith);
    lemma_div_t_ordered((FP_ONE as int) * n, s, n);
    let avg = div_t(s, n);
    assert(avg >= FP_ONE);
    assert(is_sqrt((FP_ONE as int) * (FP_ONE as int), FP_ONE as int)) by (nonlinear_arith);
    lemma_sqrt_floor((FP_ONE as int) * (FP_ONE as int), FP_ONE as int);
    assert((FP_ONE as int) * (FP_ONE as int) <= avg * FP_ONE) by (nonlinear_arith)
        requires
            avg >= FP_ONE,
    ;
    lemma_sqrt_ordered((FP_ONE as int) * (FP_ONE as int), avg * FP_ONE);
    assert(sqrt_floor(avg * FP_ONE) >= FP_ONE);
    assert(div_t((FP_ONE - 1) * 256, FP_ONE as int) == 255);
}

/// A channel with no positive radiance is black: negative radiance
/// clamps to zero, never wraps.
pub proof fn lemma_channel_clamps_below(s: int, n: int)
    requires
        n >= 1,
        s <= 0,
    ensures
        channel_value(s, n) == 0,
{
    if s >= 0 {
        lemma_div_t_nonneg(s, n);
    } else {
        lemma_div_t_nonneg(-s, n);
    }
    let avg = div_t(s, n);
    assert(avg <= 0);
    assert(is_sqrt(0, 0));
    lemma_sqrt_floor(0, 0);
}

/// The dot product is symmetric.
pub proof fn lemma_dot_symmetric(a: V3, b: V3)
    ensures
        v3_dot(a, b) == v3_dot(b, a),
{
    assert(v3_dot_raw(a, b) == v3_dot_raw(b, a)) by (nonlinear_arith);
}

/// The cross product is antisymmetric.
pub proof fn lemma_cross_antisymmetric(a: V3, b: V3)
    ensures
        v3_cross(a, b) == v3_neg(v3_cross(b, a)),
{
    assert(a.y * b.z - a.z * b.y == -(b.y * a.z - b.z * a.y)) by (nonlinear_arith);
    assert(a.z * b.x - a.x * b.z == -(b.z * a.x - b.x * a.z)) by (nonlinear_arith);
    assert(a.x * b.y - a.y * b.x == -(b.x * a.y - b.y * a.x)) by (nonlinear_arith);
    crate::num::lemma_div_t_neg(b.y * a.z - b.z * a.y, FP_ONE as int);
    crate::num::lemma_div_t_neg(b.z * a.x - b.x * a.z, FP_ONE as int);
    crate::num::lemma_div_t_neg(b.x * a.y - b.y * a.x, FP_ONE as int);
}

/// Adding and then subtracting the same vector is the identity.
pub proof fn lemma_add_sub_cancels(a: V3, b: V3)
    ensures
        v3_sub(v3_add(a, b), b) == a,
{
}

/// Normalisation yields unit magnitude within truncation tolerance:
/// for any vector of magnitude at least a quarter unit, the raw
/// squared magnitude of its normalisation is within a few scale
/// units of one. Vectors far below a quarter unit can miss this
/// window, which is why the sampling helpers reject short draws.
pub proof fn lemma_normalised_magnitude(a: V3)
    requires
        v3_in(a, VEC_MAX as int),
        v3_mag_sq_raw(a) >= 16384 * 16384,
    ensures
        (FP_ONE as int) * (FP_ONE as int) - 7 * (FP_ONE as int) <= v3_mag_sq_raw(v3_normalised(a)),
        v3_mag_sq_raw(v3_normalised(a)) <= (FP_ONE as int) * (FP_ONE as int) + 8 * (FP_ONE as int),
{
    let s = FP_ONE as int;
    let q = v3_mag_sq_raw(a);
    crate::num::lemma_sqrt_exists(q);
    let m = v3_mag(a);
    assert(is_sqrt(q, m));
    assert(m >= 16384 && m >= 1) by (nonlinear_arith)
        requires
            is_sqrt(q, m),
            q >= 16384 * 16384,
    ;
    assert(-m <= a.x <= m && -m <= a.y <= m && -m <= a.z <= m) by (nonlinear_arith)
        requires
            is_sqrt(q, m),
            q == a.x * a.x + a.y * a.y + a.z * a.z,
    ;
    let nx = div_t(a.x * s, m);
    let ny = div_t(a.y * s, m);
    let nz = div_t(a.z * s, m);
    let ux = if nx >= 0 { nx } else { -nx };
    let uy = if ny >= 0 { ny } else { -ny };
    let uz = if nz >= 0 { nz } else { -nz };
    let xa = if a.x * s >= 0 { a.x * s } else { -(a.x * s) };
    let ya = if a.y * s >= 0 { a.y * s } else { -(a.y * s) };
    let za = if a.z * s >= 0 { a.z * s } else { -(a.z * s) };
    crate::num::lemma_div_t_abs_bracket(a.x * s, m, ux);
    crate::num::lemma_div_t_abs_bracket(a.y * s, m, uy);
    crate::num::lemma_div_t_abs_bracket(a.z * s, m, uz);
    // the absolute coordinates, squared
    assert(xa * xa == (a.x * a.x) * (s * s)) by (nonlinear_arith)
        requires
            xa == a.x * s || xa == -(a.x * s),
    ;
    assert(ya * ya == (a.y * a.y) * (s * s)) by (nonlinear_arith)
        requires
            ya == a.y * s || ya == -(a.y * s),
    ;
    assert(za * za == (a.z * a.z) * (s * s)) by (nonlinear_arith)
        requires
            za == a.z * s || za == -(a.z * s),
    ;
    // each |n_i| is at most one unit
    assert(xa <= m * s && ya <= m * s && za <= m * s) by (nonlinear_arith)
        requires
            xa == a.x * s || xa == -(a.x * s),
            ya == a.y * s || ya == -(a.y * s),
            za == a.z * s || za == -(a.z * s),
            -m <= a.x <= m,
            -m <= a.y <= m,
            -m <= a.z <= m,
            s >= 1,
    ;
    assert(ux <= s && uy <= s && uz <= s) by (nonlinear_arith)
        requires
            m * ux <= xa,
            m * uy <= ya,
            m * uz <= za,
            xa <= m * s,
            ya <= m * s,
            za <= m * s,
            m >= 1,
            ux >= 0,
            uy >= 0,
            uz >= 0,
    ;
    let nsq = v3_mag_sq_raw(v3_normalised(a));
    assert(nsq == nx * nx + ny * ny + nz * nz);
    // componentwise: (m * u_i)^2 <= (a_i * s)^2 <= (m * (u_i + 1))^2
    assert(m * m * (nx * nx) <= (a.x * a.x) * (s * s) && (a.x * a.x) * (s * s) <= m * m * ((ux + 1)
        * (ux + 1))) by (nonlinear_arith)
        requires
            m * ux <= xa < m * (ux + 1),
            xa >= 0,
            m >= 1,
            ux == (if nx >= 0 { nx } else { -nx }),
            xa * xa == (a.x * a.x) * (s * s),
    ;
    assert(m * m * (ny * ny) <= (a.y * a.y) * (s * s) && (a.y * a.y) * (s * s) <= m * m * ((uy + 1)
        * (uy + 1))) by (nonlinear_arith)
        requires
            m * uy <= ya < m * (uy + 1),
            ya >= 0,
            m >= 1,
            uy == (if ny >= 0 { ny } else { -ny }),
            ya * ya == (a.y * a.y) * (s * s),
    ;
    assert(m * m * (nz * nz) <= (a.z * a.z) * (s * s) && (a.z * a.z) * (s * s) <= m * m * ((uz + 1)
        * (uz + 1))) by (nonlinear_arith)
        requires
            m * uz <= za < m * (uz + 1),
            za >= 0,
            m >= 1,
            uz == (if nz >= 0 { nz } else { -nz }),
            za * za == (a.z * a.z) * (s * s),
    ;
    // summed: m^2 * nsq <= s^2 * q <= m^2 * (nsq + 2(ux+uy+uz) + 3)
    assert(m * m * nsq == m * m * (nx * nx) + m * m * (ny * ny) + m * m * (nz * nz))
        by (nonlinear_arith)
        requires
            nsq == nx * nx + ny * ny + nz * nz,
    ;
    assert(s * s * q == (a.x * a.x) * (s * s) + (a.y * a.y) * (s * s) + (a.z * a.z) * (s * s))
        by (nonlinear_arith)
        requires
            q == a.x * a.x + a.y * a.y + a.z * a.z,
    ;
    assert(m * m * ((ux + 1) * (ux + 1)) + m * m * ((uy + 1) * (uy + 1)) + m * m * ((uz + 1) * (uz
        + 1)) == m * m * (nsq + 2 * (ux + uy + uz) + 3)) by (nonlinear_arith)
        requires
            nsq == nx * nx + ny * ny + nz * nz,
            ux == (if nx >= 0 { nx } else { -nx }),
            uy == (if ny >= 0 { ny } else { -ny }),
            uz == (if nz >= 0 { nz } else { -nz }),
    ;
    assert(m * m * nsq <= s * s * q);
    assert(s * s * q <= m * m * (nsq + 2 * (ux + uy + uz) + 3));
    // conclude
    assert(q <= m * m + 2 * m) by (nonlinear_arith)
        requires
            is_sqrt(q, m),
    ;
    assert(nsq <= s * s + 8 * s) by (nonlinear_arith)
        requires
            m * m * nsq <= s * s * q,
            q <= m * m + 2 * m,
            4 * m >= s,
            m >= 1,
            s >= 1,
    ;
    assert(nsq >= s * s - 7 * s) by (nonlinear_arith)
        requires
            s * s * q <= m * m * (nsq + 2 * (ux + uy + uz) + 3),
            q >= m * m,
            ux <= s,
            uy <= s,
            uz <= s,
            m >= 1,
            s >= 3,
    ;
}

impl Vec3 {
    /// Independent uniform draw per component, each in [min, max).
    pub fn random_range(rng: &mut RandomSource, min: i64, max: i64) -> (r: Vec3)
        requires
            -0x2000_0000_0000_0000 <= min < max <= 0x2000_0000_0000_0000,
        ensures
            min <= r@.x < max,
            min <= r@.y < max,
            min <= r@.z < max,
    {
        let span: u64 = (max - min) as u64;
        let dx = rng.next_below(span);
        let dy = rng.next_below(span);
        let dz = rng.next_below(span);
        Vec3 { x: min + dx as i64, y: min + dy as i64, z: min + dz as i64 }
    }

    /// A uniform draw from the unit cube: each component in [0, 1).
    pub fn random_unit(rng: &mut RandomSource) -> (r: Vec3)
        ensures
            0 <= r@.x < FP_ONE,
            0 <= r@.y < FP_ONE,
            0 <= r@.z < FP_ONE,
    {
        Self::random_range(rng, 0, FP_ONE)
    }

    /// A random direction of (approximately) unit magnitude: rejection
    /// sampling from the cube, normalised; falls back to an axis
    /// direction if no draw of usable magnitude comes up.
    ///
    /// A deliberate fidelity decision: the usual construction draws a
    /// Gaussian per component by a Box-Muller transform and
    /// normalises (a transform easy to get wrong — a logarithm to the
    /// wrong base understates the spread), but that needs logarithms
    /// and trigonometry, which fixed-point arithmetic does not offer.
    /// Rejection from the cube, keeping only draws with magnitude in
    /// [1/4, 1] before normalising, gives a direction distribution
    /// without those functions and keeps normalisation
    /// well-conditioned; the bounce distribution differs accordingly.
    pub fn random_in_unit_sphere(rng: &mut RandomSource) -> (r: Vec3)
        ensures
            v3_in(r@, FP_ONE as int),
            (FP_ONE as int) * (FP_ONE as int) - 7 * (FP_ONE as int) <= v3_mag_sq_raw(r@)
                <= (FP_ONE as int) * (FP_ONE as int) + 8 * (FP_ONE as int),
            exists|v: V3|
                #[trigger] v3_normalised(v) == r@ && v3_in(v, FP_ONE as int) && 16384 * 16384
                    <= v3_mag_sq_raw(v),
    {
        let mut tries: u64 = 0;
        while tries < 64
            invariant
                true,
            decreases 64 - tries,
        {
            let v = Self::random_range(rng, -FP_ONE, FP_ONE);
            let raw = v.dot_raw(&v);
            if raw >= (FP_ONE / 4) * (FP_ONE / 4) && raw <= FP_ONE * FP_ONE {
                let r = v.normalise();
                proof {
                    lemma_normalised_magnitude(v@);
                    assert(v3_normalised(v@) == r@ && v3_in(v@, FP_ONE as int) && 16384 * 16384
                        <= v3_mag_sq_raw(v@));
                }
                return r;
            }
            tries = tries + 1;
        }
        let fallback = Vec3 { x: 0, y: 0, z: FP_ONE };
        proof {
            let fv = fallback@;
            assert(v3_mag_sq_raw(fv) == (FP_ONE as int) * (FP_ONE as int)) by (nonlinear_arith)
                requires
                    fv == (V3 { x: 0, y: 0, z: FP_ONE as int }),
            ;
            assert(is_sqrt((FP_ONE as int) * (FP_ONE as int), FP_ONE as int)) by (nonlinear_arith);
            lemma_sqrt_floor((FP_ONE as int) * (FP_ONE as int), FP_ONE as int);
            lemma_div_t_mul_cancel(FP_ONE as int, FP_ONE as int);
            assert(v3_normalised(fv) == fv);
        }
        fallback
    }

    /// A random unit direction in the hemisphere around `normal`:
    /// the draw is kept if it already points with the normal and
    /// flipped otherwise, so its dot product with `normal` is never
    /// negative.
    pub fn random_on_hemisphere(rng: &mut RandomSource, normal: Vec3) -> (r: Vec3)
        requires
            v3_in(normal@, VEC_MAX as int),
        ensures
            v3_in(r@, FP_ONE as int),
            (FP_ONE as int) * (FP_ONE as int) - 7 * (FP_ONE as int) <= v3_mag_sq_raw(r@)
                <= (FP_ONE as int) * (FP_ONE as int) + 8 * (FP_ONE as int),
            v3_dot_raw(r@, normal@) >= 0,
            v3_dot(r@, normal@) >= 0,
    {
        let dir = Self::random_in_unit_sphere(rng);
        let raw = dir.dot_raw(&normal);
        let r = if raw >= 0 {
            dir
        } else {
            dir.neg()
        };
        proof {
            if raw < 0 {
                assert(v3_dot_raw(v3_neg(dir@), normal@) == -v3_dot_raw(dir@, normal@))
                    by (nonlinear_arith);
                assert(v3_mag_sq_raw(v3_neg(dir@)) == v3_mag_sq_raw(dir@)) by (nonlinear_arith);
            }
            lemma_div_t_nonneg(v3_dot_raw(r@, normal@), FP_ONE as int);
        }
        r
    }
}

} // verus!
