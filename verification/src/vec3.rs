//! Three-component fixed-point vectors and the handful of operations the
//! physics kernel needs: sum, difference, scaling, dot product, Euclidean
//! length and normalization. Spec-level counterparts work on unbounded
//! integer triples; each executable operation is proved exact against them.

use vstd::prelude::*;
use crate::fixed::{
    absi, fxm, fxd, isqrt_spec, mul_fx, div_fx, isqrt, lemma_abs_mul, lemma_mag_mul_le,
    lemma_cancel_le, lemma_isqrt_le, lemma_square_le_root,
};
use vstd::arithmetic::mul::{lemma_mul_inequality, lemma_mul_upper_bound};

verus! {

/// A vector of three fixed-point coordinates.
#[derive(Clone, Copy, PartialEq, Eq, Structural, Debug)]
pub struct Vec3 {
    pub x: i64,
    pub y: i64,
    pub z: i64,
}

/// The mathematical view of a vector: its coordinates as unbounded integers.
pub open spec fn v3(v: Vec3) -> (int, int, int) {
    (v.x as int, v.y as int, v.z as int)
}

/// All three coordinates within a magnitude bound.
pub open spec fn bounded3(a: (int, int, int), m: int) -> bool {
    absi(a.0) <= m && absi(a.1) <= m && absi(a.2) <= m
}

pub open spec fn add3(a: (int, int, int), b: (int, int, int)) -> (int, int, int) {
    (a.0 + b.0, a.1 + b.1, a.2 + b.2)
}

pub open spec fn sub3(a: (int, int, int), b: (int, int, int)) -> (int, int, int) {
    (a.0 - b.0, a.1 - b.1, a.2 - b.2)
}

/// Componentwise fixed-point scaling.
pub open spec fn scale3(a: (int, int, int), k: int) -> (int, int, int) {
    (fxm(a.0, k), fxm(a.1, k), fxm(a.2, k))
}

/// The fixed-point dot product.
pub open spec fn dot3(a: (int, int, int), b: (int, int, int)) -> int {
    fxm(a.0, b.0) + fxm(a.1, b.1) + fxm(a.2, b.2)
}

/// The squared Euclidean norm of the raw coordinates. Because both factors
/// of each square carry one scale factor, the root of this sum is again in
/// fixed-point units, with no intermediate truncation at all.
pub open spec fn norm_sq3(a: (int, int, int)) -> int {
    a.0 * a.0 + a.1 * a.1 + a.2 * a.2
}

/// The Euclidean length, exact to the fixed-point unit.
pub open spec fn len3(a: (int, int, int)) -> int {
    isqrt_spec(norm_sq3(a))
}

/// The unit vector along `a`, scaled by SCALE (only meaningful for a
/// nonzero length).
pub open spec fn unit3(a: (int, int, int)) -> (int, int, int) {
    let l = len3(a);
    (fxd(a.0, l), fxd(a.1, l), fxd(a.2, l))
}

/// A bounded triple has a bounded squared norm.
pub proof fn lemma_norm_sq_le(a: (int, int, int), m: int)
    requires
        0 <= m,
        bounded3(a, m),
    ensures
        0 <= norm_sq3(a) <= 3 * (m * m),
        a.0 * a.0 <= norm_sq3(a),
        a.1 * a.1 <= norm_sq3(a),
        a.2 * a.2 <= norm_sq3(a),
{
    lemma_abs_mul(a.0, a.0);
    lemma_abs_mul(a.1, a.1);
    lemma_abs_mul(a.2, a.2);
    lemma_mag_mul_le(a.0, a.0, m, m);
    lemma_mag_mul_le(a.1, a.1, m, m);
    lemma_mag_mul_le(a.2, a.2, m, m);
}

impl Vec3 {
    /// The componentwise sum.
    pub fn add(self, o: Vec3) -> (r: Vec3)
        requires
            bounded3(v3(self), 4_000_000_000_000_000_000),
            bounded3(v3(o), 4_000_000_000_000_000_000),
        ensures
            v3(r) == add3(v3(self), v3(o)),
    {
        Vec3 { x: self.x + o.x, y: self.y + o.y, z: self.z + o.z }
    }

    /// The componentwise difference.
    pub fn sub(self, o: Vec3) -> (r: Vec3)
        requires
            bounded3(v3(self), 4_000_000_000_000_000_000),
            bounded3(v3(o), 4_000_000_000_000_000_000),
        ensures
            v3(r) == sub3(v3(self), v3(o)),
    {
        Vec3 { x: self.x - o.x, y: self.y - o.y, z: self.z - o.z }
    }

    /// Fixed-point scaling of every coordinate by `k`.
    pub fn scale_fx(self, k: i64) -> (r: Vec3)
        requires
            absi(v3(self).0) * absi(k as int) <= 9_223_372_036_854_775_807 * 1000,
            absi(v3(self).1) * absi(k as int) <= 9_223_372_036_854_775_807 * 1000,
            absi(v3(self).2) * absi(k as int) <= 9_223_372_036_854_775_807 * 1000,
        ensures
            v3(r) == scale3(v3(self), k as int),
            1000 * absi(v3(r).0) <= absi(v3(self).0) * absi(k as int),
            1000 * absi(v3(r).1) <= absi(v3(self).1) * absi(k as int),
            1000 * absi(v3(r).2) <= absi(v3(self).2) * absi(k as int),
    {
        proof {
            lemma_abs_mul(self.x as int, k as int);
            lemma_abs_mul(self.y as int, k as int);
            lemma_abs_mul(self.z as int, k as int);
        }
        Vec3 { x: mul_fx(self.x, k), y: mul_fx(self.y, k), z: mul_fx(self.z, k) }
    }

    /// The fixed-point dot product.
    pub fn dot_fx(self, o: Vec3) -> (r: i64)
        requires
            absi(v3(self).0) * absi(v3(o).0) <= 3_000_000_000_000_000_000_000,
            absi(v3(self).1) * absi(v3(o).1) <= 3_000_000_000_000_000_000_000,
            absi(v3(self).2) * absi(v3(o).2) <= 3_000_000_000_000_000_000_000,
        ensures
            r as int == dot3(v3(self), v3(o)),
            absi(r as int) <= 9_000_000_000_000_000_000,
    {
        proof {
            lemma_abs_mul(self.x as int, o.x as int);
            lemma_abs_mul(self.y as int, o.y as int);
            lemma_abs_mul(self.z as int, o.z as int);
        }
        let tx: i64 = mul_fx(self.x, o.x);
        let ty: i64 = mul_fx(self.y, o.y);
        let tz: i64 = mul_fx(self.z, o.z);
        tx + ty + tz
    }

    /// The Euclidean length of the vector, in fixed-point units.
    pub fn length_fx(self) -> (r: i64)
        requires
            bounded3(v3(self), 2_000_000_000_000_000_000),
        ensures
            r as int == len3(v3(self)),
            0 <= r <= 3_500_000_000_000_000_000,
            absi(v3(self).0) <= r as int,
            absi(v3(self).1) <= r as int,
            absi(v3(self).2) <= r as int,
            r as int * r as int <= norm_sq3(v3(self)),
            norm_sq3(v3(self)) < (r as int + 1) * (r as int + 1),
    {
        proof {
            lemma_norm_sq_le(v3(self), 2_000_000_000_000_000_000);
        }
        let sx: i128 = (self.x as i128) * (self.x as i128);
        let sy: i128 = (self.y as i128) * (self.y as i128);
        let sz: i128 = (self.z as i128) * (self.z as i128);
        let n: u128 = (sx + sy + sz) as u128;
        let root: u128 = isqrt(n);
        proof {
            lemma_isqrt_le(n as int, 3_500_000_000_000_000_000);
            lemma_square_le_root(self.x as int, n as int, root as int);
            lemma_square_le_root(self.y as int, n as int, root as int);
            lemma_square_le_root(self.z as int, n as int, root as int);
        }
        root as i64
    }

    /// The direction of the vector, scaled by SCALE, given its length.
    /// Every resulting coordinate is bounded by SCALE because no coordinate
    /// exceeds the Euclidean length.
    pub fn normalized(self, len: i64) -> (r: Vec3)
        requires
            len >= 1,
            absi(v3(self).0) <= len as int,
            absi(v3(self).1) <= len as int,
            absi(v3(self).2) <= len as int,
        ensures
            v3(r) == (fxd(v3(self).0, len as int), fxd(v3(self).1, len as int), fxd(
                v3(self).2,
                len as int,
            )),
            bounded3(v3(r), 1000),
    {
        proof {
            lemma_mul_inequality(1000, 9_223_372_036_854_775_807, len as int);
            assert(len as int * 9_223_372_036_854_775_807 == 9_223_372_036_854_775_807 * (
            len as int)) by (nonlinear_arith);
        }
        let rx: i64 = div_fx(self.x, len);
        let ry: i64 = div_fx(self.y, len);
        let rz: i64 = div_fx(self.z, len);
        proof {
            lemma_cancel_le(absi(rx as int), 1000, len as int);
            lemma_cancel_le(absi(ry as int), 1000, len as int);
            lemma_cancel_le(absi(rz as int), 1000, len as int);
        }
        Vec3 { x: rx, y: ry, z: rz }
    }
}

} // verus!
