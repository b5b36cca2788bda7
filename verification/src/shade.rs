//! The shading stage: how much light a face receives.
//!
//! The light is directional. A face is lit by the cosine of the angle
//! between its normal and the direction of the light; faces that turn away
//! from the light receive nothing and are not drawn.

use vstd::prelude::*;
use crate::arith::lemma_product_bound;
use crate::geometry::{Vertex, ONE};

verus! {

/// The largest magnitude of a coordinate that can be shaded: eight units
/// of model space.
pub const MODEL_LIMIT: i32 = 0x8_0000;

/// Whether every coordinate of `v` is within [`MODEL_LIMIT`].
pub open spec fn in_model_range(v: Vertex) -> bool {
    &&& -MODEL_LIMIT <= v.x <= MODEL_LIMIT
    &&& -MODEL_LIMIT <= v.y <= MODEL_LIMIT
    &&& -MODEL_LIMIT <= v.z <= MODEL_LIMIT
}

/// The cross product of two vectors.
pub open spec fn cross(a: (int, int, int), b: (int, int, int)) -> (int, int, int) {
    (a.1 * b.2 - a.2 * b.1, a.2 * b.0 - a.0 * b.2, a.0 * b.1 - a.1 * b.0)
}

/// The dot product of two vectors.
pub open spec fn dot(a: (int, int, int), b: (int, int, int)) -> int {
    a.0 * b.0 + a.1 * b.1 + a.2 * b.2
}

/// The vector from `a` to `b`.
pub open spec fn offset(a: Vertex, b: Vertex) -> (int, int, int) {
    (b.x - a.x, b.y - a.y, b.z - a.z)
}

/// The normal of the face `v0`, `v1`, `v2`, not normalized: the cross
/// product of the edge to `v2` and the edge to `v1`. Its direction follows
/// the winding of the face.
pub open spec fn face_normal(v0: Vertex, v1: Vertex, v2: Vertex) -> (int, int, int) {
    cross(offset(v0, v2), offset(v0, v1))
}

/// Whether `r` is the square root of `n`, rounded down.
pub open spec fn is_sqrt(n: int, r: int) -> bool {
    0 <= r && r * r <= n < (r + 1) * (r + 1)
}

/// The square root of `n`, rounded down.
pub open spec fn sqrt(n: int) -> int {
    choose|r: int| is_sqrt(n, r)
}

/// A number has one rounded-down square root.
pub proof fn lemma_sqrt_unique(n: int, r: int)
    requires
        is_sqrt(n, r),
    ensures
        sqrt(n) == r,
{
    let s = sqrt(n);
    assert(is_sqrt(n, s));
    if s < r {
        assert((s + 1) * (s + 1) <= r * r) by (nonlinear_arith)
            requires
                0 <= s < r,
        ;
    }
    if r < s {
        assert((r + 1) * (r + 1) <= s * s) by (nonlinear_arith)
            requires
                0 <= r < s,
        ;
    }
}

/// The fixed-point light intensity of a face: the dot product of its unit
/// normal with the direction `light`, rounded toward zero. With `n` the
/// face normal its magnitude is the root of `(n . light)^2 / (n . n)` and
/// its sign that of `n . light`. A face without area has intensity zero.
pub open spec fn intensity_of(v0: Vertex, v1: Vertex, v2: Vertex, light: Vertex) -> int {
    let n = face_normal(v0, v1, v2);
    let d = dot(n, (light.x as int, light.y as int, light.z as int));
    let nn = dot(n, n);
    if nn == 0 {
        0
    } else if d >= 0 {
        sqrt((d * d) / nn)
    } else {
        -sqrt((d * d) / nn)
    }
}

/// A face whose normal points against the light, or across it, is never
/// lit: its intensity is zero or less.
pub proof fn lemma_unlit_when_facing_away(v0: Vertex, v1: Vertex, v2: Vertex, light: Vertex)
    requires
        dot(face_normal(v0, v1, v2), (light.x as int, light.y as int, light.z as int)) <= 0,
    ensures
        intensity_of(v0, v1, v2, light) <= 0,
{
    let n = face_normal(v0, v1, v2);
    let d = dot(n, (light.x as int, light.y as int, light.z as int));
    let nn = dot(n, n);
    if nn != 0 {
        assert(nn > 0) by (nonlinear_arith)
            requires
                nn == n.0 * n.0 + n.1 * n.1 + n.2 * n.2,
                nn != 0,
        ;
        assert((d * d) / nn >= 0) by (nonlinear_arith)
            requires
                nn > 0,
        ;
        lemma_sqrt_exists((d * d) / nn);
        if d == 0 {
            assert((d * d) / nn == 0) by (nonlinear_arith)
                requires
                    d == 0,
                    nn > 0,
            ;
            assert(is_sqrt(0, 0));
            lemma_sqrt_unique(0, 0);
        }
    }
}

proof fn lemma_square_of_product(a: int, b: int)
    by (nonlinear_arith)
    ensures
        (a * a) * (b * b) == (a * b) * (a * b),
{
}

proof fn lemma_swap_factors(a: int, b: int, c: int, d: int)
    by (nonlinear_arith)
    ensures
        (a * b) * (c * d) == (a * d) * (c * b),
{
}

proof fn lemma_square_of_difference(p: int, q: int)
    by (nonlinear_arith)
    ensures
        (p - q) * (p - q) == p * p - 2 * (p * q) + q * q,
        (p - q) * (p - q) >= 0,
{
}

proof fn lemma_square_of_sum(p: int, q: int, r: int)
    by (nonlinear_arith)
    ensures
        (p + q + r) * (p + q + r) == p * p + q * q + r * r + 2 * (p * q) + 2 * (p * r) + 2 * (q
            * r),
{
}

proof fn lemma_product_of_sums(a: int, b: int, c: int, x: int, y: int, z: int)
    by (nonlinear_arith)
    ensures
        (a + b + c) * (x + y + z) == a * x + a * y + a * z + b * x + b * y + b * z + c * x + c * y
            + c * z,
{
}

/// The square of a dot product is at most the product of the squared
/// lengths of its factors.
pub proof fn lemma_dot_bounded_by_lengths(a: (int, int, int), b: (int, int, int))
    ensures
        dot(a, b) * dot(a, b) <= dot(a, a) * dot(b, b),
{
    // The difference of the two sides is the squared length of the cross
    // product, written out over the nine products of one component of `a`
    // with one of `b`.
    lemma_product_of_sums(a.0 * a.0, a.1 * a.1, a.2 * a.2, b.0 * b.0, b.1 * b.1, b.2 * b.2);
    lemma_square_of_product(a.0, b.0);
    lemma_square_of_product(a.0, b.1);
    lemma_square_of_product(a.0, b.2);
    lemma_square_of_product(a.1, b.0);
    lemma_square_of_product(a.1, b.1);
    lemma_square_of_product(a.1, b.2);
    lemma_square_of_product(a.2, b.0);
    lemma_square_of_product(a.2, b.1);
    lemma_square_of_product(a.2, b.2);
    lemma_square_of_sum(a.0 * b.0, a.1 * b.1, a.2 * b.2);
    lemma_swap_factors(a.0, b.0, a.1, b.1);
    lemma_swap_factors(a.0, b.0, a.2, b.2);
    lemma_swap_factors(a.1, b.1, a.2, b.2);
    lemma_square_of_difference(a.0 * b.1, a.1 * b.0);
    lemma_square_of_difference(a.0 * b.2, a.2 * b.0);
    lemma_square_of_difference(a.1 * b.2, a.2 * b.1);
}

/// Under a light direction of at most unit length the intensity of a face
/// lies between `-ONE` and `ONE`.
pub proof fn lemma_intensity_at_most_one(v0: Vertex, v1: Vertex, v2: Vertex, light: Vertex)
    requires
        dot(
            (light.x as int, light.y as int, light.z as int),
            (light.x as int, light.y as int, light.z as int),
        ) <= ONE * ONE,
    ensures
        -ONE <= intensity_of(v0, v1, v2, light) <= ONE,
{
    let n = face_normal(v0, v1, v2);
    let l = (light.x as int, light.y as int, light.z as int);
    let d = dot(n, l);
    let nn = dot(n, n);
    if nn != 0 {
        assert(nn > 0) by (nonlinear_arith)
            requires
                nn == n.0 * n.0 + n.1 * n.1 + n.2 * n.2,
                nn != 0,
        ;
        lemma_dot_bounded_by_lengths(n, l);
        let q = (d * d) / nn;
        assert(0 <= q <= ONE * ONE) by (nonlinear_arith)
            requires
                q == (d * d) / nn,
                nn > 0,
                d * d <= nn * dot(l, l),
                dot(l, l) <= ONE * ONE,
        ;
        lemma_sqrt_exists(q);
        let r = sqrt(q);
        if r > ONE {
            assert(r * r > ONE * ONE) by (nonlinear_arith)
                requires
                    r > ONE,
                    ONE > 0,
            ;
        }
    }
}

/// Every non-negative number has a rounded-down square root.
pub proof fn lemma_sqrt_exists(n: int)
    requires
        n >= 0,
    ensures
        is_sqrt(n, sqrt(n)),
    decreases n,
{
    {
        if n == 0 {
            assert(is_sqrt(0, 0));
        } else {
            lemma_sqrt_exists(n - 1);
            let r = sqrt(n - 1);
            if (r + 1) * (r + 1) <= n {
                assert((r + 1) * (r + 1) == n) by (nonlinear_arith)
                    requires
                        (r + 1) * (r + 1) <= n,
                        n - 1 < (r + 1) * (r + 1),
                ;
                assert(n < (r + 2) * (r + 2)) by (nonlinear_arith)
                    requires
                        (r + 1) * (r + 1) == n,
                        r >= 0,
                ;
                assert(is_sqrt(n, r + 1));
            } else {
                assert(is_sqrt(n, r));
            }
        }
    }
}

/// Computes the square root of `n`, rounded down.
pub fn integer_sqrt(n: u128) -> (r: u64)
    ensures
        is_sqrt(n as int, r as int),
        r == sqrt(n as int),
{
    // The root lies in [lo, hi): lo * lo <= n < hi * hi.
    let mut lo: u128 = 0;
    let mut hi: u128 = 0x1_0000_0000_0000_0000;
    assert(0x1_0000_0000_0000_0000int * 0x1_0000_0000_0000_0000int
        == 0x1_0000_0000_0000_0000_0000_0000_0000_0000) by (nonlinear_arith);
    while hi - lo > 1
        invariant
            0 <= lo < hi <= 0x1_0000_0000_0000_0000,
            lo * lo <= n < hi * hi,
        decreases hi - lo,
    {
        let mid: u128 = lo + (hi - lo) / 2;
        assert(mid * mid <= 0xffff_ffff_ffff_ffff * 0xffff_ffff_ffff_ffff) by (nonlinear_arith)
            requires
                0 <= mid <= 0xffff_ffff_ffff_ffff,
        ;
        assert(0xffff_ffff_ffff_ffffint * 0xffff_ffff_ffff_ffffint
            == 0xffff_ffff_ffff_fffe_0000_0000_0000_0001) by (nonlinear_arith);
        if mid * mid <= n {
            lo = mid;
        } else {
            hi = mid;
        }
    }
    proof {
        assert(hi == lo + 1);
        lemma_sqrt_unique(n as int, lo as int);
    }
    lo as u64
}

/// Computes the light intensity of the face `v0`, `v1`, `v2` under the
/// directional light `light`, all within [`MODEL_LIMIT`]. For a unit light
/// direction the result lies between `-ONE` and `ONE`; faces with a result
/// of zero or less are not lit.
pub fn intensity(v0: &Vertex, v1: &Vertex, v2: &Vertex, light: &Vertex) -> (i: i64)
    requires
        in_model_range(*v0),
        in_model_range(*v1),
        in_model_range(*v2),
        in_model_range(*light),
    ensures
        i == intensity_of(*v0, *v1, *v2, *light),
{
    let ax: i64 = v2.x as i64 - v0.x as i64;
    let ay: i64 = v2.y as i64 - v0.y as i64;
    let az: i64 = v2.z as i64 - v0.z as i64;
    let bx: i64 = v1.x as i64 - v0.x as i64;
    let by: i64 = v1.y as i64 - v0.y as i64;
    let bz: i64 = v1.z as i64 - v0.z as i64;
    proof {
        let m = 0x10_0000int;
        assert(m * m == 0x100_0000_0000) by (nonlinear_arith)
            requires
                m == 0x10_0000,
        ;
        lemma_product_bound(ay as int, bz as int, m, m);
        lemma_product_bound(az as int, by as int, m, m);
        lemma_product_bound(az as int, bx as int, m, m);
        lemma_product_bound(ax as int, bz as int, m, m);
        lemma_product_bound(ax as int, by as int, m, m);
        lemma_product_bound(ay as int, bx as int, m, m);
    }
    let nx: i64 = ay * bz - az * by;
    let ny: i64 = az * bx - ax * bz;
    let nz: i64 = ax * by - ay * bx;
    proof {
        let c = 0x200_0000_0000int;
        let l = 0x8_0000int;
        assert(c * l == 0x1000_0000_0000_0000) by (nonlinear_arith)
            requires
                c == 0x200_0000_0000,
                l == 0x8_0000,
        ;
        assert(c * c == 0x4_0000_0000_0000_0000_0000) by (nonlinear_arith)
            requires
                c == 0x200_0000_0000,
        ;
        lemma_product_bound(nx as int, light.x as int, c, l);
        lemma_product_bound(ny as int, light.y as int, c, l);
        lemma_product_bound(nz as int, light.z as int, c, l);
        lemma_product_bound(nx as int, nx as int, c, c);
        lemma_product_bound(ny as int, ny as int, c, c);
        lemma_product_bound(nz as int, nz as int, c, c);
        assert(nx * nx >= 0 && ny * ny >= 0 && nz * nz >= 0) by (nonlinear_arith);
    }
    let d: i64 = nx * (light.x as i64) + ny * (light.y as i64) + nz * (light.z as i64);
    let nn: u128 = (nx as i128 * nx as i128 + ny as i128 * ny as i128 + nz as i128 * nz as i128)
        as u128;
    if nn == 0 {
        return 0;
    }
    let magnitude: u128 = if d < 0 {
        (-(d as i128)) as u128
    } else {
        d as u128
    };
    proof {
        let e = 0x3000_0000_0000_0000int;
        lemma_product_bound(magnitude as int, magnitude as int, e, e);
        assert(e * e == 0x900_0000_0000_0000_0000_0000_0000_0000) by (nonlinear_arith)
            requires
                e == 0x3000_0000_0000_0000,
        ;
        assert(magnitude * magnitude == d * d) by (nonlinear_arith)
            requires
                magnitude == d || magnitude == -d,
        ;
        assert(magnitude * magnitude >= 0) by (nonlinear_arith);
    }
    let square: u128 = magnitude * magnitude;
    let root: u64 = integer_sqrt(square / nn);
    proof {
        // The root of a quotient of a square is at most the number squared.
        let q = (square / nn) as int;
        assert(q <= square) by (nonlinear_arith)
            requires
                q == square as int / nn as int,
                nn >= 1,
                square >= 0,
        ;
        if root as int > magnitude as int {
            assert(root * root > magnitude * magnitude) by (nonlinear_arith)
                requires
                    root > magnitude,
                    magnitude >= 0,
            ;
        }
    }
    if d < 0 {
        -(root as i64)
    } else {
        root as i64
    }
}

} // verus!
