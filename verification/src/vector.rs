//! Quantised embedding vectors and their inner product.
//!
//! An embedding is a sequence of signed 8-bit components. All arithmetic on
//! them is exact integer arithmetic.

use vstd::prelude::*;

verus! {

/// Largest number of components an embedding may have.
pub const MAX_DIMS: usize = 65535;

/// Inner product of the first `n` components of `a` and `b`.
pub open spec fn dot_prefix(a: Seq<i8>, b: Seq<i8>, n: int) -> int
    decreases n,
{
    if n <= 0 {
        0
    } else {
        dot_prefix(a, b, n - 1) + (a[n - 1] as int) * (b[n - 1] as int)
    }
}

/// Inner product of two vectors of the same dimension.
pub open spec fn dot(a: Seq<i8>, b: Seq<i8>) -> int {
    dot_prefix(a, b, a.len() as int)
}

/// Squared Euclidean length of a vector.
pub open spec fn norm_sq(a: Seq<i8>) -> int {
    dot(a, a)
}

/// Every partial inner product is bounded by 2^14 per component.
pub proof fn lemma_dot_prefix_bound(a: Seq<i8>, b: Seq<i8>, n: int)
    requires
        0 <= n <= a.len(),
        n <= b.len(),
    ensures
        -16384 * n <= dot_prefix(a, b, n) <= 16384 * n,
    decreases n,
{
    if n > 0 {
        lemma_dot_prefix_bound(a, b, n - 1);
        let x = a[n - 1] as int;
        let y = b[n - 1] as int;
        assert(-16384 <= x * y <= 16384) by (nonlinear_arith)
            requires
                -128 <= x <= 127,
                -128 <= y <= 127,
        ;
    }
}

/// A partial squared length is never negative.
pub proof fn lemma_norm_prefix_nonneg(a: Seq<i8>, n: int)
    requires
        0 <= n <= a.len(),
    ensures
        0 <= dot_prefix(a, a, n),
    decreases n,
{
    if n > 0 {
        lemma_norm_prefix_nonneg(a, n - 1);
        let x = a[n - 1] as int;
        assert(0 <= x * x) by (nonlinear_arith);
    }
}

proof fn lemma_cauchy_step(s: int, p: int, r: int, x: int, y: int)
    requires
        s * s <= p * r,
        p >= 0,
        r >= 0,
    ensures
        (s + x * y) * (s + x * y) <= (p + x * x) * (r + y * y),
{
    let u = p * (y * y);
    let v = r * (x * x);
    let t = s * (x * y);
    let w = (x * y) * (x * y);
    assert(w >= 0) by (nonlinear_arith)
        requires
            w == (x * y) * (x * y),
    ;
    assert(u >= 0) by (nonlinear_arith)
        requires
            u == p * (y * y),
            p >= 0,
    ;
    assert(v >= 0) by (nonlinear_arith)
        requires
            v == r * (x * x),
            r >= 0,
    ;
    assert(t * t == (s * s) * w) by (nonlinear_arith)
        requires
            t == s * (x * y),
            w == (x * y) * (x * y),
    ;
    assert(u * v == (p * r) * w) by (nonlinear_arith)
        requires
            u == p * (y * y),
            v == r * (x * x),
            w == (x * y) * (x * y),
    ;
    assert((s * s) * w <= (p * r) * w) by (nonlinear_arith)
        requires
            s * s <= p * r,
            w >= 0,
    ;
    assert((u + v) * (u + v) >= 4 * (u * v)) by (nonlinear_arith);
    assert((2 * t) * (2 * t) == 4 * (t * t)) by (nonlinear_arith);
    assert(2 * t <= u + v) by (nonlinear_arith)
        requires
            (u + v) * (u + v) >= (2 * t) * (2 * t),
            u + v >= 0,
    ;
    assert((s + x * y) * (s + x * y) == s * s + 2 * t + w) by (nonlinear_arith)
        requires
            t == s * (x * y),
            w == (x * y) * (x * y),
    ;
    assert((p + x * x) * (r + y * y) == p * r + u + v + w) by (nonlinear_arith)
        requires
            u == p * (y * y),
            v == r * (x * x),
            w == (x * y) * (x * y),
    ;
}

/// The squared inner product of two vectors is at most the product of
/// their squared lengths (Cauchy-Schwarz).
pub proof fn lemma_cauchy_schwarz(a: Seq<i8>, b: Seq<i8>, n: int)
    requires
        0 <= n <= a.len(),
        n <= b.len(),
    ensures
        dot_prefix(a, b, n) * dot_prefix(a, b, n) <= dot_prefix(a, a, n) * dot_prefix(b, b, n),
    decreases n,
{
    if n > 0 {
        lemma_cauchy_schwarz(a, b, n - 1);
        lemma_norm_prefix_nonneg(a, n - 1);
        lemma_norm_prefix_nonneg(b, n - 1);
        lemma_cauchy_step(
            dot_prefix(a, b, n - 1),
            dot_prefix(a, a, n - 1),
            dot_prefix(b, b, n - 1),
            a[n - 1] as int,
            b[n - 1] as int,
        );
    }
}

/// Computes the inner product of two vectors of the same dimension.
pub fn dot_product(a: &Vec<i8>, b: &Vec<i8>) -> (r: i64)
    requires
        a.len() == b.len(),
        a.len() <= MAX_DIMS,
    ensures
        r == dot(a@, b@),
        -1073725440 <= r <= 1073725440,
{
    let n: usize = a.len();
    let mut acc: i64 = 0;
    let mut i: usize = 0;
    while i < n
        invariant
            n == a.len(),
            n == b.len(),
            n <= MAX_DIMS,
            i <= n,
            acc == dot_prefix(a@, b@, i as int),
            -16384 * i <= acc <= 16384 * i,
        decreases n - i,
    {
        proof {
            lemma_dot_prefix_bound(a@, b@, i + 1);
        }
        let x: i64 = a[i] as i64;
        let y: i64 = b[i] as i64;
        assert(-16384 <= x * y <= 16384) by (nonlinear_arith)
            requires
                -128 <= x <= 127,
                -128 <= y <= 127,
        ;
        acc = acc + x * y;
        i = i + 1;
    }
    acc
}

} // verus!
