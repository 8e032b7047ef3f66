//! Similarity scores as exact fractions.
//!
//! The score of a stored vector `e` against a query `q` is the square of
//! their cosine similarity, carrying the cosine's sign:
//! `sign(q.e) * (q.e)^2 / (|q|^2 * |e|^2)`. Squaring is monotone on each
//! sign, so ordering by this score is ordering by cosine similarity, and no
//! square root is needed. Where either vector is all zeros the cosine is
//! undefined and the score is zero.

use vstd::prelude::*;
use crate::vector::{dot, norm_sq, dot_product, lemma_cauchy_schwarz, lemma_norm_prefix_nonneg, MAX_DIMS};

verus! {

/// Largest magnitude of a score's numerator and denominator: 2^60.
pub const SCORE_LIMIT: i64 = 1152921504606846976;

/// A fraction `num / den` with a positive denominator.
#[derive(Clone, Copy, Debug)]
pub struct Score {
    pub num: i64,
    pub den: i64,
}

/// Numerator of the score of `e` against `q`.
pub open spec fn score_num(q: Seq<i8>, e: Seq<i8>) -> int {
    let s = dot(q, e);
    if norm_sq(q) == 0 || norm_sq(e) == 0 {
        0
    } else if s >= 0 {
        s * s
    } else {
        -(s * s)
    }
}

/// Denominator of the score of `e` against `q`.
pub open spec fn score_den(q: Seq<i8>, e: Seq<i8>) -> int {
    if norm_sq(q) == 0 || norm_sq(e) == 0 {
        1
    } else {
        norm_sq(q) * norm_sq(e)
    }
}

/// `n1 / d1 > n2 / d2` for positive denominators.
pub open spec fn frac_gt(n1: int, d1: int, n2: int, d2: int) -> bool {
    n1 * d2 > n2 * d1
}

/// `n1 / d1 == n2 / d2` for positive denominators.
pub open spec fn frac_eq(n1: int, d1: int, n2: int, d2: int) -> bool {
    n1 * d2 == n2 * d1
}

impl Score {
    /// The fraction is in range: a positive denominator, and both parts
    /// within `SCORE_LIMIT`.
    pub open spec fn wf(self) -> bool {
        &&& 0 < self.den <= SCORE_LIMIT
        &&& -SCORE_LIMIT <= self.num <= SCORE_LIMIT
    }

    /// `self` is strictly greater than `other` as a fraction.
    pub open spec fn gt_spec(self, other: Score) -> bool {
        frac_gt(self.num as int, self.den as int, other.num as int, other.den as int)
    }

    /// `self` and `other` are the same fraction.
    pub open spec fn same_spec(self, other: Score) -> bool {
        frac_eq(self.num as int, self.den as int, other.num as int, other.den as int)
    }

    /// `self` is the score of `e` against `q`.
    pub open spec fn is_score_of(self, q: Seq<i8>, e: Seq<i8>) -> bool {
        &&& self.num == score_num(q, e)
        &&& self.den == score_den(q, e)
    }

    /// Scores `e` against the query `q`.
    pub fn of(q: &Vec<i8>, e: &Vec<i8>) -> (r: Score)
        requires
            q.len() == e.len(),
            q.len() <= MAX_DIMS,
        ensures
            r.is_score_of(q@, e@),
            r.wf(),
    {
        let s: i64 = dot_product(q, e);
        let nq: i64 = dot_product(q, q);
        let ne: i64 = dot_product(e, e);
        proof {
            lemma_norm_prefix_nonneg(q@, q@.len() as int);
            lemma_norm_prefix_nonneg(e@, e@.len() as int);
        }
        if nq == 0 || ne == 0 {
            Score { num: 0, den: 1 }
        } else {
            assert(0 <= s * s <= 1152921504606846976) by (nonlinear_arith)
                requires
                    -1073725440 <= s <= 1073725440,
            ;
            assert(0 < nq * ne <= 1152921504606846976) by (nonlinear_arith)
                requires
                    0 < nq <= 1073725440,
                    0 < ne <= 1073725440,
            ;
            let sq: i64 = s * s;
            let num: i64 = if s >= 0 { sq } else { -sq };
            Score { num, den: nq * ne }
        }
    }

    /// Whether `self` is strictly greater than `other`.
    pub fn gt(&self, other: &Score) -> (r: bool)
        requires
            self.wf(),
            other.wf(),
        ensures
            r == self.gt_spec(*other),
    {
        let a: i128 = self.num as i128;
        let b: i128 = other.den as i128;
        let c: i128 = other.num as i128;
        let d: i128 = self.den as i128;
        assert(-1329227995784915872903807060280344576 <= a * b <= 1329227995784915872903807060280344576)
            by (nonlinear_arith)
            requires
                -1152921504606846976 <= a <= 1152921504606846976,
                0 < b <= 1152921504606846976,
        ;
        assert(-1329227995784915872903807060280344576 <= c * d <= 1329227995784915872903807060280344576)
            by (nonlinear_arith)
            requires
                -1152921504606846976 <= c <= 1152921504606846976,
                0 < d <= 1152921504606846976,
        ;
        a * b > c * d
    }

    /// Whether `self` and `other` are the same fraction.
    pub fn same(&self, other: &Score) -> (r: bool)
        requires
            self.wf(),
            other.wf(),
        ensures
            r == self.same_spec(*other),
    {
        let a: i128 = self.num as i128;
        let b: i128 = other.den as i128;
        let c: i128 = other.num as i128;
        let d: i128 = self.den as i128;
        assert(-1329227995784915872903807060280344576 <= a * b <= 1329227995784915872903807060280344576)
            by (nonlinear_arith)
            requires
                -1152921504606846976 <= a <= 1152921504606846976,
                0 < b <= 1152921504606846976,
        ;
        assert(-1329227995784915872903807060280344576 <= c * d <= 1329227995784915872903807060280344576)
            by (nonlinear_arith)
            requires
                -1152921504606846976 <= c <= 1152921504606846976,
                0 < d <= 1152921504606846976,
        ;
        a * b == c * d
    }
}

/// Fractions with positive denominators are ordered transitively: if the
/// first is greater than the second and the second at least the third, the
/// first is greater than the third.
pub proof fn lemma_frac_gt_ge(n1: int, d1: int, n2: int, d2: int, n3: int, d3: int)
    requires
        d1 > 0,
        d2 > 0,
        d3 > 0,
        frac_gt(n1, d1, n2, d2),
        !frac_gt(n3, d3, n2, d2),
    ensures
        frac_gt(n1, d1, n3, d3),
{
    assert(n1 * d2 * d3 > n2 * d1 * d3) by (nonlinear_arith)
        requires
            n1 * d2 > n2 * d1,
            d3 > 0,
    ;
    assert(n3 * d2 * d1 <= n2 * d3 * d1) by (nonlinear_arith)
        requires
            n3 * d2 <= n2 * d3,
            d1 > 0,
    ;
    assert(n2 * d1 * d3 == n2 * d3 * d1) by (nonlinear_arith);
    assert(n1 * d2 * d3 == (n1 * d3) * d2) by (nonlinear_arith);
    assert(n3 * d2 * d1 == (n3 * d1) * d2) by (nonlinear_arith);
    assert(n1 * d3 > n3 * d1) by (nonlinear_arith)
        requires
            (n1 * d3) * d2 > (n3 * d1) * d2,
            d2 > 0,
    ;
}

/// No vector is more similar to a query than the query itself: the score
/// of any `e` against `q` is at most the score of `q` against `q`.
pub proof fn lemma_self_similarity_maximal(q: Seq<i8>, e: Seq<i8>)
    requires
        q.len() == e.len(),
    ensures
        !frac_gt(score_num(q, e), score_den(q, e), score_num(q, q), score_den(q, q)),
{
    let n = q.len() as int;
    lemma_cauchy_schwarz(q, e, n);
    lemma_norm_prefix_nonneg(q, n);
    lemma_norm_prefix_nonneg(e, n);
    let s = dot(q, e);
    let nq = norm_sq(q);
    let ne = norm_sq(e);
    if nq != 0 {
        let k = nq * nq;
        assert(k >= 0) by (nonlinear_arith)
            requires
                k == nq * nq,
        ;
        assert(score_num(q, q) == k);
        assert(score_den(q, q) == k);
        let num = score_num(q, e);
        let den = score_den(q, e);
        assert(num <= den) by {
            assert(s * s >= 0) by (nonlinear_arith);
        }
        assert(num * k <= k * den) by (nonlinear_arith)
            requires
                num <= den,
                k >= 0,
        ;
    }
}

} // verus!
