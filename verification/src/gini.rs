use crate::table::MAX_ROWS;
use vstd::prelude::*;

verus! {

/// Upper bound on the denominator (and hence the numerator) of every score
/// the library produces: the cube of the row capacity.  Comparing two such
/// scores by cross-multiplication stays within `u128`.
pub const SCORE_BOUND: u128 = 0x1000_0000_0000_0000;

/// An exact rational number in `[0, 1]`, used for impurity scores.
///
/// Scores are kept as exact integer fractions instead of floating-point
/// values, so equality and ordering of scores are exact.
#[derive(Clone, Copy, Debug, PartialEq, Eq, Structural)]
pub struct Ratio {
    pub num: u128,
    pub den: u128,
}

impl Ratio {
    /// A valid score: a fraction in `[0, 1]` small enough to compare by
    /// cross-multiplication.
    pub open spec fn wf(&self) -> bool {
        0 < self.den <= SCORE_BOUND && self.num <= self.den
    }

    /// Exact rational order: `self < other` as fractions.
    pub open spec fn spec_lt(&self, other: &Ratio) -> bool {
        (self.num as int) * (other.den as int) < (other.num as int) * (self.den as int)
    }

    /// Exact rational equality: `self == other` as fractions.
    pub open spec fn spec_eq_value(&self, other: &Ratio) -> bool {
        (self.num as int) * (other.den as int) == (other.num as int) * (self.den as int)
    }

    /// Compares two scores exactly, by cross-multiplication.
    pub fn lt(&self, other: &Ratio) -> (r: bool)
        requires
            self.wf(),
            other.wf(),
        ensures
            r == self.spec_lt(other),
    {
        proof {
            lemma_mul_bound(self.num as int, other.den as int);
            lemma_mul_bound(other.num as int, self.den as int);
        }
        self.num * other.den < other.num * self.den
    }
}

/// The product of two values in `[0, SCORE_BOUND]` fits in a `u128`.
proof fn lemma_mul_bound(a: int, b: int)
    requires
        0 <= a <= SCORE_BOUND,
        0 <= b <= SCORE_BOUND,
    ensures
        0 <= a * b <= u128::MAX,
{
    assert(a * b <= SCORE_BOUND * SCORE_BOUND && a * b >= 0) by (nonlinear_arith)
        requires
            0 <= a <= SCORE_BOUND,
            0 <= b <= SCORE_BOUND,
    ;
}

/// Transitivity of the exact fraction order: from `a/b < c/d` and
/// `c/d <= e/f` (all denominators positive) follows `a/b < e/f`.
pub proof fn lemma_frac_lt_trans(a: int, b: int, c: int, d: int, e: int, f: int)
    requires
        b > 0,
        d > 0,
        f > 0,
        a * d < c * b,
        c * f <= e * d,
    ensures
        a * f < e * b,
{
    assert((a * d) * f < (c * b) * f) by (nonlinear_arith)
        requires
            f > 0,
            a * d < c * b,
    ;
    assert((c * f) * b <= (e * d) * b) by (nonlinear_arith)
        requires
            b > 0,
            c * f <= e * d,
    ;
    assert((a * d) * f == (a * f) * d && (c * b) * f == (c * f) * b && (e * d) * b == (e * b) * d)
        by (nonlinear_arith);
    assert((a * f) * d < (e * b) * d);
    assert(a * f < e * b) by (nonlinear_arith)
        requires
            d > 0,
            (a * f) * d < (e * b) * d,
    ;
}

/// Numerator of the Gini impurity of a partition holding `t` rows of the
/// one target class and `f` of the other.
///
/// With `n = t + f`, the impurity is `1 - (t/n)^2 - (f/n)^2`, written as
/// the exact fraction `(n^2 - t^2 - f^2) / n^2`; an empty partition has
/// impurity `0` by convention.
pub open spec fn gini_num(t: int, f: int) -> int {
    if t + f == 0 {
        0
    } else {
        (t + f) * (t + f) - t * t - f * f
    }
}

/// Denominator of the Gini impurity of a partition; see [`gini_num`].
pub open spec fn gini_den(t: int, f: int) -> int {
    if t + f == 0 {
        1
    } else {
        (t + f) * (t + f)
    }
}

/// The Gini impurity of a partition is a fraction in `[0, 1]`, and it is
/// exactly `0` whenever only a single target class is present.
pub proof fn lemma_gini_impurity_bounds(t: int, f: int)
    requires
        t >= 0,
        f >= 0,
    ensures
        gini_den(t, f) > 0,
        0 <= gini_num(t, f) <= gini_den(t, f),
        t == 0 || f == 0 ==> gini_num(t, f) == 0,
{
    assert((t + f) * (t + f) == t * t + 2 * (t * f) + f * f) by (nonlinear_arith);
    assert(t + f > 0 ==> (t + f) * (t + f) > 0) by (nonlinear_arith);
    assert(t * f >= 0) by (nonlinear_arith)
        requires
            t >= 0,
            f >= 0,
    ;
    assert(t * t >= 0 && f * f >= 0) by (nonlinear_arith);
}

/// For a partition split evenly between the two target classes, the Gini
/// impurity is exactly one half.
pub proof fn lemma_gini_even_split(t: int)
    requires
        t > 0,
    ensures
        gini_den(t, t) == 2 * gini_num(t, t),
{
    assert((t + t) * (t + t) - t * t - t * t == 2 * (t * t)) by (nonlinear_arith);
}

/// Numerator of the weighted child impurity of a binary split whose left
/// side holds `lt`/`lf` rows of the two target classes and whose right
/// side holds `rt`/`rf`.
///
/// With `nl`, `nr` the side totals and `n = nl + nr`, the score is
/// `(nl/n) * gini_left + (nr/n) * gini_right`; a side with zero rows
/// contributes no disorder.
pub open spec fn weighted_gini_num(lt: int, lf: int, rt: int, rf: int) -> int {
    let nl = lt + lf;
    let nr = rt + rf;
    if nl == 0 && nr == 0 {
        0
    } else if nl == 0 {
        gini_num(rt, rf)
    } else if nr == 0 {
        gini_num(lt, lf)
    } else {
        nr * gini_num(lt, lf) + nl * gini_num(rt, rf)
    }
}

/// Denominator of the weighted child impurity; see [`weighted_gini_num`].
pub open spec fn weighted_gini_den(lt: int, lf: int, rt: int, rf: int) -> int {
    let nl = lt + lf;
    let nr = rt + rf;
    if nl == 0 && nr == 0 {
        1
    } else if nl == 0 {
        gini_den(rt, rf)
    } else if nr == 0 {
        gini_den(lt, lf)
    } else {
        (nl + nr) * nl * nr
    }
}

/// The weighted child impurity is itself a fraction in `[0, 1]` whose
/// denominator stays within [`SCORE_BOUND`] for any partition within the
/// library's row capacity.
pub proof fn lemma_weighted_gini_bounds(lt: int, lf: int, rt: int, rf: int)
    requires
        lt >= 0,
        lf >= 0,
        rt >= 0,
        rf >= 0,
        lt + lf + rt + rf <= MAX_ROWS,
    ensures
        0 < weighted_gini_den(lt, lf, rt, rf) <= SCORE_BOUND,
        0 <= weighted_gini_num(lt, lf, rt, rf) <= weighted_gini_den(lt, lf, rt, rf),
{
    let nl = lt + lf;
    let nr = rt + rf;
    let n = nl + nr;
    lemma_gini_impurity_bounds(lt, lf);
    lemma_gini_impurity_bounds(rt, rf);
    if nl == 0 && nr == 0 {
    } else if nl == 0 {
        assert(gini_den(rt, rf) == n * n);
        assert(n * n <= SCORE_BOUND) by (nonlinear_arith)
            requires
                0 < n <= MAX_ROWS,
                MAX_ROWS * MAX_ROWS * MAX_ROWS <= SCORE_BOUND,
        ;
    } else if nr == 0 {
        assert(gini_den(lt, lf) == n * n);
        assert(n * n <= SCORE_BOUND) by (nonlinear_arith)
            requires
                0 < n <= MAX_ROWS,
                MAX_ROWS * MAX_ROWS * MAX_ROWS <= SCORE_BOUND,
        ;
    } else {
        assert(n * nl * nr <= SCORE_BOUND) by (nonlinear_arith)
            requires
                0 < nl,
                0 < nr,
                nl + nr == n,
                n <= MAX_ROWS,
                MAX_ROWS * MAX_ROWS * MAX_ROWS <= SCORE_BOUND,
        ;
        assert(n * nl * nr > 0) by (nonlinear_arith)
            requires
                0 < nl,
                0 < nr,
                nl + nr == n,
        ;
        assert(nr * gini_num(lt, lf) + nl * gini_num(rt, rf) >= 0) by (nonlinear_arith)
            requires
                nl > 0,
                nr > 0,
                gini_num(lt, lf) >= 0,
                gini_num(rt, rf) >= 0,
        ;
        assert(nr * gini_num(lt, lf) + nl * gini_num(rt, rf) <= n * nl * nr) by (nonlinear_arith)
            requires
                nl > 0,
                nr > 0,
                nl + nr == n,
                0 <= gini_num(lt, lf) <= gini_den(lt, lf),
                0 <= gini_num(rt, rf) <= gini_den(rt, rf),
                gini_den(lt, lf) == nl * nl,
                gini_den(rt, rf) == nr * nr,
        ;
    }
}

/// Computes the Gini impurity of a partition holding `count_true` rows
/// labelled true and `count_false` rows labelled false, as an exact
/// fraction.
pub fn gini_impurity(count_true: usize, count_false: usize) -> (r: Ratio)
    requires
        count_true + count_false <= MAX_ROWS,
    ensures
        r.num == gini_num(count_true as int, count_false as int),
        r.den == gini_den(count_true as int, count_false as int),
        r.wf(),
        count_true == 0 || count_false == 0 ==> r.num == 0,
    {
    proof {
        lemma_gini_impurity_bounds(count_true as int, count_false as int);
    }
    let t = count_true as u128;
    let f = count_false as u128;
    let n = t + f;
    if n == 0 {
        Ratio { num: 0, den: 1 }
    } else {
        proof {
            assert(gini_den(count_true as int, count_false as int) <= SCORE_BOUND) by (
            nonlinear_arith)
                requires
                    0 < count_true + count_false <= MAX_ROWS,
                    gini_den(count_true as int, count_false as int) == (count_true + count_false)
                        * (count_true + count_false),
                    MAX_ROWS * MAX_ROWS <= SCORE_BOUND,
            ;
        }
        Ratio { num: n * n - t * t - f * f, den: n * n }
    }
}

/// Computes the weighted child impurity of a binary split from its four
/// side-by-class row counts, as an exact fraction.
pub fn weighted_gini(lt: usize, lf: usize, rt: usize, rf: usize) -> (r: Ratio)
    requires
        lt + lf + rt + rf <= MAX_ROWS,
    ensures
        r.num == weighted_gini_num(lt as int, lf as int, rt as int, rf as int),
        r.den == weighted_gini_den(lt as int, lf as int, rt as int, rf as int),
        r.wf(),
{
    proof {
        lemma_weighted_gini_bounds(lt as int, lf as int, rt as int, rf as int);
    }
    let nl = lt as u128 + lf as u128;
    let nr = rt as u128 + rf as u128;
    if nl == 0 && nr == 0 {
        Ratio { num: 0, den: 1 }
    } else if nl == 0 {
        gini_impurity(rt, rf)
    } else if nr == 0 {
        gini_impurity(lt, lf)
    } else {
        let left = gini_impurity(lt, lf);
        let right = gini_impurity(rt, rf);
        proof {
            lemma_weighted_parts_fit(lt as int, lf as int, rt as int, rf as int);
        }
        Ratio { num: nr * left.num + nl * right.num, den: (nl + nr) * nl * nr }
    }
}

/// Helper bounds for assembling the weighted score without overflow.
proof fn lemma_weighted_parts_fit(lt: int, lf: int, rt: int, rf: int)
    requires
        lt >= 0,
        lf >= 0,
        rt >= 0,
        rf >= 0,
        lt + lf > 0,
        rt + rf > 0,
        lt + lf + rt + rf <= MAX_ROWS,
    ensures
        0 <= (rt + rf) * gini_num(lt, lf) <= u128::MAX,
        0 <= (lt + lf) * gini_num(rt, rf) <= u128::MAX,
        (rt + rf) * gini_num(lt, lf) + (lt + lf) * gini_num(rt, rf) <= u128::MAX,
        0 <= (lt + lf + rt + rf) * (lt + lf) <= u128::MAX,
        ((lt + lf + rt + rf) * (lt + lf)) * (rt + rf) <= u128::MAX,
        ((lt + lf + rt + rf) * (lt + lf)) * (rt + rf) == weighted_gini_den(lt, lf, rt, rf),
{
    lemma_weighted_gini_bounds(lt, lf, rt, rf);
    let nl = lt + lf;
    let nr = rt + rf;
    let n = nl + nr;
    lemma_gini_impurity_bounds(lt, lf);
    lemma_gini_impurity_bounds(rt, rf);
    assert(nr * gini_num(lt, lf) >= 0 && nl * gini_num(rt, rf) >= 0) by (nonlinear_arith)
        requires
            nl > 0,
            nr > 0,
            gini_num(lt, lf) >= 0,
            gini_num(rt, rf) >= 0,
    ;
    assert(n * nl <= SCORE_BOUND) by (nonlinear_arith)
        requires
            0 < nl <= n,
            n <= MAX_ROWS,
            MAX_ROWS * MAX_ROWS <= SCORE_BOUND,
    ;
    assert((n * nl) * nr == n * nl * nr);
}

} // verus!
