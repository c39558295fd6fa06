//! Arithmetic behind the Fenwick (binary indexed) tree that sums chunk
//! lengths in `HeightBlocks`: powers of two, the lowest set bit of an
//! index, and prefix sums.

use vstd::prelude::*;

verus! {

/// `x` is a power of two.
pub open spec fn is_pow2(x: int) -> bool
    decreases x,
{
    if x <= 0 {
        false
    } else if x == 1 {
        true
    } else {
        x % 2 == 0 && is_pow2(x / 2)
    }
}

/// The value of the lowest set bit of `i` (`i & -i`), or 0 for `i <= 0`.
pub open spec fn lowbit(i: int) -> int
    decreases i,
{
    if i <= 0 {
        0
    } else if i % 2 == 1 {
        1
    } else {
        2 * lowbit(i / 2)
    }
}

/// The smallest power of two greater than `x` (1 when `x < 1`).
pub open spec fn pow2_above(x: int) -> int
    decreases x,
{
    if x < 1 {
        1
    } else {
        2 * pow2_above(x / 2)
    }
}

/// Sum of the first `k` entries of `lens`.
pub open spec fn prefix_sum(lens: Seq<int>, k: int) -> int
    decreases k,
{
    if k <= 0 {
        0
    } else {
        prefix_sum(lens, k - 1) + lens[k - 1]
    }
}

pub proof fn lemma_pow2_double(x: int)
    requires
        is_pow2(x),
    ensures
        is_pow2(2 * x),
{
    assert((2 * x) / 2 == x);
}

pub proof fn lemma_pow2_half(x: int)
    requires
        is_pow2(x),
        x > 1,
    ensures
        x % 2 == 0,
        is_pow2(x / 2),
        x == 2 * (x / 2),
{
}

/// A power of two `b` at least `a` is `a` times a power of two.
pub proof fn lemma_pow2_div(a: int, b: int) -> (s: int)
    requires
        is_pow2(a),
        is_pow2(b),
        a <= b,
    ensures
        is_pow2(s),
        b == a * s,
        a < b ==> s >= 2 && s % 2 == 0,
    decreases a,
{
    if a == 1 {
        if b > 1 {
            lemma_pow2_half(b);
        }
        b
    } else {
        lemma_pow2_half(a);
        lemma_pow2_half(b);
        let s = lemma_pow2_div(a / 2, b / 2);
        assert(b == a * s) by (nonlinear_arith)
            requires
                b / 2 == (a / 2) * s,
                a == 2 * (a / 2),
                b == 2 * (b / 2),
        ;
        if a < b {
            if s == 1 {
                assert(b == a);
            }
            lemma_pow2_half(s);
        }
        s
    }
}

/// Two distinct powers of two are at least a factor of two apart.
pub proof fn lemma_pow2_lt(a: int, b: int)
    requires
        is_pow2(a),
        is_pow2(b),
        a < b,
    ensures
        2 * a <= b,
{
    let s = lemma_pow2_div(a, b);
    assert(2 * a <= a * s) by (nonlinear_arith)
        requires
            s >= 2,
            a >= 1,
    ;
}

pub proof fn lemma_pow2_mul(a: int, b: int)
    requires
        is_pow2(a),
        is_pow2(b),
    ensures
        is_pow2(a * b),
    decreases a,
{
    if a == 1 {
    } else {
        lemma_pow2_half(a);
        lemma_pow2_mul(a / 2, b);
        assert(a * b == 2 * ((a / 2) * b)) by (nonlinear_arith)
            requires
                a == 2 * (a / 2),
        ;
        lemma_pow2_double((a / 2) * b);
    }
}

/// Splits `i` into its lowest set bit times an odd factor.
pub proof fn lemma_lowbit_split(i: int) -> (m: int)
    requires
        i >= 1,
    ensures
        m >= 1,
        m % 2 == 1,
        i == lowbit(i) * m,
        is_pow2(lowbit(i)),
        1 <= lowbit(i) <= i,
    decreases i,
{
    if i % 2 == 1 {
        i
    } else {
        let m = lemma_lowbit_split(i / 2);
        lemma_pow2_double(lowbit(i / 2));
        assert(i == lowbit(i) * m) by (nonlinear_arith)
            requires
                i == 2 * (i / 2),
                i / 2 == lowbit(i / 2) * m,
                lowbit(i) == 2 * lowbit(i / 2),
        ;
        m
    }
}

/// The lowest set bit of a power of two times an odd number is that power.
pub proof fn lemma_lowbit_of_odd_multiple(t: int, m: int)
    requires
        is_pow2(t),
        m >= 1,
        m % 2 == 1,
    ensures
        lowbit(t * m) == t,
    decreases t,
{
    if t == 1 {
    } else {
        lemma_pow2_half(t);
        let h = t / 2;
        assert(t * m == 2 * (h * m)) by (nonlinear_arith)
            requires
                t == 2 * h,
        ;
        assert(h * m >= 1) by (nonlinear_arith)
            requires
                h >= 1,
                m >= 1,
        ;
        lemma_lowbit_of_odd_multiple(h, m);
        assert((t * m) / 2 == h * m);
    }
}

/// Scaling by a power of two scales the lowest set bit.
pub proof fn lemma_lowbit_scale(t: int, r: int)
    requires
        is_pow2(t),
        r >= 1,
    ensures
        lowbit(t * r) == t * lowbit(r),
{
    let m = lemma_lowbit_split(r);
    lemma_pow2_mul(t, lowbit(r));
    assert(t * r == (t * lowbit(r)) * m) by (nonlinear_arith)
        requires
            r == lowbit(r) * m,
    ;
    lemma_lowbit_of_odd_multiple(t * lowbit(r), m);
}

/// Stepping from a multiple of `2 * t` by the power of two `t` lands on an
/// index whose lowest set bit is `t`.
pub proof fn lemma_lowbit_step(c: int, q: int, t: int)
    requires
        is_pow2(t),
        q >= 0,
        c == q * (2 * t),
    ensures
        lowbit(c + t) == t,
        c + t == t * (2 * q + 1),
{
    assert(c + t == t * (2 * q + 1)) by (nonlinear_arith)
        requires
            c == q * (2 * t),
    ;
    lemma_lowbit_of_odd_multiple(t, 2 * q + 1);
}

/// The Fenwick parent `k + lowbit(k)` has a strictly larger lowest set bit.
pub proof fn lemma_lowbit_parent(k: int)
    requires
        k >= 1,
    ensures
        lowbit(k + lowbit(k)) >= 2 * lowbit(k),
        is_pow2(lowbit(k + lowbit(k))),
{
    let m = lemma_lowbit_split(k);
    let t = lowbit(k);
    let r = (m + 1) / 2;
    assert(k + t == (2 * t) * r) by (nonlinear_arith)
        requires
            k == t * m,
            m + 1 == 2 * r,
    ;
    lemma_pow2_double(t);
    lemma_lowbit_scale(2 * t, r);
    lemma_lowbit_split(r);
    assert((2 * t) * lowbit(r) >= 2 * t) by (nonlinear_arith)
        requires
            lowbit(r) >= 1,
            t >= 1,
    ;
    lemma_lowbit_split(k + t);
}

/// Taking a smaller power of two off `i` leaves an index whose lowest set bit
/// is that power: it is a Fenwick child of `i`.
pub proof fn lemma_lowbit_child(i: int, t: int)
    requires
        i >= 1,
        is_pow2(t),
        t < lowbit(i),
    ensures
        i - t >= 1,
        lowbit(i - t) == t,
        (i - t) + lowbit(i - t) == i,
{
    let m = lemma_lowbit_split(i);
    let s = lemma_pow2_div(t, lowbit(i));
    assert(i - t == t * (s * m - 1)) by (nonlinear_arith)
        requires
            i == lowbit(i) * m,
            lowbit(i) == t * s,
    ;
    assert(s * m >= 2) by (nonlinear_arith)
        requires
            s >= 2,
            m >= 1,
    ;
    lemma_pow2_half(s);
    assert(s * m == 2 * ((s / 2) * m)) by (nonlinear_arith)
        requires
            s == 2 * (s / 2),
    ;
    lemma_lowbit_of_odd_multiple(t, s * m - 1);
    assert(t * (s * m - 1) >= 1) by (nonlinear_arith)
        requires
            t >= 1,
            s * m - 1 >= 1,
    ;
}

/// `pow2_above(x)` is the power of two `p` with `p / 2 <= x < p`.
pub proof fn lemma_pow2_above(x: int)
    ensures
        is_pow2(pow2_above(x)),
        x < pow2_above(x),
        pow2_above(x) == 1 || pow2_above(x) / 2 <= x,
        pow2_above(x) == 1 <==> x < 1,
    decreases x,
{
    if x >= 1 {
        lemma_pow2_above(x / 2);
        lemma_pow2_double(pow2_above(x / 2));
        if pow2_above(x / 2) > 1 {
            lemma_pow2_half(pow2_above(x / 2));
        }
    }
}

/// Any power of two `p` with `p / 2 <= x < p` is `pow2_above(x)`.
pub proof fn lemma_pow2_above_unique(x: int, p: int)
    requires
        is_pow2(p),
        x < p,
        p == 1 || p / 2 <= x,
    ensures
        pow2_above(x) == p,
{
    lemma_pow2_above(x);
    let q = pow2_above(x);
    if q < p {
        lemma_pow2_lt(q, p);
    } else if p < q {
        lemma_pow2_lt(p, q);
    }
}

/// Moving `x` down by one changes `pow2_above` only when `x` is a power of
/// two, from `x` to `2 * x`.
pub proof fn lemma_pow2_above_step(x: int)
    ensures
        is_pow2(x) ==> pow2_above(x - 1) == x && pow2_above(x) == 2 * x,
        pow2_above(x - 1) != pow2_above(x) ==> is_pow2(x) && x >= 1,
{
    lemma_pow2_above(x);
    lemma_pow2_above(x - 1);
    if is_pow2(x) {
        lemma_pow2_above_unique(x - 1, x);
        lemma_pow2_double(x);
        lemma_pow2_above_unique(x, 2 * x);
    }
    if pow2_above(x - 1) != pow2_above(x) {
        let p = pow2_above(x - 1);
        if p > x {
            lemma_pow2_above_unique(x, p);
        }
    }
}

/// How far back from `i` the partial Fenwick sum at `i` reaches once every
/// index below `k` has been pushed into its parent: `i - lowbit(i)` before
/// any child has been folded in, `i - 1` after all of them.
pub open spec fn covered(i: int, k: int) -> int {
    let p = pow2_above(i - k);
    if lowbit(i) <= p {
        i - lowbit(i)
    } else {
        i - p
    }
}

pub proof fn lemma_covered_bounds(i: int, k: int)
    requires
        i >= 1,
    ensures
        i - lowbit(i) <= covered(i, k) <= i - 1,
        covered(i, 1) == i - lowbit(i),
        k > i ==> covered(i, k) == i - 1,
        covered(i, i) == i - 1,
{
    lemma_lowbit_split(i);
    lemma_pow2_above(i - k);
    lemma_pow2_above(i - 1);
    lemma_pow2_above(0);
}

/// Folding index `k` into its parent changes `covered` only at the parent.
pub proof fn lemma_covered_step(i: int, k: int)
    requires
        i >= 1,
        k >= 1,
    ensures
        i != k + lowbit(k) ==> covered(i, k + 1) == covered(i, k),
        i == k + lowbit(k) ==> covered(i, k) == k - lowbit(k) && covered(i, k + 1) == k,
{
    let x = i - k;
    lemma_pow2_above_step(x);
    lemma_lowbit_split(i);
    lemma_lowbit_split(k);
    assert(x - 1 == i - (k + 1));
    if i == k + lowbit(k) {
        lemma_lowbit_parent(k);
        lemma_pow2_double(lowbit(k));
    } else if pow2_above(x - 1) != pow2_above(x) {
        if x < lowbit(i) {
            lemma_lowbit_child(i, x);
        }
    }
}

pub proof fn lemma_prefix_sum_mono(lens: Seq<int>, a: int, b: int)
    requires
        0 <= a <= b <= lens.len(),
        forall|j: int| 0 <= j < lens.len() ==> lens[j] >= 0,
    ensures
        prefix_sum(lens, a) <= prefix_sum(lens, b),
    decreases b - a,
{
    if a < b {
        lemma_prefix_sum_mono(lens, a, b - 1);
    }
}

pub proof fn lemma_prefix_sum_strict(lens: Seq<int>, a: int, b: int)
    requires
        0 <= a < b <= lens.len(),
        forall|j: int| 0 <= j < lens.len() ==> lens[j] >= 1,
    ensures
        prefix_sum(lens, a) + (b - a) <= prefix_sum(lens, b),
    decreases b - a,
{
    if a < b - 1 {
        lemma_prefix_sum_strict(lens, a, b - 1);
    }
}

} // verus!
