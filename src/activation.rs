//! The logistic activation in fixed point.
//!
//! Values are scaled by [`ONE`]: the integer `v` stands for the real `v / ONE`.
//! A pre-activation is the sum of products of two such values, so it carries the
//! scale `ONE * ONE`. The logistic curve `1 / (1 + e^-x)` is tabulated at every
//! quarter of a unit on `[0, 8]`, interpolated linearly between knots, held
//! flat beyond `8`, and mirrored through `sigmoid(-x) = 1 - sigmoid(x)`.
use vstd::prelude::*;

verus! {

/// The fixed-point unit: `ONE` stands for `1.0`.
pub const ONE: i64 = 10_000;

/// The scale of a pre-activation, `ONE * ONE`.
pub const ONE_SQUARED: i128 = 100_000_000;

/// Distance between two knots of the table, a quarter of a unit at scale `ONE * ONE`.
pub const KNOT_STEP: i128 = 25_000_000;

/// Index of the last knot; it lies at `x = 8`.
pub const LAST_KNOT: i128 = 32;

/// Where the table ends, `8.0` at scale `ONE * ONE`.
pub const CURVE_LIMIT: i128 = 800_000_000;

/// The logistic curve at `x = k / 4`, scaled by `ONE` and rounded to the nearest integer.
pub open spec fn knot(k: int) -> int {
    if k <= 0 {
        5000
    } else if k == 1 {
        5622
    } else if k == 2 {
        6225
    } else if k == 3 {
        6792
    } else if k == 4 {
        7311
    } else if k == 5 {
        7773
    } else if k == 6 {
        8176
    } else if k == 7 {
        8520
    } else if k == 8 {
        8808
    } else if k == 9 {
        9047
    } else if k == 10 {
        9241
    } else if k == 11 {
        9399
    } else if k == 12 {
        9526
    } else if k == 13 {
        9627
    } else if k == 14 {
        9707
    } else if k == 15 {
        9770
    } else if k == 16 {
        9820
    } else if k == 17 {
        9859
    } else if k == 18 {
        9890
    } else if k == 19 {
        9914
    } else if k == 20 {
        9933
    } else if k == 21 {
        9948
    } else if k == 22 {
        9959
    } else if k == 23 {
        9968
    } else if k == 24 {
        9975
    } else if k == 25 {
        9981
    } else if k == 26 {
        9985
    } else if k == 27 {
        9988
    } else if k == 28 {
        9991
    } else if k == 29 {
        9993
    } else if k == 30 {
        9994
    } else if k == 31 {
        9996
    } else {
        9997
    }
}

/// The right half of the curve, for a pre-activation `u >= 0` at scale `ONE * ONE`.
pub open spec fn half_curve(u: int) -> int {
    if u >= CURVE_LIMIT {
        knot(LAST_KNOT as int)
    } else {
        let k = u / KNOT_STEP as int;
        let r = u % KNOT_STEP as int;
        knot(k) + (knot(k + 1) - knot(k)) * r / KNOT_STEP as int
    }
}

/// The activation of a pre-activation `z` at scale `ONE * ONE`, as a value at scale `ONE`.
pub open spec fn sigmoid_spec(z: int) -> int {
    if z >= 0 {
        half_curve(z)
    } else {
        ONE - half_curve(-z)
    }
}

/// The knots rise from one half to just under one.
proof fn lemma_knots_rise(k: int)
    requires
        0 <= k < LAST_KNOT,
    ensures
        5000 <= knot(k) <= knot(k + 1) <= 9997,
{
}

/// The right half of the curve stays within the first and the last knot.
proof fn lemma_half_curve_bounds(u: int)
    requires
        u >= 0,
    ensures
        5000 <= half_curve(u) <= 9997,
{
    if u < CURVE_LIMIT {
        let k = u / KNOT_STEP as int;
        let r = u % KNOT_STEP as int;
        assert(0 <= k < LAST_KNOT);
        lemma_knots_rise(k);
        let d = knot(k + 1) - knot(k);
        assert(0 <= d * r <= d * KNOT_STEP) by (nonlinear_arith)
            requires
                0 <= d,
                0 <= r < KNOT_STEP,
        ;
        assert(0 <= d * r / KNOT_STEP as int <= d) by (nonlinear_arith)
            requires
                0 <= d,
                0 <= d * r <= d * KNOT_STEP,
        ;
    }
}

/// Every activation lies strictly between zero and one.
pub proof fn lemma_sigmoid_in_range(z: int)
    ensures
        0 < sigmoid_spec(z) < ONE,
{
    if z >= 0 {
        lemma_half_curve_bounds(z);
    } else {
        lemma_half_curve_bounds(-z);
    }
}

fn knot_at(k: i128) -> (r: i64)
    requires
        0 <= k <= LAST_KNOT,
    ensures
        r == knot(k as int),
{
    match k {
        0 => 5000,
        1 => 5622,
        2 => 6225,
        3 => 6792,
        4 => 7311,
        5 => 7773,
        6 => 8176,
        7 => 8520,
        8 => 8808,
        9 => 9047,
        10 => 9241,
        11 => 9399,
        12 => 9526,
        13 => 9627,
        14 => 9707,
        15 => 9770,
        16 => 9820,
        17 => 9859,
        18 => 9890,
        19 => 9914,
        20 => 9933,
        21 => 9948,
        22 => 9959,
        23 => 9968,
        24 => 9975,
        25 => 9981,
        26 => 9985,
        27 => 9988,
        28 => 9991,
        29 => 9993,
        30 => 9994,
        31 => 9996,
        _ => 9997,
    }
}

fn half_curve_below_limit(u: i128) -> (r: i64)
    requires
        0 <= u < CURVE_LIMIT,
    ensures
        r == half_curve(u as int),
{
    let k = u / KNOT_STEP;
    let rem = u % KNOT_STEP;
    let lo = knot_at(k);
    let hi = knot_at(k + 1);
    proof {
        lemma_knots_rise(k as int);
    }
    let d = (hi - lo) as i128;
    assert(0 <= d * rem <= d * KNOT_STEP) by (nonlinear_arith)
        requires
            0 <= d <= 10_000,
            0 <= rem < KNOT_STEP,
    ;
    let step = d * rem / KNOT_STEP;
    assert(0 <= step <= d) by (nonlinear_arith)
        requires
            0 <= d,
            0 <= d * rem <= d * KNOT_STEP,
            step == d * rem / (KNOT_STEP as int),
    ;
    lo + step as i64
}

/// The fixed-point logistic activation of a pre-activation at scale `ONE * ONE`.
pub fn sigmoid(z: i128) -> (r: i64)
    ensures
        r == sigmoid_spec(z as int),
        0 < r < ONE,
{
    proof {
        lemma_sigmoid_in_range(z as int);
    }
    if z >= CURVE_LIMIT {
        knot_at(LAST_KNOT)
    } else if z >= 0 {
        half_curve_below_limit(z)
    } else if z <= -CURVE_LIMIT {
        ONE - knot_at(LAST_KNOT)
    } else {
        ONE - half_curve_below_limit(-z)
    }
}

} // verus!
