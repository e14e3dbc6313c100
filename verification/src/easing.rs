//! Fixed-point easing curves.
//!
//! Animation progress is measured in millionths: a progress of
//! [`PROGRESS_SCALE`] means 1.0, i.e. a finished animation. Working in
//! integer millionths keeps every curve a pure function on integers, so the
//! shape of each curve (bounds, endpoints, monotonicity) can be stated and
//! proved exactly.
//!
//! Reference shapes, with `t` ranging over `[0, 1]`:
//! - `ease_out_cubic(t) = 1 - (1 - t)^3`
//! - `ease_in_cubic(t) = t^3`
//! - `ease_out_back(t) = 1 + c3 * (t - 1)^3 + c1 * (t - 1)^2`
//!   with `c1 = 1.70158` and `c3 = c1 + 1`; this one intentionally
//!   overshoots 1.0 in the middle and returns to exactly 1.0 at the end.

use vstd::arithmetic::div_mod::{
    lemma_div_is_ordered, lemma_div_pos_is_pos, lemma_fundamental_div_mod_converse,
};
use vstd::prelude::*;

verus! {

/// One whole unit of animation progress, in millionths.
pub const PROGRESS_SCALE: i64 = 1_000_000;

/// The `c1` constant of the ease-out-back curve, in millionths (1.70158).
pub const BACK_C1: i64 = 1_701_580;

/// The `c3` constant of the ease-out-back curve, in millionths (`c1 + 1`).
pub const BACK_C3: i64 = 2_701_580;

/// `1 - (1 - t)^3`, in millionths.
pub open spec fn spec_ease_out_cubic(t: int) -> int {
    PROGRESS_SCALE - (PROGRESS_SCALE - t) * (PROGRESS_SCALE - t) * (PROGRESS_SCALE - t)
        / (PROGRESS_SCALE * PROGRESS_SCALE)
}

/// `t^3`, in millionths.
pub open spec fn spec_ease_in_cubic(t: int) -> int {
    t * t * t / (PROGRESS_SCALE * PROGRESS_SCALE)
}

/// `1 + c3 * (t - 1)^3 + c1 * (t - 1)^2`, in millionths, written with
/// `u = 1 - t` so that both fraction terms are non-negative.
pub open spec fn spec_ease_out_back(t: int) -> int {
    PROGRESS_SCALE + BACK_C1 * (PROGRESS_SCALE - t) * (PROGRESS_SCALE - t)
        / (PROGRESS_SCALE * PROGRESS_SCALE) - BACK_C3 * (PROGRESS_SCALE - t)
        * (PROGRESS_SCALE - t) * (PROGRESS_SCALE - t)
        / (PROGRESS_SCALE * PROGRESS_SCALE * PROGRESS_SCALE)
}

/// Ease-out cubic: fast start, slow end, never exceeds one whole unit.
pub fn ease_out_cubic(t: i64) -> (r: i64)
    requires
        0 <= t <= PROGRESS_SCALE,
    ensures
        r == spec_ease_out_cubic(t as int),
        0 <= r <= PROGRESS_SCALE,
        t == 0 ==> r == 0,
        t == PROGRESS_SCALE ==> r == PROGRESS_SCALE,
{
    let u: u64 = (PROGRESS_SCALE - t) as u64;
    proof {
        lemma_cube_bound(u as int);
        lemma_div_in_unit(u as int * u as int * u as int);
    }
    let cube: u64 = u * u * u;
    let d: u64 = cube / ((PROGRESS_SCALE * PROGRESS_SCALE) as u64);
    PROGRESS_SCALE - d as i64
}

/// Ease-in cubic: slow start, fast end, never exceeds one whole unit.
pub fn ease_in_cubic(t: i64) -> (r: i64)
    requires
        0 <= t <= PROGRESS_SCALE,
    ensures
        r == spec_ease_in_cubic(t as int),
        0 <= r <= PROGRESS_SCALE,
        t == 0 ==> r == 0,
        t == PROGRESS_SCALE ==> r == PROGRESS_SCALE,
{
    let u: u64 = t as u64;
    proof {
        lemma_cube_bound(u as int);
        lemma_div_in_unit(u as int * u as int * u as int);
    }
    let cube: u64 = u * u * u;
    let d: u64 = cube / ((PROGRESS_SCALE * PROGRESS_SCALE) as u64);
    d as i64
}

/// Ease-out back: starts at exactly 0, ends at exactly one whole unit, and
/// overshoots the unit in between (the bounce).
pub fn ease_out_back(t: i64) -> (r: i64)
    requires
        0 <= t <= PROGRESS_SCALE,
    ensures
        r == spec_ease_out_back(t as int),
        t == 0 ==> r == 0,
        t == PROGRESS_SCALE ==> r == PROGRESS_SCALE,
{
    let u: u64 = (PROGRESS_SCALE - t) as u64;
    proof {
        lemma_back_terms(u as int);
    }
    let sq_term: u64 = (BACK_C1 as u64) * u * u / ((PROGRESS_SCALE * PROGRESS_SCALE) as u64);
    let cube_128: u128 = (BACK_C3 as u128) * (u as u128) * (u as u128) * (u as u128);
    let unit_128: u128 = (PROGRESS_SCALE as u128) * (PROGRESS_SCALE as u128)
        * (PROGRESS_SCALE as u128);
    let cube_term: u128 = cube_128 / unit_128;
    PROGRESS_SCALE + sq_term as i64 - cube_term as i64
}

/// The square term of the back curve stays below `c1` and the cube term
/// below `c3`, so the curve's value fits comfortably in 64 bits.
proof fn lemma_back_terms(u: int)
    requires
        0 <= u <= PROGRESS_SCALE,
    ensures
        0 <= BACK_C1 * u <= BACK_C1 * PROGRESS_SCALE,
        0 <= BACK_C1 * u * u <= BACK_C1 * PROGRESS_SCALE * PROGRESS_SCALE,
        0 <= BACK_C1 * u * u / (PROGRESS_SCALE * PROGRESS_SCALE) <= BACK_C1,
        0 <= BACK_C3 * u <= BACK_C3 * PROGRESS_SCALE,
        0 <= BACK_C3 * u * u <= BACK_C3 * PROGRESS_SCALE * PROGRESS_SCALE,
        0 <= BACK_C3 * u * u * u <= BACK_C3 * PROGRESS_SCALE * PROGRESS_SCALE * PROGRESS_SCALE,
        0 <= BACK_C3 * u * u * u / (PROGRESS_SCALE * PROGRESS_SCALE * PROGRESS_SCALE) <= BACK_C3,
        u == 0 ==> BACK_C1 * u * u / (PROGRESS_SCALE * PROGRESS_SCALE) == 0
            && BACK_C3 * u * u * u / (PROGRESS_SCALE * PROGRESS_SCALE * PROGRESS_SCALE) == 0,
        u == PROGRESS_SCALE ==> BACK_C1 * u * u / (PROGRESS_SCALE * PROGRESS_SCALE) == BACK_C1
            && BACK_C3 * u * u * u / (PROGRESS_SCALE * PROGRESS_SCALE * PROGRESS_SCALE)
                == BACK_C3,
{
    assert(0 <= BACK_C1 * u <= BACK_C1 * PROGRESS_SCALE && 0 <= BACK_C1 * u * u <= BACK_C1
        * PROGRESS_SCALE * PROGRESS_SCALE) by (nonlinear_arith)
        requires
            0 <= u <= PROGRESS_SCALE,
            BACK_C1 == 1_701_580,
    ;
    assert(0 <= BACK_C3 * u <= BACK_C3 * PROGRESS_SCALE && 0 <= BACK_C3 * u * u <= BACK_C3
        * PROGRESS_SCALE * PROGRESS_SCALE && 0 <= BACK_C3 * u * u * u <= BACK_C3 * PROGRESS_SCALE
        * PROGRESS_SCALE * PROGRESS_SCALE) by (nonlinear_arith)
        requires
            0 <= u <= PROGRESS_SCALE,
            BACK_C3 == 2_701_580,
    ;
    assert(BACK_C1 * PROGRESS_SCALE * PROGRESS_SCALE / (PROGRESS_SCALE * PROGRESS_SCALE)
        == BACK_C1) by (nonlinear_arith)
        requires
            BACK_C1 == 1_701_580,
            PROGRESS_SCALE == 1_000_000,
    ;
    assert(BACK_C3 * PROGRESS_SCALE * PROGRESS_SCALE * PROGRESS_SCALE / (PROGRESS_SCALE
        * PROGRESS_SCALE * PROGRESS_SCALE) == BACK_C3) by (nonlinear_arith)
        requires
            BACK_C3 == 2_701_580,
            PROGRESS_SCALE == 1_000_000,
    ;
    lemma_div_is_ordered(
        BACK_C1 * u * u,
        BACK_C1 * PROGRESS_SCALE * PROGRESS_SCALE,
        PROGRESS_SCALE * PROGRESS_SCALE,
    );
    lemma_div_is_ordered(
        BACK_C3 * u * u * u,
        BACK_C3 * PROGRESS_SCALE * PROGRESS_SCALE * PROGRESS_SCALE,
        PROGRESS_SCALE * PROGRESS_SCALE * PROGRESS_SCALE,
    );
    lemma_div_pos_is_pos(BACK_C1 * u * u, PROGRESS_SCALE * PROGRESS_SCALE);
    lemma_div_pos_is_pos(BACK_C3 * u * u * u, PROGRESS_SCALE * PROGRESS_SCALE * PROGRESS_SCALE);
}

/// A cube of a value in `[0, PROGRESS_SCALE]` stays within
/// `[0, PROGRESS_SCALE^3]`.
proof fn lemma_cube_bound(u: int)
    requires
        0 <= u <= PROGRESS_SCALE,
    ensures
        0 <= u * u <= PROGRESS_SCALE * PROGRESS_SCALE,
        0 <= u * u * u <= PROGRESS_SCALE * PROGRESS_SCALE * PROGRESS_SCALE,
        u == PROGRESS_SCALE ==> u * u * u == PROGRESS_SCALE * PROGRESS_SCALE * PROGRESS_SCALE,
        u == 0 ==> u * u * u == 0,
{
    assert(0 <= u * u <= PROGRESS_SCALE * PROGRESS_SCALE && 0 <= u * u * u <= PROGRESS_SCALE
        * PROGRESS_SCALE * PROGRESS_SCALE && (u == 0 ==> u * u * u == 0)) by (nonlinear_arith)
        requires
            0 <= u <= PROGRESS_SCALE,
    ;
}

/// Dividing a cube bounded by `PROGRESS_SCALE^3` by `PROGRESS_SCALE^2`
/// lands in `[0, PROGRESS_SCALE]`, exactly at the ends.
proof fn lemma_div_in_unit(cube: int)
    requires
        0 <= cube <= PROGRESS_SCALE * PROGRESS_SCALE * PROGRESS_SCALE,
    ensures
        0 <= cube / (PROGRESS_SCALE * PROGRESS_SCALE) <= PROGRESS_SCALE,
        cube == 0 ==> cube / (PROGRESS_SCALE * PROGRESS_SCALE) == 0,
        cube == PROGRESS_SCALE * PROGRESS_SCALE * PROGRESS_SCALE ==> cube / (PROGRESS_SCALE
            * PROGRESS_SCALE) == PROGRESS_SCALE,
{
    assert(PROGRESS_SCALE * PROGRESS_SCALE * PROGRESS_SCALE / (PROGRESS_SCALE * PROGRESS_SCALE)
        == PROGRESS_SCALE) by (nonlinear_arith)
        requires
            PROGRESS_SCALE == 1_000_000,
    ;
    lemma_div_is_ordered(
        cube,
        PROGRESS_SCALE * PROGRESS_SCALE * PROGRESS_SCALE,
        PROGRESS_SCALE * PROGRESS_SCALE,
    );
    lemma_div_pos_is_pos(cube, PROGRESS_SCALE * PROGRESS_SCALE);
}

/// The ease-out cubic curve is monotone: more elapsed time never lowers
/// the progress. Geometry driven by it never shrinks during a slide-in.
pub proof fn lemma_ease_out_cubic_monotone(t1: int, t2: int)
    requires
        0 <= t1 <= t2 <= PROGRESS_SCALE,
    ensures
        spec_ease_out_cubic(t1) <= spec_ease_out_cubic(t2),
{
    let u1 = PROGRESS_SCALE - t1;
    let u2 = PROGRESS_SCALE - t2;
    assert(u2 * u2 * u2 <= u1 * u1 * u1) by (nonlinear_arith)
        requires
            0 <= u2 <= u1,
    ;
    lemma_div_is_ordered(u2 * u2 * u2, u1 * u1 * u1, PROGRESS_SCALE * PROGRESS_SCALE);
}

/// The ease-in cubic curve is monotone: more elapsed time never lowers it,
/// so `1 - ease_in_cubic` never grows during a slide-out.
pub proof fn lemma_ease_in_cubic_monotone(t1: int, t2: int)
    requires
        0 <= t1 <= t2 <= PROGRESS_SCALE,
    ensures
        spec_ease_in_cubic(t1) <= spec_ease_in_cubic(t2),
{
    assert(t1 * t1 * t1 <= t2 * t2 * t2) by (nonlinear_arith)
        requires
            0 <= t1 <= t2,
    ;
    lemma_div_is_ordered(t1 * t1 * t1, t2 * t2 * t2, PROGRESS_SCALE * PROGRESS_SCALE);
}

/// Both cubic curves stay inside `[0, PROGRESS_SCALE]` and hit the ends
/// exactly: no overshoot in either direction.
pub proof fn lemma_cubic_in_unit(t: int)
    requires
        0 <= t <= PROGRESS_SCALE,
    ensures
        0 <= spec_ease_out_cubic(t) <= PROGRESS_SCALE,
        0 <= spec_ease_in_cubic(t) <= PROGRESS_SCALE,
        spec_ease_out_cubic(0) == 0,
        spec_ease_out_cubic(PROGRESS_SCALE as int) == PROGRESS_SCALE,
        spec_ease_in_cubic(0) == 0,
        spec_ease_in_cubic(PROGRESS_SCALE as int) == PROGRESS_SCALE,
{
    lemma_cube_bound(PROGRESS_SCALE - t);
    lemma_div_in_unit((PROGRESS_SCALE - t) * (PROGRESS_SCALE - t) * (PROGRESS_SCALE - t));
    lemma_cube_bound(t);
    lemma_div_in_unit(t * t * t);
    lemma_cube_bound(PROGRESS_SCALE as int);
    lemma_div_in_unit(PROGRESS_SCALE * PROGRESS_SCALE * PROGRESS_SCALE);
}

/// The bounce of the ease-out-back curve: it ends at exactly one whole
/// unit, but exceeds that unit somewhere in the middle of the slide-in.
pub proof fn lemma_ease_out_back_overshoots()
    ensures
        spec_ease_out_back(0) == 0,
        spec_ease_out_back(PROGRESS_SCALE as int) == PROGRESS_SCALE,
        spec_ease_out_back(700_000) > PROGRESS_SCALE,
{
    lemma_back_terms(0);
    lemma_back_terms(PROGRESS_SCALE as int);
    let u = 300_000 as int;
    assert(BACK_C1 * u * u == 153_142_200_000_000_000) by (nonlinear_arith)
        requires
            u == 300_000,
            BACK_C1 == 1_701_580,
    ;
    assert(BACK_C3 * u * u * u == 72_942_660_000_000_000_000_000) by (nonlinear_arith)
        requires
            u == 300_000,
            BACK_C3 == 2_701_580,
    ;
    assert(PROGRESS_SCALE * PROGRESS_SCALE == 1_000_000_000_000) by (nonlinear_arith)
        requires
            PROGRESS_SCALE == 1_000_000,
    ;
    assert(PROGRESS_SCALE * PROGRESS_SCALE * PROGRESS_SCALE == 1_000_000_000_000_000_000)
        by (nonlinear_arith)
        requires
            PROGRESS_SCALE == 1_000_000,
    ;
    lemma_fundamental_div_mod_converse(
        153_142_200_000_000_000,
        1_000_000_000_000,
        153_142,
        200_000_000_000,
    );
    lemma_fundamental_div_mod_converse(
        72_942_660_000_000_000_000_000,
        1_000_000_000_000_000_000,
        72_942,
        660_000_000_000_000_000,
    );
}

} // verus!
