//! The escape-time evaluator and the parallel grid computer.
//!
//! A point `c = (x0, y0)` of the complex plane is iterated through
//! `z <- z^2 + c` starting from `z = 0` until the squared magnitude of `z`
//! exceeds the bailout threshold or the iteration budget runs out. The
//! recurrence is carried out on the expanded real and imaginary parts in
//! fixed-point arithmetic (see `crate::fixed`).

use vstd::prelude::*;

use crate::config::{grid_ok, viewport_ok};
use crate::fixed::{fixed_square, fx_square, BAILOUT, COORD_LIMIT, SCALE, SQUARE_INPUT_LIMIT,
    SQUARE_LIMIT};
use rayon::iter::{IndexedParallelIterator, IntoParallelIterator, ParallelIterator};

verus! {

/// The per-pixel result: how many iterations ran before the point escaped
/// (`max_iterations` itself means the point never escaped), and the squared
/// magnitude of `z` when the iteration stopped, in fixed-point units. The
/// magnitude is meaningful only for escaped points.
#[derive(Clone, Copy, Debug, PartialEq, Eq, Structural)]
pub struct DataPoint {
    pub iteration: usize,
    pub value: i64,
}

/// One step of the expanded recurrence, starting from the squared parts
/// `x2 = re(z)^2`, `y2 = im(z)^2` and `w = (re(z) + im(z))^2`: the next
/// `re(z)` is `x2 - y2 + x0` and the next `im(z)` is `w - x2 - y2 + y0`
/// (that is, `2 * re(z) * im(z) + y0`).
pub open spec fn escape_state(
    x0: int,
    y0: int,
    x2: int,
    y2: int,
    w: int,
    i: nat,
    max: nat,
) -> (nat, int)
    decreases max - i,
{
    if i >= max || x2 + y2 > BAILOUT {
        (i, x2 + y2)
    } else {
        let x = x2 - y2 + x0;
        let y = w - x2 - y2 + y0;
        escape_state(x0, y0, fx_square(x), fx_square(y), fx_square(x + y), i + 1, max)
    }
}

/// How many iterations the point `(x0, y0)` needs to escape the bailout
/// radius, or `max` if it never does within the budget.
pub open spec fn escape_time(x0: int, y0: int, max: nat) -> nat {
    escape_state(x0, y0, 0, 0, 0, 0, max).0
}

/// The squared magnitude of `z` at the moment the iteration for `(x0, y0)`
/// stopped, in fixed-point units.
pub open spec fn escape_magnitude(x0: int, y0: int, max: nat) -> int {
    escape_state(x0, y0, 0, 0, 0, 0, max).1
}

/// The escape count never exceeds the iteration budget.
proof fn lemma_escape_state_bounded(x0: int, y0: int, x2: int, y2: int, w: int, i: nat, max: nat)
    requires
        i <= max,
    ensures
        i <= escape_state(x0, y0, x2, y2, w, i, max).0 <= max,
    decreases max - i,
{
    if i >= max || x2 + y2 > BAILOUT {
    } else {
        let x = x2 - y2 + x0;
        let y = w - x2 - y2 + y0;
        lemma_escape_state_bounded(x0, y0, fx_square(x), fx_square(y), fx_square(x + y), i + 1, max);
    }
}

/// Every pixel's iteration count lies between `0` and the iteration budget.
pub proof fn lemma_escape_time_bounded(x0: int, y0: int, max: nat)
    ensures
        0 <= escape_time(x0, y0, max) <= max,
{
    lemma_escape_state_bounded(x0, y0, 0, 0, 0, 0, max);
}

/// From the zero state the recurrence stays at zero: `z = 0` maps to
/// `z^2 + 0 = 0`.
proof fn lemma_origin_stays(i: nat, max: nat)
    requires
        i <= max,
    ensures
        escape_state(0, 0, 0, 0, 0, i, max) == (max, 0int),
    decreases max - i,
{
    if i < max {
        assert(fx_square(0) == 0) by {
            assert(0int * 0int == 0int);
        }
        lemma_origin_stays(i + 1, max);
    }
}

/// The origin lies in the set's interior: it never escapes, so its count is
/// exactly the iteration budget.
pub proof fn lemma_origin_never_escapes(max: nat)
    requires
        max > 0,
    ensures
        escape_time(0, 0, max) == max,
{
    lemma_origin_stays(0, max);
}

/// A point strictly outside the bailout radius on either axis escapes during
/// the very first iteration: the squared-magnitude check fires immediately.
pub proof fn lemma_far_point_escapes_first(x0: int, y0: int, max: nat)
    requires
        max >= 1,
        x0 > 2 * SCALE || x0 < -2 * SCALE || y0 > 2 * SCALE || y0 < -2 * SCALE,
    ensures
        escape_time(x0, y0, max) == 1,
{
    assert(fx_square(x0) + fx_square(y0) > BAILOUT) by {
        lemma_square_exceeds_bailout(x0, y0);
    }
    assert(escape_state(x0, y0, 0, 0, 0, 0, max) == escape_state(
        x0,
        y0,
        fx_square(x0),
        fx_square(y0),
        fx_square(x0 + y0),
        1,
        max,
    ));
}

/// If one coordinate has magnitude above `2`, the fixed-point squares of the
/// pair already sum past the bailout threshold.
proof fn lemma_square_exceeds_bailout(x0: int, y0: int)
    requires
        x0 > 2 * SCALE || x0 < -2 * SCALE || y0 > 2 * SCALE || y0 < -2 * SCALE,
    ensures
        fx_square(x0) + fx_square(y0) > BAILOUT,
{
    lemma_fx_square_nonneg(x0);
    lemma_fx_square_nonneg(y0);
    if x0 > 2 * SCALE || x0 < -2 * SCALE {
        lemma_big_square(x0);
    } else {
        lemma_big_square(y0);
    }
}

/// The fixed-point square of any coordinate is non-negative.
proof fn lemma_fx_square_nonneg(v: int)
    ensures
        fx_square(v) >= 0,
{
    assert(v * v >= 0) by (nonlinear_arith);
}

/// A coordinate of magnitude above `2` has a fixed-point square above the
/// bailout threshold.
proof fn lemma_big_square(v: int)
    requires
        v > 2 * SCALE || v < -2 * SCALE,
    ensures
        fx_square(v) > BAILOUT,
{
    let s = SCALE as int;
    let c = 2 * s + 1;
    assert(v * v >= c * c) by (nonlinear_arith)
        requires
            c == 2 * s + 1,
            s > 0,
            v > 2 * s || v < -(2 * s),
    ;
    assert(c * c == s * (4 * s + 4) + 1) by (nonlinear_arith)
        requires
            c == 2 * s + 1,
    ;
    vstd::arithmetic::div_mod::lemma_div_multiples_vanish_fancy(4 * s + 4, 1, s);
    vstd::arithmetic::div_mod::lemma_div_is_ordered(s * (4 * s + 4) + 1, v * v, s);
}

/// Evaluates the escape-time recurrence for one point of the complex plane,
/// given in fixed-point units, and returns the iteration count together with
/// the final squared magnitude.
pub fn run(x0: i64, y0: i64, max_iterations: usize) -> (dp: DataPoint)
    requires
        -COORD_LIMIT <= x0 <= COORD_LIMIT,
        -COORD_LIMIT <= y0 <= COORD_LIMIT,
    ensures
        dp.iteration == escape_time(x0 as int, y0 as int, max_iterations as nat),
        dp.value == escape_magnitude(x0 as int, y0 as int, max_iterations as nat),
        dp.iteration <= max_iterations,
{
    let mut current_i: usize = 0;
    let mut x2: i64 = 0;
    let mut y2: i64 = 0;
    let mut w: i64 = 0;
    proof {
        assert(fx_square(0) == 0) by {
            assert(0int * 0int == 0int);
        }
    }
    while x2 + y2 <= BAILOUT && current_i < max_iterations
        invariant
            -COORD_LIMIT <= x0 <= COORD_LIMIT,
            -COORD_LIMIT <= y0 <= COORD_LIMIT,
            current_i <= max_iterations,
            0 <= x2 <= SQUARE_LIMIT,
            0 <= y2 <= SQUARE_LIMIT,
            0 <= w,
            w <= 2 * x2 + 2 * y2 + 4,
            escape_state(x0 as int, y0 as int, x2 as int, y2 as int, w as int,
                current_i as nat, max_iterations as nat)
                == escape_state(x0 as int, y0 as int, 0, 0, 0, 0, max_iterations as nat),
        decreases max_iterations - current_i,
    {
        let x: i64 = x2 - y2 + x0;
        let y: i64 = w - x2 - y2 + y0;
        let s: i64 = x + y;
        let nx2: i64 = fixed_square(x);
        let ny2: i64 = fixed_square(y);
        let nw: i64 = fixed_square(s);
        proof {
            lemma_square_sum_bound(x as int, y as int);
        }
        x2 = nx2;
        y2 = ny2;
        w = nw;
        current_i = current_i + 1;
    }
    DataPoint { iteration: current_i, value: x2 + y2 }
}

/// The fixed-point square of a sum is at most twice the squares of the parts
/// plus the rounding slack: `(x + y)^2 <= 2 x^2 + 2 y^2` carried through the
/// division by `SCALE`.
proof fn lemma_square_sum_bound(x: int, y: int)
    ensures
        fx_square(x + y) <= 2 * fx_square(x) + 2 * fx_square(y) + 4,
{
    assert((x + y) * (x + y) <= 2 * (x * x) + 2 * (y * y)) by (nonlinear_arith);
    assert(x * x >= 0 && y * y >= 0) by (nonlinear_arith);
    vstd::arithmetic::div_mod::lemma_div_is_ordered(
        (x + y) * (x + y),
        2 * (x * x) + 2 * (y * y),
        SCALE as int,
    );
    lemma_double_sum_div(x * x, y * y);
}

/// Dividing `2a + 2b` by `SCALE` loses at most `4` against dividing `a` and
/// `b` separately.
proof fn lemma_double_sum_div(a: int, b: int)
    requires
        a >= 0,
        b >= 0,
    ensures
        (2 * a + 2 * b) / (SCALE as int) <= 2 * (a / (SCALE as int)) + 2 * (b / (SCALE as int))
            + 4,
{
    let s = SCALE as int;
    vstd::arithmetic::div_mod::lemma_fundamental_div_mod(a, s);
    vstd::arithmetic::div_mod::lemma_fundamental_div_mod(b, s);
    vstd::arithmetic::div_mod::lemma_mod_division_less_than_divisor(a, s);
    vstd::arithmetic::div_mod::lemma_mod_division_less_than_divisor(b, s);
    let qa = a / s;
    let qb = b / s;
    let ra = a % s;
    let rb = b % s;
    let j = 2 * qa + 2 * qb;
    let r2 = 2 * ra + 2 * rb;
    assert(2 * a + 2 * b == r2 + j * s) by (nonlinear_arith)
        requires
            a == s * qa + ra,
            b == s * qb + rb,
            j == 2 * qa + 2 * qb,
            r2 == 2 * ra + 2 * rb,
    ;
    vstd::arithmetic::div_mod::lemma_hoist_over_denominator(r2, j, SCALE as nat);
    vstd::arithmetic::div_mod::lemma_div_is_ordered(r2, 4 * s - 1, s);
    assert(4 * s - 1 == s * 3 + (s - 1));
    vstd::arithmetic::div_mod::lemma_div_multiples_vanish_fancy(3, s - 1, s);
}

/// The fixed-point width of one pixel step along an axis with bounds
/// `lo < hi` split into `n` pixels.
pub open spec fn axis_step(lo: int, hi: int, n: int) -> int {
    (hi - lo) / n
}

/// The complex-plane coordinate of pixel index `i` along an axis: linear
/// interpolation from the lower bound in steps of `axis_step`.
pub open spec fn map_coord(lo: int, hi: int, n: int, i: int) -> int {
    lo + i * axis_step(lo, hi, n)
}

/// Pixel coordinates map back into the viewport: the interpolated coordinate
/// of any pixel index up to `n` stays between the axis bounds, and the
/// offset from the lower bound stays within the axis span.
pub proof fn lemma_map_coord_in_range(lo: int, hi: int, n: int, i: int)
    requires
        lo < hi,
        0 < n,
        0 <= i <= n,
    ensures
        0 <= i * axis_step(lo, hi, n) <= hi - lo,
        lo <= map_coord(lo, hi, n, i) <= hi,
{
    let step = axis_step(lo, hi, n);
    vstd::arithmetic::div_mod::lemma_div_pos_is_pos(hi - lo, n);
    vstd::arithmetic::mul::lemma_mul_nonnegative(i, step);
    vstd::arithmetic::mul::lemma_mul_inequality(i, n, step);
    vstd::arithmetic::div_mod::lemma_fundamental_div_mod(hi - lo, n);
    vstd::arithmetic::div_mod::lemma_mod_division_less_than_divisor(hi - lo, n);
    assert(n * step <= hi - lo);
    vstd::arithmetic::mul::lemma_mul_is_commutative(n, step);
}

/// The view of a result matrix: one sequence of pixel results per column.
pub open spec fn grid_view(m: Seq<Vec<DataPoint>>) -> Seq<Seq<DataPoint>> {
    Seq::new(m.len(), |x: int| m[x]@)
}

/// What the grid computation promises: a full `width x height` matrix,
/// indexed `[x][y]`, whose every pixel holds the escape-time result of the
/// complex-plane point its indices map to.
pub open spec fn is_grid_result(
    g: Seq<Seq<DataPoint>>,
    x_min: int,
    x_max: int,
    y_min: int,
    y_max: int,
    max: nat,
    width: int,
    height: int,
) -> bool {
    &&& g.len() == width
    &&& forall|x: int| 0 <= x < width ==> (#[trigger] g[x]).len() == height
    &&& forall|x: int, y: int|
        0 <= x < width && 0 <= y < height ==> {
            let re = map_coord(x_min, x_max, width, x);
            let im = map_coord(y_min, y_max, height, y);
            &&& (#[trigger] g[x][y]).iteration == escape_time(re, im, max)
            &&& g[x][y].value == escape_magnitude(re, im, max)
        }
}

/// Evaluates one column of the pixel grid, top to bottom.
pub fn compute_column(
    x_min: i64,
    x_max: i64,
    y_min: i64,
    y_max: i64,
    max_iterations: usize,
    width: usize,
    height: usize,
    x: usize,
) -> (col: Vec<DataPoint>)
    requires
        viewport_ok(x_min as int, x_max as int, y_min as int, y_max as int),
        grid_ok(width as int, height as int),
        x < width,
    ensures
        col@.len() == height,
        forall|y: int|
            0 <= y < height ==> {
                let re = map_coord(x_min as int, x_max as int, width as int, x as int);
                let im = map_coord(y_min as int, y_max as int, height as int, y);
                &&& (#[trigger] col@[y]).iteration == escape_time(re, im, max_iterations as nat)
                &&& col@[y].value == escape_magnitude(re, im, max_iterations as nat)
            },
{
    let x_step: i64 = ((x_max - x_min) as u64 / (width as u64)) as i64;
    let y_step: i64 = ((y_max - y_min) as u64 / (height as u64)) as i64;
    proof {
        vstd::arithmetic::div_mod::lemma_div_nonincreasing(x_max - x_min, width as int);
        vstd::arithmetic::div_mod::lemma_div_pos_is_pos(x_max - x_min, width as int);
        vstd::arithmetic::div_mod::lemma_div_nonincreasing(y_max - y_min, height as int);
        vstd::arithmetic::div_mod::lemma_div_pos_is_pos(y_max - y_min, height as int);
        lemma_map_coord_in_range(x_min as int, x_max as int, width as int, x as int);
    }
    let re: i64 = x_min + ((x as u64 * x_step as u64) as i64);
    let mut col: Vec<DataPoint> = Vec::new();
    let mut y: usize = 0;
    while y < height
        invariant
            viewport_ok(x_min as int, x_max as int, y_min as int, y_max as int),
            grid_ok(width as int, height as int),
            x < width,
            y <= height,
            x_step == axis_step(x_min as int, x_max as int, width as int),
            y_step == axis_step(y_min as int, y_max as int, height as int),
            0 <= y_step <= y_max - y_min,
            re == map_coord(x_min as int, x_max as int, width as int, x as int),
            -COORD_LIMIT <= re <= COORD_LIMIT,
            col@.len() == y,
            forall|j: int|
                0 <= j < y ==> {
                    let im = map_coord(y_min as int, y_max as int, height as int, j);
                    &&& (#[trigger] col@[j]).iteration == escape_time(
                        re as int,
                        im,
                        max_iterations as nat,
                    )
                    &&& col@[j].value == escape_magnitude(re as int, im, max_iterations as nat)
                },
        decreases height - y,
    {
        proof {
            lemma_map_coord_in_range(y_min as int, y_max as int, height as int, y as int);
        }
        let im: i64 = y_min + ((y as u64 * y_step as u64) as i64);
        let dp = run(re, im, max_iterations);
        col.push(dp);
        y = y + 1;
    }
    col
}

/// Relies on rayon's `IntoParallelIterator` for ranges together with
/// `ParallelIterator::map` and `collect` into a `Vec`: the range iterator is
/// indexed, `map` applies the function to every index, and collecting an
/// indexed iterator keeps the index order, so element `x` of the result is
/// `compute_column(.., x)` whatever the worker scheduling.
#[verifier::external_body]
fn par_columns(
    x_min: i64,
    x_max: i64,
    y_min: i64,
    y_max: i64,
    max_iterations: usize,
    width: usize,
    height: usize,
) -> (r: Vec<Vec<DataPoint>>)
    requires
        viewport_ok(x_min as int, x_max as int, y_min as int, y_max as int),
        grid_ok(width as int, height as int),
    ensures
        is_grid_result(
            grid_view(r@),
            x_min as int,
            x_max as int,
            y_min as int,
            y_max as int,
            max_iterations as nat,
            width as int,
            height as int,
        ),
{
    (0..width)
        .into_par_iter()
        .map(|x| compute_column(x_min, x_max, y_min, y_max, max_iterations, width, height, x))
        .collect()
}

/// Computes the full result matrix for the given viewport, grid and
/// iteration budget, distributing the independent columns across worker
/// threads.
pub fn calculate_data(
    x_min: i64,
    x_max: i64,
    y_min: i64,
    y_max: i64,
    max_iterations: usize,
    width: usize,
    height: usize,
) -> (r: Vec<Vec<DataPoint>>)
    requires
        viewport_ok(x_min as int, x_max as int, y_min as int, y_max as int),
        grid_ok(width as int, height as int),
    ensures
        is_grid_result(
            grid_view(r@),
            x_min as int,
            x_max as int,
            y_min as int,
            y_max as int,
            max_iterations as nat,
            width as int,
            height as int,
        ),
{
    par_columns(x_min, x_max, y_min, y_max, max_iterations, width, height)
}

/// Running the grid computation twice on identical inputs yields an
/// identical result matrix: the contract pins every pixel, whatever order
/// the workers ran in.
pub proof fn lemma_grid_deterministic(
    a: Seq<Seq<DataPoint>>,
    b: Seq<Seq<DataPoint>>,
    x_min: int,
    x_max: int,
    y_min: int,
    y_max: int,
    max: nat,
    width: int,
    height: int,
)
    requires
        is_grid_result(a, x_min, x_max, y_min, y_max, max, width, height),
        is_grid_result(b, x_min, x_max, y_min, y_max, max, width, height),
    ensures
        a == b,
{
    assert forall|x: int| 0 <= x < width implies a[x] == b[x] by {
        assert forall|y: int| 0 <= y < height implies a[x][y] == b[x][y] by {
            assert(a[x][y].iteration == b[x][y].iteration);
            assert(a[x][y].value == b[x][y].value);
        }
        assert(a[x] =~= b[x]);
    }
    assert(a =~= b);
}

/// Every pixel of a computed result matrix carries an iteration count
/// between `0` and the iteration budget.
pub proof fn lemma_grid_iterations_bounded(
    g: Seq<Seq<DataPoint>>,
    x_min: int,
    x_max: int,
    y_min: int,
    y_max: int,
    max: nat,
    width: int,
    height: int,
)
    requires
        is_grid_result(g, x_min, x_max, y_min, y_max, max, width, height),
    ensures
        forall|x: int, y: int|
            0 <= x < width && 0 <= y < height ==> 0 <= (#[trigger] g[x][y]).iteration <= max,
{
    assert forall|x: int, y: int|
        0 <= x < width && 0 <= y < height implies 0 <= (#[trigger] g[x][y]).iteration <= max by {
        lemma_escape_time_bounded(
            map_coord(x_min, x_max, width, x),
            map_coord(y_min, y_max, height, y),
            max,
        );
    }
}

} // verus!
