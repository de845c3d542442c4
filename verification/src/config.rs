//! Validated configuration for one rendering run: the viewport rectangle in
//! the complex plane, the pixel grid, and the iteration budget.

use vstd::prelude::*;

use crate::fixed::{COORD_LIMIT, SCALE};

verus! {

/// Rejected configuration: an empty viewport rectangle, a grid without
/// pixels, or an empty iteration budget. Detected before any computation
/// starts.
#[derive(Clone, Copy, Debug, PartialEq, Eq, Structural)]
pub enum ConfigError {
    InvalidViewport,
    InvalidGrid,
    InvalidIterationBudget,
}

/// A valid viewport: a non-empty rectangle `(x_min, x_max) x (y_min, y_max)`
/// whose corners the fixed-point representation can square safely.
pub open spec fn viewport_ok(x_min: int, x_max: int, y_min: int, y_max: int) -> bool {
    &&& x_min < x_max
    &&& y_min < y_max
    &&& -COORD_LIMIT <= x_min
    &&& x_max <= COORD_LIMIT
    &&& -COORD_LIMIT <= y_min
    &&& y_max <= COORD_LIMIT
}

/// A valid grid: both pixel dimensions are positive.
pub open spec fn grid_ok(width: int, height: int) -> bool {
    0 < width && 0 < height
}

/// Checks the run configuration and says which invariant fails, if any:
/// computation never begins on invalid input.
pub fn validate_config(
    x_min: i64,
    x_max: i64,
    y_min: i64,
    y_max: i64,
    max_iterations: usize,
    width: usize,
    height: usize,
) -> (r: Result<(), ConfigError>)
    ensures
        r == Ok::<(), ConfigError>(()) <==> (viewport_ok(
            x_min as int,
            x_max as int,
            y_min as int,
            y_max as int,
        ) && grid_ok(width as int, height as int) && max_iterations > 0),
        r == Err::<(), ConfigError>(ConfigError::InvalidViewport) <==> !viewport_ok(
            x_min as int,
            x_max as int,
            y_min as int,
            y_max as int,
        ),
        r == Err::<(), ConfigError>(ConfigError::InvalidGrid) <==> (viewport_ok(
            x_min as int,
            x_max as int,
            y_min as int,
            y_max as int,
        ) && !grid_ok(width as int, height as int)),
        r == Err::<(), ConfigError>(ConfigError::InvalidIterationBudget) <==> (viewport_ok(
            x_min as int,
            x_max as int,
            y_min as int,
            y_max as int,
        ) && grid_ok(width as int, height as int) && max_iterations == 0),
{
    if !(x_min < x_max && y_min < y_max && -COORD_LIMIT <= x_min && x_max <= COORD_LIMIT
        && -COORD_LIMIT <= y_min && y_max <= COORD_LIMIT) {
        Err(ConfigError::InvalidViewport)
    } else if width == 0 || height == 0 {
        Err(ConfigError::InvalidGrid)
    } else if max_iterations == 0 {
        Err(ConfigError::InvalidIterationBudget)
    } else {
        Ok(())
    }
}

/// The fixed-point half-width of the square window a zoom factor selects:
/// the real value `1 / zoom`.
pub open spec fn window_of(zoom: int) -> int {
    ((SCALE as int) * (SCALE as int)) / zoom
}

/// Converts a center point and a zoom factor into viewport bounds
/// `center -+ 1 / zoom` on both axes.
pub fn get_window(x: i64, y: i64, zoom: i64) -> (r: (i64, i64, i64, i64))
    requires
        zoom >= 1,
        -COORD_LIMIT <= x <= COORD_LIMIT,
        -COORD_LIMIT <= y <= COORD_LIMIT,
    ensures
        r.0 == x - window_of(zoom as int),
        r.1 == x + window_of(zoom as int),
        r.2 == y - window_of(zoom as int),
        r.3 == y + window_of(zoom as int),
{
    let s2: u64 = 0x1_0000_0000_0000;
    proof {
        assert((SCALE as int) * (SCALE as int) == 0x1_0000_0000_0000) by (nonlinear_arith)
            requires
                (SCALE as int) == 0x100_0000,
        ;
    }
    let q: u64 = s2 / (zoom as u64);
    proof {
        vstd::arithmetic::div_mod::lemma_div_nonincreasing(s2 as int, zoom as int);
        vstd::arithmetic::div_mod::lemma_div_pos_is_pos(s2 as int, zoom as int);
    }
    let window: i64 = q as i64;
    (x - window, x + window, y - window, y + window)
}

} // verus!
