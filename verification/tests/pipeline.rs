use mandlebrot::coloring::{get_colors, Coloring};
use mandlebrot::config::{get_window, validate_config, ConfigError};
use mandlebrot::fixed::{BAILOUT, SCALE};
use mandlebrot::mandlebrot::{calculate_data, run, DataPoint};

/// The original program's flow end to end: center/zoom defaults converted to
/// a viewport, the grid computed, and a coloring applied.
#[test]
fn test_main() {
    // center (-0.5, 0), zoom 0.8, in fixed-point units
    let x = -SCALE / 2;
    let y = 0;
    let zoom = (SCALE * 4) / 5;
    let (x_min, x_max, y_min, y_max) = get_window(x, y, zoom);
    assert!(x_min < x_max && y_min < y_max);
    let iterations = 100;
    let (width, height) = (64usize, 64usize);
    assert_eq!(
        validate_config(x_min, x_max, y_min, y_max, iterations, width, height),
        Ok(())
    );
    let data = calculate_data(x_min, x_max, y_min, y_max, iterations, width, height);
    assert_eq!(data.len(), width);
    for col in &data {
        assert_eq!(col.len(), height);
    }
    let colors = get_colors(Coloring::Colors, &data, iterations);
    assert_eq!(colors.len(), width);
    for col in &colors {
        assert_eq!(col.len(), height);
    }
    // the window spans [-1.75, 0.75] x [-1.25, 1.25]; pixel (32, 32) maps to
    // a point next to the center (-0.5, 0), inside the main cardioid, so the
    // continuous scheme paints it black
    assert_eq!(data[32][32].iteration, iterations);
    assert_eq!(colors[32][32], [0, 0, 0]);
}

/// The origin lies in the set's interior: it never escapes, for any budget.
#[test]
fn test_origin_interior() {
    for n in [1usize, 2, 7, 50] {
        let dp = run(0, 0, n);
        assert_eq!(dp.iteration, n);
        assert_eq!(dp.value, 0);
    }
}

/// A point with a coordinate of magnitude above two escapes during the
/// first iteration.
#[test]
fn test_far_point_escapes_first() {
    let three = 3 * SCALE;
    for (x0, y0) in [(three, 0), (-three, 0), (0, three), (0, -three), (three, three)] {
        let dp = run(x0, y0, 50);
        assert_eq!(dp.iteration, 1);
        assert!(dp.value > BAILOUT);
    }
}

/// Every pixel's iteration count stays within the budget.
#[test]
fn test_iterations_within_budget() {
    let data = calculate_data(-2 * SCALE, SCALE, -SCALE, SCALE, 25, 16, 16);
    for col in &data {
        for dp in col {
            assert!(dp.iteration <= 25);
        }
    }
}

/// The end-to-end scenario: the classic viewport on a four-by-four grid
/// under binary coloring. The corner pixel maps far outside the set and
/// comes out white; the pixel nearest `(-0.5, 0)` lies in the interior and
/// comes out black.
#[test]
fn test_binary_scenario() {
    // viewport (-2, 0.47) x (-1.12, 1.12) in fixed-point units
    let x_min = -2 * SCALE;
    let x_max = 7885292;
    let y_min = -18790482;
    let y_max = 18790482;
    let data = calculate_data(x_min, x_max, y_min, y_max, 50, 4, 4);
    let colors = get_colors(Coloring::Blackwhite, &data, 50);
    assert_eq!(colors[0][0], [255, 255, 255]);
    assert_eq!(colors[2][2], [0, 0, 0]);
}

/// Re-running the grid computation on identical inputs yields an identical
/// result matrix, whatever the worker scheduling did either time.
#[test]
fn test_deterministic_rerun() {
    let a = calculate_data(-2 * SCALE, SCALE, -SCALE, SCALE, 40, 16, 16);
    let b = calculate_data(-2 * SCALE, SCALE, -SCALE, SCALE, 40, 16, 16);
    assert_eq!(a, b);
}

/// Each configuration fault is reported as its own error, and a sound
/// configuration passes.
#[test]
fn test_config_errors() {
    assert_eq!(
        validate_config(SCALE, -SCALE, -SCALE, SCALE, 10, 4, 4),
        Err(ConfigError::InvalidViewport)
    );
    assert_eq!(
        validate_config(-SCALE, SCALE, SCALE, SCALE, 10, 4, 4),
        Err(ConfigError::InvalidViewport)
    );
    assert_eq!(
        validate_config(-SCALE, SCALE, -SCALE, SCALE, 10, 0, 4),
        Err(ConfigError::InvalidGrid)
    );
    assert_eq!(
        validate_config(-SCALE, SCALE, -SCALE, SCALE, 10, 4, 0),
        Err(ConfigError::InvalidGrid)
    );
    assert_eq!(
        validate_config(-SCALE, SCALE, -SCALE, SCALE, 0, 4, 4),
        Err(ConfigError::InvalidIterationBudget)
    );
    assert_eq!(validate_config(-SCALE, SCALE, -SCALE, SCALE, 10, 4, 4), Ok(()));
}

/// A zoom of exactly one selects the window of half-width one around the
/// center.
#[test]
fn test_get_window_unit_zoom() {
    let (x_min, x_max, y_min, y_max) = get_window(0, 0, SCALE);
    assert_eq!((x_min, x_max, y_min, y_max), (-SCALE, SCALE, -SCALE, SCALE));
    let (x_min, x_max, y_min, y_max) = get_window(2 * SCALE, -SCALE, 2 * SCALE);
    assert_eq!(
        (x_min, x_max, y_min, y_max),
        (2 * SCALE - SCALE / 2, 2 * SCALE + SCALE / 2, -SCALE - SCALE / 2, -SCALE + SCALE / 2)
    );
}

/// The escape value of an escaped pixel is the squared magnitude past the
/// bailout threshold, never a value handed back unchanged.
#[test]
fn test_escape_values_meaningful() {
    let data = calculate_data(2 * SCALE + 1, 4 * SCALE, SCALE, 2 * SCALE, 10, 4, 4);
    for col in &data {
        for dp in col {
            assert_eq!(dp.iteration, 1);
            assert!(dp.value > BAILOUT);
        }
    }
    let _ = DataPoint { iteration: 0, value: 0 };
}
