use mandlebrot::coloring::{
    black_white, color_histogram, colors, get_colors, wiki_histogram, Coloring, BLACK, PALLETE,
    WHITE,
};
use mandlebrot::mandlebrot::DataPoint;

fn dp(iteration: usize, value: i64) -> DataPoint {
    DataPoint { iteration, value }
}

/// A pixel is black exactly when its iteration count reached the budget;
/// every other pixel is exactly white.
#[test]
fn test_binary_black_iff_interior() {
    let data = vec![
        vec![dp(50, 0), dp(0, 99), dp(49, 5)],
        vec![dp(1, 7), dp(50, 3), dp(25, 1)],
    ];
    let out = black_white(&data, 50);
    assert_eq!(
        out,
        vec![vec![BLACK, WHITE, WHITE], vec![WHITE, BLACK, WHITE]]
    );
    for x in 0..data.len() {
        for y in 0..data[x].len() {
            assert_eq!(out[x][y] == BLACK, data[x][y].iteration == 50);
            assert!(out[x][y] == BLACK || out[x][y] == WHITE);
        }
    }
}

/// The continuous scheme: interior pixels a constant black, escaped pixels
/// the exact gradient value of their escape magnitude's binary logarithm.
#[test]
fn test_continuous_exact_values() {
    let data = vec![vec![dp(10, 123), dp(3, 1 << 30), dp(3, 1 << 61)]];
    let out = colors(&data, 10);
    // interior
    assert_eq!(out[0][0], BLACK);
    // log2 of 2^30 is 30, so the band is 61 - 30 = 31:
    // red 255 - (255 * 31) / 35 = 30, green and blue (200 * 31) / 35 = 177
    assert_eq!(out[0][1], [30, 177, 177]);
    // the top of the range: band 0, pure red
    assert_eq!(out[0][2], [255, 0, 0]);
}

/// The cyclic palette wraps: two pixels sixteen iterations apart take the
/// same color.
#[test]
fn test_palette_cycles() {
    for i in 0..16usize {
        let data = vec![vec![dp(i, 1 << 30), dp(i + 16, 1 << 30)]];
        let out = wiki_histogram(&data, 1000);
        assert_eq!(out[0][0], out[0][1]);
    }
    for i in 0..16 {
        assert_eq!(PALLETE[i % 16], PALLETE[(i + 16) % 16]);
    }
}

/// The palette blend at the fraction's ends: a magnitude at the bottom of
/// the range keeps the entry's own color, one at the top blends almost fully
/// into the next entry.
#[test]
fn test_wiki_exact_values() {
    // band 35, fraction 0: exactly the palette entry of the iteration count
    let data = vec![vec![dp(1, (1 << 26) + 1), dp(0, 1 << 61), dp(9, 0)]];
    let out = wiki_histogram(&data, 9);
    assert_eq!(out[0][0], PALLETE[1]);
    // band 0, fraction 35/36 between entry 0 and entry 1:
    // (66 * 1 + 25 * 35) / 36 = 26, (30 + 7 * 35) / 36 = 7, (15 + 26 * 35) / 36 = 25
    assert_eq!(out[0][1], [26, 7, 25]);
    // interior stays black
    assert_eq!(out[0][2], BLACK);
}

/// The histogram scheme on a fixed matrix: colors follow the cumulative
/// density rank, interior pixels fall in the black band, and the green
/// channel falls as the rank rises.
#[test]
fn test_histogram_exact_values() {
    let data = vec![vec![dp(0, 9), dp(1, 9), dp(2, 9), dp(4, 0)]];
    let out = color_histogram(&data, 4);
    // three escaped pixels; cumulative counts 0, 1, 2; densities 0, 1/3, 2/3
    assert_eq!(out[0][0], [0, 120, 120]);
    assert_eq!(out[0][1], [40, 80, 120]);
    assert_eq!(out[0][2], [80, 40, 120]);
    // the interior pixel has cumulative density 1: the black band
    assert_eq!(out[0][3], BLACK);
}

/// A matrix of interior pixels only has an empty histogram and comes out
/// all black.
#[test]
fn test_histogram_all_interior() {
    let data = vec![vec![dp(4, 0), dp(4, 0)]];
    let out = color_histogram(&data, 4);
    assert_eq!(out, vec![vec![BLACK, BLACK]]);
}

/// The cumulative density never falls as the iteration count rises: a pixel
/// with a higher count never takes a redder gradient color than one with a
/// lower count maps below it.
#[test]
fn test_histogram_monotonic() {
    let data = vec![vec![
        dp(0, 9),
        dp(1, 9),
        dp(1, 9),
        dp(3, 9),
        dp(5, 9),
        dp(5, 9),
        dp(6, 9),
        dp(8, 9),
    ]];
    let out = color_histogram(&data, 100);
    // the red channel is 120 * cumulative / total: non-decreasing along
    // rising iteration counts
    let mut last_red = 0u8;
    for y in 0..8 {
        assert!(out[0][y][0] >= last_red);
        last_red = out[0][y][0];
    }
}

/// The selector dispatches to the matching strategy.
#[test]
fn test_get_colors_dispatch() {
    let data = vec![vec![dp(7, 0), dp(2, 1 << 30)]];
    assert_eq!(get_colors(Coloring::Blackwhite, &data, 7), black_white(&data, 7));
    assert_eq!(get_colors(Coloring::Colors, &data, 7), colors(&data, 7));
    assert_eq!(get_colors(Coloring::Wiki, &data, 7), wiki_histogram(&data, 7));
    assert_eq!(get_colors(Coloring::Histogram, &data, 7), color_histogram(&data, 7));
}
