//! The coloring engine: interchangeable strategies that map a result matrix
//! to an RGB matrix. Every strategy is a stateless, one-shot pure transform.

use vstd::prelude::*;

use crate::fixed::{fixed_log2, fx_log2};
use crate::mandlebrot::{grid_view, is_grid_result, lemma_grid_iterations_bounded, DataPoint};

verus! {

pub const WHITE: [u8; 3] = [255, 255, 255];

pub const BLACK: [u8; 3] = [0, 0, 0];

/// The closed set of coloring strategies.
#[derive(Clone, Copy, Debug)]
pub enum Coloring {
    /// Black interior, white everywhere else.
    Blackwhite,
    /// A continuous gradient from the escape magnitude.
    Colors,
    /// A cyclic 16-color palette, blended by the escape magnitude.
    Wiki,
    /// Histogram-equalized banding.
    Histogram,
}

/// The fixed ordered palette of 16 reference colors used by the cyclic
/// palette strategy.
pub const PALLETE: [[u8; 3]; 16] = [
    [66, 30, 15],
    [25, 7, 26],
    [9, 1, 47],
    [4, 4, 73],
    [0, 7, 100],
    [12, 44, 138],
    [24, 82, 177],
    [57, 125, 209],
    [134, 181, 229],
    [211, 236, 248],
    [241, 233, 191],
    [248, 201, 95],
    [255, 170, 0],
    [204, 128, 0],
    [153, 87, 0],
    [106, 52, 3],
];

/// The palette as a cyclic function of any integer index.
pub open spec fn palette_spec(i: int) -> [u8; 3] {
    PALLETE[i % 16]
}

/// Cyclic indexing wraps correctly: moving one full palette length forward
/// reaches the same color.
pub proof fn lemma_palette_cyclic(i: int)
    ensures
        palette_spec(i + 16) == palette_spec(i),
{
    vstd::arithmetic::div_mod::lemma_mod_add_multiples_vanish(i, 16);
}

/// What a whole-matrix coloring pass promises: the output has the shape of
/// the input and every pixel is `f` of the matching data point.
pub open spec fn colored_pixelwise(
    data: Seq<Vec<DataPoint>>,
    out: Seq<Vec<[u8; 3]>>,
    f: spec_fn(DataPoint) -> [u8; 3],
) -> bool {
    &&& out.len() == data.len()
    &&& forall|x: int| 0 <= x < data.len() ==> (#[trigger] out[x])@.len() == data[x]@.len()
    &&& forall|x: int, y: int|
        0 <= x < data.len() && 0 <= y < data[x]@.len() ==> (#[trigger] out[x]@[y]) == f(
            data[x]@[y],
        )
}

/// The binary scheme's color: black exactly for interior pixels (the
/// iteration count reached the budget), white for every other pixel.
pub open spec fn bw_color(dp: DataPoint, max_iter: int) -> [u8; 3] {
    if dp.iteration == max_iter {
        BLACK
    } else {
        WHITE
    }
}

/// The binary black/white strategy.
pub fn black_white(data_set: &Vec<Vec<DataPoint>>, max_iter: usize) -> (r: Vec<Vec<[u8; 3]>>)
    ensures
        colored_pixelwise(data_set@, r@, (|dp: DataPoint| bw_color(dp, max_iter as int))),
{
    let mut out: Vec<Vec<[u8; 3]>> = Vec::new();
    let mut x: usize = 0;
    while x < data_set.len()
        invariant
            x <= data_set@.len(),
            out@.len() == x,
            forall|i: int| 0 <= i < x ==> (#[trigger] out@[i])@.len() == data_set@[i]@.len(),
            forall|i: int, j: int|
                0 <= i < x && 0 <= j < data_set@[i]@.len() ==> (#[trigger] out@[i]@[j])
                    == bw_color(data_set@[i]@[j], max_iter as int),
        decreases data_set@.len() - x,
    {
        let row = &data_set[x];
        let mut orow: Vec<[u8; 3]> = Vec::new();
        let mut y: usize = 0;
        while y < row.len()
            invariant
                x < data_set@.len(),
                row == &data_set@[x as int],
                y <= row@.len(),
                orow@.len() == y,
                forall|j: int|
                    0 <= j < y ==> (#[trigger] orow@[j]) == bw_color(row@[j], max_iter as int),
            decreases row@.len() - y,
        {
            let dp = row[y];
            if dp.iteration == max_iter {
                orow.push(BLACK);
            } else {
                orow.push(WHITE);
            }
            y = y + 1;
        }
        out.push(orow);
        x = x + 1;
    }
    out
}

/// The shading band for an escape magnitude: the distance of its binary
/// logarithm from the top of the meaningful range, clamped to `[0, 35]`.
/// Smaller magnitudes shade stronger.
pub open spec fn shade_level(value: int) -> int {
    if value < 1 {
        35
    } else {
        let l = fx_log2(value) as int;
        if l < 26 {
            35
        } else if l > 61 {
            0
        } else {
            61 - l
        }
    }
}

/// Computes the shading band of an escape magnitude.
fn shade(value: i64) -> (d: u8)
    ensures
        d == shade_level(value as int),
        0 <= d <= 35,
{
    if value < 1 {
        35
    } else {
        let l = fixed_log2(value);
        if l < 26 {
            35
        } else if l > 61 {
            0
        } else {
            (61 - l) as u8
        }
    }
}

/// The continuous scheme's color: interior pixels are black; an escaped
/// pixel fades from red toward teal as its shading band deepens.
pub open spec fn continuous_color(dp: DataPoint, max_iter: int) -> [u8; 3] {
    if dp.iteration == max_iter {
        BLACK
    } else {
        let d = shade_level(dp.value as int);
        [(255 - (255 * d) / 35) as u8, ((200 * d) / 35) as u8, ((200 * d) / 35) as u8]
    }
}

/// The continuous escape-value strategy: a smooth gradient from the escape
/// magnitude, interior pixels a constant black.
pub fn colors(data_set: &Vec<Vec<DataPoint>>, max_iter: usize) -> (r: Vec<Vec<[u8; 3]>>)
    ensures
        colored_pixelwise(data_set@, r@, (|dp: DataPoint| continuous_color(dp, max_iter as int))),
{
    let mut out: Vec<Vec<[u8; 3]>> = Vec::new();
    let mut x: usize = 0;
    while x < data_set.len()
        invariant
            x <= data_set@.len(),
            out@.len() == x,
            forall|i: int| 0 <= i < x ==> (#[trigger] out@[i])@.len() == data_set@[i]@.len(),
            forall|i: int, j: int|
                0 <= i < x && 0 <= j < data_set@[i]@.len() ==> (#[trigger] out@[i]@[j])
                    == continuous_color(data_set@[i]@[j], max_iter as int),
        decreases data_set@.len() - x,
    {
        let row = &data_set[x];
        let mut orow: Vec<[u8; 3]> = Vec::new();
        let mut y: usize = 0;
        while y < row.len()
            invariant
                x < data_set@.len(),
                row == &data_set@[x as int],
                y <= row@.len(),
                orow@.len() == y,
                forall|j: int|
                    0 <= j < y ==> (#[trigger] orow@[j]) == continuous_color(
                        row@[j],
                        max_iter as int,
                    ),
            decreases row@.len() - y,
        {
            let dp = row[y];
            if dp.iteration == max_iter {
                orow.push(BLACK);
            } else {
                let d = shade(dp.value) as u32;
                let c: [u8; 3] = [
                    (255 - (255 * d) / 35) as u8,
                    ((200 * d) / 35) as u8,
                    ((200 * d) / 35) as u8,
                ];
                orow.push(c);
            }
            y = y + 1;
        }
        out.push(orow);
        x = x + 1;
    }
    out
}

/// One channel of a linear blend between two palette colors: the mix
/// `a * (1 - t) + b * t` for the fraction `t = k / 36`.
pub open spec fn blend(a: u8, b: u8, k: int) -> u8 {
    ((a * (36 - k) + b * k) / 36) as u8
}

/// The cyclic-palette scheme's color: interior pixels are black; an escaped
/// pixel blends the palette entry of its iteration count into the next one,
/// weighted by the fraction its shading band selects.
pub open spec fn wiki_color(dp: DataPoint, max_iter: int) -> [u8; 3] {
    if dp.iteration == max_iter {
        BLACK
    } else {
        let k = 35 - shade_level(dp.value as int);
        let ca = palette_spec(dp.iteration as int);
        let cb = palette_spec(dp.iteration as int + 1);
        [blend(ca[0], cb[0], k), blend(ca[1], cb[1], k), blend(ca[2], cb[2], k)]
    }
}

/// One channel of the palette blend, for a fraction numerator in `[0, 35]`.
fn blend_channel(a: u8, b: u8, k: u32) -> (c: u8)
    requires
        k <= 35,
    ensures
        c == blend(a, b, k as int),
{
    proof {
        vstd::arithmetic::mul::lemma_mul_inequality(a as int, 255, 36 - k);
        vstd::arithmetic::mul::lemma_mul_inequality(b as int, 255, k as int);
        assert(255 * (36 - (k as int)) + 255 * (k as int) == 255 * 36) by (nonlinear_arith);
    }
    let n: u32 = (a as u32) * (36 - k) + (b as u32) * k;
    (n / 36) as u8
}

/// The cyclic interpolated palette strategy.
pub fn wiki_histogram(data_set: &Vec<Vec<DataPoint>>, max_iter: usize) -> (r: Vec<Vec<[u8; 3]>>)
    ensures
        colored_pixelwise(data_set@, r@, (|dp: DataPoint| wiki_color(dp, max_iter as int))),
{
    let mut out: Vec<Vec<[u8; 3]>> = Vec::new();
    let mut x: usize = 0;
    while x < data_set.len()
        invariant
            x <= data_set@.len(),
            out@.len() == x,
            forall|i: int| 0 <= i < x ==> (#[trigger] out@[i])@.len() == data_set@[i]@.len(),
            forall|i: int, j: int|
                0 <= i < x && 0 <= j < data_set@[i]@.len() ==> (#[trigger] out@[i]@[j])
                    == wiki_color(data_set@[i]@[j], max_iter as int),
        decreases data_set@.len() - x,
    {
        let row = &data_set[x];
        let mut orow: Vec<[u8; 3]> = Vec::new();
        let mut y: usize = 0;
        while y < row.len()
            invariant
                x < data_set@.len(),
                row == &data_set@[x as int],
                y <= row@.len(),
                orow@.len() == y,
                forall|j: int|
                    0 <= j < y ==> (#[trigger] orow@[j]) == wiki_color(row@[j], max_iter as int),
            decreases row@.len() - y,
        {
            let dp = row[y];
            if dp.iteration == max_iter {
                orow.push(BLACK);
            } else {
                let k: u32 = 35 - (shade(dp.value) as u32);
                let ia: usize = dp.iteration % 16;
                let ib: usize = (ia + 1) % 16;
                proof {
                    vstd::arithmetic::div_mod::lemma_mod_division_less_than_divisor(
                        dp.iteration as int,
                        16,
                    );
                    vstd::arithmetic::div_mod::lemma_add_mod_noop(dp.iteration as int, 1, 16);
                    vstd::arithmetic::div_mod::lemma_small_mod(1, 16);
                    vstd::arithmetic::div_mod::lemma_mod_division_less_than_divisor(
                        dp.iteration as int + 1,
                        16,
                    );
                }
                let ca: [u8; 3] = PALLETE[ia];
                let cb: [u8; 3] = PALLETE[ib];
                let c: [u8; 3] = [
                    blend_channel(ca[0], cb[0], k),
                    blend_channel(ca[1], cb[1], k),
                    blend_channel(ca[2], cb[2], k),
                ];
                orow.push(c);
            }
            y = y + 1;
        }
        out.push(orow);
        x = x + 1;
    }
    out
}

/// How many pixels of a column hold exactly the iteration count `i`.
pub open spec fn row_count(row: Seq<DataPoint>, i: int) -> nat
    decreases row.len(),
{
    if row.len() == 0 {
        0
    } else {
        row_count(row.drop_last(), i) + (if row.last().iteration == i {
            1nat
        } else {
            0nat
        })
    }
}

/// How many pixels of the matrix hold exactly the iteration count `i`: one
/// histogram bucket.
pub open spec fn grid_count(g: Seq<Seq<DataPoint>>, i: int) -> nat
    decreases g.len(),
{
    if g.len() == 0 {
        0
    } else {
        grid_count(g.drop_last(), i) + row_count(g.last(), i)
    }
}

/// How many pixels of a column escaped: their iteration count stayed below
/// the budget `max`.
pub open spec fn row_escaped(row: Seq<DataPoint>, max: int) -> nat
    decreases row.len(),
{
    if row.len() == 0 {
        0
    } else {
        row_escaped(row.drop_last(), max) + (if row.last().iteration == max {
            0nat
        } else {
            1nat
        })
    }
}

/// How many pixels of the matrix escaped: the total pixel count excluding
/// the interior.
pub open spec fn grid_escaped(g: Seq<Seq<DataPoint>>, max: int) -> nat
    decreases g.len(),
{
    if g.len() == 0 {
        0
    } else {
        grid_escaped(g.drop_last(), max) + row_escaped(g.last(), max)
    }
}

/// The number of pixels the matrix holds.
pub open spec fn pixel_count(g: Seq<Seq<DataPoint>>) -> nat
    decreases g.len(),
{
    if g.len() == 0 {
        0
    } else {
        pixel_count(g.drop_last()) + g.last().len()
    }
}

/// The cumulative histogram: how many pixels hold an iteration count below
/// `i`, that is, the sum of the histogram buckets `0` to `i - 1`.
pub open spec fn cumulative(g: Seq<Seq<DataPoint>>, i: int) -> nat
    decreases i,
{
    if i <= 0 {
        0
    } else {
        cumulative(g, i - 1) + grid_count(g, i - 1)
    }
}

/// The per-column cumulative histogram.
pub open spec fn row_cum(row: Seq<DataPoint>, i: int) -> nat
    decreases i,
{
    if i <= 0 {
        0
    } else {
        row_cum(row, i - 1) + row_count(row, i - 1)
    }
}

/// Every pixel's iteration count stays within the budget `max`.
pub open spec fn iterations_within(g: Seq<Seq<DataPoint>>, max: int) -> bool {
    forall|x: int, y: int|
        0 <= x < g.len() && 0 <= y < g[x].len() ==> (#[trigger] g[x][y]).iteration <= max
}

proof fn lemma_row_count_le(row: Seq<DataPoint>, i: int)
    ensures
        row_count(row, i) <= row.len(),
    decreases row.len(),
{
    if row.len() > 0 {
        lemma_row_count_le(row.drop_last(), i);
    }
}

proof fn lemma_row_escaped_le(row: Seq<DataPoint>, max: int)
    ensures
        row_escaped(row, max) <= row.len(),
    decreases row.len(),
{
    if row.len() > 0 {
        lemma_row_escaped_le(row.drop_last(), max);
    }
}

proof fn lemma_grid_count_le(g: Seq<Seq<DataPoint>>, i: int)
    ensures
        grid_count(g, i) <= pixel_count(g),
    decreases g.len(),
{
    if g.len() > 0 {
        lemma_grid_count_le(g.drop_last(), i);
        lemma_row_count_le(g.last(), i);
    }
}

proof fn lemma_grid_escaped_le(g: Seq<Seq<DataPoint>>, max: int)
    ensures
        grid_escaped(g, max) <= pixel_count(g),
    decreases g.len(),
{
    if g.len() > 0 {
        lemma_grid_escaped_le(g.drop_last(), max);
        lemma_row_escaped_le(g.last(), max);
    }
}

proof fn lemma_row_cum_empty(i: int)
    ensures
        row_cum(Seq::<DataPoint>::empty(), i) == 0,
    decreases i,
{
    if i > 0 {
        lemma_row_cum_empty(i - 1);
    }
}

/// Dropping a column's last pixel lowers its cumulative histogram by one
/// exactly when that pixel's iteration count lies below the cut.
proof fn lemma_row_cum_drop(row: Seq<DataPoint>, m: int)
    requires
        row.len() > 0,
    ensures
        row_cum(row, m) == row_cum(row.drop_last(), m) + (if row.last().iteration < m {
            1nat
        } else {
            0nat
        }),
    decreases m,
{
    if m > 0 {
        lemma_row_cum_drop(row, m - 1);
    }
}

proof fn lemma_row_cum_total(row: Seq<DataPoint>, m: int)
    requires
        forall|k: int| 0 <= k < row.len() ==> (#[trigger] row[k]).iteration <= m,
    ensures
        row_cum(row, m) == row_escaped(row, m),
    decreases row.len(),
{
    if row.len() == 0 {
        assert(row =~= Seq::<DataPoint>::empty());
        lemma_row_cum_empty(m);
    } else {
        lemma_row_cum_drop(row, m);
        lemma_row_cum_total(row.drop_last(), m);
        assert(row.last() == row[row.len() - 1]);
    }
}

proof fn lemma_cumulative_empty(i: int)
    ensures
        cumulative(Seq::<Seq<DataPoint>>::empty(), i) == 0,
    decreases i,
{
    if i > 0 {
        lemma_cumulative_empty(i - 1);
    }
}

/// The cumulative histogram splits between the last column and the rest.
proof fn lemma_cumulative_drop(g: Seq<Seq<DataPoint>>, m: int)
    requires
        g.len() > 0,
    ensures
        cumulative(g, m) == cumulative(g.drop_last(), m) + row_cum(g.last(), m),
    decreases m,
{
    if m > 0 {
        lemma_cumulative_drop(g, m - 1);
    }
}

/// The histogram buckets sum to the total pixel count excluding the
/// interior: every escaped pixel falls into exactly one bucket below the
/// budget, and interior pixels into none.
pub proof fn lemma_histogram_total(g: Seq<Seq<DataPoint>>, max: int)
    requires
        iterations_within(g, max),
    ensures
        cumulative(g, max) == grid_escaped(g, max),
    decreases g.len(),
{
    if g.len() == 0 {
        assert(g =~= Seq::<Seq<DataPoint>>::empty());
        lemma_cumulative_empty(max);
    } else {
        lemma_cumulative_drop(g, max);
        assert(g.last() == g[g.len() - 1]);
        assert forall|k: int| 0 <= k < g.last().len() implies (#[trigger] g.last()[k]).iteration
            <= max by {
            assert(g[g.len() - 1][k].iteration <= max);
        }
        lemma_row_cum_total(g.last(), max);
        assert forall|x: int, y: int|
            0 <= x < g.drop_last().len() && 0 <= y < g.drop_last()[x].len() implies (#[trigger] g
            .drop_last()[x][y]).iteration <= max by {
            assert(g.drop_last()[x] == g[x]);
        }
        lemma_histogram_total(g.drop_last(), max);
    }
}

/// The cumulative histogram is monotonically non-decreasing in the
/// iteration count.
pub proof fn lemma_cumulative_monotonic(g: Seq<Seq<DataPoint>>, i: int, j: int)
    requires
        i <= j,
    ensures
        cumulative(g, i) <= cumulative(g, j),
    decreases j - i,
{
    if i < j {
        lemma_cumulative_monotonic(g, i, j - 1);
    }
}

proof fn lemma_row_count_take(row: Seq<DataPoint>, i: int, y: int)
    requires
        0 <= y < row.len(),
    ensures
        row_count(row.take(y + 1), i) == row_count(row.take(y), i) + (if row[y].iteration == i {
            1nat
        } else {
            0nat
        }),
{
    assert(row.take(y + 1).drop_last() =~= row.take(y));
    assert(row.take(y + 1).last() == row[y]);
}

proof fn lemma_row_escaped_take(row: Seq<DataPoint>, max: int, y: int)
    requires
        0 <= y < row.len(),
    ensures
        row_escaped(row.take(y + 1), max) == row_escaped(row.take(y), max) + (if row[y].iteration
            == max {
            0nat
        } else {
            1nat
        }),
{
    assert(row.take(y + 1).drop_last() =~= row.take(y));
    assert(row.take(y + 1).last() == row[y]);
}

proof fn lemma_grid_count_take(g: Seq<Seq<DataPoint>>, i: int, x: int)
    requires
        0 <= x < g.len(),
    ensures
        grid_count(g.take(x + 1), i) == grid_count(g.take(x), i) + row_count(g[x], i),
{
    assert(g.take(x + 1).drop_last() =~= g.take(x));
    assert(g.take(x + 1).last() == g[x]);
}

proof fn lemma_grid_escaped_take(g: Seq<Seq<DataPoint>>, max: int, x: int)
    requires
        0 <= x < g.len(),
    ensures
        grid_escaped(g.take(x + 1), max) == grid_escaped(g.take(x), max) + row_escaped(g[x], max),
{
    assert(g.take(x + 1).drop_last() =~= g.take(x));
    assert(g.take(x + 1).last() == g[x]);
}

proof fn lemma_pixel_count_take(g: Seq<Seq<DataPoint>>, x: int)
    requires
        0 <= x < g.len(),
    ensures
        pixel_count(g.take(x + 1)) == pixel_count(g.take(x)) + g[x].len(),
{
    assert(g.take(x + 1).drop_last() =~= g.take(x));
    assert(g.take(x + 1).last() == g[x]);
}

proof fn lemma_pixel_count_take_le(g: Seq<Seq<DataPoint>>, x: int)
    requires
        0 <= x <= g.len(),
    ensures
        pixel_count(g.take(x)) <= pixel_count(g),
    decreases g.len() - x,
{
    if x == g.len() {
        assert(g.take(x) =~= g);
    } else {
        lemma_pixel_count_take(g, x);
        lemma_pixel_count_take_le(g, x + 1);
    }
}

/// Builds the frequency histogram over the iteration counts in
/// `[0, max_iterations)` and counts the escaped pixels.
fn build_histogram(data_set: &Vec<Vec<DataPoint>>, max_iterations: usize) -> (r: (
    Vec<usize>,
    usize,
))
    requires
        iterations_within(grid_view(data_set@), max_iterations as int),
        pixel_count(grid_view(data_set@)) < usize::MAX,
    ensures
        r.0@.len() == max_iterations,
        forall|i: int| 0 <= i < max_iterations ==> r.0@[i] == grid_count(grid_view(data_set@), i),
        r.1 == grid_escaped(grid_view(data_set@), max_iterations as int),
{
    let ghost gv = grid_view(data_set@);
    let mut hist: Vec<usize> = Vec::new();
    let mut i: usize = 0;
    while i < max_iterations
        invariant
            i <= max_iterations,
            hist@.len() == i,
            forall|t: int| 0 <= t < i ==> hist@[t] == 0,
        decreases max_iterations - i,
    {
        hist.push(0);
        i = i + 1;
    }
    let mut total: usize = 0;
    let mut x: usize = 0;
    proof {
        assert(gv.take(0) =~= Seq::<Seq<DataPoint>>::empty());
        assert forall|t: int| 0 <= t < max_iterations implies hist@[t] == grid_count(
            gv.take(0),
            t,
        ) by {}
    }
    while x < data_set.len()
        invariant
            gv == grid_view(data_set@),
            iterations_within(gv, max_iterations as int),
            pixel_count(gv) < usize::MAX,
            x <= data_set@.len(),
            gv.len() == data_set@.len(),
            hist@.len() == max_iterations,
            forall|t: int| 0 <= t < max_iterations ==> hist@[t] == grid_count(gv.take(x as int), t),
            total == grid_escaped(gv.take(x as int), max_iterations as int),
        decreases data_set@.len() - x,
    {
        let row = &data_set[x];
        let mut y: usize = 0;
        proof {
            assert(row@.take(0) =~= Seq::<DataPoint>::empty());
        }
        while y < row.len()
            invariant
                gv == grid_view(data_set@),
                iterations_within(gv, max_iterations as int),
                pixel_count(gv) < usize::MAX,
                x < data_set@.len(),
                gv.len() == data_set@.len(),
                row == &data_set@[x as int],
                gv[x as int] == row@,
                y <= row@.len(),
                hist@.len() == max_iterations,
                forall|t: int|
                    0 <= t < max_iterations ==> hist@[t] == grid_count(gv.take(x as int), t)
                        + row_count(row@.take(y as int), t),
                total == grid_escaped(gv.take(x as int), max_iterations as int) + row_escaped(
                    row@.take(y as int),
                    max_iterations as int,
                ),
            decreases row@.len() - y,
        {
            let dp = row[y];
            proof {
                assert(gv[x as int][y as int].iteration <= max_iterations);
                lemma_grid_count_le(gv.take(x as int), dp.iteration as int);
                lemma_row_count_le(row@.take(y as int), dp.iteration as int);
                lemma_grid_escaped_le(gv.take(x as int), max_iterations as int);
                lemma_row_escaped_le(row@.take(y as int), max_iterations as int);
                lemma_pixel_count_take(gv, x as int);
                lemma_pixel_count_take_le(gv, x as int + 1);
                assert(row@.take(y as int).len() == y);
            }
            if dp.iteration < max_iterations {
                let c = hist[dp.iteration];
                hist[dp.iteration] = c + 1;
                total = total + 1;
            }
            proof {
                assert forall|t: int| 0 <= t < max_iterations implies hist@[t] == grid_count(
                    gv.take(x as int),
                    t,
                ) + row_count(row@.take(y as int + 1), t) by {
                    lemma_row_count_take(row@, t, y as int);
                }
                lemma_row_escaped_take(row@, max_iterations as int, y as int);
            }
            y = y + 1;
        }
        proof {
            assert(row@.take(row@.len() as int) =~= row@);
            assert forall|t: int| 0 <= t < max_iterations implies grid_count(
                gv.take(x as int + 1),
                t,
            ) == grid_count(gv.take(x as int), t) + row_count(gv[x as int], t) by {
                lemma_grid_count_take(gv, t, x as int);
            }
            lemma_grid_escaped_take(gv, max_iterations as int, x as int);
        }
        x = x + 1;
    }
    proof {
        assert(gv.take(gv.len() as int) =~= gv);
    }
    (hist, total)
}

/// The histogram scheme's color for a pixel whose cumulative density is
/// `c / t`: near-one densities are black, high densities white, the rest a
/// fixed linear gradient.
pub open spec fn histogram_color(c: int, t: int) -> [u8; 3] {
    if t <= 0 {
        BLACK
    } else if 10000 * c > 9999 * t {
        BLACK
    } else if 100 * c > 72 * t {
        WHITE
    } else {
        [((120 * c) / t) as u8, ((120 * (t - c)) / t) as u8, 120u8]
    }
}

/// The histogram scheme's color of one data point within a matrix: its
/// cumulative density rank mapped through the fixed three-band ramp.
pub open spec fn histogram_pixel(g: Seq<Seq<DataPoint>>, dp: DataPoint, max: int) -> [u8; 3] {
    histogram_color(
        cumulative(g, dp.iteration as int) as int,
        grid_escaped(g, max) as int,
    )
}

/// Maps one cumulative count to its color band.
fn histogram_shade(c: usize, t: usize) -> (col: [u8; 3])
    requires
        c <= t,
    ensures
        col == histogram_color(c as int, t as int),
{
    if t == 0 {
        BLACK
    } else if 10000u128 * (c as u128) > 9999u128 * (t as u128) {
        BLACK
    } else if 100u128 * (c as u128) > 72u128 * (t as u128) {
        WHITE
    } else {
        proof {
            vstd::arithmetic::mul::lemma_mul_inequality(c as int, t as int, 120);
            vstd::arithmetic::mul::lemma_mul_inequality(t as int - c as int, t as int, 120);
            vstd::arithmetic::mul::lemma_mul_is_commutative(c as int, 120);
            vstd::arithmetic::mul::lemma_mul_is_commutative(t as int - c as int, 120);
            vstd::arithmetic::mul::lemma_mul_is_commutative(t as int, 120);
            vstd::arithmetic::div_mod::lemma_div_is_ordered(
                120 * (c as int),
                120 * (t as int),
                t as int,
            );
            vstd::arithmetic::div_mod::lemma_div_is_ordered(
                120 * (t as int - c as int),
                120 * (t as int),
                t as int,
            );
            vstd::arithmetic::div_mod::lemma_div_by_multiple(120, t as int);
            vstd::arithmetic::div_mod::lemma_div_pos_is_pos(120 * (c as int), t as int);
            vstd::arithmetic::div_mod::lemma_div_pos_is_pos(
                120 * (t as int - c as int),
                t as int,
            );
        }
        let rc = ((120u128 * (c as u128)) / (t as u128)) as u8;
        let gc = ((120u128 * ((t - c) as u128)) / (t as u128)) as u8;
        [rc, gc, 120]
    }
}

/// The histogram-equalized strategy: a pixel's color depends only on its
/// rank in the cumulative distribution of iteration counts, not on the raw
/// count, so the bands come out the same for any iteration budget.
pub fn color_histogram(data_set: &Vec<Vec<DataPoint>>, max_iterations: usize) -> (r: Vec<
    Vec<[u8; 3]>,
>)
    requires
        iterations_within(grid_view(data_set@), max_iterations as int),
        pixel_count(grid_view(data_set@)) < usize::MAX,
    ensures
        colored_pixelwise(
            data_set@,
            r@,
            (|dp: DataPoint|
                histogram_pixel(grid_view(data_set@), dp, max_iterations as int)),
        ),
{
    let ghost gv = grid_view(data_set@);
    let (hist, total) = build_histogram(data_set, max_iterations);
    let mut cum: Vec<usize> = Vec::new();
    cum.push(0);
    let mut i: usize = 0;
    while i < max_iterations
        invariant
            gv == grid_view(data_set@),
            iterations_within(gv, max_iterations as int),
            pixel_count(gv) < usize::MAX,
            i <= max_iterations,
            hist@.len() == max_iterations,
            forall|t: int| 0 <= t < max_iterations ==> hist@[t] == grid_count(gv, t),
            total == grid_escaped(gv, max_iterations as int),
            cum@.len() == i + 1,
            forall|j: int| 0 <= j <= i ==> cum@[j] == cumulative(gv, j),
        decreases max_iterations - i,
    {
        proof {
            assert(cumulative(gv, i as int + 1) == cumulative(gv, i as int) + grid_count(
                gv,
                i as int,
            ));
            lemma_cumulative_monotonic(gv, i as int + 1, max_iterations as int);
            lemma_histogram_total(gv, max_iterations as int);
            lemma_grid_escaped_le(gv, max_iterations as int);
        }
        let c = cum[i] + hist[i];
        cum.push(c);
        i = i + 1;
    }
    let mut out: Vec<Vec<[u8; 3]>> = Vec::new();
    let mut x: usize = 0;
    while x < data_set.len()
        invariant
            gv == grid_view(data_set@),
            iterations_within(gv, max_iterations as int),
            gv.len() == data_set@.len(),
            total == grid_escaped(gv, max_iterations as int),
            cum@.len() == max_iterations + 1,
            forall|j: int| 0 <= j <= max_iterations ==> cum@[j] == cumulative(gv, j),
            x <= data_set@.len(),
            out@.len() == x,
            forall|i2: int| 0 <= i2 < x ==> (#[trigger] out@[i2])@.len() == data_set@[i2]@.len(),
            forall|i2: int, j: int|
                0 <= i2 < x && 0 <= j < data_set@[i2]@.len() ==> (#[trigger] out@[i2]@[j])
                    == histogram_pixel(gv, data_set@[i2]@[j], max_iterations as int),
        decreases data_set@.len() - x,
    {
        let row = &data_set[x];
        let mut orow: Vec<[u8; 3]> = Vec::new();
        let mut y: usize = 0;
        while y < row.len()
            invariant
                gv == grid_view(data_set@),
                iterations_within(gv, max_iterations as int),
                gv.len() == data_set@.len(),
                total == grid_escaped(gv, max_iterations as int),
                cum@.len() == max_iterations + 1,
                forall|j: int| 0 <= j <= max_iterations ==> cum@[j] == cumulative(gv, j),
                x < data_set@.len(),
                row == &data_set@[x as int],
                gv[x as int] == row@,
                y <= row@.len(),
                orow@.len() == y,
                forall|j: int|
                    0 <= j < y ==> (#[trigger] orow@[j]) == histogram_pixel(
                        gv,
                        row@[j],
                        max_iterations as int,
                    ),
            decreases row@.len() - y,
        {
            let dp = row[y];
            proof {
                assert(gv[x as int][y as int].iteration <= max_iterations);
                lemma_cumulative_monotonic(gv, dp.iteration as int, max_iterations as int);
                lemma_histogram_total(gv, max_iterations as int);
            }
            let c = cum[dp.iteration];
            let col = histogram_shade(c, total);
            orow.push(col);
            y = y + 1;
        }
        out.push(orow);
        x = x + 1;
    }
    out
}

proof fn lemma_pixel_count_uniform(g: Seq<Seq<DataPoint>>, height: int)
    requires
        forall|x: int| 0 <= x < g.len() ==> (#[trigger] g[x]).len() == height,
    ensures
        pixel_count(g) == g.len() * height,
    decreases g.len(),
{
    if g.len() == 0 {
        assert(0int * height == 0) by (nonlinear_arith);
    } else {
        assert forall|x: int| 0 <= x < g.drop_last().len() implies (#[trigger] g.drop_last()[
            x
        ]).len() == height by {
            assert(g.drop_last()[x] == g[x]);
        }
        lemma_pixel_count_uniform(g.drop_last(), height);
        assert(g.last() == g[g.len() - 1]);
        assert((g.len() - 1) * height + height == g.len() as int * height) by (nonlinear_arith);
    }
}

/// A computed result matrix meets the histogram strategy's premises: every
/// iteration count stays within the budget, and the matrix holds exactly
/// `width * height` pixels.
pub proof fn lemma_grid_result_feeds_coloring(
    g: Seq<Seq<DataPoint>>,
    x_min: int,
    x_max: int,
    y_min: int,
    y_max: int,
    max: nat,
    width: int,
    height: int,
)
    requires
        is_grid_result(g, x_min, x_max, y_min, y_max, max, width, height),
    ensures
        iterations_within(g, max as int),
        pixel_count(g) == width * height,
{
    lemma_grid_iterations_bounded(g, x_min, x_max, y_min, y_max, max, width, height);
    lemma_pixel_count_uniform(g, height);
}

/// Applies the selected coloring strategy to a whole result matrix.
pub fn get_colors(ct: Coloring, data_set: &Vec<Vec<DataPoint>>, max_iterations: usize) -> (r: Vec<
    Vec<[u8; 3]>,
>)
    requires
        (ct is Histogram) ==> iterations_within(grid_view(data_set@), max_iterations as int)
            && pixel_count(grid_view(data_set@)) < usize::MAX,
    ensures
        match ct {
            Coloring::Blackwhite => colored_pixelwise(
                data_set@,
                r@,
                (|dp: DataPoint| bw_color(dp, max_iterations as int)),
            ),
            Coloring::Colors => colored_pixelwise(
                data_set@,
                r@,
                (|dp: DataPoint| continuous_color(dp, max_iterations as int)),
            ),
            Coloring::Wiki => colored_pixelwise(
                data_set@,
                r@,
                (|dp: DataPoint| wiki_color(dp, max_iterations as int)),
            ),
            Coloring::Histogram => colored_pixelwise(
                data_set@,
                r@,
                (|dp: DataPoint|
                    histogram_pixel(grid_view(data_set@), dp, max_iterations as int)),
            ),
        },
{
    match ct {
        Coloring::Blackwhite => black_white(data_set, max_iterations),
        Coloring::Colors => colors(data_set, max_iterations),
        Coloring::Wiki => wiki_histogram(data_set, max_iterations),
        Coloring::Histogram => color_histogram(data_set, max_iterations),
    }
}

} // verus!
