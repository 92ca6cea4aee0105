//! The PNG overlay tile: pixel window of a bounding box, tile size, rendering.
use vstd::prelude::*;
use crate::error::AppError;
use crate::grid::{extract_subset, subgrid, RadarGrid};
use crate::raster::{encode_png, png_encoding, raster_pixels, rasterize_radar_data, raw_bytes};

verus! {

/// Largest tile width or height served.
pub const MAX_TILE_DIMENSION: u32 = 2048;

/// Default tile width in pixels.
pub fn default_width() -> (w: u32)
    ensures
        w == 256,
{
    256
}

/// Default tile height in pixels.
pub fn default_height() -> (h: u32)
    ensures
        h == 256,
{
    256
}

/// `v` clamped to `1..=2048`.
pub open spec fn clamped_dimension(v: int) -> int {
    if v < 1 {
        1
    } else if v > 2048 {
        2048
    } else {
        v
    }
}

/// A requested tile width or height clamped to `1..=2048`.
pub fn clamp_tile_dimension(v: u32) -> (d: u32)
    ensures
        d == clamped_dimension(v as int),
        1 <= d <= MAX_TILE_DIMENSION,
{
    if v < 1 {
        1
    } else if v > MAX_TILE_DIMENSION {
        MAX_TILE_DIMENSION
    } else {
        v
    }
}

/// A lower pixel bound clamped at zero.
pub open spec fn clamp_low(v: int) -> int {
    if v < 0 {
        0
    } else {
        v
    }
}

/// An upper pixel bound clamped to the grid bounds `0..=n`.
pub open spec fn clamp_high(v: int, n: int) -> int {
    if v < 0 {
        0
    } else if v > n {
        n
    } else {
        v
    }
}

/// The clamped pixel window `(min_row, max_row, min_col, max_col)` of a `rows` x `cols`
/// grid, or `None` when it holds no pixel.
pub open spec fn pixel_window(
    min_row: int,
    max_row: int,
    min_col: int,
    max_col: int,
    rows: int,
    cols: int,
) -> Option<(int, int, int, int)> {
    let r0 = clamp_low(min_row);
    let r1 = clamp_high(max_row, rows);
    let c0 = clamp_low(min_col);
    let c1 = clamp_high(max_col, cols);
    if r0 >= r1 || c0 >= c1 {
        None
    } else {
        Some((r0, r1, c0, c1))
    }
}

/// Clamps the pixel window of a bounding box (rows counted from the top, upper bounds
/// exclusive) to the bounds of a `data_rows` x `data_cols` grid; `InvalidBbox` when no
/// pixel is left, as for a box wholly outside the grid.
pub fn clamp_pixel_window(
    min_row: i64,
    max_row: i64,
    min_col: i64,
    max_col: i64,
    data_rows: usize,
    data_cols: usize,
) -> (res: Result<(usize, usize, usize, usize), AppError>)
    ensures
        match pixel_window(
            min_row as int,
            max_row as int,
            min_col as int,
            max_col as int,
            data_rows as int,
            data_cols as int,
        ) {
            None => res == Err::<(usize, usize, usize, usize), AppError>(AppError::InvalidBbox),
            Some(w) => res matches Ok(t) && t.0 == w.0 && t.1 == w.1 && t.2 == w.2 && t.3 == w.3,
        },
{
    let r0: i128 = if min_row < 0 {
        0
    } else {
        min_row as i128
    };
    let r1: i128 = if max_row < 0 {
        0
    } else if max_row as i128 > data_rows as i128 {
        data_rows as i128
    } else {
        max_row as i128
    };
    let c0: i128 = if min_col < 0 {
        0
    } else {
        min_col as i128
    };
    let c1: i128 = if max_col < 0 {
        0
    } else if max_col as i128 > data_cols as i128 {
        data_cols as i128
    } else {
        max_col as i128
    };
    if r0 >= r1 || c0 >= c1 {
        return Err(AppError::InvalidBbox);
    }
    Ok((r0 as usize, r1 as usize, c0 as usize, c1 as usize))
}

/// A clamped window lies inside the grid and holds at least one pixel; a window wholly
/// above, below, left or right of the grid holds none; a window that already lies
/// inside the grid is kept unchanged; the tile size is kept when it already lies in
/// `1..=2048`.
pub proof fn lemma_pixel_window(
    min_row: int,
    max_row: int,
    min_col: int,
    max_col: int,
    rows: int,
    cols: int,
)
    requires
        rows >= 0,
        cols >= 0,
    ensures
        pixel_window(min_row, max_row, min_col, max_col, rows, cols) matches Some(w) ==> 0 <= w.0
            < w.1 <= rows && 0 <= w.2 < w.3 <= cols,
        0 <= min_row < max_row <= rows && 0 <= min_col < max_col <= cols ==> pixel_window(
            min_row,
            max_row,
            min_col,
            max_col,
            rows,
            cols,
        ) == Some((min_row, max_row, min_col, max_col)),
        max_row <= 0 || max_col <= 0 || min_row >= rows || min_col >= cols ==> pixel_window(
            min_row,
            max_row,
            min_col,
            max_col,
            rows,
            cols,
        ) is None,
        forall|v: int| 1 <= v <= 2048 ==> #[trigger] clamped_dimension(v) == v,
{
}

/// The window is the intersection of the requested window with the grid: whenever
/// `max(min_row, 0) < min(max_row, rows)` and `max(min_col, 0) < min(max_col, cols)` it
/// is exactly those bounds, and otherwise there is no window.
pub proof fn lemma_pixel_window_is_intersection(
    min_row: int,
    max_row: int,
    min_col: int,
    max_col: int,
    rows: int,
    cols: int,
)
    requires
        rows >= 0,
        cols >= 0,
    ensures
        ({
            let lo_r = if min_row > 0 { min_row } else { 0 };
            let hi_r = if max_row < rows { max_row } else { rows };
            let lo_c = if min_col > 0 { min_col } else { 0 };
            let hi_c = if max_col < cols { max_col } else { cols };
            pixel_window(min_row, max_row, min_col, max_col, rows, cols) == if lo_r < hi_r && lo_c
                < hi_c {
                Some((lo_r, hi_r, lo_c, hi_c))
            } else {
                None
            }
        }),
{
}

/// The PNG tile of `g` for the pixel window `(r0, r1, c0, c1)` at size `w` x `h`.
pub open spec fn tile_png(g: crate::grid::GridModel, r0: int, r1: int, c0: int, c1: int, w: int, h: int) -> Seq<u8> {
    png_encoding(
        raw_bytes(raster_pixels(subgrid(g, r0, r1, c0, c1), w as nat, h as nat)),
        w as u32,
        h as u32,
    )
}

/// Renders the overlay tile of a bounding box whose pixel window is
/// `min_row..max_row` x `min_col..max_col`: the window is clamped to the grid, the
/// requested size to `1..=2048`, the sub-grid rasterized and encoded as PNG.
pub fn render_tile(
    data: &RadarGrid,
    min_row: i64,
    max_row: i64,
    min_col: i64,
    max_col: i64,
    width: u32,
    height: u32,
) -> (res: Result<Vec<u8>, AppError>)
    ensures
        match pixel_window(
            min_row as int,
            max_row as int,
            min_col as int,
            max_col as int,
            data@.rows as int,
            data@.cols as int,
        ) {
            None => res == Err::<Vec<u8>, AppError>(AppError::InvalidBbox),
            Some(win) => res matches Ok(png) && png@ == tile_png(
                data@,
                win.0,
                win.1,
                win.2,
                win.3,
                clamped_dimension(width as int),
                clamped_dimension(height as int),
            ),
        },
{
    let w = clamp_tile_dimension(width);
    let h = clamp_tile_dimension(height);
    let (rows, cols) = data.dim();
    let (r0, r1, c0, c1) = match clamp_pixel_window(min_row, max_row, min_col, max_col, rows, cols) {
        Ok(t) => t,
        Err(e) => {
            return Err(e);
        },
    };
    let subset = extract_subset(data, r0, r1, c0, c1);
    proof {
        assert(w * h * 4 <= 2048 * 2048 * 4) by (nonlinear_arith)
            requires
                1 <= w <= 2048,
                1 <= h <= 2048,
        ;
    }
    let img = rasterize_radar_data(&subset, w, h);
    let png = encode_png(&img);
    Ok(png)
}

} // verus!
