//! The radar grid: a row-major matrix of rain intensities in hundredths of a
//! millimetre, where `None` marks a cell without data.
use vstd::prelude::*;

verus! {

/// The mathematical model of a radar grid.
pub ghost struct GridModel {
    pub rows: nat,
    pub cols: nat,
    pub cells: Seq<Option<i32>>,
}

impl GridModel {
    /// The grid holds exactly `rows * cols` cells, and its dimensions fit in `usize`.
    pub open spec fn wf(self) -> bool {
        &&& self.cells.len() == self.rows * self.cols
        &&& self.rows <= usize::MAX
        &&& self.cols <= usize::MAX
    }

    /// The cell at row `r`, column `c` (row-major layout).
    pub open spec fn cell(self, r: int, c: int) -> Option<i32> {
        self.cells[r * self.cols + c]
    }

    /// The cell value used where missing data counts as zero.
    pub open spec fn value_or_zero(self, r: int, c: int) -> i32 {
        match self.cell(r, c) {
            Some(v) => v,
            None => 0,
        }
    }
}

/// Row-major index arithmetic: `r * cols + c` addresses a cell inside the grid.
pub proof fn lemma_index_in_bounds(rows: int, cols: int, r: int, c: int)
    requires
        0 <= r < rows,
        0 <= c < cols,
    ensures
        0 <= r * cols + c < rows * cols,
        r * cols + c + 1 <= rows * cols,
{
    assert(r * cols + c < rows * cols) by (nonlinear_arith)
        requires
            0 <= r < rows,
            0 <= c < cols,
    ;
    assert(0 <= r * cols) by (nonlinear_arith)
        requires
            0 <= r,
            0 <= c < cols,
    ;
}

/// An index below `w * h` splits into column `i % w` and row `i / w` of a row-major layout.
pub proof fn lemma_split_index(i: int, w: int, h: int)
    requires
        0 <= i < w * h,
        w > 0,
    ensures
        0 <= i % w < w,
        0 <= i / w < h,
        (i / w) * w + i % w == i,
{
    vstd::arithmetic::div_mod::lemma_fundamental_div_mod(i, w);
    vstd::arithmetic::div_mod::lemma_mod_bound(i, w);
    vstd::arithmetic::div_mod::lemma_div_pos_is_pos(i, w);
    let q = i / w;
    let r = i % w;
    assert(q < h) by (nonlinear_arith)
        requires
            i == w * q + r,
            0 <= r,
            i < w * h,
            w > 0,
    ;
    assert(q * w == w * q) by (nonlinear_arith);
}

/// The sub-grid of rows `r0..r1` and columns `c0..c1` of `g`.
pub open spec fn subgrid(g: GridModel, r0: int, r1: int, c0: int, c1: int) -> GridModel {
    GridModel {
        rows: (r1 - r0) as nat,
        cols: (c1 - c0) as nat,
        cells: Seq::new(
            ((r1 - r0) * (c1 - c0)) as nat,
            |i: int| g.cell(r0 + i / (c1 - c0), c0 + i % (c1 - c0)),
        ),
    }
}

/// A radar grid of rain intensities (0.01 mm units), `None` where there is no data.
pub struct RadarGrid {
    rows: usize,
    cols: usize,
    cells: Vec<Option<i32>>,
}

impl RadarGrid {
    #[verifier::type_invariant]
    spec fn inv(self) -> bool {
        self.cells.len() == self.rows * self.cols
    }
}

impl View for RadarGrid {
    type V = GridModel;

    closed spec fn view(&self) -> GridModel {
        GridModel { rows: self.rows as nat, cols: self.cols as nat, cells: self.cells@ }
    }
}

impl RadarGrid {
    /// Builds a grid from its dimensions and its cells in row-major order;
    /// `None` when the number of cells is not `rows * cols`.
    pub fn new(rows: usize, cols: usize, cells: Vec<Option<i32>>) -> (res: Option<RadarGrid>)
        ensures
            res is Some <==> cells@.len() == rows * cols,
            res matches Some(g) ==> g@.rows == rows && g@.cols == cols && g@.cells == cells@,
    {
        match rows.checked_mul(cols) {
            Some(n) => {
                if cells.len() == n {
                    Some(RadarGrid { rows, cols, cells })
                } else {
                    None
                }
            },
            None => {
                let len = cells.len();
                assert(cells@.len() != rows * cols) by (nonlinear_arith)
                    requires
                        rows * cols > usize::MAX,
                        cells@.len() == len,
                        len <= usize::MAX,
                ;
                None
            },
        }
    }

    /// The number of rows and columns; also tells the caller that the grid is well formed.
    pub fn dim(&self) -> (d: (usize, usize))
        ensures
            d.0 == self@.rows,
            d.1 == self@.cols,
            self@.wf(),
    {
        proof {
            use_type_invariant(self);
        }
        (self.rows, self.cols)
    }

    /// The cell at row `r`, column `c`.
    pub fn get(&self, r: usize, c: usize) -> (v: Option<i32>)
        requires
            r < self@.rows,
            c < self@.cols,
        ensures
            v == self@.cell(r as int, c as int),
    {
        proof {
            use_type_invariant(self);
            lemma_index_in_bounds(self.rows as int, self.cols as int, r as int, c as int);
        }
        self.cells[r * self.cols + c]
    }
}

/// The sub-grid of rows `min_row..max_row` and columns `min_col..max_col`.
pub fn extract_subset(data: &RadarGrid, min_row: usize, max_row: usize, min_col: usize, max_col: usize) -> (sub: RadarGrid)
    requires
        min_row <= max_row <= data@.rows,
        min_col <= max_col <= data@.cols,
    ensures
        sub@ == subgrid(data@, min_row as int, max_row as int, min_col as int, max_col as int),
        sub@.wf(),
        sub@.rows == max_row - min_row,
        sub@.cols == max_col - min_col,
        forall|r: int, c: int|
            0 <= r < sub@.rows && 0 <= c < sub@.cols ==> #[trigger] sub@.cell(r, c) == data@.cell(
                min_row + r,
                min_col + c,
            ),
{
    let (_rows, _cols) = data.dim();
    let nr = max_row - min_row;
    let nc = max_col - min_col;
    let mut cells: Vec<Option<i32>> = Vec::new();
    let mut r: usize = 0;
    while r < nr
        invariant
            min_row <= max_row <= data@.rows,
            min_col <= max_col <= data@.cols,
            nr == max_row - min_row,
            nc == max_col - min_col,
            data@.wf(),
            r <= nr,
            cells@.len() == r * nc,
            forall|i: int, j: int|
                0 <= i < r && 0 <= j < nc ==> #[trigger] cells@[i * nc + j] == data@.cell(
                    min_row + i,
                    min_col + j,
                ),
        decreases nr - r,
    {
        let mut c: usize = 0;
        while c < nc
            invariant
                min_row <= max_row <= data@.rows,
                min_col <= max_col <= data@.cols,
                nr == max_row - min_row,
                nc == max_col - min_col,
                data@.wf(),
                r < nr,
                c <= nc,
                cells@.len() == r * nc + c,
                forall|i: int, j: int|
                    0 <= i < r && 0 <= j < nc ==> #[trigger] cells@[i * nc + j] == data@.cell(
                        min_row + i,
                        min_col + j,
                    ),
                forall|j: int| 0 <= j < c ==> #[trigger] cells@[r * nc + j] == data@.cell(
                    min_row + r,
                    min_col + j,
                ),
            decreases nc - c,
        {
            let v = data.get(min_row + r, min_col + c);
            cells.push(v);
            proof {
                assert forall|i: int, j: int|
                    0 <= i < r && 0 <= j < nc implies #[trigger] cells@[i * nc + j] == data@.cell(
                    min_row + i,
                    min_col + j,
                ) by {
                    lemma_index_in_bounds(r as int, nc as int, i, j);
                }
            }
            c = c + 1;
        }
        proof {
            assert forall|i: int, j: int|
                0 <= i < r + 1 && 0 <= j < nc implies #[trigger] cells@[i * nc + j] == data@.cell(
                min_row + i,
                min_col + j,
            ) by {
                if i == r {
                } else {
                    lemma_index_in_bounds(r as int, nc as int, i, j);
                }
            }
            assert((r + 1) * nc == r * nc + nc) by (nonlinear_arith);
        }
        r = r + 1;
    }
    proof {
        let spec_cells = subgrid(data@, min_row as int, max_row as int, min_col as int, max_col as int).cells;
        assert(nr * nc >= 0) by (nonlinear_arith)
            requires
                nr >= 0,
                nc >= 0,
        ;
        assert forall|k: int| 0 <= k < cells@.len() implies cells@[k] == spec_cells[k] by {
            assert(nc > 0 && k < nc * nr) by (nonlinear_arith)
                requires
                    0 <= k < nr * nc,
                    nr >= 0,
                    nc >= 0,
            ;
            lemma_split_index(k, nc as int, nr as int);
            let i = k / (nc as int);
            let j = k % (nc as int);
            assert(cells@[i * nc + j] == data@.cell(min_row + i, min_col + j));
        }
        assert(cells@ =~= spec_cells);
    }
    RadarGrid { rows: nr, cols: nc, cells }
}

/// The cell for a raw radar value: no data for `nodata`, zero for `undetect`, otherwise
/// the physical value that `scaled` gives for the raw value.
pub open spec fn decoded_cell(raw: u16, nodata: u16, undetect: u16, scaled: Seq<Option<i32>>) -> Option<i32> {
    if raw == nodata {
        None
    } else if raw == undetect {
        Some(0)
    } else {
        scaled[raw as int]
    }
}

/// Builds the grid of a radar product from its raw values in row-major order: `nodata`
/// marks a cell without data, `undetect` a cell without rain, and every other raw value
/// `v` takes the physical value `scaled[v]` (0.01 mm units) of the product's scaling.
/// `None` when the number of raw values is not `rows * cols`.
pub fn decode_radar_grid(
    rows: usize,
    cols: usize,
    raw: &Vec<u16>,
    nodata: u16,
    undetect: u16,
    scaled: &Vec<Option<i32>>,
) -> (res: Option<RadarGrid>)
    requires
        scaled@.len() == 0x1_0000,
    ensures
        res is Some <==> raw@.len() == rows * cols,
        res matches Some(g) ==> g@.rows == rows && g@.cols == cols && g@.cells.len() == raw@.len()
            && forall|i: int|
            0 <= i < raw@.len() ==> #[trigger] g@.cells[i] == decoded_cell(raw@[i], nodata, undetect, scaled@),
{
    let mut cells: Vec<Option<i32>> = Vec::new();
    let mut i: usize = 0;
    while i < raw.len()
        invariant
            scaled@.len() == 0x1_0000,
            i <= raw@.len(),
            cells@.len() == i,
            forall|k: int| 0 <= k < i ==> #[trigger] cells@[k] == decoded_cell(raw@[k], nodata, undetect, scaled@),
        decreases raw@.len() - i,
    {
        let v = raw[i];
        let cell = if v == nodata {
            None
        } else if v == undetect {
            Some(0)
        } else {
            scaled[v as usize]
        };
        cells.push(cell);
        i = i + 1;
    }
    RadarGrid::new(rows, cols, cells)
}

/// The grid's values in row-major order with missing data replaced by zero:
/// the input handed to contour extraction.
pub fn contour_values(data: &RadarGrid) -> (vals: Vec<i32>)
    ensures
        vals@.len() == data@.rows * data@.cols,
        forall|r: int, c: int|
            0 <= r < data@.rows && 0 <= c < data@.cols ==> #[trigger] vals@[r * data@.cols + c]
                == data@.value_or_zero(r, c),
{
    let (rows, cols) = data.dim();
    let mut vals: Vec<i32> = Vec::new();
    let mut r: usize = 0;
    while r < rows
        invariant
            rows == data@.rows,
            cols == data@.cols,
            data@.wf(),
            r <= rows,
            vals@.len() == r * cols,
            forall|i: int, j: int|
                0 <= i < r && 0 <= j < cols ==> #[trigger] vals@[i * cols + j]
                    == data@.value_or_zero(i, j),
        decreases rows - r,
    {
        let mut c: usize = 0;
        while c < cols
            invariant
                rows == data@.rows,
                cols == data@.cols,
                data@.wf(),
                r < rows,
                c <= cols,
                vals@.len() == r * cols + c,
                forall|i: int, j: int|
                    0 <= i < r && 0 <= j < cols ==> #[trigger] vals@[i * cols + j]
                        == data@.value_or_zero(i, j),
                forall|j: int| 0 <= j < c ==> #[trigger] vals@[r * cols + j]
                    == data@.value_or_zero(r as int, j),
            decreases cols - c,
        {
            let v = match data.get(r, c) {
                Some(v) => v,
                None => 0,
            };
            vals.push(v);
            proof {
                assert forall|i: int, j: int|
                    0 <= i < r && 0 <= j < cols implies #[trigger] vals@[i * cols + j]
                    == data@.value_or_zero(i, j) by {
                    lemma_index_in_bounds(r as int, cols as int, i, j);
                }
            }
            c = c + 1;
        }
        proof {
            assert forall|i: int, j: int|
                0 <= i < r + 1 && 0 <= j < cols implies #[trigger] vals@[i * cols + j]
                == data@.value_or_zero(i, j) by {
                if i == r {
                } else {
                    lemma_index_in_bounds(r as int, cols as int, i, j);
                }
            }
            assert((r + 1) * cols == r * cols + cols) by (nonlinear_arith);
        }
        r = r + 1;
    }
    vals
}

} // verus!
