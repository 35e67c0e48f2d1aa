use vstd::prelude::*;

verus! {

/// Ten-thousandths of a millimetre in one millimetre: the unit of every length.
pub const UNITS_PER_MM: u64 = 10000;

/// The largest page dimension, margin, inset or line spacing accepted (100 m).
pub const MAX_LENGTH: u64 = 1_000_000_000;

/// The largest number of columns or rows accepted.
pub const MAX_GRID: usize = 1000;

/// The layout of a sheet: a grid of cells inside a margin, and how text is
/// set in a cell. Lengths are in ten-thousandths of a millimetre.
#[derive(Clone, Copy, Debug, PartialEq, Eq)]
pub struct GridSpec {
    pub cols: usize,
    pub rows: usize,
    pub page_width: u64,
    pub page_height: u64,
    pub margin: u64,
    /// Distance of the first text line from the top of its cell, kept free at
    /// both ends of the span that text runs along.
    pub text_inset: u64,
    /// Font size in points.
    pub font_size: u32,
    /// Offset between neighbouring text lines.
    pub line_spacing: u64,
}

/// The position of a cell in the grid, counted from the top left.
#[derive(Clone, Copy, Debug, PartialEq, Eq)]
pub struct Cell {
    pub col: usize,
    pub row: usize,
}

/// A point in page coordinates, origin at the bottom left.
#[derive(Clone, Copy, Debug, PartialEq, Eq)]
pub struct Point {
    pub x: i128,
    pub y: i128,
}

/// The column that mirrors `col` across the vertical centre of a grid of
/// `cols` columns.
pub open spec fn mirror(cols: int, col: int) -> int {
    cols - 1 - col
}

/// The (column, row) that the card at `index` of a sheet occupies: row-major
/// on the front, with columns mirrored on the back.
pub open spec fn cell_of(cols: int, index: int, is_front: bool) -> (int, int) {
    if is_front {
        (index % cols, index / cols)
    } else {
        (mirror(cols, index % cols), index / cols)
    }
}

impl GridSpec {
    /// Every count positive and bounded, cells of positive width and height
    /// inside the margins, and a cell tall enough for its text insets.
    pub open spec fn wf(&self) -> bool {
        &&& 1 <= self.cols <= MAX_GRID
        &&& 1 <= self.rows <= MAX_GRID
        &&& self.page_width <= MAX_LENGTH
        &&& self.page_height <= MAX_LENGTH
        &&& self.line_spacing <= MAX_LENGTH
        &&& 2 * self.margin < self.page_width
        &&& 2 * self.margin < self.page_height
        &&& self.cell_width_spec() > 0
        &&& self.cell_height_spec() > 0
        &&& 2 * self.text_inset <= self.cell_height_spec()
    }

    /// The number of cells on a sheet.
    pub open spec fn per_sheet_spec(&self) -> nat {
        (self.cols * self.rows) as nat
    }

    /// The width of a cell: the page width inside the margins, shared by the
    /// columns (rounded down).
    pub open spec fn cell_width_spec(&self) -> nat {
        ((self.page_width - 2 * self.margin) / (self.cols as int)) as nat
    }

    /// The height of a cell, shared out of the page height as the width is.
    pub open spec fn cell_height_spec(&self) -> nat {
        ((self.page_height - 2 * self.margin) / (self.rows as int)) as nat
    }

    /// The span that text runs along in a cell: its height less both insets.
    pub open spec fn text_span_spec(&self) -> nat {
        (self.cell_height_spec() - 2 * self.text_inset) as nat
    }

    /// The bottom-left corner of `cell`.
    pub open spec fn origin_spec(&self, cell: Cell) -> Point {
        Point {
            x: (self.margin + cell.col * self.cell_width_spec()) as i128,
            y: (self.page_height - self.margin - (cell.row + 1) * self.cell_height_spec()) as i128,
        }
    }

    /// The grid of the printed sheets: 4 by 4 cells on an A4 page
    /// (210 mm by 297 mm) with a 5 mm margin, 18 pt text inset 10 mm, lines
    /// 7 mm apart.
    pub fn a4() -> (r: GridSpec)
        ensures
            r.wf(),
            r.cols == 4 && r.rows == 4,
            r.page_width == 2_100_000 && r.page_height == 2_970_000,
            r.margin == 50_000 && r.text_inset == 100_000,
            r.font_size == 18 && r.line_spacing == 70_000,
    {
        GridSpec {
            cols: 4,
            rows: 4,
            page_width: 210 * UNITS_PER_MM,
            page_height: 297 * UNITS_PER_MM,
            margin: 5 * UNITS_PER_MM,
            text_inset: 10 * UNITS_PER_MM,
            font_size: 18,
            line_spacing: 7 * UNITS_PER_MM,
        }
    }

    /// The number of cells on a sheet.
    pub fn per_sheet(&self) -> (r: usize)
        requires
            self.wf(),
        ensures
            r == self.per_sheet_spec(),
            r >= 1,
    {
        proof {
            vstd::arithmetic::mul::lemma_mul_upper_bound(
                self.cols as int,
                MAX_GRID as int,
                self.rows as int,
                MAX_GRID as int,
            );
            vstd::arithmetic::mul::lemma_mul_strictly_positive(self.cols as int, self.rows as int);
        }
        self.cols * self.rows
    }

    /// The width of a cell.
    pub fn cell_width(&self) -> (r: u64)
        requires
            self.wf(),
        ensures
            r == self.cell_width_spec(),
            r <= MAX_LENGTH,
    {
        (self.page_width - 2 * self.margin) / (self.cols as u64)
    }

    /// The height of a cell.
    pub fn cell_height(&self) -> (r: u64)
        requires
            self.wf(),
        ensures
            r == self.cell_height_spec(),
            r <= MAX_LENGTH,
    {
        (self.page_height - 2 * self.margin) / (self.rows as u64)
    }

    /// The span that text runs along in a cell.
    pub fn text_span(&self) -> (r: u64)
        requires
            self.wf(),
        ensures
            r == self.text_span_spec(),
    {
        self.cell_height() - 2 * self.text_inset
    }

    /// The cell that the card at `index` of a sheet occupies on the given side.
    pub fn cell_for(&self, index: usize, is_front: bool) -> (r: Cell)
        requires
            self.wf(),
            index < self.per_sheet_spec(),
        ensures
            (r.col as int, r.row as int) == cell_of(self.cols as int, index as int, is_front),
            r.col < self.cols,
            r.row < self.rows,
    {
        proof {
            let (i, c, rw) = (index as int, self.cols as int, self.rows as int);
            assert(i / c < rw) by (nonlinear_arith)
                requires 0 <= i < c * rw, c >= 1;
            assert(0 <= i % c < c) by (nonlinear_arith)
                requires 0 <= i, c >= 1;
        }
        let col = index % self.cols;
        let row = index / self.cols;
        if is_front {
            Cell { col, row }
        } else {
            Cell { col: self.cols - 1 - col, row }
        }
    }

    /// The bottom-left corner of `cell`.
    pub fn cell_origin(&self, cell: Cell) -> (r: Point)
        requires
            self.wf(),
            cell.col < self.cols,
            cell.row < self.rows,
        ensures
            r == self.origin_spec(cell),
            0 <= r.x && r.x + self.cell_width_spec() <= self.page_width,
            0 <= r.y && r.y + self.cell_height_spec() <= self.page_height,
    {
        let w = self.cell_width();
        let h = self.cell_height();
        proof {
            let cw = self.cell_width_spec() as int;
            let ch = self.cell_height_spec() as int;
            let iw = (self.page_width - 2 * self.margin) as int;
            let ih = (self.page_height - 2 * self.margin) as int;
            assert(cw * (self.cols as int) <= iw) by (nonlinear_arith)
                requires cw == iw / (self.cols as int), self.cols >= 1;
            assert(ch * (self.rows as int) <= ih) by (nonlinear_arith)
                requires ch == ih / (self.rows as int), self.rows >= 1;
            assert((cell.col as int + 1) * cw <= (self.cols as int) * cw) by (nonlinear_arith)
                requires cell.col < self.cols, cw >= 0;
            assert((cell.row as int + 1) * ch <= (self.rows as int) * ch) by (nonlinear_arith)
                requires cell.row < self.rows, ch >= 0;
            assert((cell.col as int + 1) * cw == cell.col as int * cw + cw) by (nonlinear_arith);
            assert(0 <= cell.col as int * cw) by (nonlinear_arith)
                requires cw >= 0;
            assert(0 <= cell.row as int * ch) by (nonlinear_arith)
                requires ch >= 0;
            assert((cell.row as int + 1) * ch == cell.row as int * ch + ch) by (nonlinear_arith);
        }
        let x = self.margin as i128 + cell.col as i128 * w as i128;
        let y = self.page_height as i128 - self.margin as i128 - (cell.row as i128 + 1) * h as i128;
        Point { x, y }
    }
}

/// Mirroring a column is its own inverse, and the back cell of a card lies in
/// the same row as its front cell, in the mirrored column: mirroring the back
/// column again and reading the grid row-major gives back the card's index.
pub proof fn lemma_mirror_round_trip(cols: int, index: int)
    requires
        cols >= 1,
        index >= 0,
    ensures
        forall|c: int| #[trigger] mirror(cols, mirror(cols, c)) == c,
        cell_of(cols, index, false).0 == mirror(cols, cell_of(cols, index, true).0),
        cell_of(cols, index, false).1 == cell_of(cols, index, true).1,
        0 <= cell_of(cols, index, false).0 < cols,
        cell_of(cols, index, false).1 * cols + mirror(cols, cell_of(cols, index, false).0) == index,
{
    vstd::arithmetic::div_mod::lemma_fundamental_div_mod(index, cols);
    vstd::arithmetic::div_mod::lemma_mod_bound(index, cols);
    vstd::arithmetic::mul::lemma_mul_is_commutative(index / cols, cols);
}

} // verus!
