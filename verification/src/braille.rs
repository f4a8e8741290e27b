//! Quantisation of a raster into braille cells: one cell per block of
//! two by four pixels, one dot per pixel, one averaged colour per cell.

use vstd::prelude::*;
use crate::raster::{Raster, RasterView, Rgba};

verus! {

/// Code point of the braille pattern with no dot raised.
pub const BRAILLE_BASE: u32 = 0x2800;

/// A pixel raises its dot only if its alpha is above this value.
pub const ALPHA_THRESHOLD: u8 = 50;

/// Weight of red in the luminance, in ten-thousandths: 0.2126.
pub const LUMA_RED: u32 = 2126;

/// Weight of green in the luminance, in ten-thousandths: 0.7152.
pub const LUMA_GREEN: u32 = 7152;

/// Weight of blue in the luminance, in ten-thousandths: 0.0722.
pub const LUMA_BLUE: u32 = 722;

/// A pixel raises its dot only if its weighted luminance is above this
/// value: 20 on the scale of the samples, times ten thousand.
pub const LUMA_THRESHOLD: u32 = 200_000;

/// One character position: a braille glyph and its foreground colour.
#[derive(Clone, Copy, Debug, PartialEq, Eq, Structural)]
pub struct Cell {
    pub glyph: char,
    pub red: u8,
    pub green: u8,
    pub blue: u8,
}

impl Cell {
    /// Whether dot `k` of the cell's glyph is raised.
    pub open spec fn has_dot(self, k: int) -> bool {
        ((self.glyph as int - BRAILLE_BASE) / (dot_weight(k) as int)) % 2 == 1
    }
}

/// Column of the pixel behind dot `k` of the block in cell column `col`:
/// dots 0 to 3 are the left pixel column, dots 4 to 7 the right one.
pub open spec fn dot_x(col: int, k: int) -> int {
    2 * col + k / 4
}

/// Row of the pixel behind dot `k` of the block in cell row `row`:
/// within each pixel column the dots run from top to bottom.
pub open spec fn dot_y(row: int, k: int) -> int {
    4 * row + k % 4
}

/// The value of bit `k` in a dot mask.
pub open spec fn dot_weight(k: int) -> nat {
    if k == 0 {
        1
    } else if k == 1 {
        2
    } else if k == 2 {
        4
    } else if k == 3 {
        8
    } else if k == 4 {
        16
    } else if k == 5 {
        32
    } else if k == 6 {
        64
    } else {
        128
    }
}

/// Whether a pixel is opaque enough and bright enough to raise a dot.
pub open spec fn is_lit(p: Rgba) -> bool {
    p.alpha > ALPHA_THRESHOLD && LUMA_RED * p.red + LUMA_GREEN * p.green + LUMA_BLUE * p.blue
        > LUMA_THRESHOLD
}

/// Whether the pixel behind dot `k` of block `(col, row)` exists.
pub open spec fn dot_sampled(img: RasterView, col: int, row: int, k: int) -> bool {
    img.contains(dot_x(col, k), dot_y(row, k))
}

/// Whether dot `k` of block `(col, row)` is raised.
pub open spec fn dot_set(img: RasterView, col: int, row: int, k: int) -> bool {
    dot_sampled(img, col, row, k) && is_lit(img.pixel(dot_x(col, k), dot_y(row, k)))
}

/// One colour sample of a pixel: 0 is red, 1 is green, anything else blue.
pub open spec fn channel(p: Rgba, c: int) -> u8 {
    if c == 0 {
        p.red
    } else if c == 1 {
        p.green
    } else {
        p.blue
    }
}

/// The sum of `part(k)` over the dots `k` below `n`, of the eight dots of a
/// block.
pub open spec fn sum_dots(part: spec_fn(int) -> nat, n: nat) -> nat {
    (if n > 0 {
        part(0)
    } else {
        0
    }) + (if n > 1 {
        part(1)
    } else {
        0
    }) + (if n > 2 {
        part(2)
    } else {
        0
    }) + (if n > 3 {
        part(3)
    } else {
        0
    }) + (if n > 4 {
        part(4)
    } else {
        0
    }) + (if n > 5 {
        part(5)
    } else {
        0
    }) + (if n > 6 {
        part(6)
    } else {
        0
    }) + (if n > 7 {
        part(7)
    } else {
        0
    })
}

/// The dot mask of block `(col, row)` restricted to the dots below `n`.
pub open spec fn mask_below(img: RasterView, col: int, row: int, n: nat) -> nat {
    sum_dots(
        |k: int|
            if dot_set(img, col, row, k) {
                dot_weight(k)
            } else {
                0
            },
        n,
    )
}

/// How many of the dots below `n` of block `(col, row)` have a pixel.
pub open spec fn count_below(img: RasterView, col: int, row: int, n: nat) -> nat {
    sum_dots(
        |k: int|
            if dot_sampled(img, col, row, k) {
                1nat
            } else {
                0
            },
        n,
    )
}

/// The sum of colour sample `c` over the existing pixels behind the dots
/// below `n` of block `(col, row)`.
pub open spec fn sum_below(img: RasterView, col: int, row: int, c: int, n: nat) -> nat {
    sum_dots(
        |k: int|
            if dot_sampled(img, col, row, k) {
                channel(img.pixel(dot_x(col, k), dot_y(row, k)), c) as nat
            } else {
                0
            },
        n,
    )
}

/// The dot mask of block `(col, row)`: bit `k` stands for dot `k`.
pub open spec fn block_mask(img: RasterView, col: int, row: int) -> nat {
    mask_below(img, col, row, 8)
}

/// The number of pixels that block `(col, row)` has inside the raster.
pub open spec fn block_count(img: RasterView, col: int, row: int) -> nat {
    count_below(img, col, row, 8)
}

/// The sum of colour sample `c` over the pixels of block `(col, row)`.
pub open spec fn block_sum(img: RasterView, col: int, row: int, c: int) -> nat {
    sum_below(img, col, row, c, 8)
}

/// The truncated mean of colour sample `c` over the pixels of the block;
/// zero for a block without pixels.
pub open spec fn block_mean(img: RasterView, col: int, row: int, c: int) -> nat {
    if block_count(img, col, row) == 0 {
        0
    } else {
        block_sum(img, col, row, c) / block_count(img, col, row)
    }
}

/// The glyph for a dot mask below 256.
pub open spec fn glyph_of(mask: nat) -> char {
    (BRAILLE_BASE + mask) as char
}

/// The cell that block `(col, row)` of the raster turns into.
pub open spec fn cell_at(img: RasterView, col: int, row: int) -> Cell {
    Cell {
        glyph: glyph_of(block_mask(img, col, row)),
        red: block_mean(img, col, row, 0) as u8,
        green: block_mean(img, col, row, 1) as u8,
        blue: block_mean(img, col, row, 2) as u8,
    }
}

/// Partial masks stay below the weight of the next dot, partial counts
/// below the number of dots seen, partial sums below 255 per pixel.
pub proof fn lemma_partial_bounds(img: RasterView, col: int, row: int, c: int, n: nat)
    requires
        n <= 8,
    ensures
        mask_below(img, col, row, n) < (if n == 8 {
            256
        } else {
            dot_weight(n as int)
        }),
        count_below(img, col, row, n) <= n,
        sum_below(img, col, row, c, n) <= 255 * count_below(img, col, row, n),
{
}

/// Every cell holds a glyph of the braille block and the mean colour of
/// its pixels, each of which fits a byte.
pub proof fn lemma_cell_ranges(img: RasterView, col: int, row: int)
    ensures
        block_mask(img, col, row) <= 255,
        block_count(img, col, row) <= 8,
        forall|c: int| #[trigger] block_mean(img, col, row, c) <= 255,
        cell_at(img, col, row).glyph as u32 == BRAILLE_BASE + block_mask(img, col, row),
{
    lemma_partial_bounds(img, col, row, 0, 8);
    assert forall|c: int| #[trigger] block_mean(img, col, row, c) <= 255 by {
        lemma_partial_bounds(img, col, row, c, 8);
        let count = block_count(img, col, row);
        let sum = block_sum(img, col, row, c);
        if count > 0 {
            assert(sum / count <= 255) by (nonlinear_arith)
                requires
                    count > 0,
                    sum <= 255 * count,
            ;
        }
    }
}

/// `char::from_u32` of the standard library: the character with the given
/// code point, which exists exactly for the Unicode scalar values, that is
/// for the code points up to 0x10FFFF outside the surrogate range.
#[verifier::external_body]
fn char_from_u32(code: u32) -> (c: Option<char>)
    ensures
        c.is_some() <==> (code <= 0xD7FF || 0xE000 <= code <= 0x10FFFF),
        c matches Some(ch) ==> ch == code as char,
{
    char::from_u32(code)
}

/// The braille glyph whose raised dots are the set bits of `mask`.
pub fn braille_glyph(mask: u8) -> (glyph: char)
    ensures
        glyph == glyph_of(mask as nat),
        glyph as u32 == BRAILLE_BASE + mask,
{
    match char_from_u32(BRAILLE_BASE + mask as u32) {
        Some(glyph) => glyph,
        None => ' ',
    }
}

/// Whether a pixel raises its dot: alpha above [`ALPHA_THRESHOLD`] and
/// luminance `0.2126 R + 0.7152 G + 0.0722 B` above 20.
pub fn pixel_is_lit(p: Rgba) -> (lit: bool)
    ensures
        lit == is_lit(p),
{
    let luma: u32 = LUMA_RED * (p.red as u32) + LUMA_GREEN * (p.green as u32) + LUMA_BLUE * (
    p.blue as u32);
    p.alpha > ALPHA_THRESHOLD && luma > LUMA_THRESHOLD
}

/// Turns the block of two by four pixels at cell position `(col, row)` into
/// a cell. Pixels of the block outside the raster raise no dot and take no
/// part in the colour; a block with no pixel at all gives the blank glyph
/// in black.
pub fn sample_block(img: &Raster, col: u32, row: u32) -> (cell: Cell)
    ensures
        cell == cell_at(img@, col as int, row as int),
{
    let mut red_sum: u32 = 0;
    let mut green_sum: u32 = 0;
    let mut blue_sum: u32 = 0;
    let mut count: u32 = 0;
    let mut dots: u8 = 0;
    let mut k: u8 = 0;
    let width: u32 = img.width();
    let height: u32 = img.height();
    while k < 8
        invariant
            k <= 8,
            width == img@.width,
            height == img@.height,
            dots == mask_below(img@, col as int, row as int, k as nat),
            count == count_below(img@, col as int, row as int, k as nat),
            red_sum == sum_below(img@, col as int, row as int, 0, k as nat),
            green_sum == sum_below(img@, col as int, row as int, 1, k as nat),
            blue_sum == sum_below(img@, col as int, row as int, 2, k as nat),
        decreases 8 - k,
    {
        proof {
            lemma_partial_bounds(img@, col as int, row as int, 0, k as nat);
            lemma_partial_bounds(img@, col as int, row as int, 1, k as nat);
            lemma_partial_bounds(img@, col as int, row as int, 2, k as nat);
        }
        let px_x: u64 = 2 * (col as u64) + (k / 4) as u64;
        let px_y: u64 = 4 * (row as u64) + (k % 4) as u64;
        if px_x < width as u64 && px_y < height as u64 {
            if let Some(p) = img.get_pixel(px_x as u32, px_y as u32) {
                if pixel_is_lit(p) {
                    let bit: u8 = 1u8 << k;
                    assert(bit == dot_weight(k as int) && (dots < bit ==> dots | bit == dots
                        + bit)) by (bit_vector)
                        requires
                            k < 8,
                            bit == 1u8 << k,
                    ;
                    dots = dots | bit;
                }
                red_sum = red_sum + p.red as u32;
                green_sum = green_sum + p.green as u32;
                blue_sum = blue_sum + p.blue as u32;
                count = count + 1;
            }
        }
        k = k + 1;
    }
    proof {
        lemma_cell_ranges(img@, col as int, row as int);
    }
    let glyph: char = braille_glyph(dots);
    if count > 0 {
        Cell {
            glyph,
            red: (red_sum / count) as u8,
            green: (green_sum / count) as u8,
            blue: (blue_sum / count) as u8,
        }
    } else {
        Cell { glyph, red: 0, green: 0, blue: 0 }
    }
}

/// Number of cell columns of a raster: its width in blocks, rounded up.
pub open spec fn grid_cols(img: RasterView) -> nat {
    (img.width + 1) / 2
}

/// Number of cell rows of a raster: its height in blocks, rounded up.
pub open spec fn grid_rows(img: RasterView) -> nat {
    (img.height + 3) / 4
}

/// One row of cells of the rasterised image.
pub open spec fn rasterized_row(img: RasterView, row: int) -> Seq<Cell> {
    Seq::new(grid_cols(img), |col: int| cell_at(img, col, row))
}

/// The rasterised image: rows from top to bottom, cells from left to right.
pub open spec fn rasterized(img: RasterView) -> Seq<Seq<Cell>> {
    Seq::new(grid_rows(img), |row: int| rasterized_row(img, row))
}

/// A rectangular grid of cells, fixed once it is made.
pub struct RasterizedFrame {
    rows: Vec<Vec<Cell>>,
}

impl View for RasterizedFrame {
    type V = Seq<Seq<Cell>>;

    closed spec fn view(&self) -> Seq<Seq<Cell>> {
        Seq::new(self.rows@.len(), |row: int| self.rows@[row]@)
    }
}

impl RasterizedFrame {
    #[verifier::type_invariant]
    spec fn inv(self) -> bool {
        forall|row: int|
            0 <= row < self.rows@.len() ==> (#[trigger] self.rows@[row])@.len()
                == self.rows@[0]@.len()
    }

    /// Number of cell rows.
    pub fn height(&self) -> (n: usize)
        ensures
            n == self@.len(),
    {
        self.rows.len()
    }

    /// Number of cells in every row; zero for a grid without rows.
    pub fn width(&self) -> (n: usize)
        ensures
            forall|row: int| 0 <= row < self@.len() ==> (#[trigger] self@[row]).len() == n,
            self@.len() == 0 ==> n == 0,
    {
        proof {
            use_type_invariant(self);
        }
        if self.rows.len() == 0 {
            0
        } else {
            self.rows[0].len()
        }
    }

    /// The cells of row `row`, from left to right; `None` below the grid.
    pub fn row(&self, row: usize) -> (cells: Option<&Vec<Cell>>)
        ensures
            row < self@.len() ==> cells.is_some() && cells.unwrap()@ == self@[row as int],
            row >= self@.len() ==> cells.is_none(),
    {
        if row < self.rows.len() {
            Some(&self.rows[row])
        } else {
            None
        }
    }

    /// The cell in column `col` of row `row`; `None` outside the grid.
    pub fn cell(&self, col: usize, row: usize) -> (cell: Option<Cell>)
        ensures
            (row < self@.len() && col < self@[row as int].len()) ==> cell == Some(
                self@[row as int][col as int],
            ),
            !(row < self@.len() && col < self@[row as int].len()) ==> cell.is_none(),
    {
        if row < self.rows.len() {
            let cells: &Vec<Cell> = &self.rows[row];
            if col < cells.len() {
                return Some(cells[col]);
            }
        }
        None
    }
}

/// Converts a raster into braille cells: `ceil(width / 2)` columns by
/// `ceil(height / 4)` rows, each cell sampled from its own block.
pub fn rgba_to_braille_colored(img: &Raster) -> (frame: RasterizedFrame)
    ensures
        frame@ == rasterized(img@),
{
    let width: u32 = img.width();
    let height: u32 = img.height();
    let cell_cols: u32 = width / 2 + width % 2;
    let cell_rows: u32 = height / 4 + (if height % 4 == 0 {
        0
    } else {
        1
    });
    let mut rows: Vec<Vec<Cell>> = Vec::new();
    let mut row: u32 = 0;
    while row < cell_rows
        invariant
            row <= cell_rows,
            cell_cols == grid_cols(img@),
            cell_rows == grid_rows(img@),
            rows@.len() == row,
            forall|r: int| 0 <= r < row ==> (#[trigger] rows@[r])@ == rasterized_row(img@, r),
        decreases cell_rows - row,
    {
        let mut cells: Vec<Cell> = Vec::new();
        let mut col: u32 = 0;
        while col < cell_cols
            invariant
                col <= cell_cols,
                cell_cols == grid_cols(img@),
                cells@.len() == col,
                forall|c: int|
                    0 <= c < col ==> #[trigger] cells@[c] == cell_at(img@, c, row as int),
            decreases cell_cols - col,
        {
            cells.push(sample_block(img, col, row));
            col = col + 1;
        }
        assert(cells@ =~= rasterized_row(img@, row as int));
        rows.push(cells);
        row = row + 1;
    }
    let frame = RasterizedFrame { rows };
    assert(frame@ =~= rasterized(img@));
    frame
}

/// Dot `k` of a cell is raised exactly if the pixel behind it exists, has
/// an alpha above the threshold and a luminance above the threshold.
pub proof fn lemma_dot_raised_iff_lit(img: RasterView, col: int, row: int, k: int)
    requires
        0 <= k < 8,
    ensures
        cell_at(img, col, row).has_dot(k) <==> dot_set(img, col, row, k),
{
    lemma_cell_ranges(img, col, row);
    let b = |i: int| if dot_set(img, col, row, i) { 1nat } else { 0nat };
    assert(block_mask(img, col, row) == b(0) + 2 * b(1) + 4 * b(2) + 8 * b(3) + 16 * b(4) + 32
        * b(5) + 64 * b(6) + 128 * b(7));
    lemma_bit_of_mask(b(0), b(1), b(2), b(3), b(4), b(5), b(6), b(7), k);
}

/// In a sum of eight binary digits, each weighted by its power of two,
/// digit `k` is the quotient by that power, modulo two.
proof fn lemma_bit_of_mask(
    b0: nat,
    b1: nat,
    b2: nat,
    b3: nat,
    b4: nat,
    b5: nat,
    b6: nat,
    b7: nat,
    k: int,
)
    requires
        b0 <= 1,
        b1 <= 1,
        b2 <= 1,
        b3 <= 1,
        b4 <= 1,
        b5 <= 1,
        b6 <= 1,
        b7 <= 1,
        0 <= k < 8,
    ensures
        ((b0 + 2 * b1 + 4 * b2 + 8 * b3 + 16 * b4 + 32 * b5 + 64 * b6 + 128 * b7) / dot_weight(k))
            % 2 == (if k == 0 {
            b0
        } else if k == 1 {
            b1
        } else if k == 2 {
            b2
        } else if k == 3 {
            b3
        } else if k == 4 {
            b4
        } else if k == 5 {
            b5
        } else if k == 6 {
            b6
        } else {
            b7
        }),
{
    if k == 0 {
        lemma_digit(0, 1, b0, b1 + 2 * b2 + 4 * b3 + 8 * b4 + 16 * b5 + 32 * b6 + 64 * b7);
    } else if k == 1 {
        lemma_digit(b0, 2, b1, b2 + 2 * b3 + 4 * b4 + 8 * b5 + 16 * b6 + 32 * b7);
    } else if k == 2 {
        lemma_digit(b0 + 2 * b1, 4, b2, b3 + 2 * b4 + 4 * b5 + 8 * b6 + 16 * b7);
    } else if k == 3 {
        lemma_digit(b0 + 2 * b1 + 4 * b2, 8, b3, b4 + 2 * b5 + 4 * b6 + 8 * b7);
    } else if k == 4 {
        lemma_digit(b0 + 2 * b1 + 4 * b2 + 8 * b3, 16, b4, b5 + 2 * b6 + 4 * b7);
    } else if k == 5 {
        lemma_digit(b0 + 2 * b1 + 4 * b2 + 8 * b3 + 16 * b4, 32, b5, b6 + 2 * b7);
    } else if k == 6 {
        lemma_digit(b0 + 2 * b1 + 4 * b2 + 8 * b3 + 16 * b4 + 32 * b5, 64, b6, b7);
    } else {
        lemma_digit(b0 + 2 * b1 + 4 * b2 + 8 * b3 + 16 * b4 + 32 * b5 + 64 * b6, 128, b7, 0);
    }
}

/// A number written as `low + weight * (digit + 2 * high)` with
/// `low < weight` and a binary `digit` has that digit at `weight`.
proof fn lemma_digit(low: nat, weight: nat, digit: nat, high: nat)
    requires
        low < weight,
        digit <= 1,
    ensures
        ((low + weight * (digit + 2 * high)) / weight) % 2 == digit,
{
    let upper = digit + 2 * high;
    assert((low + weight * upper) / weight == upper) by (nonlinear_arith)
        requires
            low < weight,
    ;
}

/// A block that lies inside the raster and is white and fully opaque
/// throughout becomes the glyph with all eight dots, in white.
pub proof fn lemma_white_block(img: RasterView, col: int, row: int)
    requires
        forall|x: int, y: int|
            2 * col <= x < 2 * col + 2 && 4 * row <= y < 4 * row + 4 ==> img.contains(x, y)
                && #[trigger] img.pixel(x, y) == (Rgba {
                red: 255,
                green: 255,
                blue: 255,
                alpha: 255,
            }),
    ensures
        cell_at(img, col, row) == (Cell { glyph: '\u{28FF}', red: 255, green: 255, blue: 255 }),
{
    assert forall|k: int| 0 <= k < 8 implies #[trigger] dot_set(img, col, row, k) by {
        assert(img.pixel(dot_x(col, k), dot_y(row, k)).alpha == 255);
    }
    assert(block_mask(img, col, row) == 255);
    assert(block_count(img, col, row) == 8);
    assert(block_sum(img, col, row, 0) == 8 * 255);
    assert(block_sum(img, col, row, 1) == 8 * 255);
    assert(block_sum(img, col, row, 2) == 8 * 255);
}

/// A block whose pixels all have an alpha at or below the threshold
/// raises no dot, whatever their colours, and still reports the mean of
/// those colours.
pub proof fn lemma_transparent_block(img: RasterView, col: int, row: int)
    requires
        forall|k: int|
            0 <= k < 8 && dot_sampled(img, col, row, k) ==> (#[trigger] img.pixel(
                dot_x(col, k),
                dot_y(row, k),
            )).alpha <= ALPHA_THRESHOLD,
    ensures
        block_mask(img, col, row) == 0,
        cell_at(img, col, row).glyph == '\u{2800}',
        cell_at(img, col, row).red == block_mean(img, col, row, 0),
        cell_at(img, col, row).green == block_mean(img, col, row, 1),
        cell_at(img, col, row).blue == block_mean(img, col, row, 2),
{
    lemma_cell_ranges(img, col, row);
    assert forall|k: int| 0 <= k < 8 implies !dot_set(img, col, row, k) by {}
    assert(block_mean(img, col, row, 0) <= 255);
    assert(block_mean(img, col, row, 1) <= 255);
    assert(block_mean(img, col, row, 2) <= 255);
}

/// The number of pixel columns that block column `col` has inside a
/// raster of the given width: two, one at the right edge of an odd width,
/// none beyond it.
pub open spec fn columns_inside(width: nat, col: int) -> nat {
    if width >= 2 * col + 2 {
        2
    } else if width == 2 * col + 1 {
        1
    } else {
        0
    }
}

/// The number of pixel rows that block row `row` has inside a raster of
/// the given height: four, fewer at the bottom edge, none beyond it.
pub open spec fn rows_inside(height: nat, row: int) -> nat {
    if height >= 4 * row + 4 {
        4
    } else if height > 4 * row {
        (height - 4 * row) as nat
    } else {
        0
    }
}

/// A block at the edge is sampled only where the raster has pixels: a
/// position outside raises no dot and adds nothing to count or sum, so the
/// count is the number of pixels of the block inside the raster.
pub proof fn lemma_edge_block(img: RasterView, col: int, row: int)
    requires
        col >= 0,
        row >= 0,
    ensures
        forall|k: int|
            0 <= k < 8 && !dot_sampled(img, col, row, k) ==> !(#[trigger] cell_at(
                img,
                col,
                row,
            ).has_dot(k)),
        block_count(img, col, row) == columns_inside(img.width, col) * rows_inside(
            img.height,
            row,
        ),
        (col < grid_cols(img) && row < grid_rows(img)) ==> block_count(img, col, row) >= 1,
{
    assert forall|k: int| 0 <= k < 8 && !dot_sampled(img, col, row, k) implies !(
    #[trigger] cell_at(img, col, row).has_dot(k)) by {
        lemma_dot_raised_iff_lit(img, col, row, k);
    }
    let cx = columns_inside(img.width, col);
    let cy = rows_inside(img.height, row);
    assert(cx * cy == if cx == 0 {
        0
    } else if cx == 1 {
        cy
    } else {
        cy + cy
    }) by (nonlinear_arith)
        requires
            0 <= cx <= 2,
    ;
}

} // verus!
