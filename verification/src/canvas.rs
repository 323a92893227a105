//! A canvas of byte cells for drawing rectangles.
//!
//! The canvas owns a logical grid of `width x height` cells, each holding
//! either the clear byte or the rectangle byte. [`Canvas::render`] upscales
//! the grid by the integer resolution factor, appending a line feed to every
//! row, and returns the whole screen as one flat byte buffer ready to be
//! written to a sink at a fixed offset.

use vstd::arithmetic::div_mod::lemma_fundamental_div_mod_converse;
use vstd::arithmetic::div_mod::lemma_multiply_divide_lt;
use vstd::prelude::*;

verus! {

/// Byte stored in every untouched cell.
pub const CLEAR_CHAR: u8 = 0x20;

/// Byte stored in every cell covered by a drawn rectangle.
pub const RECT_CHAR: u8 = 0x23;

/// Byte ending every rendered row.
pub const LINE_FEED: u8 = 0x0A;

/// A point or extent in cell units.
#[derive(Debug, Clone, Copy, PartialEq, Eq, Structural)]
pub struct Vec2 {
    pub x: u32,
    pub y: u32,
}

/// An axis-aligned rectangle in cell units.
#[derive(Debug, Clone, Copy, PartialEq, Eq, Structural)]
pub struct Rectangle {
    /// Position of the top left corner.
    pub pos: Vec2,
    /// Size along each axis.
    pub size: Vec2,
}

/// A grid of byte cells with a resolution-scaled rendering.
#[derive(Debug)]
pub struct Canvas {
    size: Vec2,
    /// Resolution: each cell renders as a block of `res x res` bytes.
    res: u32,
    /// Cell bytes, row-major, `size.y` rows of `size.x` cells.
    content: Vec<u8>,
}

#[derive(Debug, Clone, Copy, PartialEq, Eq, Structural)]
pub enum CanvasError {
    OutOfBounds,
}

/// Cell `(i, j)` (row `i`, column `j`) lies in the half-open cell range
/// `[rect.pos, rect.pos + rect.size)`.
pub open spec fn covers(rect: Rectangle, i: int, j: int) -> bool {
    &&& rect.pos.y <= i < rect.pos.y + rect.size.y
    &&& rect.pos.x <= j < rect.pos.x + rect.size.x
}

/// A row-major cell index lies inside the grid's flat buffer.
proof fn lemma_grid_index_bounds(h: int, w: int, i: int, j: int)
    requires
        0 <= i < h,
        0 <= j < w,
    ensures
        0 <= i * w,
        i * w + j < h * w,
{
    assert(0 <= i * w && i * w + j < h * w) by (nonlinear_arith)
        requires
            0 <= i < h,
            0 <= j < w,
    ;
}

/// Row-major indexing is injective on grid coordinates.
proof fn lemma_grid_index_injective(w: int, i: int, j: int, i2: int, j2: int)
    requires
        0 <= j < w,
        0 <= j2 < w,
        i * w + j == i2 * w + j2,
    ensures
        i == i2,
        j == j2,
{
    assert(i == i2 && j == j2) by (nonlinear_arith)
        requires
            0 <= j < w,
            0 <= j2 < w,
            i * w + j == i2 * w + j2,
    ;
}

/// Bounds on the grid and screen dimensions that follow from the screen
/// buffer fitting in memory.
proof fn lemma_size_products(h: int, w: int, r: int, m: int)
    requires
        1 <= h,
        1 <= w,
        1 <= r,
        (h * r) * (w * r + 1) <= m,
    ensures
        h * w <= m,
        w * r + 1 <= m,
        h * r <= m,
{
    assert(h * w <= m && w * r + 1 <= m && h * r <= m) by (nonlinear_arith)
        requires
            1 <= h,
            1 <= w,
            1 <= r,
            (h * r) * (w * r + 1) <= m,
    ;
}

impl Canvas {
    /// Grid width in cells.
    pub closed spec fn width(&self) -> int {
        self.size.x as int
    }

    /// Grid height in cells.
    pub closed spec fn height(&self) -> int {
        self.size.y as int
    }

    /// Resolution factor.
    pub closed spec fn resolution(&self) -> int {
        self.res as int
    }

    /// The cell bytes, row-major.
    pub closed spec fn cells(&self) -> Seq<u8> {
        self.content@
    }

    /// The byte of cell `(i, j)` (row `i`, column `j`).
    pub open spec fn cell(&self, i: int, j: int) -> u8 {
        self.cells()[i * self.width() + j]
    }

    /// Well-formedness: positive dimensions, a cell buffer of the right
    /// length holding only the two cell bytes, and a screen buffer that fits
    /// in memory.
    pub open spec fn wf(&self) -> bool {
        &&& 1 <= self.width()
        &&& 1 <= self.height()
        &&& 1 <= self.resolution()
        &&& self.cells().len() == self.height() * self.width()
        &&& self.height() * self.width() <= usize::MAX
        &&& self.screen_rows() * self.screen_cols() <= usize::MAX
        &&& forall|k: int|
            0 <= k < self.cells().len() ==> (#[trigger] self.cells()[k]) == CLEAR_CHAR
                || self.cells()[k] == RECT_CHAR
    }

    /// Number of rendered rows.
    pub open spec fn screen_rows(&self) -> int {
        self.height() * self.resolution()
    }

    /// Number of bytes per rendered row, the line feed included.
    pub open spec fn screen_cols(&self) -> int {
        self.width() * self.resolution() + 1
    }

    /// The byte at index `n` of the rendered screen: the line feed at the end
    /// of each row, and everywhere else the cell the screen position maps
    /// down to.
    pub open spec fn screen_byte(&self, n: int) -> u8 {
        let k = n / self.screen_cols();
        let c = n % self.screen_cols();
        if c == self.screen_cols() - 1 {
            LINE_FEED
        } else {
            self.cell(k / self.resolution(), c / self.resolution())
        }
    }

    /// `buf` is exactly the rendered screen of this canvas: full length, and
    /// every byte determined by [`Canvas::screen_byte`].
    pub open spec fn rendered(&self, buf: Seq<u8>) -> bool {
        &&& buf.len() == self.screen_rows() * self.screen_cols()
        &&& forall|n: int| 0 <= n < buf.len() ==> (#[trigger] buf[n]) == self.screen_byte(n)
    }

    /// Creates a canvas of `size` cells at resolution `res`, every cell
    /// clear.
    pub fn new(size: Vec2, res: u32) -> (c: Canvas)
        requires
            1 <= size.x,
            1 <= size.y,
            1 <= res,
            (size.y * res) * (size.x * res + 1) <= usize::MAX,
        ensures
            c.wf(),
            c.width() == size.x,
            c.height() == size.y,
            c.resolution() == res,
            forall|i: int, j: int|
                0 <= i < c.height() && 0 <= j < c.width() ==> #[trigger] c.cell(i, j) == CLEAR_CHAR,
    {
        proof {
            lemma_size_products(size.y as int, size.x as int, res as int, usize::MAX as int);
        }
        let total = (size.y as usize) * (size.x as usize);
        let mut content: Vec<u8> = Vec::new();
        let mut k: usize = 0;
        while k < total
            invariant
                k <= total,
                content@.len() == k,
                forall|m: int| 0 <= m < k ==> (#[trigger] content@[m]) == CLEAR_CHAR,
            decreases total - k,
        {
            content.push(CLEAR_CHAR);
            k += 1;
        }
        let c = Canvas { size, res, content };
        proof {
            assert forall|i: int, j: int|
                0 <= i < c.height() && 0 <= j < c.width() implies #[trigger] c.cell(i, j)
                == CLEAR_CHAR by {
                lemma_grid_index_bounds(c.height(), c.width(), i, j);
            }
        }
        c
    }

    /// Resets every cell to the clear byte. Idempotent; never fails.
    pub fn clear(&mut self)
        requires
            old(self).wf(),
        ensures
            final(self).wf(),
            final(self).width() == old(self).width(),
            final(self).height() == old(self).height(),
            final(self).resolution() == old(self).resolution(),
            forall|i: int, j: int|
                0 <= i < old(self).height() && 0 <= j < old(self).width()
                    ==> #[trigger] final(self).cell(i, j) == CLEAR_CHAR,
    {
        let total = self.content.len();
        let mut k: usize = 0;
        while k < total
            invariant
                k <= total,
                self.size == old(self).size,
                self.res == old(self).res,
                self.content@.len() == total,
                total == old(self).cells().len(),
                forall|m: int| 0 <= m < k ==> (#[trigger] self.cells()[m]) == CLEAR_CHAR,
                forall|m: int|
                    k <= m < total ==> (#[trigger] self.cells()[m]) == old(self).cells()[m],
            decreases total - k,
        {
            let ghost prev = self.cells();
            self.content[k] = CLEAR_CHAR;
            proof {
                assert(self.cells() == prev.update(k as int, CLEAR_CHAR));
                assert(self.cells()[k as int] == CLEAR_CHAR);
            }
            k += 1;
        }
        proof {
            assert forall|i: int, j: int|
                0 <= i < old(self).height() && 0 <= j < old(self).width()
                    implies #[trigger] self.cell(i, j) == CLEAR_CHAR by {
                lemma_grid_index_bounds(self.height(), self.width(), i, j);
            }
        }
    }

    /// Draws `rect` by setting every cell in `[rect.pos, rect.pos +
    /// rect.size)` to the rectangle byte, leaving all other cells as they
    /// were. If the far corner lies beyond the canvas on either axis, returns
    /// `OutOfBounds` and changes nothing.
    pub fn draw_rect(&mut self, rect: Rectangle) -> (res: Result<(), CanvasError>)
        requires
            old(self).wf(),
        ensures
            final(self).wf(),
            final(self).width() == old(self).width(),
            final(self).height() == old(self).height(),
            final(self).resolution() == old(self).resolution(),
            (rect.pos.x + rect.size.x > old(self).width() || rect.pos.y + rect.size.y > old(
                self,
            ).height()) ==> {
                &&& res == Result::<(), CanvasError>::Err(CanvasError::OutOfBounds)
                &&& final(self).cells() == old(self).cells()
            },
            (rect.pos.x + rect.size.x <= old(self).width() && rect.pos.y + rect.size.y <= old(
                self,
            ).height()) ==> {
                &&& res == Result::<(), CanvasError>::Ok(())
                &&& forall|i: int, j: int|
                    0 <= i < old(self).height() && 0 <= j < old(self).width()
                        ==> #[trigger] final(self).cell(i, j) == if covers(rect, i, j) {
                        RECT_CHAR
                    } else {
                        old(self).cell(i, j)
                    }
            },
    {
        if rect.pos.x as u64 + rect.size.x as u64 > self.size.x as u64 || rect.pos.y as u64
            + rect.size.y as u64 > self.size.y as u64 {
            return Err(CanvasError::OutOfBounds);
        }
        let w = self.size.x as usize;
        let h = self.size.y as usize;
        let x0 = rect.pos.x as usize;
        let x1 = x0 + rect.size.x as usize;
        let y0 = rect.pos.y as usize;
        let y1 = y0 + rect.size.y as usize;
        let mut i: usize = y0;
        while i < y1
            invariant
                y0 <= i <= y1,
                x1 <= w,
                y1 <= h,
                x0 == rect.pos.x,
                x1 == rect.pos.x + rect.size.x,
                y0 == rect.pos.y,
                y1 == rect.pos.y + rect.size.y,
                w == self.width(),
                h == self.height(),
                self.size == old(self).size,
                self.res == old(self).res,
                old(self).wf(),
                self.content@.len() == old(self).cells().len(),
                forall|k: int|
                    0 <= k < self.cells().len() ==> (#[trigger] self.cells()[k]) == CLEAR_CHAR
                        || self.cells()[k] == RECT_CHAR,
                forall|i2: int, j2: int|
                    0 <= i2 < h && 0 <= j2 < w ==> #[trigger] self.cell(i2, j2) == if (y0 <= i2 < i
                        && x0 <= j2 < x1) {
                        RECT_CHAR
                    } else {
                        old(self).cell(i2, j2)
                    },
            decreases y1 - i,
        {
            let mut j: usize = x0;
            while j < x1
                invariant
                    x0 <= j <= x1,
                    y0 <= i < y1,
                    x1 <= w,
                    y1 <= h,
                    x0 == rect.pos.x,
                    x1 == rect.pos.x + rect.size.x,
                    y0 == rect.pos.y,
                    y1 == rect.pos.y + rect.size.y,
                    w == self.width(),
                    h == self.height(),
                    self.size == old(self).size,
                    self.res == old(self).res,
                    old(self).wf(),
                    self.content@.len() == old(self).cells().len(),
                    forall|k: int|
                        0 <= k < self.cells().len() ==> (#[trigger] self.cells()[k]) == CLEAR_CHAR
                            || self.cells()[k] == RECT_CHAR,
                    forall|i2: int, j2: int|
                        0 <= i2 < h && 0 <= j2 < w ==> #[trigger] self.cell(i2, j2) == if (y0 <= i2
                            < i && x0 <= j2 < x1) || (i2 == i && x0 <= j2 < j) {
                            RECT_CHAR
                        } else {
                            old(self).cell(i2, j2)
                        },
                decreases x1 - j,
            {
                proof {
                    lemma_grid_index_bounds(h as int, w as int, i as int, j as int);
                }
                let ghost prev = *self;
                self.content[i * w + j] = RECT_CHAR;
                proof {
                    assert(self.cells() == prev.cells().update(
                        (i as int) * (w as int) + (j as int),
                        RECT_CHAR,
                    ));
                    assert forall|i2: int, j2: int| 0 <= i2 < h && 0 <= j2 < w implies #[trigger] self.cell(
                        i2,
                        j2,
                    ) == if (y0 <= i2 < i && x0 <= j2 < x1) || (i2 == i && x0 <= j2 < j + 1) {
                        RECT_CHAR
                    } else {
                        old(self).cell(i2, j2)
                    } by {
                        lemma_grid_index_bounds(h as int, w as int, i2, j2);
                        assert(prev.cell(i2, j2) == if (y0 <= i2 < i && x0 <= j2 < x1) || (i2 == i
                            && x0 <= j2 < j) {
                            RECT_CHAR
                        } else {
                            old(self).cell(i2, j2)
                        });
                        if i2 * (w as int) + j2 == (i as int) * (w as int) + (j as int) {
                            lemma_grid_index_injective(w as int, i as int, j as int, i2, j2);
                        }
                    }
                }
                j += 1;
            }
            i += 1;
        }
        Ok(())
    }

    /// Renders the grid: each cell becomes a `res x res` block of its byte,
    /// and every row of the returned buffer ends in a line feed.
    pub fn render(&self) -> (buf: Vec<u8>)
        requires
            self.wf(),
        ensures
            self.rendered(buf@),
    {
        proof {
            lemma_size_products(
                self.height(),
                self.width(),
                self.resolution(),
                usize::MAX as int,
            );
        }
        let w = self.size.x as usize;
        let h = self.size.y as usize;
        let r = self.res as usize;
        let cols = w * r + 1;
        let rows = h * r;
        let mut buf: Vec<u8> = Vec::new();
        let mut k: usize = 0;
        while k < rows
            invariant
                self.wf(),
                w == self.width(),
                h == self.height(),
                r == self.resolution(),
                cols == self.screen_cols(),
                rows == self.screen_rows(),
                rows * cols <= usize::MAX,
                k <= rows,
                buf@.len() == k * cols,
                forall|n: int| 0 <= n < buf@.len() ==> (#[trigger] buf@[n]) == self.screen_byte(n),
            decreases rows - k,
        {
            let mut c: usize = 0;
            while c < cols
                invariant
                    self.wf(),
                    w == self.width(),
                    h == self.height(),
                    r == self.resolution(),
                    cols == self.screen_cols(),
                    rows == self.screen_rows(),
                    rows * cols <= usize::MAX,
                    k < rows,
                    c <= cols,
                    buf@.len() == k * cols + c,
                    forall|n: int|
                        0 <= n < buf@.len() ==> (#[trigger] buf@[n]) == self.screen_byte(n),
                decreases cols - c,
            {
                proof {
                    assert((k as int) * (cols as int) + cols <= (rows as int) * (cols as int))
                        by (nonlinear_arith)
                        requires
                            0 <= k,
                            k + 1 <= rows,
                            0 < cols,
                    ;
                    lemma_fundamental_div_mod_converse(
                        (k as int) * (cols as int) + (c as int),
                        cols as int,
                        k as int,
                        c as int,
                    );
                }
                let b: u8;
                if c == cols - 1 {
                    b = LINE_FEED;
                } else {
                    proof {
                        assert((k as int) < (r as int) * (h as int)) by (nonlinear_arith)
                            requires
                                (k as int) < (h as int) * (r as int),
                        ;
                        assert((c as int) < (r as int) * (w as int)) by (nonlinear_arith)
                            requires
                                (c as int) < (w as int) * (r as int),
                        ;
                        lemma_multiply_divide_lt(k as int, r as int, h as int);
                        lemma_multiply_divide_lt(c as int, r as int, w as int);
                        lemma_grid_index_bounds(
                            h as int,
                            w as int,
                            (k as int) / (r as int),
                            (c as int) / (r as int),
                        );
                    }
                    b = self.content[(k / r) * w + (c / r)];
                }
                buf.push(b);
                c += 1;
            }
            proof {
                assert((k as int + 1) * (cols as int) == (k as int) * (cols as int) + (
                cols as int)) by (nonlinear_arith);
            }
            k += 1;
        }
        buf
    }

    /// The rendered buffer has one line feed at the end of each of its
    /// `screen_rows` rows of `screen_cols` bytes.
    pub proof fn lemma_rendered_row_terminators(&self, buf: Seq<u8>)
        requires
            self.wf(),
            self.rendered(buf),
        ensures
            buf.len() == self.screen_rows() * self.screen_cols(),
            forall|k: int|
                0 <= k < self.screen_rows() ==> #[trigger] buf[k * self.screen_cols()
                    + self.screen_cols() - 1] == LINE_FEED,
    {
        let rows = self.screen_rows();
        let cols = self.screen_cols();
        assert forall|k: int| 0 <= k < rows implies #[trigger] buf[k * cols + cols - 1]
            == LINE_FEED by {
            assert(0 <= k * cols && k * cols + cols <= rows * cols) by (nonlinear_arith)
                requires
                    0 <= k,
                    k + 1 <= rows,
                    1 <= cols,
            ;
            lemma_fundamental_div_mod_converse(k * cols + cols - 1, cols, k, cols - 1);
        }
    }

    /// Rendering is deterministic: any two buffers rendered from the same
    /// canvas state are byte-identical.
    pub proof fn lemma_rendered_unique(&self, b1: Seq<u8>, b2: Seq<u8>)
        requires
            self.rendered(b1),
            self.rendered(b2),
        ensures
            b1 == b2,
    {
        assert(b1 =~= b2);
    }
}

} // verus!
