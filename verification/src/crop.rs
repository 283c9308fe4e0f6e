use vstd::prelude::*;

verus! {

/// The part of a `width` x `height` height grid that is kept for the image,
/// and so the image's size: it is written rotated, `height` pixels wide and
/// `width` pixels tall.
pub struct CropWindow {
    /// First kept column.
    pub x0: u32,
    /// First kept row.
    pub y0: u32,
    /// Number of kept columns.
    pub width: u32,
    /// Number of kept rows.
    pub height: u32,
}

/// What is left of `size` after cutting `cut_a` and `cut_b`, never less than one.
pub open spec fn crop_extent(size: u32, cut_a: u32, cut_b: u32) -> int {
    if size - (cut_a + cut_b) >= 1 {
        size - (cut_a + cut_b)
    } else {
        1
    }
}

/// The window left when `left` and `right` columns and `top` and `bottom`
/// rows are trimmed from a `width` x `height` grid; each side keeps at least
/// one pixel.
pub fn crop_window(width: u32, height: u32, left: u32, right: u32, top: u32, bottom: u32) -> (win: CropWindow)
    requires
        left + right <= u32::MAX,
        top + bottom <= u32::MAX,
    ensures
        win.x0 == left,
        win.y0 == top,
        win.width == crop_extent(width, left, right),
        win.height == crop_extent(height, top, bottom),
        win.width == (if width - left - right >= 1 { width - left - right } else { 1 }),
        win.height == (if height - top - bottom >= 1 { height - top - bottom } else { 1 }),
{
    let w = width.saturating_sub(left + right);
    let h = height.saturating_sub(top + bottom);
    CropWindow {
        x0: left,
        y0: top,
        width: if w < 1 { 1 } else { w },
        height: if h < 1 { 1 } else { h },
    }
}

/// Position of output row `row`, column `col` in an image `cols` pixels wide.
pub open spec fn grid_index(row: int, col: int, cols: int) -> int {
    row * cols + col
}

/// The grid cell (row-major in a grid `width` wide) that the output pixel at
/// row `row`, column `col` shows: output rows run over the kept columns from
/// the last one, output columns over the kept rows from the last one.
pub open spec fn source_index(width: u32, win: CropWindow, row: int, col: int) -> int {
    (win.y0 + win.height - 1 - col) * width + win.x0 + win.width - 1 - row
}

/// The window lies inside `len` cells of a grid `width` wide and every cell
/// index it reaches fits in a `u32`.
pub open spec fn window_fits(len: nat, width: u32, win: CropWindow) -> bool {
    &&& win.width >= 1
    &&& win.height >= 1
    &&& win.y0 + win.height - 1 <= u32::MAX
    &&& (win.y0 + win.height - 1) * width + win.x0 + win.width - 1 < len
    &&& (win.y0 + win.height - 1) * width + win.x0 + win.width - 1 <= u32::MAX
}

proof fn lemma_source_bound(width: u32, win: CropWindow, row: int, col: int)
    requires
        0 <= row < win.width,
        0 <= col < win.height,
    ensures
        0 <= source_index(width, win, row, col),
        source_index(width, win, row, col) <= (win.y0 + win.height - 1) * width + win.x0
            + win.width - 1,
        (win.y0 + win.height - 1 - col) * width <= (win.y0 + win.height - 1) * width,
{
    let a = win.y0 + win.height - 1 - col;
    let b = win.y0 + win.height - 1;
    assert(0 <= a <= b);
    assert(0 <= a * width <= b * width) by (nonlinear_arith)
        requires
            0 <= a <= b,
            0 <= width,
    ;
}

proof fn lemma_grid_index_bounds(row: int, col: int, cols: int, rows: int)
    requires
        0 <= row < rows,
        0 <= col < cols,
    ensures
        0 <= grid_index(row, col, cols) < rows * cols,
        grid_index(row, col, cols) < (row + 1) * cols,
        row * cols <= grid_index(row, col, cols),
{
    assert(0 <= row * cols) by (nonlinear_arith)
        requires
            0 <= row,
            0 <= cols,
    ;
    assert((row + 1) * cols <= rows * cols) by (nonlinear_arith)
        requires
            row + 1 <= rows,
            0 <= cols,
    ;
    assert((row + 1) * cols == row * cols + cols) by (nonlinear_arith);
}

/// Reads the window out of a row-major grid `width` wide and turns it a
/// quarter turn, as the height image is written: the result is row-major,
/// `win.height` columns by `win.width` rows.
pub fn rotate_crop<T: Copy>(data: &Vec<T>, width: u32, win: &CropWindow) -> (out: Vec<T>)
    requires
        window_fits(data@.len(), width, *win),
    ensures
        out@.len() == win.width * win.height,
        forall|row: int, col: int|
            0 <= row < win.width && 0 <= col < win.height ==> #[trigger] out@[grid_index(
                row,
                col,
                win.height as int,
            )] == data@[source_index(width, *win, row, col)],
        forall|row: int, col: int|
            0 <= row < win.width && 0 <= col < win.height ==> #[trigger] grid_index(
                row,
                col,
                win.height as int,
            ) == row * win.height + col,
        forall|row: int, col: int|
            0 <= row < win.width && 0 <= col < win.height ==> #[trigger] source_index(
                width,
                *win,
                row,
                col,
            ) == (win.y0 + win.height - 1 - col) * width + win.x0 + win.width - 1 - row,
{
    let w = win.width;
    let h = win.height;
    let mut out: Vec<T> = Vec::new();
    let mut r: u32 = 0;
    while r < w
        invariant
            w == win.width,
            h == win.height,
            window_fits(data@.len(), width, *win),
            r <= w,
            out@.len() == r * h,
            forall|rr: int, cc: int|
                0 <= rr < r && 0 <= cc < h ==> #[trigger] out@[grid_index(rr, cc, h as int)]
                    == data@[source_index(width, *win, rr, cc)],
        decreases w - r,
    {
        let mut c: u32 = 0;
        while c < h
            invariant
                w == win.width,
                h == win.height,
                window_fits(data@.len(), width, *win),
                r < w,
                c <= h,
                out@.len() == r * h + c,
                forall|rr: int, cc: int|
                    0 <= rr < r && 0 <= cc < h ==> #[trigger] out@[grid_index(rr, cc, h as int)]
                        == data@[source_index(width, *win, rr, cc)],
                forall|cc: int|
                    0 <= cc < c ==> #[trigger] out@[grid_index(r as int, cc, h as int)]
                        == data@[source_index(width, *win, r as int, cc)],
            decreases h - c,
        {
            proof {
                lemma_source_bound(width, *win, r as int, c as int);
            }
            let src_y = win.y0 + (h - 1 - c);
            let src_x = win.x0 + (w - 1 - r);
            let i = src_y * width + src_x;
            let ghost before = out@;
            out.push(data[i as usize]);
            proof {
                assert forall|rr: int, cc: int|
                    0 <= rr < r && 0 <= cc < h implies #[trigger] out@[grid_index(rr, cc, h as int)]
                        == data@[source_index(width, *win, rr, cc)] by {
                    lemma_grid_index_bounds(rr, cc, h as int, r as int);
                    assert(out@[grid_index(rr, cc, h as int)] == before[grid_index(rr, cc, h as int)]);
                }
                assert forall|cc: int|
                    0 <= cc < c + 1 implies #[trigger] out@[grid_index(r as int, cc, h as int)]
                        == data@[source_index(width, *win, r as int, cc)] by {
                    if cc < c {
                        assert(out@[grid_index(r as int, cc, h as int)] == before[grid_index(r as int, cc, h as int)]);
                    }
                }
            }
            c += 1;
        }
        proof {
            assert((r + 1) * h == r * h + h) by (nonlinear_arith);
            assert forall|rr: int, cc: int|
                0 <= rr < r + 1 && 0 <= cc < h implies #[trigger] out@[grid_index(rr, cc, h as int)]
                    == data@[source_index(width, *win, rr, cc)] by {
                if rr == r {
                    assert(out@[grid_index(r as int, cc, h as int)] == data@[source_index(width, *win, r as int, cc)]);
                }
            }
        }
        r += 1;
    }
    out
}

/// The image is stored row by row: output row `row`, column `col` of an
/// image `cols` pixels wide is element `row * cols + col`.
pub proof fn lemma_grid_index_is_row_major(row: int, col: int, cols: int)
    ensures
        grid_index(row, col, cols) == row * cols + col,
        0 <= col < cols ==> grid_index(row, col + 1, cols) == grid_index(row, col, cols) + 1,
        0 <= col < cols ==> grid_index(row + 1, col, cols) == grid_index(row, col, cols) + cols,
{
    assert((row + 1) * cols == row * cols + cols) by (nonlinear_arith);
}

/// Output pixel (`row`, `col`) shows the window cell `win.width - 1 - row`
/// columns and `win.height - 1 - col` rows into the window; the next pixel
/// along an output row shows the cell one grid row up, and the next output
/// row shows the cell one grid column to the left.
pub proof fn lemma_rotated_pixel_source(width: u32, win: CropWindow, row: int, col: int)
    ensures
        source_index(width, win, row, col) == (win.y0 + (win.height - 1 - col)) * width + (win.x0
            + (win.width - 1 - row)),
        source_index(width, win, row, col + 1) == source_index(width, win, row, col) - width,
        source_index(width, win, row + 1, col) == source_index(width, win, row, col) - 1,
{
    let a = win.y0 + win.height - 1 - col;
    assert((a - 1) * width == a * width - width) by (nonlinear_arith);
}

/// The kept extent and the two trims tile the side: whenever the trims leave
/// at least one pixel, trim + kept + trim is the whole side; otherwise one
/// pixel is kept.
pub proof fn lemma_crop_extent_tiles(size: u32, cut_a: u32, cut_b: u32)
    ensures
        crop_extent(size, cut_a, cut_b) >= 1,
        cut_a + cut_b < size ==> cut_a + crop_extent(size, cut_a, cut_b) + cut_b == size,
        cut_a + cut_b >= size ==> crop_extent(size, cut_a, cut_b) == 1,
{
}

/// Every kept cell of the grid shows up in the rotated image, at exactly one
/// place, as long as the window's columns stay inside the grid's width:
/// cell (`x`, `y`) of the window is output row `win.width - 1 - x`, column
/// `win.height - 1 - y`, and no two output positions read the same cell.
pub proof fn lemma_rotation_is_bijective(width: u32, win: CropWindow, x: int, y: int, row: int, col: int)
    requires
        win.x0 + win.width <= width,
        0 <= x < win.width,
        0 <= y < win.height,
        0 <= row < win.width,
        0 <= col < win.height,
    ensures
        source_index(width, win, win.width - 1 - x, win.height - 1 - y) == (win.y0 + y) * width
            + win.x0 + x,
        source_index(width, win, row, col) == (win.y0 + y) * width + win.x0 + x ==> row
            == win.width - 1 - x && col == win.height - 1 - y,
{
    let ya = win.y0 + win.height - 1 - col;
    let xa = win.x0 + win.width - 1 - row;
    let yb = win.y0 + y;
    let xb = win.x0 + x;
    if ya * width + xa == yb * width + xb {
        assert(ya == yb && xa == xb) by (nonlinear_arith)
            requires
                ya * width + xa == yb * width + xb,
                0 <= xa < width,
                0 <= xb < width,
                0 <= ya,
                0 <= yb,
        ;
    }
}

} // verus!
