//! Cutting a large rendered image into square-ish chunks no larger than a
//! given side, so that each can be uploaded as its own texture.
use vstd::prelude::*;
use resvg::tiny_skia::{IntRect, Pixmap};

verus! {

#[verifier::external_type_specification]
#[verifier::external_body]
pub struct ExPixmap(Pixmap);

#[verifier::external_type_specification]
#[verifier::external_body]
pub struct ExIntRect(IntRect);

/// What `Pixmap::width` returns for a pixmap.
pub uninterp spec fn pixmap_width(p: Pixmap) -> u32;

/// What `Pixmap::height` returns for a pixmap.
pub uninterp spec fn pixmap_height(p: Pixmap) -> u32;

/// The pixels of a pixmap, row by row, each as its four premultiplied
/// RGBA bytes.
pub uninterp spec fn pixmap_pixels(p: Pixmap) -> Seq<(u8, u8, u8, u8)>;

/// The pixel in column `x` and row `y` of a pixmap.
pub open spec fn pixel_at(p: Pixmap, x: int, y: int) -> (u8, u8, u8, u8) {
    pixmap_pixels(p)[y * pixmap_width(p) + x]
}

/// The rectangle that `IntRect::from_xywh` builds from valid arguments.
pub uninterp spec fn int_rect_of(x: i32, y: i32, w: u32, h: u32) -> IntRect;

/// `Pixmap::width`. A pixmap is never empty, and its width times four fits
/// in an `i32` (the source checks this in `min_row_bytes` whenever a pixmap
/// is made).
#[verifier::external_body]
fn width_of(p: &Pixmap) -> (w: u32)
    ensures
        w == pixmap_width(*p),
        0 < w <= i32::MAX / 4,
{
    p.width()
}

/// `Pixmap::height`. A pixmap is never empty, and its pixel data (four bytes
/// per pixel, at least one pixel per row) fits in memory, so four times its
/// height fits in a `usize` (the source checks this in `data_len_for_size`
/// whenever a pixmap is made).
#[verifier::external_body]
fn height_of(p: &Pixmap) -> (h: u32)
    ensures
        h == pixmap_height(*p),
        0 < h,
        4 * h <= usize::MAX,
{
    p.height()
}

/// The number of bytes of a pixmap's data.
pub uninterp spec fn pixmap_byte_len(p: Pixmap) -> usize;

/// `Pixmap::data().len()`: the length of the pixmap's data. A pixmap made
/// from a longer buffer (`PixmapRef::from_bytes`, then `to_owned`) keeps all
/// of it, so the length need not be a multiple of four.
#[verifier::external_body]
fn byte_len_of(p: &Pixmap) -> (n: usize)
    ensures
        n == pixmap_byte_len(*p),
{
    p.data().len()
}

/// Whether a pixmap's data splits into whole pixels: `Pixmap::pixels` casts
/// the bytes to four-byte pixels with `bytemuck::cast_slice`, which panics
/// otherwise.
pub open spec fn whole_pixels(p: Pixmap) -> bool {
    pixmap_byte_len(p) % 4 == 0
}

/// Whether tiny-skia can cut parts out of the image: its size is within
/// [`cuttable`] and its data splits into whole pixels.
pub open spec fn can_cut(p: Pixmap) -> bool {
    cuttable(pixmap_width(p) as int, pixmap_height(p) as int) && whole_pixels(p)
}

/// Whether `IntRect::from_xywh` accepts the arguments: both sides positive
/// and no edge past `i32::MAX`.
pub open spec fn rect_valid(x: i32, y: i32, w: u32, h: u32) -> bool {
    &&& 0 < w <= i32::MAX
    &&& 0 < h <= i32::MAX
    &&& x + w <= i32::MAX
    &&& y + h <= i32::MAX
}

/// `IntRect::from_xywh`: `Some` exactly when the arguments are valid.
#[verifier::external_body]
fn int_rect_from_xywh(x: i32, y: i32, w: u32, h: u32) -> (r: Option<IntRect>)
    ensures
        r is Some <==> rect_valid(x, y, w, h),
        r matches Some(rect) ==> rect == int_rect_of(x, y, w, h),
{
    IntRect::from_xywh(x, y, w, h)
}

pub open spec fn min_int(a: int, b: int) -> int {
    if a < b {
        a
    } else {
        b
    }
}

pub open spec fn max_int(a: int, b: int) -> int {
    if a < b {
        b
    } else {
        a
    }
}

/// Length of the overlap of `[start, start + len)` with `[0, size)`.
pub open spec fn overlap(start: int, len: int, size: int) -> int {
    min_int(size, start + len) - max_int(0, start)
}

/// Whether `Pixmap::clone_rect` can work on an image of this size: it
/// unwraps a screen rectangle of the whole image, which refuses a height
/// past `i32::MAX`, and it computes pixel positions in `u32`.
pub open spec fn cuttable(width: int, height: int) -> bool {
    height <= i32::MAX && width * height <= u32::MAX
}

/// `Pixmap::clone_rect`: copies the part of the pixmap that the rectangle
/// covers; `None` when that part is empty. The copy is as wide and as high as
/// the part, holds one pixel for each place, and its pixel in column `j`
/// and row `i` is the pixmap's pixel at the part's left edge plus `j` and
/// top edge plus `i`.
#[verifier::external_body]
fn clone_rect(p: &Pixmap, rect: IntRect) -> (res: Option<Pixmap>)
    requires
        can_cut(*p),
    ensures
        forall|x: i32, y: i32, w: u32, h: u32|
            #[trigger] int_rect_of(x, y, w, h) == rect && rect_valid(x, y, w, h) ==> {
                &&& (res is Some <==> (overlap(x as int, w as int, pixmap_width(*p) as int) > 0
                    && overlap(y as int, h as int, pixmap_height(*p) as int) > 0))
                &&& (res matches Some(q) ==> pixmap_width(q) == overlap(
                    x as int,
                    w as int,
                    pixmap_width(*p) as int,
                ) && pixmap_height(q) == overlap(y as int, h as int, pixmap_height(*p) as int))
                &&& (res matches Some(q) ==> pixmap_pixels(q).len() == pixmap_width(q) * pixmap_height(q))
                &&& (res matches Some(q) ==> forall|i: int, j: int|
                    0 <= i < pixmap_height(q) && 0 <= j < pixmap_width(q) ==> #[trigger] pixel_at(q, j, i)
                        == pixel_at(*p, max_int(0, x as int) + j, max_int(0, y as int) + i))
            },
{
    p.clone_rect(rect)
}

/// Why an image could not be cut.
#[derive(Debug, Clone, Copy, PartialEq, Eq, Structural)]
pub enum ChunkError {
    /// A chunk's position or size does not fit the rectangle's integer type.
    OffsetOutOfRange,
    /// A chunk's rectangle is empty or reaches past `i32::MAX`.
    InvalidRect,
    /// The image had no part under a chunk's rectangle.
    EmptySubrect,
    /// No chunk at all.
    Empty,
}

/// The chunk in row `r` and column `c` of the grid over a `width` by
/// `height` image with chunks of side `max_len`.
/// The result is `(x, y, width, height)`.
pub open spec fn cell_rect(width: int, height: int, max_len: int, r: int, c: int) -> (int, int, int, int) {
    let x = max_len * c;
    let y = max_len * r;
    (x, y, min_int(max_len, width - x), min_int(max_len, height - y))
}

/// What goes wrong with a chunk's rectangle, if anything.
pub open spec fn cell_error(rect: (int, int, int, int)) -> Option<ChunkError> {
    if rect.0 > i32::MAX || rect.1 > i32::MAX || rect.2 > u32::MAX || rect.3 > u32::MAX {
        Some(ChunkError::OffsetOutOfRange)
    } else if !rect_valid(rect.0 as i32, rect.1 as i32, rect.2 as u32, rect.3 as u32) {
        Some(ChunkError::InvalidRect)
    } else {
        None
    }
}

/// Whether the chunk in row `r` and column `c` covers the pixel at `(x, y)`.
pub open spec fn cell_covers(width: int, height: int, max_len: int, r: int, c: int, x: int, y: int) -> bool {
    let cell = cell_rect(width, height, max_len, r, c);
    cell.0 <= x < cell.0 + cell.2 && cell.1 <= y < cell.1 + cell.3
}

/// The grid of chunks tiles the image: every pixel lies in exactly one
/// chunk of the grid, the one in row `y / max_len` and column
/// `x / max_len`.
pub proof fn law_chunks_tile_image(width: int, height: int, max_len: int, x: int, y: int, r: int, c: int)
    requires
        max_len > 0,
        0 <= x < width,
        0 <= y < height,
    ensures
        0 <= x / max_len <= width / max_len,
        0 <= y / max_len <= height / max_len,
        cell_covers(width, height, max_len, y / max_len, x / max_len, x, y),
        0 <= r && 0 <= c && cell_covers(width, height, max_len, r, c, x, y) ==> r == y / max_len && c
            == x / max_len,
{
    let m = max_len;
    vstd::arithmetic::div_mod::lemma_div_is_ordered(x, width, m);
    vstd::arithmetic::div_mod::lemma_div_is_ordered(y, height, m);
    vstd::arithmetic::div_mod::lemma_div_is_ordered(0, x, m);
    vstd::arithmetic::div_mod::lemma_div_is_ordered(0, y, m);
    vstd::arithmetic::div_mod::lemma_fundamental_div_mod(x, m);
    vstd::arithmetic::div_mod::lemma_fundamental_div_mod(y, m);
    vstd::arithmetic::div_mod::lemma_mod_pos_bound(x, m);
    vstd::arithmetic::div_mod::lemma_mod_pos_bound(y, m);
    if 0 <= r && 0 <= c && cell_covers(width, height, m, r, c, x, y) {
        assert(m * c <= x < m * c + m);
        assert(m * r <= y < m * r + m);
        vstd::arithmetic::div_mod::lemma_fundamental_div_mod_converse(x, m, c, x - m * c);
        vstd::arithmetic::div_mod::lemma_fundamental_div_mod_converse(y, m, r, y - m * r);
    }
}

/// Whether `chunk` is the part of `image` under `cell`: as wide and as high
/// as the cell, with the image's pixels at the cell's place.
pub open spec fn holds_cell(chunk: Pixmap, image: Pixmap, cell: (int, int, int, int)) -> bool {
    &&& pixmap_width(chunk) == cell.2
    &&& pixmap_height(chunk) == cell.3
    &&& forall|i: int, j: int|
        0 <= i < cell.3 && 0 <= j < cell.2 ==> #[trigger] pixel_at(chunk, j, i) == pixel_at(
            image,
            cell.0 + j,
            cell.1 + i,
        )
}

/// Whether every chunk before row `r`, column `c` (row by row) is fine.
pub open spec fn cells_ok_before(width: int, height: int, max_len: int, cols: int, r: int, c: int) -> bool {
    forall|r2: int, c2: int|
        0 <= r2 && 0 <= c2 <= cols && (r2 < r || (r2 == r && c2 < c)) ==> #[trigger] cell_error(
            cell_rect(width, height, max_len, r2, c2),
        ) is None
}

/// What cutting `image` into chunks of side at most `max_len` gives: `Ok`
/// exactly when every cell of the grid is fine, with each chunk the part of
/// the image under its cell; otherwise the error of the first cell (row by
/// row) that is not.
pub open spec fn cut_as_stated(image: Pixmap, max_len: usize, res: Result<(usize, usize, Vec<Pixmap>), ChunkError>) -> bool {
        let width = pixmap_width(image) as int;
        let height = pixmap_height(image) as int;
        let cols = width / max_len as int;
        let rows = height / max_len as int;
        &&& res is Ok <==> cells_ok_before(width, height, max_len as int, cols, rows + 1, 0)
        &&& res matches Ok((nc, nr, chunks)) ==> {
            &&& nc == cols + 1
            &&& nr == rows + 1
            &&& chunks@.len() == nr * nc
            &&& forall|r: int, c: int|
                0 <= r < nr && 0 <= c < nc ==> holds_cell(
                    #[trigger] chunks@[r * nc + c],
                    image,
                    cell_rect(width, height, max_len as int, r, c),
                )
        }
        &&& res matches Err(e) ==> exists|r: int, c: int|
            0 <= r <= rows && 0 <= c <= cols && cells_ok_before(
                width,
                height,
                max_len as int,
                cols,
                r,
                c,
            ) && #[trigger] cell_error(cell_rect(width, height, max_len as int, r, c)) == Some(
                e,
            )
}

/// Cuts the image into a grid of chunks of side at most `max_len`, row by
/// row; returns the number of columns, the number of rows and the chunks.
/// The grid always has `width / max_len + 1` columns and `height / max_len +
/// 1` rows, so a side that is a multiple of `max_len` leaves an empty last
/// chunk, which is an error. The image must be small enough for tiny-skia
/// to cut (see [`cuttable`]); [`to_chunks_if_fits`] checks that first.
pub fn to_chunks(pixmap: &Pixmap, max_len: usize) -> (res: Result<(usize, usize, Vec<Pixmap>), ChunkError>)
    requires
        max_len > 0,
        can_cut(*pixmap),
    ensures
        cut_as_stated(*pixmap, max_len, res),
{
    let width = width_of(pixmap) as usize;
    let height = height_of(pixmap) as usize;
    let cols = width / max_len;
    let rows = height / max_len;
    let ghost (w, h, m) = (width as int, height as int, max_len as int);
    proof {
        assert(cols * m <= w) by (nonlinear_arith)
            requires
                cols == w / m,
                m > 0,
                w >= 0,
        ;
        assert(rows * m <= h) by (nonlinear_arith)
            requires
                rows == h / m,
                m > 0,
                h >= 0,
        ;
        assert(cols <= w) by (nonlinear_arith)
            requires
                cols * m <= w,
                m > 0,
                cols >= 0,
        ;
        assert(rows <= h) by (nonlinear_arith)
            requires
                rows * m <= h,
                m > 0,
                rows >= 0,
        ;
    }
    let mut chunks: Vec<Pixmap> = Vec::new();
    let mut r: usize = 0;
    while r <= rows
        invariant
            width == pixmap_width(*pixmap),
            height == pixmap_height(*pixmap),
            w == width,
            h == height,
            m == max_len,
            m > 0,
            cols == w / m,
            rows == h / m,
            cols * m <= w,
            rows * m <= h,
            cols <= w <= i32::MAX,
            rows <= h <= u32::MAX,
            4 * h <= usize::MAX,
            cuttable(w, h),
            can_cut(*pixmap),
            r <= rows + 1,
            chunks@.len() == r * (cols + 1),
            cells_ok_before(w, h, m, cols as int, r as int, 0),
            forall|r2: int, c2: int|
                0 <= r2 < r && 0 <= c2 <= cols ==> holds_cell(
                    #[trigger] chunks@[r2 * (cols + 1) + c2],
                    *pixmap,
                    cell_rect(w, h, m, r2, c2),
                ),
        decreases rows + 1 - r,
    {
        let mut c: usize = 0;
        while c <= cols
            invariant
                width == pixmap_width(*pixmap),
                height == pixmap_height(*pixmap),
                w == width,
                h == height,
                m == max_len,
                m > 0,
                cols == w / m,
                rows == h / m,
                cols * m <= w,
                rows * m <= h,
                cols <= w <= i32::MAX,
                rows <= h <= u32::MAX,
                4 * h <= usize::MAX,
                cuttable(w, h),
                can_cut(*pixmap),
                r <= rows,
                c <= cols + 1,
                chunks@.len() == r * (cols + 1) + c,
                cells_ok_before(w, h, m, cols as int, r as int, c as int),
                forall|r2: int, c2: int|
                    (0 <= r2 < r && 0 <= c2 <= cols) || (r2 == r && 0 <= c2 < c) ==> holds_cell(
                        #[trigger] chunks@[r2 * (cols + 1) + c2],
                        *pixmap,
                        cell_rect(w, h, m, r2, c2),
                    ),
            decreases cols + 1 - c,
        {
            proof {
                assert(m * c <= w) by (nonlinear_arith)
                    requires
                        c <= cols,
                        cols * m <= w,
                        m > 0,
                ;
                assert(m * r <= h) by (nonlinear_arith)
                    requires
                        r <= rows,
                        rows * m <= h,
                        m > 0,
                ;
            }
            let xoffset = max_len * c;
            let yoffset = max_len * r;
            let xlen = if max_len < width - xoffset {
                max_len
            } else {
                width - xoffset
            };
            let ylen = if max_len < height - yoffset {
                max_len
            } else {
                height - yoffset
            };
            let ghost cell = cell_rect(w, h, m, r as int, c as int);
            assert(cell.0 == xoffset && cell.1 == yoffset && cell.2 == xlen && cell.3 == ylen);
            if xoffset > i32::MAX as usize || yoffset > i32::MAX as usize || xlen > u32::MAX as usize
                || ylen > u32::MAX as usize {
                assert(cell_error(cell) == Some(ChunkError::OffsetOutOfRange));
                return Err(ChunkError::OffsetOutOfRange);
            }
            let rect = match int_rect_from_xywh(
                xoffset as i32,
                yoffset as i32,
                xlen as u32,
                ylen as u32,
            ) {
                Some(rect) => rect,
                None => {
                    assert(cell_error(cell) == Some(ChunkError::InvalidRect));
                    return Err(ChunkError::InvalidRect);
                },
            };
            assert(cell_error(cell) is None);
            let chunk = match clone_rect(pixmap, rect) {
                Some(chunk) => chunk,
                None => {
                    assert(int_rect_of(xoffset as i32, yoffset as i32, xlen as u32, ylen as u32)
                        == rect);
                    return Err(ChunkError::EmptySubrect);
                },
            };
            assert(int_rect_of(xoffset as i32, yoffset as i32, xlen as u32, ylen as u32) == rect);
            assert(pixmap_width(chunk) == xlen && pixmap_height(chunk) == ylen);
            assert(holds_cell(chunk, *pixmap, cell));
            let ghost before = chunks@;
            chunks.push(chunk);
            proof {
                assert(chunks@.len() == r * (cols + 1) + c + 1);
                assert forall|r2: int, c2: int|
                    (0 <= r2 < r && 0 <= c2 <= cols) || (r2 == r && 0 <= c2 < c + 1) implies holds_cell(
                        #[trigger] chunks@[r2 * (cols + 1) + c2],
                        *pixmap,
                        cell_rect(w, h, m, r2, c2),
                    ) by {
                    if r2 == r && c2 == c {
                        assert(r2 * (cols + 1) + c2 == r * (cols + 1) + c);
                    } else {
                        assert(r2 * (cols + 1) + c2 < r * (cols + 1) + c) by (nonlinear_arith)
                            requires
                                (0 <= r2 < r && 0 <= c2 <= cols) || (r2 == r && 0 <= c2 < c),
                                c <= cols,
                        ;
                        assert(0 <= r2 * (cols + 1) + c2) by (nonlinear_arith)
                            requires
                                0 <= r2,
                                0 <= c2,
                                cols >= 0,
                        ;
                        assert(chunks@[r2 * (cols + 1) + c2] == before[r2 * (cols + 1) + c2]);
                    }
                }
            }
            c = c + 1;
        }
        proof {
            assert(chunks@.len() == (r + 1) * (cols + 1)) by (nonlinear_arith)
                requires
                    chunks@.len() == r * (cols + 1) + cols + 1,
            ;
            assert forall|r2: int, c2: int|
                0 <= r2 && 0 <= c2 <= cols && (r2 < r + 1 || (r2 == r + 1 && c2 < 0)) implies #[trigger] cell_error(
                cell_rect(w, h, m, r2, c2),
            ) is None by {
                assert(cells_ok_before(w, h, m, cols as int, r as int, cols + 1));
                if r2 < r {
                } else {
                    assert(r2 == r);
                }
            }
        }
        r = r + 1;
    }
    assert(chunks@.len() > 0) by (nonlinear_arith)
        requires
            chunks@.len() == r * (cols + 1),
            r == rows + 1,
            rows >= 0,
            cols >= 0,
    ;
    if chunks.len() == 0 {
        return Err(ChunkError::Empty);
    }
    Ok((cols + 1, rows + 1, chunks))
}

/// Cuts the image as [`to_chunks`] does when tiny-skia can cut parts out
/// of it; `None` when it cannot (see [`can_cut`]): the image is too large, or
/// its data does not split into whole pixels.
pub fn to_chunks_if_fits(pixmap: &Pixmap, max_len: usize) -> (res: Option<Result<(usize, usize, Vec<Pixmap>), ChunkError>>)
    requires
        max_len > 0,
    ensures
        res is None <==> !can_cut(*pixmap),
        res matches Some(r) ==> cut_as_stated(*pixmap, max_len, r),
{
    let width = width_of(pixmap) as u64;
    let height = height_of(pixmap) as u64;
    assert(width * height <= u64::MAX) by (nonlinear_arith)
        requires
            width <= u32::MAX,
            height <= u32::MAX,
    ;
    if height > i32::MAX as u64 || width * height > u32::MAX as u64 {
        return None;
    }
    if byte_len_of(pixmap) % 4 != 0 {
        return None;
    }
    Some(to_chunks(pixmap, max_len))
}

} // verus!
