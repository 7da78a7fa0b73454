//! The cell renderer and the tiler: which sample lands on which place of a
//! row-major buffer.

use vstd::prelude::*;
use vstd::arithmetic::div_mod::{
    lemma_fundamental_div_mod,
    lemma_fundamental_div_mod_converse,
    lemma_div_is_ordered,
    lemma_mod_bound,
    lemma_multiply_divide_lt,
};
use vstd::arithmetic::mul::{
    lemma_mul_inequality,
    lemma_mul_is_commutative,
    lemma_mul_is_distributive_add_other_way,
    lemma_mul_is_distributive_sub_other_way,
};
use crate::sample::{cell_corners, cell_in_lattice, cell_sample, corners_of, Sample};

verus! {

/// The row of the patch on which the buffer place `k` lies, counted from the
/// buffer row of `offset`.
pub open spec fn patch_row(offset: int, stride: int, k: int) -> int {
    k / stride - offset / stride
}

/// The column of the patch on which the buffer place `k` lies, counted from
/// the buffer column of `offset`.
pub open spec fn patch_col(offset: int, stride: int, k: int) -> int {
    k % stride - offset % stride
}

/// Whether the place `k` belongs to the patch of `scale` by `scale` places
/// whose first place is `offset`, in a buffer whose rows are `stride` long.
///
/// The patch ends where its buffer row ends: a column of the buffer is always
/// below `stride`, so a place past the end of the row is no part of it.
pub open spec fn in_patch(offset: int, stride: int, scale: int, k: int) -> bool {
    &&& 0 <= patch_row(offset, stride, k) < scale
    &&& 0 <= patch_col(offset, stride, k) < scale
}

/// What [`square`] leaves at place `k`: inside the patch the sample of cell
/// `(x, y)` whose place on the cell's grid is the place of `k` on the patch,
/// outside it what was there before.
pub open spec fn rendered_at(
    before: Seq<Sample>,
    x: u32,
    y: u32,
    scale: int,
    offset: int,
    stride: int,
    k: int,
) -> Sample {
    if in_patch(offset, stride, scale, k) {
        cell_sample(
            x,
            y,
            patch_row(offset, stride, k),
            patch_col(offset, stride, k),
            scale,
            scale,
        )
    } else {
        before[k]
    }
}

/// The buffer that [`square`] leaves behind.
pub open spec fn rendered(
    before: Seq<Sample>,
    x: u32,
    y: u32,
    scale: int,
    offset: int,
    stride: int,
) -> Seq<Sample> {
    Seq::new(before.len(), |k: int| rendered_at(before, x, y, scale, offset, stride, k))
}

/// A number is its quotient by `d` times `d`, plus a rest below `d`.
proof fn lemma_quotient_and_rest(x: int, d: int)
    requires
        d > 0,
    ensures
        x == (x / d) * d + x % d,
        0 <= x % d < d,
{
    lemma_fundamental_div_mod(x, d);
    lemma_mul_is_commutative(d, x / d);
    lemma_mod_bound(x, d);
}

/// Every place is its patch row times the stride, plus its patch column, past
/// `offset`.
pub proof fn lemma_patch_place(offset: int, stride: int, k: int)
    requires
        stride > 0,
    ensures
        k == offset + patch_row(offset, stride, k) * stride + patch_col(offset, stride, k),
{
    lemma_quotient_and_rest(k, stride);
    lemma_quotient_and_rest(offset, stride);
    lemma_mul_is_distributive_sub_other_way(stride, k / stride, offset / stride);
}

/// The place reached from `offset` by `i` whole rows and `j` columns lies on
/// patch row `i` and patch column `j`, provided the `j` columns do not run
/// past the end of the buffer row.
pub proof fn lemma_patch_coordinates(offset: int, stride: int, i: int, j: int)
    requires
        stride > 0,
        0 <= offset % stride + j < stride,
    ensures
        patch_row(offset, stride, offset + i * stride + j) == i,
        patch_col(offset, stride, offset + i * stride + j) == j,
{
    let k = offset + i * stride + j;
    lemma_quotient_and_rest(offset, stride);
    lemma_mul_is_distributive_add_other_way(stride, offset / stride, i);
    lemma_fundamental_div_mod_converse(k, stride, offset / stride + i, offset % stride + j);
}

/// The row-spill rule: where `j` columns from the first place of patch row `i`
/// run past the end of the buffer row, the place reached lies on a later row
/// of the buffer and so is no place of patch row `i`. What [`square`] leaves
/// on a place carries the row and column of that place, so the sample of
/// `(i, j)` is then written nowhere.
pub proof fn lemma_row_spill(offset: int, stride: int, i: int, j: int)
    requires
        stride > 0,
        offset % stride + j >= stride,
    ensures
        patch_row(offset, stride, offset + i * stride + j) > i,
{
    let k = offset + i * stride + j;
    lemma_patch_place(offset, stride, k);
    lemma_mod_bound(k, stride);
    let r = patch_row(offset, stride, k);
    if r <= i {
        lemma_mul_inequality(r, i, stride);
    }
}

/// What [`square`] leaves on a place of its patch is a well-formed sample
/// that carries the row and column of that place: the sample of `(i, j)` lies
/// at `offset + i * stride + j` and nowhere else, and on the buffer row on
/// which row `i` of the patch began.
pub proof fn lemma_rendered_sample(
    before: Seq<Sample>,
    x: u32,
    y: u32,
    scale: int,
    offset: int,
    stride: int,
    k: int,
)
    requires
        cell_in_lattice(x, y),
        1 <= scale <= usize::MAX,
        stride > 0,
        in_patch(offset, stride, scale, k),
    ensures
        ({
            let s = rendered_at(before, x, y, scale, offset, stride, k);
            &&& s.wf()
            &&& s.cell_x == x
            &&& s.cell_y == y
            &&& s.rows == scale
            &&& s.cols == scale
            &&& k == offset + s.row * stride + s.col
            &&& k / stride == offset / stride + s.row
            &&& offset % stride + s.col < stride
        }),
{
    lemma_patch_place(offset, stride, k);
    lemma_mod_bound(k, stride);
}

/// A place on patch row `i` or beyond, and on no column before the patch,
/// lies at or after the first place of that row.
proof fn lemma_rows_beyond(offset: int, stride: int, i: int, k: int)
    requires
        stride > 0,
        patch_row(offset, stride, k) >= i,
        patch_col(offset, stride, k) >= 0,
    ensures
        k >= offset + i * stride,
{
    lemma_patch_place(offset, stride, k);
    lemma_mul_inequality(i, patch_row(offset, stride, k), stride);
}

/// Where the columns walked so far reach the end of the buffer row exactly,
/// the next place is the first of a buffer row.
proof fn lemma_row_end(offset: int, stride: int, i: int, j: int)
    requires
        stride > 0,
        offset % stride + j == stride,
    ensures
        (offset + i * stride + j) % stride == 0,
{
    let k = offset + i * stride + j;
    lemma_quotient_and_rest(offset, stride);
    lemma_mul_is_distributive_add_other_way(stride, offset / stride, i);
    lemma_mul_is_distributive_add_other_way(stride, offset / stride + i, 1);
    lemma_fundamental_div_mod_converse(k, stride, offset / stride + i + 1, 0);
}

/// Whether place `k` has been written once `i` rows of the patch are done and
/// `j` places of the row after them.
spec fn written(offset: int, stride: int, scale: int, i: int, j: int, k: int) -> bool {
    let r = patch_row(offset, stride, k);
    let c = patch_col(offset, stride, k);
    0 <= c < scale && (0 <= r < i || (r == i && c < j))
}

/// The sample at place `k` once `i` rows of the patch are done and `j` places
/// of the row after them.
spec fn partial_at(
    before: Seq<Sample>,
    x: u32,
    y: u32,
    scale: int,
    offset: int,
    stride: int,
    i: int,
    j: int,
    k: int,
) -> Sample {
    if written(offset, stride, scale, i, j, k) {
        cell_sample(
            x,
            y,
            patch_row(offset, stride, k),
            patch_col(offset, stride, k),
            scale,
            scale,
        )
    } else {
        before[k]
    }
}

/// Renders one cell: writes the samples of cell `(x, y)`, on a grid of `scale`
/// by `scale`, to the places `offset + i * stride + j` of `buf`.
///
/// A row of the cell stops where the row of the buffer stops, and a place past
/// the end of the buffer is skipped.
pub fn square(x: u32, y: u32, scale: usize, buf: &mut Vec<Sample>, offset: usize, stride: usize)
    requires
        cell_in_lattice(x, y),
        scale >= 1,
        stride >= 1,
    ensures
        final(buf)@.len() == old(buf)@.len(),
        final(buf)@ == rendered(old(buf)@, x, y, scale as int, offset as int, stride as int),
{
    let corners = corners_of(x, y);
    let len: usize = buf.len();
    let ghost before = buf@;
    let ghost o = offset as int;
    let ghost s = stride as int;
    let ghost n = scale as int;
    let ghost rows_done: int = 0;
    let ghost next_start: int = o;
    let mut i: usize = 0;
    let mut row_start: usize = offset;
    proof {
        lemma_mod_bound(o, s);
    }
    while i < scale && row_start < len
        invariant_except_break
            rows_done == i,
            next_start == row_start,
        invariant
            s == stride as int,
            n == scale as int,
            o == offset as int,
            stride >= 1,
            0 <= o % s < s,
            corners == cell_corners(x, y),
            buf@.len() == len,
            before.len() == len,
            0 <= rows_done <= n,
            next_start == o + rows_done * s,
            forall|k: int|
                0 <= k < len ==> buf@[k] == #[trigger] partial_at(before, x, y, n, o, s, rows_done, 0, k),
        ensures
            rows_done == n || next_start >= len,
        decreases scale - i,
    {
        let mut j: usize = 0;
        while j < scale
            invariant
                j <= scale,
                i < scale,
                s == stride as int,
                n == scale as int,
                o == offset as int,
                stride >= 1,
                0 <= o % s < s,
                o % s + j <= s,
                row_start == o + i * s,
                row_start + j <= len,
                corners == cell_corners(x, y),
                buf@.len() == len,
                before.len() == len,
                forall|k: int|
                    0 <= k < len ==> buf@[k] == #[trigger] partial_at(
                        before,
                        x,
                        y,
                        n,
                        o,
                        s,
                        i as int,
                        j as int,
                        k,
                    ),
            ensures
                j == scale || o % s + j == s || row_start + j >= len,
            decreases scale - j,
        {
            let idx: usize = row_start + j;
            if j != 0 && idx % stride == 0 {
                proof {
                    if o % s + j < s {
                        lemma_patch_coordinates(o, s, i as int, j as int);
                    }
                }
                break;
            }
            if idx >= len {
                break;
            }
            proof {
                if o % s + j == s {
                    lemma_row_end(o, s, i as int, j as int);
                }
                lemma_patch_coordinates(o, s, i as int, j as int);
            }
            let ghost middle = buf@;
            buf.set(
                idx,
                Sample { cell_x: x, cell_y: y, corners, col: j, cols: scale, row: i, rows: scale },
            );
            proof {
                assert forall|k: int| 0 <= k < len implies buf@[k] == #[trigger] partial_at(
                    before,
                    x,
                    y,
                    n,
                    o,
                    s,
                    i as int,
                    j + 1,
                    k,
                ) by {
                    lemma_patch_place(o, s, k);
                    assert(middle[k] == partial_at(before, x, y, n, o, s, i as int, j as int, k));
                }
            }
            j += 1;
        }
        proof {
            assert forall|k: int| 0 <= k < len implies buf@[k] == #[trigger] partial_at(
                before,
                x,
                y,
                n,
                o,
                s,
                i + 1,
                0,
                k,
            ) by {
                lemma_patch_place(o, s, k);
                lemma_mod_bound(k, s);
                assert(buf@[k] == partial_at(before, x, y, n, o, s, i as int, j as int, k));
            }
            lemma_mul_is_distributive_add_other_way(s, i as int, 1);
            rows_done = i + 1;
            next_start = row_start + s;
        }
        if stride >= len - row_start {
            break;
        }
        row_start += stride;
        i += 1;
    }
    proof {
        assert forall|k: int| 0 <= k < len implies buf@[k] == #[trigger] rendered_at(
            before,
            x,
            y,
            n,
            o,
            s,
            k,
        ) by {
            assert(buf@[k] == partial_at(before, x, y, n, o, s, rows_done, 0, k));
            if patch_row(o, s, k) >= rows_done && patch_col(o, s, k) >= 0 {
                lemma_rows_beyond(o, s, rows_done, k);
            }
        }
    }
    assert(buf@ =~= rendered(before, x, y, n, o, s));
}

/// The sample that belongs at row `r` and column `c` of a tiled image: the
/// cell is the one that covers the pixel, and the place on the cell's grid is
/// what is left of `r` and `c` after the whole cells before them.
pub open spec fn tile_sample(scale: int, r: int, c: int) -> Sample {
    cell_sample((c / scale) as u32, (r / scale) as u32, r % scale, c % scale, scale, scale)
}

/// The tiled noise field of `width` by `height` pixels, row by row.
pub open spec fn noise_field(width: int, height: int, scale: int) -> Seq<Sample> {
    Seq::new((width * height) as nat, |k: int| tile_sample(scale, k / width, k % width))
}

/// Whether every cell that an image of `width` by `height` pixels touches has
/// all its corners in the lattice.
pub open spec fn fits_lattice(width: int, height: int, scale: int) -> bool {
    (width - 1) / scale < u32::MAX && (height - 1) / scale < u32::MAX
}

/// `v` lies in block `q` of blocks of `scale` exactly when it lies less than
/// `scale` past `q * scale`, and what it lies past is then its rest.
proof fn lemma_block(v: int, scale: int, q: int)
    requires
        scale > 0,
    ensures
        v / scale == q <==> 0 <= v - q * scale < scale,
        v / scale == q ==> v % scale == v - q * scale,
{
    lemma_quotient_and_rest(v, scale);
    if 0 <= v - q * scale < scale {
        lemma_fundamental_div_mod_converse(v, scale, q, v - q * scale);
    }
}

/// A block that begins at or before the block of `limit - 1` begins below
/// `limit`.
proof fn lemma_block_start(limit: int, scale: int, q: int)
    requires
        scale > 0,
        limit >= 1,
        0 <= q <= (limit - 1) / scale,
    ensures
        0 <= q * scale <= limit - 1,
{
    lemma_quotient_and_rest(limit - 1, scale);
    lemma_mul_inequality(q, (limit - 1) / scale, scale);
    lemma_mul_inequality(0, q, scale);
}

/// The patch of cell `(cx, cy)` in a tiled image holds exactly the pixels
/// whose row lies in block `cy` and whose column lies in block `cx`, and a
/// pixel's place on the patch is what is left of its row and column.
proof fn lemma_tile_patch(width: int, scale: int, cx: int, cy: int, k: int)
    requires
        width > 0,
        scale > 0,
        0 <= cx * scale < width,
    ensures
        ({
            let offset = cx * scale + cy * scale * width;
            &&& in_patch(offset, width, scale, k) <==> (k / width) / scale == cy && (k % width)
                / scale == cx
            &&& in_patch(offset, width, scale, k) ==> patch_row(offset, width, k) == (k / width)
                % scale && patch_col(offset, width, k) == (k % width) % scale
        }),
{
    let offset = cx * scale + cy * scale * width;
    lemma_fundamental_div_mod_converse(offset, width, cy * scale, cx * scale);
    lemma_block(k / width, scale, cy);
    lemma_block(k % width, scale, cx);
}

/// The tiled noise field: the samples of an image of `width` by `height`
/// pixels in which every cell takes `scale` by `scale` pixels, row by row.
///
/// The result depends on the three arguments and on nothing else.
pub fn noise_2d(width: usize, height: usize, scale: usize) -> (buf: Vec<Sample>)
    requires
        width >= 1,
        height >= 1,
        scale >= 1,
        width * height <= usize::MAX,
        fits_lattice(width as int, height as int, scale as int),
    ensures
        buf@.len() == width * height,
        buf@ == noise_field(width as int, height as int, scale as int),
{
    let blank = Sample::new(0, 0, 0, 0, 1, 1);
    let mut buf: Vec<Sample> = vec![blank; width * height];
    let rx: usize = (width - 1) / scale + 1;
    let ry: usize = (height - 1) / scale + 1;
    let ghost w = width as int;
    let ghost h = height as int;
    let ghost n = scale as int;
    let mut cy: usize = 0;
    while cy < ry
        invariant
            w == width as int,
            h == height as int,
            n == scale as int,
            w >= 1,
            h >= 1,
            n >= 1,
            w * h <= usize::MAX,
            rx == (w - 1) / n + 1,
            ry == (h - 1) / n + 1,
            rx <= u32::MAX,
            ry <= u32::MAX,
            cy <= ry,
            buf@.len() == w * h,
            forall|k: int|
                0 <= k < w * h && (k / w) / n < cy ==> buf@[k] == #[trigger] tile_sample(
                    n,
                    k / w,
                    k % w,
                ),
        decreases ry - cy,
    {
        let mut cx: usize = 0;
        while cx < rx
            invariant
                w == width as int,
                h == height as int,
                n == scale as int,
                w >= 1,
                h >= 1,
                n >= 1,
                w * h <= usize::MAX,
                rx == (w - 1) / n + 1,
                ry == (h - 1) / n + 1,
                rx <= u32::MAX,
                ry <= u32::MAX,
                cy < ry,
                cx <= rx,
                buf@.len() == w * h,
                forall|k: int|
                    0 <= k < w * h && ((k / w) / n < cy || ((k / w) / n == cy && (k % w) / n < cx))
                        ==> buf@[k] == #[trigger] tile_sample(n, k / w, k % w),
            decreases rx - cx,
        {
            proof {
                lemma_block_start(w, n, cx as int);
                lemma_block_start(h, n, cy as int);
                lemma_mul_inequality(cy * n, h - 1, w);
                lemma_mul_is_distributive_sub_other_way(w, h, 1);
            }
            let offset: usize = cx * scale + cy * scale * width;
            let ghost middle = buf@;
            square(cx as u32, cy as u32, scale, &mut buf, offset, width);
            proof {
                assert forall|k: int|
                    0 <= k < w * h && ((k / w) / n < cy || ((k / w) / n == cy && (k % w) / n < cx
                        + 1)) implies buf@[k] == #[trigger] tile_sample(n, k / w, k % w) by {
                    lemma_tile_patch(w, n, cx as int, cy as int, k);
                    assert(buf@[k] == rendered_at(
                        middle,
                        cx as u32,
                        cy as u32,
                        n,
                        offset as int,
                        w,
                        k,
                    ));
                }
            }
            cx += 1;
        }
        proof {
            assert forall|k: int| 0 <= k < w * h && (k / w) / n < cy + 1 implies buf@[k]
                == #[trigger] tile_sample(n, k / w, k % w) by {
                lemma_mod_bound(k, w);
                lemma_div_is_ordered(k % w, w - 1, n);
            }
        }
        cy += 1;
    }
    proof {
        assert forall|k: int| 0 <= k < w * h implies buf@[k] == #[trigger] tile_sample(
            n,
            k / w,
            k % w,
        ) by {
            lemma_mul_is_commutative(w, h);
            lemma_multiply_divide_lt(k, w, h);
            lemma_div_is_ordered(k / w, h - 1, n);
        }
        assert(buf@ =~= noise_field(w, h, n));
    }
    buf
}

/// The pixel at row `r` and column `c` of a tiled image lives at place
/// `r * width + c` and carries the sample of the one cell that covers it: the
/// columns of cell column `cx` are those from `cx * scale` up to, not
/// including, `(cx + 1) * scale`, and likewise for rows. No cell reaches into
/// the columns of its neighbour, whether or not `width` is a multiple of
/// `scale`.
pub proof fn lemma_edge_policy(width: int, height: int, scale: int, r: int, c: int)
    requires
        width >= 1,
        height >= 1,
        1 <= scale <= usize::MAX,
        width * height <= usize::MAX,
        fits_lattice(width, height, scale),
        0 <= r < height,
        0 <= c < width,
    ensures
        0 <= r * width + c < width * height,
        ({
            let s = noise_field(width, height, scale)[r * width + c];
            &&& s == tile_sample(scale, r, c)
            &&& s.wf()
            &&& s.cell_x * scale <= c < (s.cell_x + 1) * scale
            &&& s.cell_y * scale <= r < (s.cell_y + 1) * scale
            &&& s.col == c - s.cell_x * scale
            &&& s.row == r - s.cell_y * scale
            &&& s.cols == scale
            &&& s.rows == scale
        }),
{
    let k = r * width + c;
    lemma_fundamental_div_mod_converse(k, width, r, c);
    lemma_mul_inequality(r, height - 1, width);
    lemma_mul_is_distributive_sub_other_way(width, height, 1);
    lemma_mul_is_commutative(width, height);
    lemma_div_is_ordered(c, width - 1, scale);
    lemma_div_is_ordered(r, height - 1, scale);
    lemma_div_is_ordered(0, c, scale);
    lemma_div_is_ordered(0, r, scale);
    lemma_block(c, scale, c / scale);
    lemma_block(r, scale, r / scale);
    lemma_mul_is_distributive_add_other_way(scale, c / scale, 1);
    lemma_mul_is_distributive_add_other_way(scale, r / scale, 1);
    lemma_mul_inequality(1, height, width);
    lemma_mul_inequality(1, width, height);
    lemma_mod_bound(c, scale);
    lemma_mod_bound(r, scale);
}

/// Two runs of the tiler on the same arguments leave the same buffer.
pub proof fn lemma_tiler_deterministic(
    first: Seq<Sample>,
    second: Seq<Sample>,
    width: int,
    height: int,
    scale: int,
)
    requires
        first == noise_field(width, height, scale),
        second == noise_field(width, height, scale),
    ensures
        first == second,
{
}

} // verus!
