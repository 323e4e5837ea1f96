//! Mirroring a pixel buffer in place, so that a decoded image always starts
//! at its top-left corner.
//!
//! A buffer holds `height` rows of `width` pixels of `size` bytes each, row
//! after row. Byte `i` of the buffer is byte `i % size` of the pixel `i /
//! size`, which stands in row `(i / size) / width` and column `(i / size) %
//! width`.

use vstd::prelude::*;
use vstd::arithmetic::div_mod::lemma_div_pos_is_pos;
use vstd::arithmetic::div_mod::lemma_fundamental_div_mod;
use vstd::arithmetic::div_mod::lemma_fundamental_div_mod_converse;
use vstd::arithmetic::div_mod::lemma_mod_pos_bound;
use crate::bytes::scratch;

verus! {

/// Position in the buffer of byte `byte` of the pixel at `row`, `col`.
pub open spec fn spec_byte_at(row: int, col: int, byte: int, width: int, size: int) -> int {
    (row * width + col) * size + byte
}

/// Row of the pixel that byte `i` of the buffer belongs to.
pub open spec fn spec_row_of(i: int, width: int, size: int) -> int {
    (i / size) / width
}

/// Column of the pixel that byte `i` of the buffer belongs to.
pub open spec fn spec_col_of(i: int, width: int, size: int) -> int {
    (i / size) % width
}

/// Place that byte `i` of the buffer has within its pixel.
pub open spec fn spec_byte_of(i: int, size: int) -> int {
    i % size
}

/// Position of the byte that a horizontal mirror brings to position `i`:
/// the same byte of the pixel in the same row and the opposite column.
pub open spec fn spec_mirror_h(i: int, width: int, size: int) -> int {
    spec_byte_at(
        spec_row_of(i, width, size),
        width - 1 - spec_col_of(i, width, size),
        spec_byte_of(i, size),
        width,
        size,
    )
}

/// Position of the byte that a vertical mirror brings to position `i`: the
/// same byte of the pixel in the same column and the opposite row.
pub open spec fn spec_mirror_v(i: int, width: int, height: int, size: int) -> int {
    spec_byte_at(
        height - 1 - spec_row_of(i, width, size),
        spec_col_of(i, width, size),
        spec_byte_of(i, size),
        width,
        size,
    )
}

/// Position of the byte that a half turn brings to position `i`: the same
/// byte of the pixel in the opposite row and the opposite column.
pub open spec fn spec_turn(i: int, width: int, height: int, size: int) -> int {
    spec_byte_at(
        height - 1 - spec_row_of(i, width, size),
        width - 1 - spec_col_of(i, width, size),
        spec_byte_of(i, size),
        width,
        size,
    )
}

/// The buffer with every row reversed, pixel by pixel.
pub open spec fn spec_flip_h(data: Seq<u8>, width: nat, size: nat) -> Seq<u8> {
    Seq::new(data.len(), |i: int| data[spec_mirror_h(i, width as int, size as int)])
}

/// The buffer with its rows in reverse order.
pub open spec fn spec_flip_v(data: Seq<u8>, width: nat, height: nat, size: nat) -> Seq<u8> {
    Seq::new(
        data.len(),
        |i: int| data[spec_mirror_v(i, width as int, height as int, size as int)],
    )
}

/// The buffer turned by 180 degrees.
pub open spec fn spec_rotate(data: Seq<u8>, width: nat, height: nat, size: nat) -> Seq<u8> {
    Seq::new(data.len(), |i: int| data[spec_turn(i, width as int, height as int, size as int)])
}

/// The buffer in which the `size` bytes at `a` and the `size` bytes at `b`
/// have changed places.
pub open spec fn spec_swap(data: Seq<u8>, a: int, b: int, size: int) -> Seq<u8> {
    Seq::new(
        data.len(),
        |k: int|
            if a <= k < a + size {
                data[b + (k - a)]
            } else if b <= k < b + size {
                data[a + (k - b)]
            } else {
                data[k]
            },
    )
}

/// Every byte of a buffer is one byte of one pixel at one row and column.
pub proof fn lemma_split(i: int, width: int, size: int)
    requires
        width > 0,
        size > 0,
        i >= 0,
    ensures
        i == spec_byte_at(
            spec_row_of(i, width, size),
            spec_col_of(i, width, size),
            spec_byte_of(i, size),
            width,
            size,
        ),
        0 <= spec_row_of(i, width, size),
        0 <= spec_col_of(i, width, size) < width,
        0 <= spec_byte_of(i, size) < size,
{
    let pixel: int = i / size;
    lemma_fundamental_div_mod(i, size);
    lemma_mod_pos_bound(i, size);
    lemma_div_pos_is_pos(i, size);
    lemma_fundamental_div_mod(pixel, width);
    lemma_mod_pos_bound(pixel, width);
    lemma_div_pos_is_pos(pixel, width);
    assert(size * pixel == pixel * size) by (nonlinear_arith);
    assert(width * (pixel / width) == (pixel / width) * width) by (nonlinear_arith);
}

/// The byte of a pixel at a row and column sits where no other does: from
/// its position, row, column and byte are found again.
pub proof fn lemma_join(row: int, col: int, byte: int, width: int, size: int)
    requires
        width > 0,
        size > 0,
        row >= 0,
        0 <= col < width,
        0 <= byte < size,
    ensures
        spec_byte_at(row, col, byte, width, size) >= 0,
        spec_row_of(spec_byte_at(row, col, byte, width, size), width, size) == row,
        spec_col_of(spec_byte_at(row, col, byte, width, size), width, size) == col,
        spec_byte_of(spec_byte_at(row, col, byte, width, size), size) == byte,
{
    let pixel: int = row * width + col;
    assert(row * width >= 0) by (nonlinear_arith)
        requires
            row >= 0,
            width > 0,
    ;
    assert(pixel * size >= 0) by (nonlinear_arith)
        requires
            pixel >= 0,
            size > 0,
    ;
    lemma_fundamental_div_mod_converse(pixel * size + byte, size, pixel, byte);
    lemma_fundamental_div_mod_converse(pixel, width, row, col);
}

/// A pixel of a row that the buffer has lies wholly inside the buffer.
pub proof fn lemma_inside(row: int, col: int, width: int, height: int, size: int)
    requires
        size > 0,
        0 <= row < height,
        0 <= col < width,
    ensures
        0 <= row * width <= row * width + col < width * height,
        0 <= spec_byte_at(row, col, 0, width, size),
        spec_byte_at(row, col, 0, width, size) + size <= width * height * size,
        width * height <= width * height * size,
{
    assert(0 <= row * width && row * width + width <= width * height) by (nonlinear_arith)
        requires
            0 <= row < height,
            0 < width,
    ;
    let pixel: int = row * width + col;
    let count: int = width * height;
    assert(0 <= pixel * size && pixel * size + size <= count * size && count <= count * size)
        by (nonlinear_arith)
        requires
            0 <= pixel < count,
            size > 0,
    ;
}

/// A byte inside a buffer of `height` rows belongs to one of those rows.
pub proof fn lemma_row_inside(i: int, width: int, height: int, size: int)
    requires
        width > 0,
        size > 0,
        height >= 0,
        0 <= i < width * height * size,
    ensures
        spec_row_of(i, width, size) < height,
{
    lemma_split(i, width, size);
    let row: int = spec_row_of(i, width, size);
    let col: int = spec_col_of(i, width, size);
    let byte: int = spec_byte_of(i, size);
    if row >= height {
        assert((row * width + col) * size + byte >= width * height * size) by (nonlinear_arith)
            requires
                row >= height,
                height >= 0,
                width > 0,
                size > 0,
                col >= 0,
                byte >= 0,
        ;
    }
}

/// Mirroring a position horizontally keeps it inside the buffer, and
/// mirroring it again brings it back.
pub proof fn lemma_mirror_h(i: int, width: int, height: int, size: int)
    requires
        width > 0,
        size > 0,
        height >= 0,
        0 <= i < width * height * size,
    ensures
        0 <= spec_mirror_h(i, width, size) < width * height * size,
        spec_mirror_h(spec_mirror_h(i, width, size), width, size) == i,
        spec_row_of(spec_mirror_h(i, width, size), width, size) == spec_row_of(i, width, size),
        spec_col_of(spec_mirror_h(i, width, size), width, size) == width - 1 - spec_col_of(
            i,
            width,
            size,
        ),
        spec_byte_of(spec_mirror_h(i, width, size), size) == spec_byte_of(i, size),
{
    lemma_split(i, width, size);
    lemma_row_inside(i, width, height, size);
    let row: int = spec_row_of(i, width, size);
    let col: int = spec_col_of(i, width, size);
    let byte: int = spec_byte_of(i, size);
    lemma_join(row, width - 1 - col, byte, width, size);
    lemma_inside(row, width - 1 - col, width, height, size);
}

/// Mirroring a position vertically keeps it inside the buffer, and
/// mirroring it again brings it back.
pub proof fn lemma_mirror_v(i: int, width: int, height: int, size: int)
    requires
        width > 0,
        size > 0,
        height >= 0,
        0 <= i < width * height * size,
    ensures
        0 <= spec_mirror_v(i, width, height, size) < width * height * size,
        spec_mirror_v(spec_mirror_v(i, width, height, size), width, height, size) == i,
        spec_row_of(spec_mirror_v(i, width, height, size), width, size) == height - 1
            - spec_row_of(i, width, size),
        spec_col_of(spec_mirror_v(i, width, height, size), width, size) == spec_col_of(
            i,
            width,
            size,
        ),
        spec_byte_of(spec_mirror_v(i, width, height, size), size) == spec_byte_of(i, size),
{
    lemma_split(i, width, size);
    lemma_row_inside(i, width, height, size);
    let row: int = spec_row_of(i, width, size);
    let col: int = spec_col_of(i, width, size);
    let byte: int = spec_byte_of(i, size);
    lemma_join(height - 1 - row, col, byte, width, size);
    lemma_inside(height - 1 - row, col, width, height, size);
}

/// Mirroring a buffer horizontally twice gives the buffer back.
pub proof fn lemma_flip_h_twice(data: Seq<u8>, width: nat, height: nat, size: nat)
    requires
        data.len() == width * height * size,
    ensures
        spec_flip_h(spec_flip_h(data, width, size), width, size) == data,
{
    let once: Seq<u8> = spec_flip_h(data, width, size);
    let twice: Seq<u8> = spec_flip_h(once, width, size);
    assert forall|i: int| 0 <= i < data.len() implies twice[i] == data[i] by {
        lemma_layout_nonempty(i, width as int, height as int, size as int);
        lemma_mirror_h(i, width as int, height as int, size as int);
    }
}

/// Mirroring a buffer vertically twice gives the buffer back.
pub proof fn lemma_flip_v_twice(data: Seq<u8>, width: nat, height: nat, size: nat)
    requires
        data.len() == width * height * size,
    ensures
        spec_flip_v(spec_flip_v(data, width, height, size), width, height, size) == data,
{
    let once: Seq<u8> = spec_flip_v(data, width, height, size);
    let twice: Seq<u8> = spec_flip_v(once, width, height, size);
    assert forall|i: int| 0 <= i < data.len() implies twice[i] == data[i] by {
        lemma_layout_nonempty(i, width as int, height as int, size as int);
        lemma_mirror_v(i, width as int, height as int, size as int);
    }
}

/// Mirroring a buffer both ways, in either order, turns it by 180 degrees.
pub proof fn lemma_flip_both(data: Seq<u8>, width: nat, height: nat, size: nat)
    requires
        data.len() == width * height * size,
    ensures
        spec_flip_v(spec_flip_h(data, width, size), width, height, size) == spec_rotate(
            data,
            width,
            height,
            size,
        ),
        spec_flip_h(spec_flip_v(data, width, height, size), width, size) == spec_rotate(
            data,
            width,
            height,
            size,
        ),
{
    let turned: Seq<u8> = spec_rotate(data, width, height, size);
    let h_then_v: Seq<u8> = spec_flip_v(spec_flip_h(data, width, size), width, height, size);
    let v_then_h: Seq<u8> = spec_flip_h(spec_flip_v(data, width, height, size), width, size);
    assert forall|i: int| 0 <= i < data.len() implies h_then_v[i] == turned[i] && v_then_h[i]
        == turned[i] by {
        lemma_layout_nonempty(i, width as int, height as int, size as int);
        lemma_mirror_h(i, width as int, height as int, size as int);
        lemma_mirror_v(i, width as int, height as int, size as int);
    }
}

/// A buffer that has a byte has rows, columns and pixels of some size.
pub proof fn lemma_layout_nonempty(i: int, width: int, height: int, size: int)
    requires
        width >= 0,
        height >= 0,
        size >= 0,
        0 <= i < width * height * size,
    ensures
        width > 0,
        height > 0,
        size > 0,
{
    assert(width > 0 && height > 0 && size > 0) by (nonlinear_arith)
        requires
            width >= 0,
            height >= 0,
            size >= 0,
            0 < width * height * size,
    ;
}

/// Where the byte at position `i` comes from while a horizontal mirror is
/// under way: the rows above `row` are done, and so are the `col` outermost
/// columns on either side of row `row`.
spec fn spec_h_source(i: int, width: int, size: int, row: int, col: int) -> int {
    let r: int = spec_row_of(i, width, size);
    let c: int = spec_col_of(i, width, size);
    if r < row || (r == row && (c < col || c >= width - col)) {
        spec_mirror_h(i, width, size)
    } else {
        i
    }
}

/// Where the byte at position `i` comes from while a vertical mirror is
/// under way: the `row` outermost rows at the top and at the bottom are
/// done, and so are the first `col` columns of the next pair of rows.
spec fn spec_v_source(i: int, width: int, height: int, size: int, row: int, col: int) -> int {
    let r: int = spec_row_of(i, width, size);
    let c: int = spec_col_of(i, width, size);
    if r < row || r >= height - row || ((r == row || r == height - 1 - row) && c < col) {
        spec_mirror_v(i, width, height, size)
    } else {
        i
    }
}

/// One more pair of pixels exchanged in a row takes the horizontal mirror
/// one column further.
proof fn lemma_h_step(
    orig: Seq<u8>,
    cur: Seq<u8>,
    width: int,
    height: int,
    size: int,
    row: int,
    col: int,
)
    requires
        width > 0,
        size > 0,
        0 <= row < height,
        0 <= col < width / 2,
        orig.len() == width * height * size,
        cur.len() == orig.len(),
        forall|i: int|
            0 <= i < cur.len() ==> cur[i] == orig[spec_h_source(i, width, size, row, col)],
    ensures
        forall|i: int|
            0 <= i < cur.len() ==> (#[trigger] spec_swap(
                cur,
                spec_byte_at(row, col, 0, width, size),
                spec_byte_at(row, width - 1 - col, 0, width, size),
                size,
            )[i]) == orig[spec_h_source(i, width, size, row, col + 1)],
{
    let a: int = spec_byte_at(row, col, 0, width, size);
    let b: int = spec_byte_at(row, width - 1 - col, 0, width, size);
    let next: Seq<u8> = spec_swap(cur, a, b, size);
    lemma_inside(row, col, width, height, size);
    lemma_inside(row, width - 1 - col, width, height, size);
    assert forall|i: int| 0 <= i < cur.len() implies next[i] == orig[spec_h_source(
        i,
        width,
        size,
        row,
        col + 1,
    )] by {
        lemma_split(i, width, size);
        if a <= i < a + size {
            lemma_join(row, col, i - a, width, size);
            lemma_join(row, width - 1 - col, i - a, width, size);
        } else if b <= i < b + size {
            lemma_join(row, width - 1 - col, i - b, width, size);
            lemma_join(row, col, i - b, width, size);
        } else {
            assert(spec_h_source(i, width, size, row, col + 1) == spec_h_source(
                i,
                width,
                size,
                row,
                col,
            ));
        }
    }
}

/// Once half the columns of a row are exchanged with the other half, the
/// row is mirrored.
proof fn lemma_h_row_done(i: int, width: int, size: int, row: int)
    requires
        width > 0,
        size > 0,
        i >= 0,
    ensures
        spec_h_source(i, width, size, row, width / 2) == spec_h_source(i, width, size, row + 1, 0),
{
    lemma_split(i, width, size);
}

/// One more pair of pixels exchanged between two rows takes the vertical
/// mirror one column further.
proof fn lemma_v_step(
    orig: Seq<u8>,
    cur: Seq<u8>,
    width: int,
    height: int,
    size: int,
    row: int,
    col: int,
)
    requires
        width > 0,
        size > 0,
        0 <= row < height / 2,
        0 <= col < width,
        orig.len() == width * height * size,
        cur.len() == orig.len(),
        forall|i: int|
            0 <= i < cur.len() ==> cur[i] == orig[spec_v_source(i, width, height, size, row, col)],
    ensures
        forall|i: int|
            0 <= i < cur.len() ==> (#[trigger] spec_swap(
                cur,
                spec_byte_at(row, col, 0, width, size),
                spec_byte_at(height - 1 - row, col, 0, width, size),
                size,
            )[i]) == orig[spec_v_source(i, width, height, size, row, col + 1)],
{
    let a: int = spec_byte_at(row, col, 0, width, size);
    let b: int = spec_byte_at(height - 1 - row, col, 0, width, size);
    let next: Seq<u8> = spec_swap(cur, a, b, size);
    lemma_inside(row, col, width, height, size);
    lemma_inside(height - 1 - row, col, width, height, size);
    assert forall|i: int| 0 <= i < cur.len() implies next[i] == orig[spec_v_source(
        i,
        width,
        height,
        size,
        row,
        col + 1,
    )] by {
        lemma_split(i, width, size);
        if a <= i < a + size {
            lemma_join(row, col, i - a, width, size);
            lemma_join(height - 1 - row, col, i - a, width, size);
        } else if b <= i < b + size {
            lemma_join(height - 1 - row, col, i - b, width, size);
            lemma_join(row, col, i - b, width, size);
        } else {
            assert(spec_v_source(i, width, height, size, row, col + 1) == spec_v_source(
                i,
                width,
                height,
                size,
                row,
                col,
            ));
        }
    }
}

/// Once every column of two rows is exchanged, the two rows are mirrored.
proof fn lemma_v_row_done(i: int, width: int, height: int, size: int, row: int)
    requires
        width > 0,
        size > 0,
        i >= 0,
    ensures
        spec_v_source(i, width, height, size, row, width) == spec_v_source(
            i,
            width,
            height,
            size,
            row + 1,
            0,
        ),
{
    lemma_split(i, width, size);
}

/// Exchanges the pixel at `a` with the pixel at `b`, by way of `scratch`,
/// which is as long as a pixel: the first pixel goes to `scratch`, the
/// second to the place of the first, and `scratch` to the place of the
/// second.
fn swap_pixels(data: &mut Vec<u8>, a: usize, b: usize, scratch: &mut Vec<u8>)
    requires
        a + old(scratch)@.len() <= b,
        b + old(scratch)@.len() <= old(data)@.len(),
    ensures
        final(scratch)@.len() == old(scratch)@.len(),
        final(data)@ == spec_swap(old(data)@, a as int, b as int, old(scratch)@.len() as int),
{
    let size: usize = scratch.len();
    let mut k: usize = 0;
    while k < size
        invariant
            k <= size,
            size == scratch@.len(),
            a + size <= b,
            b + size <= data.len(),
            data@ == old(data)@,
            forall|j: int| 0 <= j < k ==> scratch@[j] == data@[a + j],
        decreases size - k,
    {
        scratch[k] = data[a + k];
        k += 1;
    }
    k = 0;
    while k < size
        invariant
            k <= size,
            size == scratch@.len(),
            a + size <= b,
            b + size <= data.len(),
            data@.len() == old(data)@.len(),
            forall|j: int| 0 <= j < size ==> scratch@[j] == old(data)@[a + j],
            forall|j: int|
                0 <= j < data@.len() ==> data@[j] == if a <= j < a + k {
                    old(data)@[b + (j - a)]
                } else {
                    old(data)@[j]
                },
        decreases size - k,
    {
        let moved: u8 = data[b + k];
        data[a + k] = moved;
        k += 1;
    }
    k = 0;
    while k < size
        invariant
            k <= size,
            size == scratch@.len(),
            a + size <= b,
            b + size <= data.len(),
            data@.len() == old(data)@.len(),
            forall|j: int| 0 <= j < size ==> scratch@[j] == old(data)@[a + j],
            forall|j: int|
                0 <= j < data@.len() ==> data@[j] == if a <= j < a + size {
                    old(data)@[b + (j - a)]
                } else if b <= j < b + k {
                    old(data)@[a + (j - b)]
                } else {
                    old(data)@[j]
                },
        decreases size - k,
    {
        data[b + k] = scratch[k];
        k += 1;
    }
}

/// Mirrors the buffer horizontally, in place: in every row, the pixel in
/// column `i` changes places with the pixel in column `width - 1 - i`.
pub fn flip_h(data: &mut Vec<u8>, width: usize, height: usize, size: usize)
    requires
        old(data)@.len() == width * height * size,
    ensures
        final(data)@ == spec_flip_h(old(data)@, width as nat, size as nat),
{
    if data.len() == 0 {
        return ;
    }
    proof {
        lemma_layout_nonempty(0, width as int, height as int, size as int);
        assert forall|i: int| 0 <= i < data@.len() implies spec_h_source(
            i,
            width as int,
            size as int,
            0,
            0,
        ) == i by {
            lemma_split(i, width as int, size as int);
        }
    }
    let half: usize = width / 2;
    let mut pixel: Vec<u8> = scratch(size);
    let mut row: usize = 0;
    while row < height
        invariant
            row <= height,
            pixel@.len() == size,
            width > 0,
            size > 0,
            half == width / 2,
            data@.len() == old(data)@.len(),
            data.len() == width * height * size,
            forall|i: int|
                0 <= i < data@.len() ==> data@[i] == old(data)@[spec_h_source(
                    i,
                    width as int,
                    size as int,
                    row as int,
                    0,
                )],
        decreases height - row,
    {
        let mut col: usize = 0;
        while col < half
            invariant
                col <= half,
                row < height,
                pixel@.len() == size,
                width > 0,
                size > 0,
                half == width / 2,
                data@.len() == old(data)@.len(),
                data.len() == width * height * size,
                forall|i: int|
                    0 <= i < data@.len() ==> data@[i] == old(data)@[spec_h_source(
                        i,
                        width as int,
                        size as int,
                        row as int,
                        col as int,
                    )],
            decreases half - col,
        {
            proof {
                lemma_inside(row as int, col as int, width as int, height as int, size as int);
                lemma_inside(
                    row as int,
                    width - 1 - col,
                    width as int,
                    height as int,
                    size as int,
                );
                lemma_apart(row * width + col, row * width + (width - 1 - col), size as int);
            }
            let a: usize = (row * width + col) * size;
            let b: usize = (row * width + (width - 1 - col)) * size;
            let ghost cur = data@;
            swap_pixels(data, a, b, &mut pixel);
            proof {
                lemma_h_step(
                    old(data)@,
                    cur,
                    width as int,
                    height as int,
                    size as int,
                    row as int,
                    col as int,
                );
            }
            col += 1;
        }
        proof {
            assert forall|i: int| 0 <= i < data@.len() implies data@[i] == old(
                data,
            )@[spec_h_source(i, width as int, size as int, row + 1, 0)] by {
                lemma_h_row_done(i, width as int, size as int, row as int);
            }
        }
        row += 1;
    }
    proof {
        assert forall|i: int| 0 <= i < data@.len() implies data@[i] == old(data)@[spec_mirror_h(
            i,
            width as int,
            size as int,
        )] by {
            lemma_row_inside(i, width as int, height as int, size as int);
        }
    }
}

/// Mirrors the buffer vertically, in place: in every column, the pixel in
/// row `i` changes places with the pixel in row `height - 1 - i`.
pub fn flip_v(data: &mut Vec<u8>, width: usize, height: usize, size: usize)
    requires
        old(data)@.len() == width * height * size,
    ensures
        final(data)@ == spec_flip_v(old(data)@, width as nat, height as nat, size as nat),
{
    if data.len() == 0 {
        return ;
    }
    proof {
        lemma_layout_nonempty(0, width as int, height as int, size as int);
        assert forall|i: int| 0 <= i < data@.len() implies spec_v_source(
            i,
            width as int,
            height as int,
            size as int,
            0,
            0,
        ) == i by {
            lemma_split(i, width as int, size as int);
            lemma_row_inside(i, width as int, height as int, size as int);
        }
    }
    let half: usize = height / 2;
    let mut pixel: Vec<u8> = scratch(size);
    let mut row: usize = 0;
    while row < half
        invariant
            row <= half,
            pixel@.len() == size,
            width > 0,
            size > 0,
            half == height / 2,
            data@.len() == old(data)@.len(),
            data.len() == width * height * size,
            forall|i: int|
                0 <= i < data@.len() ==> data@[i] == old(data)@[spec_v_source(
                    i,
                    width as int,
                    height as int,
                    size as int,
                    row as int,
                    0,
                )],
        decreases half - row,
    {
        let mut col: usize = 0;
        while col < width
            invariant
                col <= width,
                row < half,
                pixel@.len() == size,
                width > 0,
                size > 0,
                half == height / 2,
                data@.len() == old(data)@.len(),
                data.len() == width * height * size,
                forall|i: int|
                    0 <= i < data@.len() ==> data@[i] == old(data)@[spec_v_source(
                        i,
                        width as int,
                        height as int,
                        size as int,
                        row as int,
                        col as int,
                    )],
            decreases width - col,
        {
            proof {
                lemma_inside(row as int, col as int, width as int, height as int, size as int);
                lemma_inside(
                    height - 1 - row,
                    col as int,
                    width as int,
                    height as int,
                    size as int,
                );
                assert(row * width + width <= (height - 1 - row) * width) by (nonlinear_arith)
                    requires
                        row + 1 <= height - 1 - row,
                        width > 0,
                ;
                lemma_apart(row * width + col, (height - 1 - row) * width + col, size as int);
            }
            let a: usize = (row * width + col) * size;
            let b: usize = ((height - 1 - row) * width + col) * size;
            let ghost cur = data@;
            swap_pixels(data, a, b, &mut pixel);
            proof {
                lemma_v_step(
                    old(data)@,
                    cur,
                    width as int,
                    height as int,
                    size as int,
                    row as int,
                    col as int,
                );
            }
            col += 1;
        }
        proof {
            assert forall|i: int| 0 <= i < data@.len() implies data@[i] == old(
                data,
            )@[spec_v_source(i, width as int, height as int, size as int, row + 1, 0)] by {
                lemma_v_row_done(i, width as int, height as int, size as int, row as int);
            }
        }
        row += 1;
    }
    proof {
        assert forall|i: int| 0 <= i < data@.len() implies data@[i] == old(data)@[spec_mirror_v(
            i,
            width as int,
            height as int,
            size as int,
        )] by {
            lemma_split(i, width as int, size as int);
            lemma_row_inside(i, width as int, height as int, size as int);
        }
    }
}

/// Of two pixels, the one that comes first in the buffer ends before the
/// other starts.
proof fn lemma_apart(first: int, second: int, size: int)
    requires
        0 <= first < second,
        size > 0,
    ensures
        first * size + size <= second * size,
{
    assert(first * size + size <= second * size) by (nonlinear_arith)
        requires
            first + 1 <= second,
            size > 0,
    ;
}

} // verus!
