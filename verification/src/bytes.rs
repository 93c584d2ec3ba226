//! Runs of bytes and rows of pixels.
use vstd::arithmetic::div_mod::*;
use vstd::prelude::*;

verus! {

/// Appends the bytes from `from` up to `to`.
pub fn push_run(out: &mut Vec<u8>, src: &[u8], from: usize, to: usize)
    requires
        from <= to <= src@.len(),
    ensures
        final(out)@ == old(out)@ + src@.subrange(from as int, to as int),
{
    let ghost was = out@;
    out.extend_from_slice(vstd::slice::slice_subrange(src, from, to));
    assert(out@ =~= was + src@.subrange(from as int, to as int));
}

/// `rows` runs of `row` bytes, the first at `start`, each `stride` behind the one
/// before it, put one behind the other.
pub open spec fn gathered(src: Seq<u8>, start: int, stride: int, row: int, rows: int) -> Seq<u8> {
    Seq::new((row * rows) as nat, |i: int| src[start + (i / row) * stride + i % row])
}

/// The last of the rows ends inside the source.
pub open spec fn rows_inside(len: int, start: int, stride: int, row: int, rows: int) -> bool {
    rows > 0 ==> start + (rows - 1) * stride + row <= len
}

/// One more gathered row.
pub proof fn lemma_gather_row(
    src: Seq<u8>,
    start: int,
    stride: int,
    row: int,
    rows: int,
)
    requires
        0 <= start,
        0 <= stride,
        0 <= row,
        0 <= rows,
        rows_inside(src.len() as int, start, stride, row, rows + 1),
    ensures
        0 <= rows * stride,
        start + rows * stride + row <= src.len(),
        gathered(src, start, stride, row, rows + 1) == gathered(src, start, stride, row, rows)
            + src.subrange(start + rows * stride, start + rows * stride + row),
{
    let a = gathered(src, start, stride, row, rows + 1);
    let b = gathered(src, start, stride, row, rows);
    let from = start + rows * stride;
    assert(0 <= rows * stride) by (nonlinear_arith)
        requires
            0 <= rows,
            0 <= stride,
    ;
    assert(row * (rows + 1) == row * rows + row) by (nonlinear_arith);
    assert(0 <= row * rows) by (nonlinear_arith)
        requires
            0 <= rows,
            0 <= row,
    ;
    assert((rows + 1 - 1) * stride == rows * stride);
    assert forall|i: int| 0 <= i < a.len() implies a[i] == (b + src.subrange(from, from + row))[i] by {
        if i >= row * rows {
            let j = i - row * rows;
            assert(rows * row == row * rows) by (nonlinear_arith);
            lemma_fundamental_div_mod_converse(i, row, rows, j);
        }
    }
    assert(a =~= b + src.subrange(from, from + row));
}

/// Nothing is gathered of no rows.
pub proof fn lemma_gather_none(src: Seq<u8>, start: int, stride: int, row: int)
    ensures
        gathered(src, start, stride, row, 0) == Seq::<u8>::empty(),
{
    assert(row * 0 == 0);
    assert(gathered(src, start, stride, row, 0) =~= Seq::<u8>::empty());
}

/// Rows above one that lies inside do so too.
pub proof fn lemma_rows_inside(len: int, start: int, stride: int, row: int, rows: int, fewer: int)
    requires
        0 <= stride,
        0 <= fewer <= rows,
        rows_inside(len, start, stride, row, rows),
    ensures
        rows_inside(len, start, stride, row, fewer),
{
    if fewer > 0 {
        assert((fewer - 1) * stride <= (rows - 1) * stride) by (nonlinear_arith)
            requires
                fewer <= rows,
                0 <= stride,
        ;
    }
}

/// Gathers `rows` runs of `row` bytes.
pub fn gather_rows(src: &[u8], start: usize, stride: usize, row: usize, rows: usize) -> (out: Vec<
    u8,
>)
    requires
        rows_inside(src@.len() as int, start as int, stride as int, row as int, rows as int),
    ensures
        out@ == gathered(src@, start as int, stride as int, row as int, rows as int),
{
    let mut out: Vec<u8> = Vec::new();
    let mut y: usize = 0;
    proof {
        lemma_gather_none(src@, start as int, stride as int, row as int);
    }
    while y < rows
        invariant
            y <= rows,
            rows_inside(src@.len() as int, start as int, stride as int, row as int, rows as int),
            out@ == gathered(src@, start as int, stride as int, row as int, y as int),
        decreases rows - y,
    {
        proof {
            lemma_rows_inside(
                src@.len() as int,
                start as int,
                stride as int,
                row as int,
                rows as int,
                y + 1,
            );
            lemma_gather_row(src@, start as int, stride as int, row as int, y as int);
        }
        let len: usize = src.len();
        assert(start + y * stride + row <= len);
        let from: usize = start + y * stride;
        push_run(&mut out, src, from, from + row);
        y = y + 1;
    }
    out
}

/// Byte `i` lies in row `y` and column `x` exactly where it is one of the four
/// bytes of that pixel.
pub proof fn lemma_pixel(i: int, w: int, x: int, y: int)
    requires
        0 <= i,
        0 <= x < w,
        0 <= y,
    ensures
        (i / (w * 4) == y && (i % (w * 4)) / 4 == x) <==> y * (w * 4) + x * 4 <= i < y * (w * 4)
            + x * 4 + 4,
        i / (w * 4) == y && (i % (w * 4)) / 4 == x ==> i % 4 == i - (y * (w * 4) + x * 4),
{
    let s = w * 4;
    lemma_fundamental_div_mod(i, s);
    lemma_mod_bound(i, s);
    let q = i / s;
    assert(s * q == q * s) by (nonlinear_arith);
    if q == y && (i % s) / 4 == x {
        assert((y * s) % 4 == 0) by {
            assert(y * s == (y * w) * 4) by (nonlinear_arith)
                requires
                    s == w * 4,
            ;
            lemma_mod_multiples_basic(y * w, 4);
        }
    }
    if y * s + x * 4 <= i < y * s + x * 4 + 4 {
        lemma_fundamental_div_mod_converse(i, s, y, i - y * s);
    }
}

/// Gathered rows hold the source's bytes in order: byte `b` of row `y` is the one that
/// lies `b` bytes behind the start of the source's row.
pub proof fn gathered_rows_keep_their_bytes(
    src: Seq<u8>,
    start: int,
    stride: int,
    row: int,
    rows: int,
    y: int,
    b: int,
)
    requires
        0 <= y < rows,
        0 <= b < row,
    ensures
        gathered(src, start, stride, row, rows).len() == row * rows,
        0 <= y * row + b < row * rows,
        gathered(src, start, stride, row, rows)[y * row + b] == src[start + y * stride + b],
{
    assert(0 <= y * row && y * row + row <= row * rows) by (nonlinear_arith)
        requires
            0 <= y < rows,
            0 <= row,
    ;
    lemma_fundamental_div_mod_converse(y * row + b, row, y, b);
}

} // verus!
