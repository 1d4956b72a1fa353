//! Byte-buffer helpers shared by the encoders.

use vstd::prelude::*;

verus! {

/// The four big-endian bytes of `v`.
pub open spec fn be32(v: u32) -> Seq<u8> {
    seq![
        (v / 0x100_0000) as u8,
        ((v / 0x1_0000) % 0x100) as u8,
        ((v / 0x100) % 0x100) as u8,
        (v % 0x100) as u8,
    ]
}

/// The two little-endian bytes of `v`.
pub open spec fn le16(v: u16) -> Seq<u8> {
    seq![(v % 0x100) as u8, (v / 0x100) as u8]
}

/// The four little-endian bytes of `v`.
pub open spec fn le32(v: u32) -> Seq<u8> {
    seq![
        (v % 0x100) as u8,
        ((v / 0x100) % 0x100) as u8,
        ((v / 0x1_0000) % 0x100) as u8,
        (v / 0x100_0000) as u8,
    ]
}

/// Appends `src[start..end]` to `out`.
pub fn push_range(out: &mut Vec<u8>, src: &[u8], start: usize, end: usize)
    requires
        start <= end <= src@.len(),
    ensures
        final(out)@ == old(out)@ + src@.subrange(start as int, end as int),
{
    let mut i = start;
    while i < end
        invariant
            start <= i <= end <= src@.len(),
            out@ == old(out)@ + src@.subrange(start as int, i as int),
        decreases end - i,
    {
        out.push(src[i]);
        assert(src@.subrange(start as int, i + 1) =~= src@.subrange(start as int, i as int).push(
            src@[i as int],
        ));
        i += 1;
    }
}

/// Appends `v` as four big-endian bytes.
pub fn push_u32_be(out: &mut Vec<u8>, v: u32)
    ensures
        final(out)@ == old(out)@ + be32(v),
{
    let b0 = (v >> 24) as u8;
    let b1 = ((v >> 16) & 0xff) as u8;
    let b2 = ((v >> 8) & 0xff) as u8;
    let b3 = (v & 0xff) as u8;
    assert(b0 == (v / 0x100_0000) as u8 && b1 == ((v / 0x1_0000) % 0x100) as u8 && b2 == ((v
        / 0x100) % 0x100) as u8 && b3 == (v % 0x100) as u8) by (bit_vector)
        requires
            b0 == (v >> 24) as u8,
            b1 == ((v >> 16) & 0xff) as u8,
            b2 == ((v >> 8) & 0xff) as u8,
            b3 == (v & 0xff) as u8,
    ;
    out.push(b0);
    out.push(b1);
    out.push(b2);
    out.push(b3);
    assert(out@ =~= old(out)@ + be32(v));
}

/// Appends `v` as four little-endian bytes.
pub fn push_u32_le(out: &mut Vec<u8>, v: u32)
    ensures
        final(out)@ == old(out)@ + le32(v),
{
    let b0 = (v & 0xff) as u8;
    let b1 = ((v >> 8) & 0xff) as u8;
    let b2 = ((v >> 16) & 0xff) as u8;
    let b3 = (v >> 24) as u8;
    assert(b0 == (v % 0x100) as u8 && b1 == ((v / 0x100) % 0x100) as u8 && b2 == ((v / 0x1_0000)
        % 0x100) as u8 && b3 == (v / 0x100_0000) as u8) by (bit_vector)
        requires
            b0 == (v & 0xff) as u8,
            b1 == ((v >> 8) & 0xff) as u8,
            b2 == ((v >> 16) & 0xff) as u8,
            b3 == (v >> 24) as u8,
    ;
    out.push(b0);
    out.push(b1);
    out.push(b2);
    out.push(b3);
    assert(out@ =~= old(out)@ + le32(v));
}

/// Appends `v` as two little-endian bytes.
pub fn push_u16_le(out: &mut Vec<u8>, v: u16)
    ensures
        final(out)@ == old(out)@ + le16(v),
{
    let b0 = (v & 0xff) as u8;
    let b1 = (v >> 8) as u8;
    assert(b0 == (v % 0x100) as u8 && b1 == (v / 0x100) as u8) by (bit_vector)
        requires
            b0 == (v & 0xff) as u8,
            b1 == (v >> 8) as u8,
    ;
    out.push(b0);
    out.push(b1);
    assert(out@ =~= old(out)@ + le16(v));
}

} // verus!

verus! {

/// `rows` consecutive rows of a row-major buffer with `stride` bytes per row,
/// starting at row `y0`, each cut to `len` bytes from byte column `col`.
pub open spec fn sub_rows(src: Seq<u8>, stride: int, col: int, y0: int, len: int, rows: nat) -> Seq<
    u8,
>
    decreases rows,
{
    if rows == 0 {
        Seq::empty()
    } else {
        let start = (y0 + rows - 1) * stride + col;
        sub_rows(src, stride, col, y0, len, (rows - 1) as nat) + src.subrange(start, start + len)
    }
}

/// Every row that `sub_rows` reads lies inside `src_len` bytes.
pub open spec fn sub_rows_fit(src_len: int, stride: int, col: int, y0: int, len: int, rows: int) -> bool {
    rows > 0 ==> (y0 + rows - 1) * stride + col + len <= src_len
}

proof fn lemma_row_start_bound(stride: int, y0: int, r: int, rows: int, col: int, len: int, src_len: int)
    requires
        0 <= stride,
        0 <= y0,
        0 <= r < rows,
        0 <= col,
        0 <= len,
        (y0 + rows - 1) * stride + col + len <= src_len,
    ensures
        (y0 + r) * stride + col + len <= src_len,
        0 <= (y0 + r) * stride,
{
    assert((y0 + r) * stride <= (y0 + rows - 1) * stride) by (nonlinear_arith)
        requires
            0 <= stride,
            y0 + r <= y0 + rows - 1,
    ;
    assert(0 <= (y0 + r) * stride) by (nonlinear_arith)
        requires
            0 <= stride,
            0 <= y0 + r,
    ;
}

/// Copies `sub_rows(src, stride, col, y0, len, rows)` into a new buffer.
pub fn copy_sub_rows(src: &[u8], stride: usize, col: usize, y0: usize, len: usize, rows: usize) -> (out:
    Vec<u8>)
    requires
        sub_rows_fit(src@.len() as int, stride as int, col as int, y0 as int, len as int, rows as int),
        y0 + rows <= usize::MAX,
    ensures
        out@ == sub_rows(src@, stride as int, col as int, y0 as int, len as int, rows as nat),
{
    let mut out: Vec<u8> = Vec::new();
    let mut r: usize = 0;
    let total = src.len();
    while r < rows
        invariant
            r <= rows,
            total == src@.len(),
            y0 + rows <= usize::MAX,
            sub_rows_fit(src@.len() as int, stride as int, col as int, y0 as int, len as int, rows as int),
            out@ == sub_rows(src@, stride as int, col as int, y0 as int, len as int, r as nat),
        decreases rows - r,
    {
        proof {
            lemma_row_start_bound(
                stride as int,
                y0 as int,
                r as int,
                rows as int,
                col as int,
                len as int,
                src@.len() as int,
            );
        }
        let start = (y0 + r) * stride + col;
        push_range(&mut out, src, start, start + len);
        r += 1;
    }
    out
}

} // verus!

verus! {

/// Whether two byte slices hold the same bytes.
pub fn bytes_equal(a: &[u8], b: &[u8]) -> (eq: bool)
    ensures
        eq == (a@ == b@),
{
    if a.len() != b.len() {
        return false;
    }
    let mut i: usize = 0;
    while i < a.len()
        invariant
            a@.len() == b@.len(),
            i <= a@.len(),
            forall|k: int| 0 <= k < i ==> a@[k] == b@[k],
        decreases a@.len() - i,
    {
        if a[i] != b[i] {
            return false;
        }
        i += 1;
    }
    assert(a@ =~= b@);
    true
}

} // verus!
