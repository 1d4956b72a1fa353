//! A dependency-free PNG encoder for RGBA8 images: filter type 0 on every row,
//! a zlib stream made of stored (uncompressed) deflate blocks, CRC-32 chunk
//! checksums and an Adler-32 stream checksum.

use vstd::prelude::*;
use crate::bytes::{be32, le16, push_range, push_u16_le, push_u32_be};

verus! {

/// The modulus of the Adler-32 sums.
pub const ADLER_MOD: u32 = 65_521;

/// The largest payload of one stored deflate block.
pub const STORED_BLOCK_MAX: usize = 65_535;

/// The running `(a, b)` sums of Adler-32 after `data`.
pub open spec fn adler_sums(data: Seq<u8>) -> (int, int)
    decreases data.len(),
{
    if data.len() == 0 {
        (1, 0)
    } else {
        let prev = adler_sums(data.drop_last());
        let a = (prev.0 + data.last()) % (ADLER_MOD as int);
        (a, (prev.1 + a) % (ADLER_MOD as int))
    }
}

/// The Adler-32 checksum of `data` (RFC 1950): `b * 65536 + a`.
pub open spec fn spec_adler32(data: Seq<u8>) -> u32 {
    (adler_sums(data).1 * 65536 + adler_sums(data).0) as u32
}

/// One bit step of the reflected CRC-32 register (polynomial 0xEDB88320).
pub open spec fn crc_shift(c: u32) -> u32 {
    if c & 1 == 1 {
        (c >> 1) ^ 0xedb8_8320u32
    } else {
        c >> 1
    }
}

/// `n` bit steps of the CRC-32 register.
pub open spec fn crc_shift_n(c: u32, n: nat) -> u32
    decreases n,
{
    if n == 0 {
        c
    } else {
        crc_shift(crc_shift_n(c, (n - 1) as nat))
    }
}

/// The CRC-32 register after feeding `data`, starting from all ones.
pub open spec fn crc_register(data: Seq<u8>) -> u32
    decreases data.len(),
{
    if data.len() == 0 {
        0xffff_ffffu32
    } else {
        crc_shift_n(crc_register(data.drop_last()) ^ (data.last() as u32), 8)
    }
}

/// The CRC-32 (ISO-HDLC, as used by PNG) of `data`.
pub open spec fn spec_crc32(data: Seq<u8>) -> u32 {
    !crc_register(data)
}

/// One stored deflate block: final flag, LEN, NLEN, then the payload.
pub open spec fn stored_block(payload: Seq<u8>, is_final: bool) -> Seq<u8> {
    seq![if is_final { 1u8 } else { 0u8 }] + le16(payload.len() as u16) + le16(
        (0xffff - payload.len()) as u16,
    ) + payload
}

/// `data` cut into stored blocks of at most 65535 bytes, the last one final.
pub open spec fn stored_blocks(data: Seq<u8>) -> Seq<u8>
    decreases data.len(),
{
    if data.len() <= STORED_BLOCK_MAX {
        stored_block(data, true)
    } else {
        stored_block(data.take(STORED_BLOCK_MAX as int), false) + stored_blocks(
            data.skip(STORED_BLOCK_MAX as int),
        )
    }
}

/// The zlib header used here: deflate, 32K window, fastest level.
pub open spec fn zlib_header() -> Seq<u8> {
    seq![0x78u8, 0x01u8]
}

/// The zlib stream that stores `data` without compression.
pub open spec fn spec_zlib_store(data: Seq<u8>) -> Seq<u8> {
    zlib_header() + stored_blocks(data) + be32(spec_adler32(data))
}

/// A PNG chunk: length, type, payload, CRC of type and payload.
pub open spec fn spec_chunk(kind: Seq<u8>, data: Seq<u8>) -> Seq<u8> {
    be32(data.len() as u32) + kind + data + be32(spec_crc32(kind + data))
}

/// The eight-byte PNG file signature.
pub open spec fn png_signature() -> Seq<u8> {
    seq![0x89u8, 0x50u8, 0x4eu8, 0x47u8, 0x0du8, 0x0au8, 0x1au8, 0x0au8]
}

pub open spec fn ihdr_kind() -> Seq<u8> {
    seq![0x49u8, 0x48u8, 0x44u8, 0x52u8]
}

pub open spec fn idat_kind() -> Seq<u8> {
    seq![0x49u8, 0x44u8, 0x41u8, 0x54u8]
}

pub open spec fn iend_kind() -> Seq<u8> {
    seq![0x49u8, 0x45u8, 0x4eu8, 0x44u8]
}

/// IHDR payload: size, 8-bit depth, RGBA colour type, no interlace.
pub open spec fn ihdr_payload(width: u32, height: u32) -> Seq<u8> {
    be32(width) + be32(height) + seq![8u8, 6u8, 0u8, 0u8, 0u8]
}

/// The first `rows` rows of `rgba`, each prefixed with filter type 0.
pub open spec fn png_filtered(rgba: Seq<u8>, row_bytes: int, rows: nat) -> Seq<u8>
    decreases rows,
{
    if rows == 0 {
        Seq::empty()
    } else {
        png_filtered(rgba, row_bytes, (rows - 1) as nat) + seq![0u8] + rgba.subrange(
            (rows - 1) * row_bytes,
            rows * row_bytes,
        )
    }
}

/// The complete PNG file for a `width` by `height` RGBA image.
pub open spec fn spec_png(width: int, height: int, rgba: Seq<u8>) -> Seq<u8> {
    png_signature() + spec_chunk(ihdr_kind(), ihdr_payload(width as u32, height as u32))
        + spec_chunk(idat_kind(), spec_zlib_store(png_filtered(rgba, width * 4, height as nat)))
        + spec_chunk(iend_kind(), Seq::empty())
}

/// Reads a run of stored deflate blocks: each block's LEN bytes of payload,
/// until a block with the final flag; `None` when the bytes are not such a run.
pub open spec fn inflate_stored(s: Seq<u8>) -> Option<Seq<u8>>
    decreases s.len(),
{
    if s.len() < 5 {
        None
    } else {
        let len = s[1] + s[2] * 256;
        if s.len() < 5 + len {
            None
        } else {
            let payload = s.subrange(5, 5 + len);
            if s[0] == 1 {
                Some(payload)
            } else if s[0] == 0 {
                match inflate_stored(s.skip(5 + len)) {
                    Some(rest) => Some(payload + rest),
                    None => None,
                }
            } else {
                None
            }
        }
    }
}

/// Stored blocks give back exactly the data they store, whatever follows them.
pub proof fn lemma_stored_blocks_roundtrip(data: Seq<u8>, tail: Seq<u8>)
    ensures
        inflate_stored(stored_blocks(data) + tail) == Some(data),
    decreases data.len(),
{
    let s = stored_blocks(data) + tail;
    if data.len() <= STORED_BLOCK_MAX {
        let len = data.len();
        assert(s[1] + s[2] * 256 == len);
        assert(s.subrange(5, 5 + len as int) =~= data);
    } else {
        let first = data.take(STORED_BLOCK_MAX as int);
        let rest = data.skip(STORED_BLOCK_MAX as int);
        lemma_stored_blocks_roundtrip(rest, tail);
        assert(s[1] + s[2] * 256 == STORED_BLOCK_MAX);
        assert(s.subrange(5, 5 + STORED_BLOCK_MAX as int) =~= first);
        assert(s.skip(5 + STORED_BLOCK_MAX as int) =~= stored_blocks(rest) + tail);
        assert(first + rest =~= data);
    }
}

/// The zlib stream is lossless: after its two header bytes the stored blocks
/// give back the data, and its last four bytes are the data's Adler-32.
pub proof fn lemma_zlib_store_roundtrip(data: Seq<u8>)
    ensures
        inflate_stored(spec_zlib_store(data).skip(2)) == Some(data),
        spec_zlib_store(data).skip(spec_zlib_store(data).len() - 4) == be32(spec_adler32(data)),
{
    let z = spec_zlib_store(data);
    assert(z.skip(2) =~= stored_blocks(data) + be32(spec_adler32(data)));
    lemma_stored_blocks_roundtrip(data, be32(spec_adler32(data)));
    assert(z.skip(z.len() - 4) =~= be32(spec_adler32(data)));
}

/// Filtering only prefixes rows: the filtered data is `rows` records of a 0
/// filter byte followed by that row of `rgba` unchanged.
pub proof fn lemma_png_filtered_rows(rgba: Seq<u8>, row_bytes: int, rows: nat)
    requires
        row_bytes >= 0,
        rows * row_bytes <= rgba.len(),
    ensures
        png_filtered(rgba, row_bytes, rows).len() == rows * (row_bytes + 1),
        forall|y: int|
            0 <= y < rows ==> {
                &&& #[trigger] png_filtered(rgba, row_bytes, rows)[y * (row_bytes + 1)] == 0u8
                &&& png_filtered(rgba, row_bytes, rows).subrange(y * (row_bytes + 1) + 1, (y + 1) * (row_bytes + 1)) == rgba.subrange(
                    y * row_bytes,
                    (y + 1) * row_bytes,
                )
            },
    decreases rows,
{
    if rows > 0 {
        let n = (rows - 1) as nat;
        assert(n * row_bytes <= rows * row_bytes) by (nonlinear_arith)
            requires
                n == rows - 1,
                row_bytes >= 0,
        ;
        assert(0 <= n * row_bytes) by (nonlinear_arith)
            requires
                row_bytes >= 0,
        ;
        lemma_png_filtered_rows(rgba, row_bytes, n);
        let prev = png_filtered(rgba, row_bytes, n);
        let f = png_filtered(rgba, row_bytes, rows);
        assert(rows * (row_bytes + 1) == n * (row_bytes + 1) + row_bytes + 1) by (nonlinear_arith)
            requires
                n == rows - 1,
        ;
        assert(rows * row_bytes == n * row_bytes + row_bytes) by (nonlinear_arith)
            requires
                n == rows - 1,
        ;
        assert forall|y: int| 0 <= y < rows implies {
            &&& #[trigger] f[y * (row_bytes + 1)] == 0u8
            &&& f.subrange(y * (row_bytes + 1) + 1, (y + 1) * (row_bytes + 1)) == rgba.subrange(
                y * row_bytes,
                (y + 1) * row_bytes,
            )
        } by {
            assert((y + 1) * (row_bytes + 1) == y * (row_bytes + 1) + row_bytes + 1) by (nonlinear_arith);
            if y < n {
                assert(y * (row_bytes + 1) + row_bytes + 1 <= n * (row_bytes + 1)) by (nonlinear_arith)
                    requires
                        y + 1 <= n,
                        row_bytes >= 0,
                ;
                assert(f[y * (row_bytes + 1)] == prev[y * (row_bytes + 1)]);
                assert(f.subrange(y * (row_bytes + 1) + 1, (y + 1) * (row_bytes + 1)) =~= prev.subrange(
                    y * (row_bytes + 1) + 1,
                    (y + 1) * (row_bytes + 1),
                ));
            } else {
                assert(y == n);
                assert(f.subrange(y * (row_bytes + 1) + 1, (y + 1) * (row_bytes + 1)) =~= rgba.subrange(
                    y * row_bytes,
                    (y + 1) * row_bytes,
                ));
            }
        }
    }
}

/// Encodes top-down RGBA8 pixels as a PNG file.
///
/// Returns `None` when a dimension is not positive or when `rgba` does not hold
/// exactly `width * height * 4` bytes.
pub fn encode_rgba_png(width: i32, height: i32, rgba: &[u8]) -> (out: Option<Vec<u8>>)
    requires
        width * 4 <= usize::MAX,
    ensures
        out is Some <==> (width > 0 && height > 0 && rgba@.len() == width * 4 * height),
        out matches Some(png) ==> png@ == spec_png(width as int, height as int, rgba@),
{
    if width <= 0 || height <= 0 {
        return None;
    }
    let row_bytes = width as usize * 4;
    let expected = match row_bytes.checked_mul(height as usize) {
        Some(e) => e,
        None => {
            assert(width * 4 * height > usize::MAX) by (nonlinear_arith)
                requires
                    row_bytes * height > usize::MAX,
                    row_bytes == width * 4,
            ;
            let len = rgba.len();
            assert(rgba@.len() == len);
            return None;
        },
    };
    if rgba.len() != expected {
        return None;
    }
    let rows = height as usize;
    let total = rgba.len();
    let mut filtered: Vec<u8> = Vec::new();
    let mut y: usize = 0;
    let mut row: usize = 0;
    while y < rows
        invariant
            rows == height,
            row_bytes == width * 4,
            rgba@.len() == row_bytes * rows,
            total == rgba@.len(),
            y <= rows,
            row == y * row_bytes,
            filtered@ == png_filtered(rgba@, row_bytes as int, y as nat),
        decreases rows - y,
    {
        assert(row + row_bytes <= rgba@.len()) by (nonlinear_arith)
            requires
                row == y * row_bytes,
                y < rows,
                rgba@.len() == row_bytes * rows,
        ;
        filtered.push(0);
        push_range(&mut filtered, rgba, row, row + row_bytes);
        assert((y + 1) * row_bytes == row + row_bytes) by (nonlinear_arith)
            requires
                row == y * row_bytes,
        ;
        assert(filtered@ =~= png_filtered(rgba@, row_bytes as int, (y + 1) as nat));
        y += 1;
        row += row_bytes;
    }

    let mut png: Vec<u8> = Vec::new();
    png.push(0x89);
    png.push(0x50);
    png.push(0x4e);
    png.push(0x47);
    png.push(0x0d);
    png.push(0x0a);
    png.push(0x1a);
    png.push(0x0a);
    assert(png@ =~= png_signature());

    let mut ihdr: Vec<u8> = Vec::new();
    push_u32_be(&mut ihdr, width as u32);
    push_u32_be(&mut ihdr, height as u32);
    ihdr.push(8);
    ihdr.push(6);
    ihdr.push(0);
    ihdr.push(0);
    ihdr.push(0);
    assert(ihdr@ =~= ihdr_payload(width as u32, height as u32));

    let ihdr_type: Vec<u8> = vec![0x49, 0x48, 0x44, 0x52];
    let idat_type: Vec<u8> = vec![0x49, 0x44, 0x41, 0x54];
    let iend_type: Vec<u8> = vec![0x49, 0x45, 0x4e, 0x44];
    assert(ihdr_type@ =~= ihdr_kind());
    assert(idat_type@ =~= idat_kind());
    assert(iend_type@ =~= iend_kind());

    write_chunk(&mut png, ihdr_type.as_slice(), ihdr.as_slice());
    let stream = zlib_store(filtered.as_slice());
    write_chunk(&mut png, idat_type.as_slice(), stream.as_slice());
    let empty: Vec<u8> = Vec::new();
    write_chunk(&mut png, iend_type.as_slice(), empty.as_slice());
    assert(empty@ =~= Seq::<u8>::empty());
    assert(png@ =~= spec_png(width as int, height as int, rgba@));
    Some(png)
}

/// Wraps `data` in a zlib stream of stored deflate blocks.
pub fn zlib_store(data: &[u8]) -> (out: Vec<u8>)
    ensures
        out@ == spec_zlib_store(data@),
{
    let n = data.len();
    let mut out: Vec<u8> = Vec::new();
    out.push(0x78);
    out.push(0x01);
    assert(out@ =~= zlib_header());

    if n == 0 {
        out.push(0x01);
        push_u16_le(&mut out, 0);
        push_u16_le(&mut out, 0xffff);
        assert(data@.subrange(0, 0) =~= data@);
        assert(out@ =~= zlib_header() + stored_blocks(data@));
    } else {
        let mut offset: usize = 0;
        assert(data@.skip(0) =~= data@);
        while offset < n
            invariant
                n == data@.len(),
                offset <= n,
                offset < n ==> zlib_header() + stored_blocks(data@) =~= out@ + stored_blocks(
                    data@.skip(offset as int),
                ),
                offset == n ==> out@ =~= zlib_header() + stored_blocks(data@),
            decreases n - offset,
        {
            let remaining = n - offset;
            let len = if remaining < STORED_BLOCK_MAX {
                remaining
            } else {
                STORED_BLOCK_MAX
            };
            let final_block = offset + len == n;
            let ghost rest = data@.skip(offset as int);
            let ghost before = out@;
            out.push(if final_block { 0x01 } else { 0x00 });
            let len16 = len as u16;
            let nlen16 = !len16;
            assert(nlen16 == 0xffff - len16) by (bit_vector)
                requires
                    nlen16 == !len16,
            ;
            push_u16_le(&mut out, len16);
            push_u16_le(&mut out, nlen16);
            push_range(&mut out, data, offset, offset + len);
            assert(data@.subrange(offset as int, offset + len) =~= rest.take(len as int));
            if final_block {
                assert(rest.take(len as int) =~= rest);
                assert(out@ =~= before + stored_block(rest, true));
            } else {
                assert(rest.skip(STORED_BLOCK_MAX as int) =~= data@.skip(offset + len));
                assert(out@ =~= before + stored_block(rest.take(STORED_BLOCK_MAX as int), false));
            }
            offset += len;
        }
    }
    push_u32_be(&mut out, adler32(data));
    out
}

/// Appends one PNG chunk of type `kind` holding `data`.
pub fn write_chunk(out: &mut Vec<u8>, kind: &[u8], data: &[u8])
    requires
        kind@.len() == 4,
    ensures
        final(out)@ == old(out)@ + spec_chunk(kind@, data@),
{
    push_u32_be(out, data.len() as u32);
    push_range(out, kind, 0, kind.len());
    push_range(out, data, 0, data.len());
    let mut crc_input: Vec<u8> = Vec::new();
    push_range(&mut crc_input, kind, 0, kind.len());
    push_range(&mut crc_input, data, 0, data.len());
    assert(kind@.subrange(0, kind@.len() as int) =~= kind@);
    assert(data@.subrange(0, data@.len() as int) =~= data@);
    assert(crc_input@ =~= kind@ + data@);
    push_u32_be(out, crc32(crc_input.as_slice()));
    assert(final(out)@ =~= old(out)@ + spec_chunk(kind@, data@));
}

/// The Adler-32 checksum of `data`.
pub fn adler32(data: &[u8]) -> (r: u32)
    ensures
        r == spec_adler32(data@),
{
    let mut a: u32 = 1;
    let mut b: u32 = 0;
    let mut i: usize = 0;
    while i < data.len()
        invariant
            i <= data@.len(),
            a < ADLER_MOD,
            b < ADLER_MOD,
            a == adler_sums(data@.take(i as int)).0,
            b == adler_sums(data@.take(i as int)).1,
        decreases data@.len() - i,
    {
        assert(data@.take(i + 1).drop_last() =~= data@.take(i as int));
        a = (a + data[i] as u32) % ADLER_MOD;
        b = (b + a) % ADLER_MOD;
        i += 1;
    }
    assert(data@.take(data@.len() as int) =~= data@);
    let r = (b << 16) | a;
    assert(r == b * 65536 + a) by (bit_vector)
        requires
            r == (b << 16) | a,
            a < 65536,
            b < 65536,
    ;
    r
}

/// The CRC-32 of `data`.
pub fn crc32(data: &[u8]) -> (r: u32)
    ensures
        r == spec_crc32(data@),
{
    let mut crc: u32 = 0xffff_ffff;
    let mut i: usize = 0;
    while i < data.len()
        invariant
            i <= data@.len(),
            crc == crc_register(data@.take(i as int)),
        decreases data@.len() - i,
    {
        assert(data@.take(i + 1).drop_last() =~= data@.take(i as int));
        let start = crc ^ (data[i] as u32);
        crc = start;
        let mut k: u32 = 0;
        while k < 8
            invariant
                k <= 8,
                crc == crc_shift_n(start, k as nat),
            decreases 8 - k,
        {
            let low = crc & 1;
            let mask = 0u32.wrapping_sub(low);
            assert(low == 0 || low == 1) by (bit_vector)
                requires
                    low == crc & 1,
            ;
            assert(mask == if low == 1 { 0xffff_ffffu32 } else { 0u32 });
            let next = (crc >> 1) ^ (0xedb8_8320 & mask);
            assert(next == crc_shift(crc)) by (bit_vector)
                requires
                    low == crc & 1,
                    mask == if low == 1 { 0xffff_ffffu32 } else { 0u32 },
                    next == (crc >> 1) ^ (0xedb8_8320 & mask),
            ;
            crc = next;
            k += 1;
        }
        i += 1;
    }
    assert(data@.take(data@.len() as int) =~= data@);
    !crc
}

/// The number of stored deflate blocks for `n` bytes: one per started
/// 65,535 bytes, and one (empty) block for no bytes.
pub open spec fn stored_block_count(n: nat) -> nat
    decreases n,
{
    if n <= STORED_BLOCK_MAX {
        1
    } else {
        1 + stored_block_count((n - STORED_BLOCK_MAX) as nat)
    }
}

/// Each stored block adds five bytes of header to its payload.
pub proof fn lemma_stored_blocks_len(data: Seq<u8>)
    ensures
        stored_blocks(data).len() == data.len() + 5 * stored_block_count(data.len()),
    decreases data.len(),
{
    if data.len() > STORED_BLOCK_MAX {
        lemma_stored_blocks_len(data.skip(STORED_BLOCK_MAX as int));
    }
}

/// The layout of an encoded PNG: the signature; the IHDR chunk, whose first
/// eight payload bytes (file bytes 16..24) are the big-endian width and
/// height; the IDAT chunk, whose payload from byte 41 on is the stored zlib
/// stream of the filtered rows (which inflates back to them, and whose rows
/// are a 0 filter byte and the image row); and the IEND chunk. With
/// `n = (4 * width + 1) * height` filtered bytes the file is
/// `63 + n + 5 * stored_block_count(n)` bytes long.
pub proof fn lemma_png_layout(width: int, height: int, rgba: Seq<u8>)
    requires
        width > 0,
        height > 0,
        rgba.len() == width * 4 * height,
    ensures
        ({
            let png = spec_png(width, height, rgba);
            let filtered = png_filtered(rgba, width * 4, height as nat);
            let n = filtered.len();
            let z = spec_zlib_store(filtered);
            &&& n == (4 * width + 1) * height
            &&& png.len() == 63 + n + 5 * stored_block_count(n)
            &&& png.subrange(0, 8) == png_signature()
            &&& png.subrange(16, 24) == be32(width as u32) + be32(height as u32)
            &&& png.subrange(41, 41 + z.len() as int) == z
            &&& inflate_stored(z.skip(2)) == Some(filtered)
        }),
{
    let png = spec_png(width, height, rgba);
    let filtered = png_filtered(rgba, width * 4, height as nat);
    assert(height * (width * 4) == rgba.len()) by (nonlinear_arith)
        requires
            rgba.len() == width * 4 * height,
    ;
    lemma_png_filtered_rows(rgba, width * 4, height as nat);
    assert(height * (width * 4 + 1) == (4 * width + 1) * height) by (nonlinear_arith);
    let n = filtered.len();
    lemma_stored_blocks_len(filtered);
    let z = spec_zlib_store(filtered);
    lemma_zlib_store_roundtrip(filtered);
    let ihdr = spec_chunk(ihdr_kind(), ihdr_payload(width as u32, height as u32));
    let idat = spec_chunk(idat_kind(), z);
    let iend = spec_chunk(iend_kind(), Seq::empty());
    assert(ihdr.len() == 25);
    assert(iend.len() == 12);
    assert(z.len() == n + 5 * stored_block_count(n) + 6);
    assert(idat.len() == z.len() + 12);
    assert(png =~= png_signature() + ihdr + idat + iend);
    assert(png.subrange(0, 8) =~= png_signature());
    assert(png.subrange(16, 24) =~= ihdr.subrange(8, 16));
    assert(ihdr.subrange(8, 16) =~= be32(width as u32) + be32(height as u32));
    assert(png.subrange(41, 41 + z.len() as int) =~= idat.subrange(8, 8 + z.len() as int));
    assert(idat.subrange(8, 8 + z.len() as int) =~= z);
}

} // verus!
