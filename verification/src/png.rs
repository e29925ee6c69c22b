//! Lossless PNG encoding of a finished canvas.
//!
//! The encoder emits a truecolour, 8-bit-per-channel PNG: the
//! signature, an IHDR chunk, one IDAT chunk holding the raw scanlines
//! (each row prefixed with filter byte zero) in a zlib stream of
//! stored - that is, uncompressed - deflate blocks, and an IEND chunk.
//! Every byte of the output is pinned down by [`png_bytes`], so a
//! conforming decoder recovers exactly the canvas's pixels.

use crate::canvas::Canvas;
use vstd::prelude::*;

verus! {

/// A 32-bit value as four big-endian bytes.
pub open spec fn be32(v: int) -> Seq<u8> {
    seq![
        ((v / 0x100_0000) % 256) as u8,
        ((v / 0x1_0000) % 256) as u8,
        ((v / 0x100) % 256) as u8,
        (v % 256) as u8,
    ]
}

/// A 16-bit value as two little-endian bytes.
pub open spec fn le16(v: int) -> Seq<u8> {
    seq![(v % 256) as u8, ((v / 256) % 256) as u8]
}

/// One step of the reflected CRC-32 bit loop.
pub open spec fn crc_step(c: u32) -> u32 {
    if c & 1 == 1 {
        0xEDB8_8320u32 ^ (c >> 1)
    } else {
        c >> 1
    }
}

/// `n` CRC bit steps.
pub open spec fn crc_steps(c: u32, n: nat) -> u32
    decreases n,
{
    if n == 0 {
        c
    } else {
        crc_step(crc_steps(c, (n - 1) as nat))
    }
}

/// The CRC register after absorbing one byte.
pub open spec fn crc_update(c: u32, b: u8) -> u32 {
    crc_steps(c ^ (b as u32), 8)
}

/// The CRC register after the first `n` bytes, starting from all ones.
pub open spec fn crc_register(data: Seq<u8>, n: int) -> u32
    decreases n,
{
    if n <= 0 {
        0xFFFF_FFFFu32
    } else {
        crc_update(crc_register(data, n - 1), data[n - 1])
    }
}

/// The CRC-32 checksum (as used by PNG) of a byte sequence.
pub open spec fn crc32(data: Seq<u8>) -> u32 {
    crc_register(data, data.len() as int) ^ 0xFFFF_FFFFu32
}

/// The Adler-32 low word after the first `n` bytes.
pub open spec fn adler_a(data: Seq<u8>, n: int) -> int
    decreases n,
{
    if n <= 0 {
        1
    } else {
        (adler_a(data, n - 1) + data[n - 1]) % 65521
    }
}

/// The Adler-32 high word after the first `n` bytes.
pub open spec fn adler_b(data: Seq<u8>, n: int) -> int
    decreases n,
{
    if n <= 0 {
        0
    } else {
        (adler_b(data, n - 1) + adler_a(data, n)) % 65521
    }
}

/// The Adler-32 checksum of a byte sequence.
pub open spec fn adler32(data: Seq<u8>) -> int {
    adler_b(data, data.len() as int) * 0x1_0000 + adler_a(data, data.len() as int)
}

/// The first `rows` scanlines of the raw image stream: each row of the
/// RGB buffer preceded by filter byte zero.
pub open spec fn scanlines_upto(data: Seq<u8>, width: int, rows: int) -> Seq<u8>
    decreases rows,
{
    if rows <= 0 {
        Seq::empty()
    } else {
        scanlines_upto(data, width, rows - 1) + seq![0u8] + data.subrange(
            3 * (width * (rows - 1)),
            3 * (width * rows),
        )
    }
}

/// The deflate encoding of `raw[i..]` as stored blocks: full 65535-byte
/// blocks, then one final block with what remains.
pub open spec fn stored_blocks(raw: Seq<u8>, i: int) -> Seq<u8>
    decreases raw.len() - i,
{
    if raw.len() - i <= 65535 {
        seq![1u8] + le16(raw.len() - i) + le16(65535 - (raw.len() - i)) + raw.subrange(
            i,
            raw.len() as int,
        )
    } else {
        seq![0u8] + le16(65535) + le16(0) + raw.subrange(i, i + 65535) + stored_blocks(
            raw,
            i + 65535,
        )
    }
}

/// A zlib stream holding `raw` uncompressed: the standard
/// low-compression header, the stored blocks, and the Adler-32 of the
/// raw bytes.
pub open spec fn zlib_stored(raw: Seq<u8>) -> Seq<u8> {
    seq![0x78u8, 0x01u8] + stored_blocks(raw, 0) + be32(adler32(raw))
}

/// One PNG chunk: payload length, type, payload, and the CRC-32 of the
/// type and payload together.
pub open spec fn png_chunk(ctype: Seq<u8>, data: Seq<u8>) -> Seq<u8> {
    be32(data.len() as int) + ctype + data + be32(crc32(ctype + data) as int)
}

/// The IHDR payload: dimensions, 8 bits per channel, colour type 2
/// (truecolour), default compression, filtering and no interlace.
pub open spec fn ihdr_data(width: int, height: int) -> Seq<u8> {
    be32(width) + be32(height) + seq![8u8, 2u8, 0u8, 0u8, 0u8]
}

/// The eight-byte PNG signature.
pub open spec fn png_signature() -> Seq<u8> {
    seq![137u8, 80u8, 78u8, 71u8, 13u8, 10u8, 26u8, 10u8]
}

/// The complete PNG encoding of an RGB buffer.
pub open spec fn png_bytes(data: Seq<u8>, width: int, height: int) -> Seq<u8> {
    png_signature() + png_chunk(seq![73u8, 72u8, 68u8, 82u8], ihdr_data(width, height))
        + png_chunk(seq![73u8, 68u8, 65u8, 84u8], zlib_stored(scanlines_upto(data, width, height)))
        + png_chunk(seq![73u8, 69u8, 78u8, 68u8], Seq::empty())
}

/// Append a 32-bit value in big-endian order.
fn push_be32(out: &mut Vec<u8>, v: u32)
    ensures
        final(out)@ == old(out)@ + be32(v as int),
{
    out.push((v / 0x100_0000 % 256) as u8);
    out.push((v / 0x1_0000 % 256) as u8);
    out.push((v / 0x100 % 256) as u8);
    out.push((v % 256) as u8);
    proof {
        assert(out@ =~= old(out)@ + be32(v as int));
    }
}

/// Absorb one byte into the CRC register.
fn crc_update_exec(c: u32, b: u8) -> (r: u32)
    ensures
        r == crc_update(c, b),
{
    let mut cc: u32 = c ^ (b as u32);
    let mut j: u32 = 0;
    while j < 8
        invariant
            j <= 8,
            cc == crc_steps(c ^ (b as u32), j as nat),
        decreases 8 - j,
    {
        cc = if cc & 1 == 1 {
            0xEDB8_8320u32 ^ (cc >> 1)
        } else {
            cc >> 1
        };
        j += 1;
    }
    cc
}

/// The CRC-32 of a chunk type and payload, taken together.
fn chunk_crc(t0: u8, t1: u8, t2: u8, t3: u8, data: &Vec<u8>) -> (r: u32)
    ensures
        r == crc32(seq![t0, t1, t2, t3] + data@),
{
    let ghost whole = seq![t0, t1, t2, t3] + data@;
    let mut c: u32 = 0xFFFF_FFFF;
    c = crc_update_exec(c, t0);
    c = crc_update_exec(c, t1);
    c = crc_update_exec(c, t2);
    c = crc_update_exec(c, t3);
    proof {
        assert(whole[0] == t0 && whole[1] == t1 && whole[2] == t2 && whole[3] == t3);
        assert(crc_register(whole, 0) == 0xFFFF_FFFFu32);
        assert(crc_register(whole, 1) == crc_update(crc_register(whole, 0), whole[0]));
        assert(crc_register(whole, 2) == crc_update(crc_register(whole, 1), whole[1]));
        assert(crc_register(whole, 3) == crc_update(crc_register(whole, 2), whole[2]));
        assert(crc_register(whole, 4) == crc_update(crc_register(whole, 3), whole[3]));
    }
    let n = data.len();
    let mut i: usize = 0;
    while i < n
        invariant
            n == data@.len(),
            i <= n,
            whole == seq![t0, t1, t2, t3] + data@,
            c == crc_register(whole, 4 + i as int),
        decreases n - i,
    {
        proof {
            assert(whole[4 + i as int] == data@[i as int]);
        }
        c = crc_update_exec(c, data[i]);
        i += 1;
    }
    proof {
        assert(whole.len() == 4 + n as int);
    }
    c ^ 0xFFFF_FFFF
}

/// Append one PNG chunk.
fn push_chunk(out: &mut Vec<u8>, t0: u8, t1: u8, t2: u8, t3: u8, data: &Vec<u8>)
    requires
        data@.len() <= 0xffff_ffff,
    ensures
        final(out)@ == old(out)@ + png_chunk(seq![t0, t1, t2, t3], data@),
{
    push_be32(out, data.len() as u32);
    out.push(t0);
    out.push(t1);
    out.push(t2);
    out.push(t3);
    let ghost mid = old(out)@ + be32(data@.len() as int) + seq![t0, t1, t2, t3];
    proof {
        assert(out@ =~= mid);
    }
    let n = data.len();
    let mut i: usize = 0;
    while i < n
        invariant
            n == data@.len(),
            i <= n,
            out@ == mid + data@.take(i as int),
        decreases n - i,
    {
        let b = data[i];
        out.push(b);
        proof {
            assert(out@ =~= mid + data@.take(i as int + 1));
        }
        i += 1;
    }
    proof {
        assert(data@.take(n as int) =~= data@);
    }
    let crc = chunk_crc(t0, t1, t2, t3, data);
    push_be32(out, crc);
    proof {
        assert(out@ =~= old(out)@ + png_chunk(seq![t0, t1, t2, t3], data@));
    }
}

/// Wrap raw bytes in a zlib stream of stored deflate blocks.
fn zlib_stored_exec(raw: &Vec<u8>) -> (r: Vec<u8>)
    requires
        raw@.len() <= 0x4000_0000,
    ensures
        r@ == zlib_stored(raw@),
{
    let mut out: Vec<u8> = Vec::new();
    out.push(0x78);
    out.push(0x01);
    let ghost header = seq![0x78u8, 0x01u8];
    proof {
        assert(out@ =~= header);
        assert(out@ =~= header + stored_blocks(raw@, 0).take(0).take(0)) by {
            assert(stored_blocks(raw@, 0).take(0).take(0) =~= Seq::<u8>::empty());
        }
    }
    let n = raw.len();
    let mut i: usize = 0;
    while i + 65535 < n
        invariant
            n == raw@.len(),
            n <= 0x4000_0000,
            i <= n,
            header == seq![0x78u8, 0x01u8],
            out@ + stored_blocks(raw@, i as int) == header + stored_blocks(raw@, 0),
        decreases n - i,
    {
        let ghost at_entry = out@;
        out.push(0x00);
        out.push(0xff);
        out.push(0xff);
        out.push(0x00);
        out.push(0x00);
        let ghost block_head = at_entry + seq![0x00u8, 0xffu8, 0xffu8, 0x00u8, 0x00u8];
        proof {
            assert(out@ =~= block_head);
            assert(le16(65535) =~= seq![0xffu8, 0xffu8]);
            assert(le16(0) =~= seq![0x00u8, 0x00u8]);
        }
        let mut j: usize = 0;
        while j < 65535
            invariant
                n == raw@.len(),
                i + 65535 < n,
                j <= 65535,
                out@ == block_head + raw@.subrange(i as int, i as int + j as int),
            decreases 65535 - j,
        {
            let b = raw[i + j];
            out.push(b);
            proof {
                assert(out@ =~= block_head + raw@.subrange(i as int, i as int + j as int + 1));
            }
            j += 1;
        }
        proof {
            assert(stored_blocks(raw@, i as int) =~= seq![0u8] + le16(65535) + le16(0)
                + raw@.subrange(i as int, i as int + 65535) + stored_blocks(
                raw@,
                i as int + 65535,
            ));
            assert(out@ + stored_blocks(raw@, i as int + 65535) =~= at_entry + stored_blocks(
                raw@,
                i as int,
            ));
        }
        i += 65535;
    }
    // final stored block with the remaining bytes
    let rem = n - i;
    let lo = (rem % 256) as u8;
    let hi = (rem / 256) as u8;
    let ghost at_entry = out@;
    out.push(0x01);
    out.push(lo);
    out.push(hi);
    out.push(255 - lo);
    out.push(255 - hi);
    let ghost block_head = at_entry + seq![1u8, lo, hi, (255 - lo) as u8, (255 - hi) as u8];
    proof {
        assert(out@ =~= block_head);
        assert(le16(rem as int) =~= seq![lo, hi]);
        assert((65535 - rem as int) % 256 == 255 - lo && ((65535 - rem as int) / 256) % 256 == 255
            - hi) by (nonlinear_arith)
            requires
                0 <= rem as int <= 65535,
                lo == rem as int % 256,
                hi == (rem as int / 256) % 256,
        ;
        assert(le16(65535 - rem as int) =~= seq![(255 - lo) as u8, (255 - hi) as u8]);
    }
    let mut j: usize = 0;
    while j < rem
        invariant
            n == raw@.len(),
            i + rem == n,
            j <= rem,
            out@ == block_head + raw@.subrange(i as int, i as int + j as int),
        decreases rem - j,
    {
        let b = raw[i + j];
        out.push(b);
        proof {
            assert(out@ =~= block_head + raw@.subrange(i as int, i as int + j as int + 1));
        }
        j += 1;
    }
    proof {
        assert(stored_blocks(raw@, i as int) =~= seq![1u8] + le16(rem as int) + le16(
            65535 - rem as int,
        ) + raw@.subrange(i as int, n as int));
        assert(out@ =~= at_entry + stored_blocks(raw@, i as int));
        assert(out@ =~= header + stored_blocks(raw@, 0));
    }
    // Adler-32 of the raw bytes
    let mut a: u32 = 1;
    let mut b: u32 = 0;
    let mut k: usize = 0;
    while k < n
        invariant
            n == raw@.len(),
            k <= n,
            a == adler_a(raw@, k as int),
            b == adler_b(raw@, k as int),
            a < 65521,
            b < 65521,
        decreases n - k,
    {
        a = (a + raw[k] as u32) % 65521;
        b = (b + a) % 65521;
        k += 1;
    }
    proof {
        assert((b as int) * 0x1_0000 + (a as int) < 0x1_0000_0000) by (nonlinear_arith)
            requires
                a < 65521,
                b < 65521,
        ;
    }
    push_be32(&mut out, b * 0x1_0000 + a);
    proof {
        assert(out@ =~= zlib_stored(raw@));
    }
    out
}

/// The length of the stored-block encoding grows at most linearly.
proof fn lemma_stored_blocks_len(raw: Seq<u8>, i: int)
    requires
        0 <= i <= raw.len(),
    ensures
        stored_blocks(raw, i).len() <= 2 * (raw.len() - i) + 5,
    decreases raw.len() - i,
{
    if raw.len() - i > 65535 {
        lemma_stored_blocks_len(raw, i + 65535);
    }
}

/// The raw scanline stream has one filter byte plus one RGB row per
/// canvas row.
proof fn lemma_scanlines_len(data: Seq<u8>, width: int, rows: int)
    requires
        0 <= width,
        0 <= rows,
        3 * (width * rows) <= data.len(),
    ensures
        scanlines_upto(data, width, rows).len() == rows * (1 + 3 * width),
    decreases rows,
{
    if rows > 0 {
        assert(0 <= width * (rows - 1) && width * (rows - 1) <= width * rows)
            by (nonlinear_arith)
            requires
                0 <= width,
                1 <= rows,
        ;
        lemma_scanlines_len(data, width, rows - 1);
        assert(rows * (1 + 3 * width) == (rows - 1) * (1 + 3 * width) + (1 + 3 * width))
            by (nonlinear_arith);
        assert(3 * (width * rows) - 3 * (width * (rows - 1)) == 3 * width) by (nonlinear_arith);
        let prev = scanlines_upto(data, width, rows - 1);
        let a = 3 * (width * (rows - 1));
        let b = 3 * (width * rows);
        assert(0 <= a <= b <= data.len());
        assert(data.subrange(a, b).len() == b - a);
        assert(scanlines_upto(data, width, rows) == prev + seq![0u8] + data.subrange(a, b));
        assert(scanlines_upto(data, width, rows).len() == prev.len() + 1 + (b - a));
    } else {
        assert(rows * (1 + 3 * width) == 0) by (nonlinear_arith)
            requires
                rows == 0,
        ;
    }
}

/// The raw scanline stream is lossless: every byte of every pixel row
/// reappears verbatim, one filter byte after that row's start.
pub proof fn lemma_scanlines_lossless(data: Seq<u8>, width: int, height: int, x: int, y: int)
    requires
        0 <= width,
        0 <= y < height,
        0 <= x < 3 * width,
        3 * (width * height) <= data.len(),
    ensures
        scanlines_upto(data, width, height)[y * (1 + 3 * width) + 1 + x] == data[3 * (width * y)
            + x],
    decreases height,
{
    assert(0 <= width * (height - 1) && width * (height - 1) <= width * height && width * y
        <= width * (height - 1) && 0 <= width * y) by (nonlinear_arith)
        requires
            0 <= width,
            0 <= y <= height - 1,
    ;
    lemma_scanlines_len(data, width, height - 1);
    let prev = scanlines_upto(data, width, height - 1);
    let a = 3 * (width * (height - 1));
    let b = 3 * (width * height);
    assert(3 * (width * height) - 3 * (width * (height - 1)) == 3 * width) by (nonlinear_arith);
    if y == height - 1 {
        assert(y * (1 + 3 * width) == prev.len()) by (nonlinear_arith)
            requires
                prev.len() == (height - 1) * (1 + 3 * width),
                y == height - 1,
        ;
        assert(scanlines_upto(data, width, height)[y * (1 + 3 * width) + 1 + x] == data.subrange(
            a,
            b,
        )[x]);
        assert(data.subrange(a, b)[x] == data[a + x]);
        assert(a + x == 3 * (width * y) + x);
    } else {
        lemma_scanlines_lossless(data, width, height - 1, x, y);
        assert(0 <= y * (1 + 3 * width) && y * (1 + 3 * width) + 1 + x < prev.len())
            by (nonlinear_arith)
            requires
                0 <= y <= height - 2,
                0 <= x < 3 * width,
                0 <= width,
                prev.len() == (height - 1) * (1 + 3 * width),
        ;
        assert(scanlines_upto(data, width, height)[y * (1 + 3 * width) + 1 + x] == prev[y * (1 + 3
            * width) + 1 + x]);
    }
}

/// Encode a canvas as a PNG byte buffer. The encoding is pure and
/// deterministic: every byte follows from the canvas alone, as
/// [`png_bytes`] states, and the pixel data is carried losslessly.
pub fn make_png(canvas: &Canvas) -> (r: Vec<u8>)
    requires
        canvas.wf(),
    ensures
        r@ == png_bytes(canvas@, canvas.spec_width() as int, canvas.spec_height() as int),
{
    let w = canvas.width();
    let h = canvas.height();
    proof {
        assert(h <= 0x400_0000 && w <= 0x400_0000) by (nonlinear_arith)
            requires
                w as int * h as int <= 0x400_0000,
                w >= 1,
                h >= 1,
        ;
    }
    // Raw scanline stream: filter byte zero before each row.
    let mut raw: Vec<u8> = Vec::new();
    let mut y: usize = 0;
    while y < h
        invariant
            canvas.wf(),
            w == canvas.spec_width(),
            h == canvas.spec_height(),
            y <= h,
            w as int * h as int <= 0x400_0000,
            raw@ == scanlines_upto(canvas@, w as int, y as int),
            raw@.len() == y as int * (1 + 3 * w as int),
        decreases h - y,
    {
        proof {
            assert(w as int * (y as int + 1) <= w as int * h as int && 0 <= w as int * y as int
                && w as int * y as int + w as int == w as int * (y as int + 1))
                by (nonlinear_arith)
                requires
                    0 <= (y as int) && (y as int) < h as int,
                    w >= 1,
            ;
            lemma_scanlines_len(canvas@, w as int, y as int);
        }
        let ghost at_entry = raw@;
        raw.push(0u8);
        let row_start = 3 * (w * y);
        let row_len = 3 * w;
        let mut j: usize = 0;
        while j < row_len
            invariant
                canvas.wf(),
                w == canvas.spec_width(),
                h == canvas.spec_height(),
                y < h,
                row_start == 3 * (w as int * y as int),
                row_len == 3 * w,
                row_start + row_len <= canvas@.len(),
                j <= row_len,
                raw@ == at_entry + seq![0u8] + canvas@.subrange(
                    row_start as int,
                    row_start as int + j as int,
                ),
            decreases row_len - j,
        {
            let b = canvas.byte_at(row_start + j);
            raw.push(b);
            proof {
                assert(raw@ =~= at_entry + seq![0u8] + canvas@.subrange(
                    row_start as int,
                    row_start as int + j as int + 1,
                ));
            }
            j += 1;
        }
        proof {
            assert(3 * (w as int * (y as int + 1)) == row_start + row_len) by (nonlinear_arith)
                requires
                    row_start == 3 * (w as int * y as int),
                    row_len == 3 * w as int,
            ;
            assert(raw@ =~= scanlines_upto(canvas@, w as int, y as int + 1));
            assert((y as int + 1) * (1 + 3 * w as int) == y as int * (1 + 3 * w as int) + (1 + 3
                * w as int)) by (nonlinear_arith);
        }
        y += 1;
    }
    proof {
        assert(raw@.len() <= 0x400_0000 * 4) by (nonlinear_arith)
            requires
                raw@.len() == h as int * (1 + 3 * w as int),
                w as int * h as int <= 0x400_0000,
                h as int <= 0x400_0000,
                1 <= w,
                1 <= h,
        ;
    }
    let zlib = zlib_stored_exec(&raw);
    proof {
        lemma_stored_blocks_len(raw@, 0);
    }
    // IHDR payload
    let mut ihdr: Vec<u8> = Vec::new();
    push_be32(&mut ihdr, w as u32);
    push_be32(&mut ihdr, h as u32);
    ihdr.push(8);
    ihdr.push(2);
    ihdr.push(0);
    ihdr.push(0);
    ihdr.push(0);
    proof {
        assert(ihdr@ =~= ihdr_data(w as int, h as int));
    }
    // Assemble the file.
    let mut out: Vec<u8> = Vec::new();
    out.push(137);
    out.push(80);
    out.push(78);
    out.push(71);
    out.push(13);
    out.push(10);
    out.push(26);
    out.push(10);
    proof {
        assert(out@ =~= png_signature());
    }
    push_chunk(&mut out, 73, 72, 68, 82, &ihdr);
    push_chunk(&mut out, 73, 68, 65, 84, &zlib);
    let empty: Vec<u8> = Vec::new();
    push_chunk(&mut out, 73, 69, 78, 68, &empty);
    proof {
        assert(out@ =~= png_bytes(canvas@, canvas.spec_width() as int, canvas.spec_height() as int));
    }
    out
}

} // verus!
