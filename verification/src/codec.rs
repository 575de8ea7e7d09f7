//! A lossless PNG encoder: 8-bit RGBA, one IDAT chunk whose zlib stream
//! uses stored (uncompressed) deflate blocks, with CRC-32 per chunk and an
//! Adler-32 trailer. The byte stream an encode call returns is pinned down,
//! byte for byte, by `png_bytes`.

use vstd::prelude::*;

use crate::raster::PixelBuffer;

verus! {

/// Big-endian bytes of a 32-bit word.
pub open spec fn be32(x: u32) -> Seq<u8> {
    seq![(x >> 24) as u8, (x >> 16) as u8, (x >> 8) as u8, x as u8]
}

/// Little-endian bytes of a 16-bit word.
pub open spec fn le16(x: u16) -> Seq<u8> {
    seq![x as u8, (x >> 8) as u8]
}

/// One shift-and-conditional-xor round of the reflected CRC-32 with
/// polynomial 0xEDB88320.
pub open spec fn crc_round(c: u32) -> u32 {
    if c & 1 == 1 {
        (c >> 1) ^ 0xEDB8_8320u32
    } else {
        c >> 1
    }
}

/// `n` CRC rounds applied to `c`.
pub open spec fn crc_rounds(c: u32, n: nat) -> u32
    decreases n,
{
    if n == 0 {
        c
    } else {
        crc_round(crc_rounds(c, (n - 1) as nat))
    }
}

/// The CRC register after absorbing one byte.
pub open spec fn crc_update(c: u32, b: u8) -> u32 {
    crc_rounds(c ^ (b as u32), 8)
}

/// The CRC register after absorbing the first `n` bytes of `s`, starting
/// from the all-ones state.
pub open spec fn crc_prefix(s: Seq<u8>, n: int) -> u32
    decreases n,
{
    if n <= 0 {
        0xFFFF_FFFFu32
    } else {
        crc_update(crc_prefix(s, n - 1), s[n - 1])
    }
}

/// The CRC-32 checksum of a byte sequence, as PNG chunks carry it.
pub open spec fn crc32_of(s: Seq<u8>) -> u32 {
    !crc_prefix(s, s.len() as int)
}

/// The low Adler-32 accumulator after the first `n` bytes.
pub open spec fn adler_lo(s: Seq<u8>, n: int) -> int
    decreases n,
{
    if n <= 0 {
        1
    } else {
        (adler_lo(s, n - 1) + s[n - 1]) % 65521
    }
}

/// The high Adler-32 accumulator after the first `n` bytes.
pub open spec fn adler_hi(s: Seq<u8>, n: int) -> int
    decreases n,
{
    if n <= 0 {
        0
    } else {
        (adler_hi(s, n - 1) + adler_lo(s, n)) % 65521
    }
}

/// The Adler-32 checksum of a byte sequence, as the zlib trailer carries it.
pub open spec fn adler32_of(s: Seq<u8>) -> u32 {
    (adler_hi(s, s.len() as int) * 0x10000 + adler_lo(s, s.len() as int)) as u32
}

/// The raw deflate stream of stored blocks carrying `data`: blocks of at
/// most 65535 bytes, each led by a final-flag byte and its length and
/// one's-complement length, little-endian.
pub open spec fn stored_blocks(data: Seq<u8>) -> Seq<u8>
    decreases data.len(),
{
    if data.len() <= 65535 {
        seq![1u8] + le16(data.len() as u16) + le16((0xFFFF - data.len()) as u16) + data
    } else {
        seq![0u8] + le16(65535u16) + le16(0u16) + data.subrange(0, 65535) + stored_blocks(
            data.subrange(65535, data.len() as int),
        )
    }
}

/// The zlib stream wrapping `data`: header, stored blocks, Adler-32.
pub open spec fn zlib(data: Seq<u8>) -> Seq<u8> {
    seq![0x78u8, 0x01u8] + stored_blocks(data) + be32(adler32_of(data))
}

/// One PNG chunk: payload length, type, payload, CRC of type and payload.
pub open spec fn chunk(ty: Seq<u8>, data: Seq<u8>) -> Seq<u8> {
    be32(data.len() as u32) + ty + data + be32(crc32_of(ty + data))
}

/// The eight-byte PNG signature.
pub open spec fn png_signature() -> Seq<u8> {
    seq![0x89u8, 0x50u8, 0x4Eu8, 0x47u8, 0x0Du8, 0x0Au8, 0x1Au8, 0x0Au8]
}

pub open spec fn ihdr_type() -> Seq<u8> {
    seq![0x49u8, 0x48u8, 0x44u8, 0x52u8]
}

pub open spec fn idat_type() -> Seq<u8> {
    seq![0x49u8, 0x44u8, 0x41u8, 0x54u8]
}

pub open spec fn iend_type() -> Seq<u8> {
    seq![0x49u8, 0x45u8, 0x4Eu8, 0x44u8]
}

/// The IHDR payload: dimensions, 8-bit depth, RGBA color, default
/// compression, filtering and no interlace.
pub open spec fn ihdr_data(w: u32, h: u32) -> Seq<u8> {
    be32(w) + be32(h) + seq![8u8, 6u8, 0u8, 0u8, 0u8]
}

/// The filtered scanlines of a row-major RGBA grid: each row is one zero
/// filter byte followed by its pixel bytes.
pub open spec fn scanlines(pix: Seq<u8>, w: int, h: int) -> Seq<u8>
    decreases h,
{
    if h <= 0 {
        Seq::empty()
    } else {
        scanlines(pix, w, h - 1) + seq![0u8] + pix.subrange(4 * (w * (h - 1)), 4 * (w * h))
    }
}

/// The complete PNG file encoding a `w`-by-`h` RGBA byte grid.
pub open spec fn png_bytes(w: u32, h: u32, pix: Seq<u8>) -> Seq<u8> {
    png_signature() + chunk(ihdr_type(), ihdr_data(w, h)) + chunk(
        idat_type(),
        zlib(scanlines(pix, w as int, h as int)),
    ) + chunk(iend_type(), Seq::empty())
}

/// A scanline stream is one filter byte plus `4 w` bytes per row.
pub proof fn lemma_scanlines_len(pix: Seq<u8>, w: int, h: int)
    requires
        w >= 0,
        h >= 0,
        4 * (w * h) <= pix.len(),
    ensures
        scanlines(pix, w, h).len() == h * (1 + 4 * w),
    decreases h,
{
    if h > 0 {
        assert(4 * (w * (h - 1)) <= 4 * (w * h) && 0 <= 4 * (w * (h - 1))) by (nonlinear_arith)
            requires
                w >= 0 && h >= 1,
        ;
        lemma_scanlines_len(pix, w, h - 1);
        let l1 = scanlines(pix, w, h - 1).len() as int;
        assert(l1 + 1 + (4 * (w * h) - 4 * (w * (h - 1))) == h * (1 + 4 * w)) by (nonlinear_arith)
            requires
                l1 == (h - 1) * (1 + 4 * w),
        ;
    } else {
        assert(h * (1 + 4 * w) == 0) by (nonlinear_arith)
            requires
                h == 0,
        ;
    }
}

/// Stored blocks add at most five bytes of framing per 65535 bytes of data.
pub proof fn lemma_stored_blocks_len(data: Seq<u8>)
    ensures
        stored_blocks(data).len() <= 2 * data.len() + 5,
    decreases data.len(),
{
    if data.len() > 65535 {
        lemma_stored_blocks_len(data.subrange(65535, data.len() as int));
    }
}

/// CRC-32, computed bit by bit.
pub fn crc32(data: &Vec<u8>) -> (r: u32)
    ensures
        r == crc32_of(data@),
{
    let mut c: u32 = 0xFFFF_FFFF;
    let mut i: usize = 0;
    while i < data.len()
        invariant
            i <= data@.len(),
            c == crc_prefix(data@, i as int),
        decreases data@.len() - i,
    {
        let b = data[i];
        let mut cc: u32 = c ^ (b as u32);
        let ghost c0 = cc;
        let mut j: usize = 0;
        while j < 8
            invariant
                j <= 8,
                cc == crc_rounds(c0, j as nat),
            decreases 8 - j,
        {
            cc = if cc & 1 == 1 {
                (cc >> 1u32) ^ 0xEDB8_8320
            } else {
                cc >> 1u32
            };
            j = j + 1;
        }
        c = cc;
        i = i + 1;
    }
    !c
}

/// Adler-32 with running modular accumulators.
pub fn adler32(data: &Vec<u8>) -> (r: u32)
    ensures
        r == adler32_of(data@),
{
    let mut a: u32 = 1;
    let mut b: u32 = 0;
    let mut i: usize = 0;
    while i < data.len()
        invariant
            i <= data@.len(),
            a < 65521,
            b < 65521,
            a as int == adler_lo(data@, i as int),
            b as int == adler_hi(data@, i as int),
        decreases data@.len() - i,
    {
        let v = data[i];
        a = (a + (v as u32)) % 65521;
        b = (b + a) % 65521;
        i = i + 1;
    }
    b * 0x10000 + a
}

/// Append the big-endian bytes of `x`.
fn push_be32(out: &mut Vec<u8>, x: u32)
    ensures
        final(out)@ == old(out)@ + be32(x),
{
    out.push((x >> 24u32) as u8);
    out.push((x >> 16u32) as u8);
    out.push((x >> 8u32) as u8);
    out.push(x as u8);
    proof {
        assert(out@ =~= old(out)@ + be32(x));
    }
}

/// Append the little-endian bytes of `x`.
fn push_le16(out: &mut Vec<u8>, x: u16)
    ensures
        final(out)@ == old(out)@ + le16(x),
{
    out.push(x as u8);
    out.push((x >> 8u16) as u8);
    proof {
        assert(out@ =~= old(out)@ + le16(x));
    }
}

/// Append a whole PNG chunk of the four-byte type `t0 t1 t2 t3`.
fn write_chunk(out: &mut Vec<u8>, t0: u8, t1: u8, t2: u8, t3: u8, data: &Vec<u8>)
    requires
        data@.len() < 0x1_0000_0000,
    ensures
        final(out)@ == old(out)@ + chunk(seq![t0, t1, t2, t3], data@),
{
    push_be32(out, data.len() as u32);
    out.push(t0);
    out.push(t1);
    out.push(t2);
    out.push(t3);
    let mut i: usize = 0;
    let ghost head = old(out)@ + be32(data@.len() as u32) + seq![t0, t1, t2, t3];
    proof {
        assert(out@ =~= head);
    }
    while i < data.len()
        invariant
            i <= data@.len(),
            out@ == head + data@.subrange(0, i as int),
        decreases data@.len() - i,
    {
        out.push(data[i]);
        proof {
            assert(out@ =~= head + data@.subrange(0, i as int + 1));
        }
        i = i + 1;
    }
    let mut content: Vec<u8> = Vec::new();
    content.push(t0);
    content.push(t1);
    content.push(t2);
    content.push(t3);
    let mut j: usize = 0;
    while j < data.len()
        invariant
            j <= data@.len(),
            content@ == seq![t0, t1, t2, t3] + data@.subrange(0, j as int),
        decreases data@.len() - j,
    {
        content.push(data[j]);
        proof {
            assert(content@ =~= seq![t0, t1, t2, t3] + data@.subrange(0, j as int + 1));
        }
        j = j + 1;
    }
    proof {
        assert(content@ =~= seq![t0, t1, t2, t3] + data@);
    }
    let crc = crc32(&content);
    push_be32(out, crc);
    proof {
        assert(data@.subrange(0, data@.len() as int) =~= data@);
        assert(out@ =~= old(out)@ + chunk(seq![t0, t1, t2, t3], data@));
    }
}

/// The filtered scanlines of a pixel buffer.
fn encode_scanlines(buf: &PixelBuffer) -> (r: Vec<u8>)
    requires
        buf.wf(),
    ensures
        r@ == scanlines(buf@, buf.spec_width() as int, buf.spec_height() as int),
{
    let w = buf.width();
    let h = buf.height();
    let data = buf.bytes();
    let ghost pix = buf@;
    let mut out: Vec<u8> = Vec::new();
    let mut y: u32 = 0;
    proof {
        assert(out@ =~= scanlines(pix, w as int, 0));
    }
    while y < h
        invariant
            buf.wf(),
            w == buf.spec_width(),
            h == buf.spec_height(),
            data@ == pix,
            pix.len() == 4 * ((w as int) * (h as int)),
            y <= h,
            out@ == scanlines(pix, w as int, y as int),
        decreases h - y,
    {
        proof {
            assert((w as int) * (y as int) + (w as int) == (w as int) * (y as int + 1))
                by (nonlinear_arith);
            assert(0 <= (w as int) * (y as int) && (w as int) * (y as int + 1) <= (w as int) * (
            h as int)) by (nonlinear_arith)
                requires
                    0 <= y,
                    y < h,
                    w >= 0,
            ;
        }
        out.push(0u8);
        let row_start: usize = (4 * ((w as u64) * (y as u64))) as usize;
        let row_len: usize = (4 * (w as u64)) as usize;
        let ghost mid = scanlines(pix, w as int, y as int) + seq![0u8];
        proof {
            assert(out@ =~= mid + pix.subrange(row_start as int, row_start as int));
        }
        let mut j: usize = 0;
        while j < row_len
            invariant
                j <= row_len,
                data@ == pix,
                pix.len() < 0x1000_0000,
                row_start as int == 4 * ((w as int) * (y as int)),
                row_start + row_len <= pix.len(),
                row_len == 4 * (w as int),
                out@ == mid + pix.subrange(row_start as int, row_start as int + j as int),
            decreases row_len - j,
        {
            out.push(data[row_start + j]);
            proof {
                assert(out@ =~= mid + pix.subrange(
                    row_start as int,
                    row_start as int + j as int + 1,
                ));
            }
            j = j + 1;
        }
        proof {
            assert(4 * ((w as int) * (y as int)) + 4 * (w as int) == 4 * ((w as int) * (
            y as int + 1))) by (nonlinear_arith);
            assert(out@ =~= scanlines(pix, w as int, y as int + 1));
        }
        y = y + 1;
    }
    out
}

/// The zlib stream of stored blocks wrapping `data`.
fn zlib_encode(data: &Vec<u8>) -> (r: Vec<u8>)
    requires
        data@.len() < 0x1000_0000,
    ensures
        r@ == zlib(data@),
{
    let ghost whole = data@;
    let mut out: Vec<u8> = Vec::new();
    out.push(0x78u8);
    out.push(0x01u8);
    proof {
        assert(whole.subrange(0, whole.len() as int) =~= whole);
        assert(out@ =~= seq![0x78u8, 0x01u8]);
        assert(out@ + stored_blocks(whole.subrange(0, whole.len() as int)) =~= seq![
            0x78u8,
            0x01u8,
        ] + stored_blocks(whole));
    }
    let mut off: usize = 0;
    while data.len() - off > 65535
        invariant
            off <= data@.len(),
            data@ == whole,
            whole.len() < 0x1000_0000,
            out@ + stored_blocks(whole.subrange(off as int, whole.len() as int)) == seq![
                0x78u8,
                0x01u8,
            ] + stored_blocks(whole),
        decreases data@.len() - off,
    {
        let ghost rem = whole.subrange(off as int, whole.len() as int);
        out.push(0u8);
        push_le16(&mut out, 65535u16);
        push_le16(&mut out, 0u16);
        let ghost header_done = out@;
        let mut j: usize = 0;
        while j < 65535
            invariant
                j <= 65535,
                data@ == whole,
                whole.len() < 0x1000_0000,
                off + 65535 < whole.len(),
                out@ == header_done + whole.subrange(off as int, off as int + j as int),
            decreases 65535 - j,
        {
            out.push(data[off + j]);
            proof {
                assert(out@ =~= header_done + whole.subrange(
                    off as int,
                    off as int + j as int + 1,
                ));
            }
            j = j + 1;
        }
        proof {
            assert(rem.len() > 65535);
            assert(rem.subrange(0, 65535) =~= whole.subrange(off as int, off as int + 65535));
            assert(rem.subrange(65535, rem.len() as int) =~= whole.subrange(
                off as int + 65535,
                whole.len() as int,
            ));
            assert(stored_blocks(rem) =~= seq![0u8] + le16(65535u16) + le16(0u16) + rem.subrange(
                0,
                65535,
            ) + stored_blocks(rem.subrange(65535, rem.len() as int)));
            assert(out@ + stored_blocks(whole.subrange(off as int + 65535, whole.len() as int))
                =~= seq![0x78u8, 0x01u8] + stored_blocks(whole));
        }
        off = off + 65535;
    }
    let ghost rem = whole.subrange(off as int, whole.len() as int);
    let tail: usize = data.len() - off;
    out.push(1u8);
    push_le16(&mut out, tail as u16);
    push_le16(&mut out, (65535 - tail) as u16);
    let ghost header_done = out@;
    let mut j: usize = 0;
    while j < tail
        invariant
            j <= tail,
            data@ == whole,
            whole.len() < 0x1000_0000,
            off + tail == whole.len(),
            out@ == header_done + whole.subrange(off as int, off as int + j as int),
        decreases tail - j,
    {
        out.push(data[off + j]);
        proof {
            assert(out@ =~= header_done + whole.subrange(off as int, off as int + j as int + 1));
        }
        j = j + 1;
    }
    proof {
        assert(rem.len() <= 65535);
        assert(rem =~= whole.subrange(off as int, off as int + tail as int));
        assert(stored_blocks(rem) =~= seq![1u8] + le16(rem.len() as u16) + le16(
            (0xFFFF - rem.len()) as u16,
        ) + rem);
        assert(out@ =~= seq![0x78u8, 0x01u8] + stored_blocks(whole));
    }
    let ad = adler32(data);
    push_be32(&mut out, ad);
    proof {
        assert(out@ =~= zlib(whole));
    }
    out
}

/// A finished image: the encoded bytes and their MIME content type.
pub struct EncodedImage {
    pub bytes: Vec<u8>,
}

/// The MIME content type every encoded image carries.
pub open spec fn spec_content_type() -> Seq<char> {
    "image/png"@
}

impl EncodedImage {
    /// The MIME content type of the encoded bytes.
    pub fn content_type(&self) -> (r: &'static str)
        ensures
            r@ == spec_content_type(),
    {
        "image/png"
    }
}

/// Serialize a pixel buffer as a PNG file. The output is a pure function of
/// the buffer, so encoding is deterministic, and the verified encoder cannot
/// fail.
pub fn encode_png(buf: &PixelBuffer) -> (img: EncodedImage)
    requires
        buf.wf(),
    ensures
        img.bytes@ == png_bytes(buf.spec_width(), buf.spec_height(), buf@),
{
    let w = buf.width();
    let h = buf.height();
    let mut out: Vec<u8> = Vec::new();
    out.push(0x89u8);
    out.push(0x50u8);
    out.push(0x4Eu8);
    out.push(0x47u8);
    out.push(0x0Du8);
    out.push(0x0Au8);
    out.push(0x1Au8);
    out.push(0x0Au8);
    proof {
        assert(out@ =~= png_signature());
    }
    let mut ih: Vec<u8> = Vec::new();
    push_be32(&mut ih, w);
    push_be32(&mut ih, h);
    ih.push(8u8);
    ih.push(6u8);
    ih.push(0u8);
    ih.push(0u8);
    ih.push(0u8);
    proof {
        assert(ih@ =~= ihdr_data(w, h));
    }
    write_chunk(&mut out, 0x49, 0x48, 0x44, 0x52, &ih);
    proof {
        assert(seq![0x49u8, 0x48u8, 0x44u8, 0x52u8] =~= ihdr_type());
    }
    let raw = encode_scanlines(buf);
    proof {
        lemma_scanlines_len(buf@, w as int, h as int);
        assert((h as int) * (1 + 4 * (w as int)) < 0x1000_0000) by (nonlinear_arith)
            requires
                w >= 1,
                h >= 1,
                (w as int) * (h as int) <= 0x40_0000,
        ;
    }
    let z = zlib_encode(&raw);
    proof {
        lemma_stored_blocks_len(scanlines(buf@, w as int, h as int));
    }
    write_chunk(&mut out, 0x49, 0x44, 0x41, 0x54, &z);
    proof {
        assert(seq![0x49u8, 0x44u8, 0x41u8, 0x54u8] =~= idat_type());
    }
    let empty: Vec<u8> = Vec::new();
    write_chunk(&mut out, 0x49, 0x45, 0x4E, 0x44, &empty);
    proof {
        assert(seq![0x49u8, 0x45u8, 0x4Eu8, 0x44u8] =~= iend_type());
        assert(out@ =~= png_bytes(w, h, buf@));
    }
    EncodedImage { bytes: out }
}

} // verus!
