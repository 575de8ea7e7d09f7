//! Pipeline-wide guarantees, stated over the same spec functions the
//! public contracts use.

use vstd::prelude::*;
use vstd::arithmetic::div_mod::lemma_div_multiples_vanish;

use crate::codec::{ihdr_data, le16, lemma_scanlines_len, lemma_stored_blocks_len, png_bytes, scanlines, stored_blocks};
use crate::model::Circle;
use crate::raster::{
    channel, coverage, dist2, painted_channel, scaled_alpha, sqrt_floor,
    src_channel,
};

verus! {

/// The canvas width a PNG file's header declares.
pub open spec fn png_width_of(b: Seq<u8>) -> int {
    (b[16] as int) * 0x100_0000 + (b[17] as int) * 0x1_0000 + (b[18] as int) * 0x100 + (
    b[19] as int)
}

/// The canvas height a PNG file's header declares.
pub open spec fn png_height_of(b: Seq<u8>) -> int {
    (b[20] as int) * 0x100_0000 + (b[21] as int) * 0x1_0000 + (b[22] as int) * 0x100 + (
    b[23] as int)
}

/// An encoded image declares in its header exactly the pixel dimensions it
/// was rendered at, whatever the pixel contents.
pub proof fn lemma_encoded_dimensions(w: u32, h: u32, pix: Seq<u8>)
    ensures
        png_width_of(png_bytes(w, h, pix)) == w,
        png_height_of(png_bytes(w, h, pix)) == h,
{
    let file = png_bytes(w, h, pix);
    let data = ihdr_data(w, h);
    assert(file[16] == data[0] && file[17] == data[1] && file[18] == data[2] && file[19] == data[3]
        && file[20] == data[4] && file[21] == data[5] && file[22] == data[6] && file[23]
        == data[7]);
    assert(((w >> 24) as u8 as int) * 0x100_0000 + ((w >> 16) as u8 as int) * 0x1_0000 + ((w
        >> 8) as u8 as int) * 0x100 + (w as u8 as int) == w) by (bit_vector);
    assert(((h >> 24) as u8 as int) * 0x100_0000 + ((h >> 16) as u8 as int) * 0x1_0000 + ((h
        >> 8) as u8 as int) * 0x100 + (h as u8 as int) == h) by (bit_vector);
}

/// A pixel whose center the descriptor placed the circle on (and whose
/// radius covers it with margin) takes the fill color at the fill's own
/// alpha: at full coverage, the premultiplied source channel itself.
pub proof fn lemma_circle_center_covered(c: Circle, px: int, py: int, ch: int)
    requires
        c.cx == 256 * px,
        c.cy == 256 * py,
        c.radius >= 309,
    ensures
        painted_channel(seq![c], px, py, ch) == src_channel(c.fill, ch, c.fill.alpha as int),
        c.fill.alpha == 255 && 0 <= ch < 4 ==> painted_channel(seq![c], px, py, ch) == channel(
            c.fill,
            ch,
        ),
{
    let cs = seq![c];
    assert(cs.drop_last() =~= Seq::<Circle>::empty());
    assert(painted_channel(cs.drop_last(), px, py, ch) == 0);
    let dx = crate::raster::pixel_center(px) - c.cx;
    let dy = crate::raster::pixel_center(py) - c.cy;
    assert(dx == 128 && dy == 128);
    assert(128int * 128 + 128 * 128 == 32768) by (nonlinear_arith);
    assert(dist2(c, px, py) == 32768);
    assert(181 * 181 <= 32768 < 182 * 182) by (nonlinear_arith);
    crate::raster::lemma_sqrt_floor_unique(32768, 181);
    assert(coverage(c, px, py) == 256);
    let a = c.fill.alpha as int;
    assert(a * 256 == 256 * a) by (nonlinear_arith);
    lemma_div_multiples_vanish(a, 256);
    assert(scaled_alpha(c.fill.alpha, 256) == a);
    let src = src_channel(c.fill, ch, a);
    assert(0 * (255 - a) == 0) by (nonlinear_arith);
    assert((0 * (255 - a)) / 255 == 0);
    assert(painted_channel(cs, px, py, ch) == src);
    if c.fill.alpha == 255 && 0 <= ch < 4 {
        if ch != 3 {
            let cc = channel(c.fill, ch);
            assert(cc * 255 == 255 * cc) by (nonlinear_arith);
            lemma_div_multiples_vanish(cc, 255);
        }
    }
}

/// A pixel whose center is at least half a pixel outside the circle's
/// boundary keeps the transparent background.
pub proof fn lemma_circle_outside_transparent(c: Circle, px: int, py: int, ch: int)
    requires
        0 <= c.radius,
        dist2(c, px, py) >= (c.radius + 128) * (c.radius + 128),
    ensures
        painted_channel(seq![c], px, py, ch) == 0,
{
    let cs = seq![c];
    assert(cs.drop_last() =~= Seq::<Circle>::empty());
    let d2 = dist2(c, px, py) as nat;
    crate::raster::lemma_sqrt_floor_bounds(d2);
    let d = sqrt_floor(d2) as int;
    let rr = c.radius as int;
    assert(d >= rr + 128) by (nonlinear_arith)
        requires
            d2 >= (rr + 128) * (rr + 128),
            d2 < (d + 1) * (d + 1),
            d >= 0,
            rr >= 0,
    ;
    assert(coverage(c, px, py) == 0);
    let a = c.fill.alpha as int;
    assert(a * 0 == 0) by (nonlinear_arith);
    assert(scaled_alpha(c.fill.alpha, 0) == 0);
    if ch != 3 {
        let cc = channel(c.fill, ch);
        assert(cc * 0 == 0) by (nonlinear_arith);
    }
    assert(src_channel(c.fill, ch, 0) == 0);
    assert(0int * 255 == 0) by (nonlinear_arith);
    assert(crate::raster::over(0, 0, 0) == 0);
    assert(painted_channel(cs, px, py, ch) == crate::raster::over(
        painted_channel(cs.drop_last(), px, py, ch),
        src_channel(c.fill, ch, scaled_alpha(c.fill.alpha, coverage(c, px, py))),
        scaled_alpha(c.fill.alpha, coverage(c, px, py)),
    ));
    assert(painted_channel(cs, px, py, ch) == 0);
}

/// The data a deflate decoder recovers from a stream of stored blocks:
/// each block is five framing bytes (final flag, length, complemented
/// length) and its payload verbatim.
pub open spec fn unstored(z: Seq<u8>) -> Seq<u8>
    decreases z.len(),
{
    if z.len() >= 5 {
        let l = (z[1] as int) + 256 * (z[2] as int);
        if 5 + l <= z.len() {
            if z[0] == 1 {
                z.subrange(5, 5 + l)
            } else {
                z.subrange(5, 5 + l) + unstored(z.subrange(5 + l, z.len() as int))
            }
        } else {
            Seq::empty()
        }
    } else {
        Seq::empty()
    }
}

/// Inflating the stored blocks the encoder wrote gives back the raw data.
pub proof fn lemma_unstored_stored(data: Seq<u8>)
    ensures
        unstored(stored_blocks(data)) == data,
    decreases data.len(),
{
    if data.len() <= 65535 {
        let z = stored_blocks(data);
        let x = data.len() as u16;
        assert(x as int == data.len());
        assert((x as u8 as int) + 256 * ((x >> 8) as u8 as int) == x as int) by (bit_vector);
        assert(z[1] == le16(x)[0] && z[2] == le16(x)[1]);
        let l = (z[1] as int) + 256 * (z[2] as int);
        assert(l == data.len());
        assert(z.len() == 5 + l);
        assert(z[0] == 1);
        assert(unstored(z) =~= data);
    } else {
        let z = stored_blocks(data);
        let head = data.subrange(0, 65535);
        let tail = data.subrange(65535, data.len() as int);
        lemma_unstored_stored(tail);
        assert(stored_blocks(tail).len() >= 5);
        assert(z[0] == 0);
        assert(65535u16 as u8 == 255 && (65535u16 >> 8) as u8 == 255) by (bit_vector);
        assert(z[1] == le16(65535u16)[0] && z[2] == le16(65535u16)[1]);
        assert(z[1] == 255 && z[2] == 255);
        assert(256 * 255int == 65280) by (nonlinear_arith);
        let l = (z[1] as int) + 256 * (z[2] as int);
        assert(l == 65535);
        assert(z.len() == 5 + 65535 + stored_blocks(tail).len());
        assert(z.subrange(5, 5 + l) =~= head);
        assert(z.subrange(5 + l, z.len() as int) =~= stored_blocks(tail));
        assert(unstored(z) == head + unstored(stored_blocks(tail)));
        assert(head + tail =~= data);
    }
}

/// The pixel bytes a decoder recovers from filtered scanlines: each row
/// drops its leading filter byte.
pub open spec fn unfiltered(r: Seq<u8>, w: int, h: int) -> Seq<u8>
    decreases h,
{
    if h <= 0 {
        Seq::empty()
    } else {
        unfiltered(r, w, h - 1) + r.subrange((h - 1) * (1 + 4 * w) + 1, h * (1 + 4 * w))
    }
}

/// Unfiltering reads only the first `k` rows, so appended bytes change
/// nothing.
pub proof fn lemma_unfiltered_prefix(a: Seq<u8>, b: Seq<u8>, w: int, k: int)
    requires
        w >= 0,
        k >= 0,
        k * (1 + 4 * w) <= a.len(),
    ensures
        unfiltered(a + b, w, k) == unfiltered(a, w, k),
    decreases k,
{
    if k > 0 {
        assert((k - 1) * (1 + 4 * w) >= 0 && (k - 1) * (1 + 4 * w) <= k * (1 + 4 * w))
            by (nonlinear_arith)
            requires
                w >= 0 && k >= 1,
        ;
        lemma_unfiltered_prefix(a, b, w, k - 1);
        assert((k - 1) * (1 + 4 * w) + (1 + 4 * w) == k * (1 + 4 * w)) by (nonlinear_arith);
        assert((a + b).subrange((k - 1) * (1 + 4 * w) + 1, k * (1 + 4 * w)) =~= a.subrange(
            (k - 1) * (1 + 4 * w) + 1,
            k * (1 + 4 * w),
        ));
    }
}

/// Unfiltering the scanlines the encoder wrote gives back the pixel bytes.
pub proof fn lemma_unfiltered_scanlines(pix: Seq<u8>, w: int, h: int)
    requires
        w >= 0,
        h >= 0,
        4 * (w * h) <= pix.len(),
    ensures
        unfiltered(scanlines(pix, w, h), w, h) == pix.subrange(0, 4 * (w * h)),
    decreases h,
{
    lemma_scanlines_len(pix, w, h);
    if h <= 0 {
        assert(4 * (w * h) == 0) by (nonlinear_arith)
            requires
                h == 0,
        ;
        assert(pix.subrange(0, 0) =~= Seq::<u8>::empty());
    } else {
        assert(4 * (w * (h - 1)) <= 4 * (w * h) && 0 <= 4 * (w * (h - 1))) by (nonlinear_arith)
            requires
                w >= 0 && h >= 1,
        ;
        lemma_unfiltered_scanlines(pix, w, h - 1);
        lemma_scanlines_len(pix, w, h - 1);
        let prev = scanlines(pix, w, h - 1);
        let row = pix.subrange(4 * (w * (h - 1)), 4 * (w * h));
        let full = scanlines(pix, w, h);
        assert(full == prev + seq![0u8] + row);
        assert((h - 1) * (1 + 4 * w) + 1 + row.len() == h * (1 + 4 * w)) by (nonlinear_arith)
            requires
                row.len() == 4 * (w * h) - 4 * (w * (h - 1)),
        ;
        lemma_unfiltered_prefix(prev, seq![0u8] + row, w, h - 1);
        assert(prev + seq![0u8] + row =~= prev + (seq![0u8] + row));
        assert(unfiltered(full, w, h - 1) == unfiltered(prev, w, h - 1));
        assert(full.subrange((h - 1) * (1 + 4 * w) + 1, h * (1 + 4 * w)) =~= row);
        assert(pix.subrange(0, 4 * (w * (h - 1))) + row =~= pix.subrange(0, 4 * (w * h)));
    }
}

/// What a standard PNG decoder recovers from the IDAT payload the encoder
/// wrote: inflate the stored blocks, then strip each row's filter byte.
pub open spec fn decoded_pixels(z: Seq<u8>, w: int, h: int) -> Seq<u8> {
    unfiltered(unstored(z), w, h)
}

/// Round trip: decoding the encoded image's pixel data reproduces the
/// pixel buffer exactly; the format is lossless.
pub proof fn lemma_encoding_lossless(w: u32, h: u32, pix: Seq<u8>)
    requires
        pix.len() == 4 * ((w as int) * (h as int)),
    ensures
        decoded_pixels(
            stored_blocks(scanlines(pix, w as int, h as int)),
            w as int,
            h as int,
        ) == pix,
{
    let wi = w as int;
    let hi = h as int;
    lemma_unstored_stored(scanlines(pix, wi, hi));
    lemma_unfiltered_scanlines(pix, wi, hi);
    assert(pix.subrange(0, 4 * (wi * hi)) =~= pix);
}

/// The length the IDAT chunk declares, read back from the file: the chunk
/// begins right after the signature and the 25-byte IHDR chunk.
pub open spec fn idat_len_of(b: Seq<u8>) -> int {
    (b[33] as int) * 0x100_0000 + (b[34] as int) * 0x1_0000 + (b[35] as int) * 0x100 + (
    b[36] as int)
}

/// The deflate stream inside the IDAT chunk: the chunk's payload without
/// the two zlib header bytes and the four Adler-32 trailer bytes.
pub open spec fn idat_deflate_of(b: Seq<u8>) -> Seq<u8> {
    b.subrange(43, 37 + idat_len_of(b))
}

/// A decoder that locates the IDAT chunk by the fixed header layout finds
/// exactly the stored blocks the encoder wrote.
pub proof fn lemma_idat_extraction(w: u32, h: u32, pix: Seq<u8>)
    requires
        w >= 1,
        h >= 1,
        (w as int) * (h as int) <= 0x40_0000,
        pix.len() == 4 * ((w as int) * (h as int)),
    ensures
        idat_deflate_of(png_bytes(w, h, pix)) == stored_blocks(
            scanlines(pix, w as int, h as int),
        ),
{
    let file = png_bytes(w, h, pix);
    let raw = scanlines(pix, w as int, h as int);
    let z = crate::codec::zlib(raw);
    lemma_scanlines_len(pix, w as int, h as int);
    lemma_stored_blocks_len(raw);
    assert((h as int) * (1 + 4 * (w as int)) <= 0x500_0000) by (nonlinear_arith)
        requires
            w >= 1,
            h >= 1,
            (w as int) * (h as int) <= 0x40_0000,
    ;
    let l = z.len() as u32;
    assert(l as int == z.len());
    assert(file[33] == (l >> 24) as u8 && file[34] == (l >> 16) as u8 && file[35] == (l >> 8) as u8
        && file[36] == l as u8);
    assert(((l >> 24) as u8 as int) * 0x100_0000 + ((l >> 16) as u8 as int) * 0x1_0000 + ((l
        >> 8) as u8 as int) * 0x100 + (l as u8 as int) == l) by (bit_vector);
    assert(idat_len_of(file) == z.len());
    let sb = stored_blocks(raw);
    assert(z.len() == 2 + sb.len() + 4);
    assert(idat_deflate_of(file) =~= sb);
}

/// Round trip through the whole file: a decoder that locates the IDAT
/// payload in the encoded image, inflates its stored blocks and strips the
/// filter bytes recovers the pixel buffer exactly.
pub proof fn lemma_image_round_trip(w: u32, h: u32, pix: Seq<u8>)
    requires
        w >= 1,
        h >= 1,
        (w as int) * (h as int) <= 0x40_0000,
        pix.len() == 4 * ((w as int) * (h as int)),
    ensures
        decoded_pixels(idat_deflate_of(png_bytes(w, h, pix)), w as int, h as int) == pix,
{
    lemma_idat_extraction(w, h, pix);
    lemma_encoding_lossless(w, h, pix);
}

/// Encoding is deterministic: the encoder's contract makes the output a
/// function of the buffer alone, so two encodings of equal buffers are
/// byte-identical.
pub proof fn lemma_encoding_deterministic(
    w: u32,
    h: u32,
    pix: Seq<u8>,
    b1: Seq<u8>,
    b2: Seq<u8>,
)
    requires
        b1 == png_bytes(w, h, pix),
        b2 == png_bytes(w, h, pix),
    ensures
        b1 == b2,
{
}

} // verus!
