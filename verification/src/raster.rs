//! Pixel buffers and circle rasterization with anti-aliased edge coverage.
//!
//! All geometry is carried in integer subpixel units: one pixel is 256
//! subunits, so the center of pixel `(x, y)` lies at subpixel coordinates
//! `(256 x + 128, 256 y + 128)`. A pixel's coverage by a circle is 256 when
//! its center is at least half a pixel inside the boundary, 0 when at least
//! half a pixel outside, and ramps linearly across the one-pixel band in
//! between. Colors are composited source-over on premultiplied RGBA bytes.

use vstd::prelude::*;
use vstd::arithmetic::div_mod::{
    lemma_div_is_ordered, lemma_div_multiples_vanish, lemma_fundamental_div_mod_converse,
};
use vstd::arithmetic::mul::{lemma_mul_inequality, lemma_mul_nonnegative};

use crate::model::{circle_wf, Circle, RenderError, Rgba, Scene};

verus! {

/// Largest argument `isqrt` accepts; every squared distance the rasterizer
/// forms stays below it.
pub const MAX_SQUARE: u64 = 0x4000_0000_0000_0000;

/// Cap on the pixel count of a canvas, so that caller-influenced dimensions
/// cannot demand unbounded memory.
pub const MAX_AREA: u64 = 0x40_0000;

/// The integer square root, rounded down: the unique `r` with
/// `r * r <= n < (r + 1) * (r + 1)`.
pub open spec fn sqrt_floor(n: nat) -> nat
    decreases n,
{
    if n == 0 {
        0
    } else {
        let s = sqrt_floor((n - 1) as nat);
        if (s + 1) * (s + 1) <= n {
            s + 1
        } else {
            s
        }
    }
}

/// `sqrt_floor(n)` squares to at most `n`, and the next integer squares past it.
pub proof fn lemma_sqrt_floor_bounds(n: nat)
    ensures
        sqrt_floor(n) * sqrt_floor(n) <= n,
        n < (sqrt_floor(n) + 1) * (sqrt_floor(n) + 1),
    decreases n,
{
    if n > 0 {
        lemma_sqrt_floor_bounds((n - 1) as nat);
        let s = sqrt_floor((n - 1) as nat);
        if (s + 1) * (s + 1) <= n {
            assert(sqrt_floor(n) == s + 1);
            assert(n <= (s + 1) * (s + 1));
            assert((n as int) < (s as int + 2) * (s as int + 2)) by (nonlinear_arith)
                requires
                    n as int <= (s as int + 1) * (s as int + 1),
            ;
            assert(n < (sqrt_floor(n) + 1) * (sqrt_floor(n) + 1));
        } else {
            assert(sqrt_floor(n) == s);
            assert(n < (sqrt_floor(n) + 1) * (sqrt_floor(n) + 1));
        }
    } else {
        assert(n == 0);
        assert(sqrt_floor(n) == 0);
        assert(n < (sqrt_floor(n) + 1) * (sqrt_floor(n) + 1)) by (nonlinear_arith)
            requires
                n == 0 && sqrt_floor(n) == 0,
        ;
    }
}

/// Any `r` bracketing `n` between consecutive squares is `sqrt_floor(n)`.
pub proof fn lemma_sqrt_floor_unique(n: nat, r: nat)
    requires
        r * r <= n,
        n < (r + 1) * (r + 1),
    ensures
        r == sqrt_floor(n),
{
    lemma_sqrt_floor_bounds(n);
    let s = sqrt_floor(n);
    assert(r == s) by (nonlinear_arith)
        requires
            r * r <= n,
            n < (r + 1) * (r + 1),
            s * s <= n,
            n < (s + 1) * (s + 1),
    ;
}

/// Integer square root by binary search.
pub fn isqrt(n: u64) -> (r: u64)
    requires
        n < MAX_SQUARE,
    ensures
        r == sqrt_floor(n as nat),
        r * r <= n < (r + 1) * (r + 1),
        r <= 0x8000_0000,
{
    let mut lo: u64 = 0;
    let mut hi: u64 = 0x8000_0000;
    while lo < hi
        invariant
            lo <= hi <= 0x8000_0000,
            lo * lo <= n,
            n < (hi + 1) * (hi + 1),
        decreases hi - lo,
    {
        let mid = lo + (hi - lo + 1) / 2;
        proof {
            assert((mid as nat) * (mid as nat) <= 0x4000_0000_0000_0000) by (nonlinear_arith)
                requires
                    mid <= 0x8000_0000u64,
            ;
        }
        if mid * mid <= n {
            lo = mid;
        } else {
            hi = mid - 1;
        }
    }
    proof {
        lemma_sqrt_floor_unique(n as nat, lo as nat);
    }
    lo
}

/// Subpixel coordinate of the center of pixel row or column `p`.
pub open spec fn pixel_center(p: int) -> int {
    256 * p + 128
}

/// Squared subpixel distance from the center of pixel `(x, y)` to the
/// circle's center.
pub open spec fn dist2(c: Circle, x: int, y: int) -> int {
    let dx = pixel_center(x) - c.cx;
    let dy = pixel_center(y) - c.cy;
    dx * dx + dy * dy
}

/// Anti-aliased coverage of pixel `(x, y)` by the circle, scaled to
/// `[0, 256]`: full inside, zero outside, a linear ramp one pixel wide
/// across the boundary.
pub open spec fn coverage(c: Circle, x: int, y: int) -> int {
    let d = sqrt_floor(dist2(c, x, y) as nat) as int;
    if d <= c.radius - 128 {
        256
    } else if d >= c.radius + 128 {
        0
    } else {
        c.radius + 128 - d
    }
}

/// The fill alpha scaled by coverage: the effective source alpha.
pub open spec fn scaled_alpha(alpha: u8, cov: int) -> int {
    (alpha * cov) / 256
}

/// Channel `ch` of a color: 0 red, 1 green, 2 blue, 3 alpha.
pub open spec fn channel(col: Rgba, ch: int) -> int {
    if ch == 0 {
        col.red as int
    } else if ch == 1 {
        col.green as int
    } else if ch == 2 {
        col.blue as int
    } else {
        col.alpha as int
    }
}

/// Premultiplied source channel at effective source alpha `sa`.
pub open spec fn src_channel(col: Rgba, ch: int, sa: int) -> int {
    if ch == 3 {
        sa
    } else {
        (channel(col, ch) * sa) / 255
    }
}

/// Source-over compositing of one premultiplied channel.
pub open spec fn over(dst: int, src: int, sa: int) -> int {
    src + (dst * (255 - sa)) / 255
}

/// Channel `ch` of pixel `(x, y)` after painting the circles in order onto
/// a fully transparent canvas.
pub open spec fn painted_channel(cs: Seq<Circle>, x: int, y: int, ch: int) -> int
    decreases cs.len(),
{
    if cs.len() == 0 {
        0
    } else {
        let c = cs.last();
        let sa = scaled_alpha(c.fill.alpha, coverage(c, x, y));
        over(painted_channel(cs.drop_last(), x, y, ch), src_channel(c.fill, ch, sa), sa)
    }
}

/// The row-major RGBA byte grid (4 bytes per pixel) that painting the
/// circles on a transparent `w`-by-`h` canvas yields.
pub open spec fn painted_bytes(cs: Seq<Circle>, w: int, h: int) -> Seq<u8> {
    Seq::new(
        (4 * (w * h)) as nat,
        |k: int| painted_channel(cs, (k / 4) % w, (k / 4) / w, k % 4) as u8,
    )
}

/// The byte grid after compositing one more circle onto `prev`.
pub open spec fn composite_bytes(prev: Seq<u8>, c: Circle, w: int) -> Seq<u8> {
    Seq::new(
        prev.len(),
        |k: int|
            {
                let x = (k / 4) % w;
                let y = (k / 4) / w;
                let sa = scaled_alpha(c.fill.alpha, coverage(c, x, y));
                over(prev[k] as int, src_channel(c.fill, k % 4, sa), sa) as u8
            },
    )
}

/// Coverage always lies in `[0, 256]`.
pub proof fn lemma_coverage_bounds(c: Circle, x: int, y: int)
    requires
        0 <= c.radius,
    ensures
        0 <= coverage(c, x, y) <= 256,
{
}

/// One compositing step keeps every channel a byte: the effective source
/// alpha, the premultiplied source channel, and the blended result all lie
/// in `[0, 255]`.
pub proof fn lemma_composite_bounds(dst: int, col: Rgba, cov: int, ch: int)
    requires
        0 <= dst <= 255,
        0 <= cov <= 256,
    ensures
        0 <= scaled_alpha(col.alpha, cov) <= 255,
        0 <= src_channel(col, ch, scaled_alpha(col.alpha, cov)) <= scaled_alpha(col.alpha, cov),
        0 <= over(dst, src_channel(col, ch, scaled_alpha(col.alpha, cov)), scaled_alpha(col.alpha, cov)) <= 255,
{
    let a = col.alpha as int;
    lemma_mul_nonnegative(a, cov);
    lemma_mul_inequality(a, 255, cov);
    
    assert(255 * cov <= 255 * 256) by (nonlinear_arith)
        requires
            cov <= 256,
    ;
    lemma_div_is_ordered(0, a * cov, 256);
    lemma_div_is_ordered(a * cov, 255 * 256int, 256);
    let sa = scaled_alpha(col.alpha, cov);
    assert(sa <= 255);
    let cc = channel(col, ch);
    lemma_mul_nonnegative(cc, sa);
    lemma_mul_inequality(cc, 255, sa);
    lemma_div_is_ordered(0, cc * sa, 255);
    lemma_div_is_ordered(cc * sa, 255 * sa, 255);
    lemma_div_multiples_vanish(sa, 255);
    let src = src_channel(col, ch, sa);
    assert(0 <= src <= sa);
    lemma_mul_nonnegative(dst, 255 - sa);
    lemma_mul_inequality(dst, 255, 255 - sa);
    lemma_div_is_ordered(0, dst * (255 - sa), 255);
    lemma_div_is_ordered(dst * (255 - sa), 255 * (255 - sa), 255);
    lemma_div_multiples_vanish(255 - sa, 255);
}

/// Every painted channel is a byte.
pub proof fn lemma_painted_channel_bounds(cs: Seq<Circle>, x: int, y: int, ch: int)
    requires
        forall|i: int| 0 <= i < cs.len() ==> 0 <= (#[trigger] cs[i]).radius,
    ensures
        0 <= painted_channel(cs, x, y, ch) <= 255,
    decreases cs.len(),
{
    if cs.len() > 0 {
        lemma_painted_channel_bounds(cs.drop_last(), x, y, ch);
        let c = cs.last();
        lemma_coverage_bounds(c, x, y);
        lemma_composite_bounds(painted_channel(cs.drop_last(), x, y, ch), c.fill, coverage(c, x, y), ch);
    }
}

/// Compositing one more circle onto the grid painted so far paints the
/// extended sequence.
pub proof fn lemma_painted_bytes_step(cs: Seq<Circle>, c: Circle, w: int, h: int)
    requires
        w > 0,
        h > 0,
        forall|i: int| 0 <= i < cs.len() ==> 0 <= (#[trigger] cs[i]).radius,
    ensures
        composite_bytes(painted_bytes(cs, w, h), c, w) =~= painted_bytes(cs.push(c), w, h),
{
    let prev = painted_bytes(cs, w, h);
    let lhs = composite_bytes(prev, c, w);
    let rhs = painted_bytes(cs.push(c), w, h);
    lemma_mul_nonnegative(w, h);
    assert(lhs.len() == rhs.len());
    assert forall|k: int| 0 <= k < lhs.len() implies lhs[k] == rhs[k] by {
        let x = (k / 4) % w;
        let y = (k / 4) / w;
        let ch = k % 4;
        lemma_painted_channel_bounds(cs, x, y, ch);
        assert(cs.push(c).drop_last() =~= cs);
        assert(cs.push(c).last() == c);
        assert(prev[k] as int == painted_channel(cs, x, y, ch));
    }
}

/// A rectangular grid of premultiplied RGBA pixels, stored row-major,
/// 4 bytes per pixel.
pub struct PixelBuffer {
    width: u32,
    height: u32,
    data: Vec<u8>,
}

impl View for PixelBuffer {
    type V = Seq<u8>;

    closed spec fn view(&self) -> Seq<u8> {
        self.data@
    }
}

impl PixelBuffer {
    pub closed spec fn spec_width(&self) -> u32 {
        self.width
    }

    pub closed spec fn spec_height(&self) -> u32 {
        self.height
    }

    /// Nonempty, within the area cap, and exactly 4 bytes per pixel.
    pub open spec fn wf(&self) -> bool {
        &&& self.spec_width() > 0
        &&& self.spec_height() > 0
        &&& (self.spec_width() as int) * (self.spec_height() as int) <= MAX_AREA
        &&& self@.len() == 4 * ((self.spec_width() as int) * (self.spec_height() as int))
    }

    pub fn width(&self) -> (r: u32)
        ensures
            r == self.spec_width(),
    {
        self.width
    }

    pub fn height(&self) -> (r: u32)
        ensures
            r == self.spec_height(),
    {
        self.height
    }

    /// The raw byte grid.
    pub fn bytes(&self) -> (r: &Vec<u8>)
        ensures
            r@ == self@,
    {
        &self.data
    }

    /// Allocate a fully transparent canvas; reject an empty one or one past
    /// the area cap.
    pub fn new(width: u32, height: u32) -> (r: Result<PixelBuffer, RenderError>)
        ensures
            match r {
                Ok(b) => {
                    &&& width > 0 && height > 0
                    &&& (width as int) * (height as int) <= MAX_AREA
                    &&& b.wf()
                    &&& b.spec_width() == width
                    &&& b.spec_height() == height
                    &&& b@ =~= painted_bytes(Seq::<Circle>::empty(), width as int, height as int)
                },
                Err(e) => {
                    &&& e == RenderError::AllocationError
                    &&& (width == 0 || height == 0 || (width as int) * (height as int) > MAX_AREA)
                },
            },
    {
        if width == 0 || height == 0 {
            return Err(RenderError::AllocationError);
        }
        proof {
            assert((width as int) * (height as int) < 0x1_0000_0000_0000_0000) by (nonlinear_arith)
                requires
                    width < 0x1_0000_0000 && height < 0x1_0000_0000,
            ;
        }
        let area = (width as u64) * (height as u64);
        if area > MAX_AREA {
            return Err(RenderError::AllocationError);
        }
        let n: usize = (4 * area) as usize;
        let mut data: Vec<u8> = Vec::new();
        while data.len() < n
            invariant
                data@.len() <= n,
                forall|k: int| 0 <= k < data@.len() ==> data@[k] == 0u8,
            decreases n - data@.len(),
        {
            data.push(0u8);
        }
        let buf = PixelBuffer { width, height, data };
        proof {
            let target = painted_bytes(Seq::<Circle>::empty(), width as int, height as int);
            assert(buf@.len() == target.len());
            assert forall|k: int| 0 <= k < buf@.len() implies buf@[k] == target[k] by {
                assert(painted_channel(
                    Seq::<Circle>::empty(),
                    (k / 4) % (width as int),
                    (k / 4) / (width as int),
                    k % 4,
                ) == 0);
            }
        }
        Ok(buf)
    }

    /// Read one pixel as straight bytes (red, green, blue, alpha as stored).
    pub fn pixel(&self, x: u32, y: u32) -> (p: (u8, u8, u8, u8))
        requires
            self.wf(),
            x < self.spec_width(),
            y < self.spec_height(),
        ensures
            ({
                let base = 4 * ((y as int) * (self.spec_width() as int) + (x as int));
                &&& p.0 == self@[base]
                &&& p.1 == self@[base + 1]
                &&& p.2 == self@[base + 2]
                &&& p.3 == self@[base + 3]
            }),
    {
        proof {
            assert((self.spec_width() as int) * (y as int) + (x as int)
                < (self.spec_width() as int) * (self.spec_height() as int)) by (nonlinear_arith)
                requires
                    x < self.spec_width(),
                    y < self.spec_height(),
            ;
        }
        let w64 = self.width as u64;
        let base: usize = (4 * (w64 * (y as u64) + (x as u64))) as usize;
        (self.data[base], self.data[base + 1], self.data[base + 2], self.data[base + 3])
    }

    /// Paint one circle over the whole canvas, compositing source-over at
    /// each pixel's coverage.
    pub fn paint_circle(&mut self, c: &Circle)
        requires
            old(self).wf(),
            circle_wf(*c),
        ensures
            final(self).wf(),
            final(self).spec_width() == old(self).spec_width(),
            final(self).spec_height() == old(self).spec_height(),
            final(self)@ =~= composite_bytes(old(self)@, *c, old(self).spec_width() as int),
    {
        let w = self.width;
        let h = self.height;
        let ghost orig = self.data@;
        let ghost target = composite_bytes(old(self)@, *c, w as int);
        let mut y: u32 = 0;
        while y < h
            invariant
                self.width == w,
                self.height == h,
                w > 0,
                h > 0,
                (w as int) * (h as int) <= MAX_AREA,
                circle_wf(*c),
                y <= h,
                self.data@.len() == orig.len(),
                orig.len() == 4 * ((w as int) * (h as int)),
                target == composite_bytes(orig, *c, w as int),
                forall|k: int|
                    0 <= k < 4 * ((w as int) * (y as int)) ==> self.data@[k] == target[k],
                forall|k: int|
                    4 * ((w as int) * (y as int)) <= k < orig.len() ==> self.data@[k] == orig[k],
            decreases h - y,
        {
            let mut x: u32 = 0;
            while x < w
                invariant
                    self.width == w,
                    self.height == h,
                    w > 0,
                    h > 0,
                    (w as int) * (h as int) <= MAX_AREA,
                    circle_wf(*c),
                    y < h,
                    x <= w,
                    self.data@.len() == orig.len(),
                    orig.len() == 4 * ((w as int) * (h as int)),
                    target == composite_bytes(orig, *c, w as int),
                    forall|k: int|
                        0 <= k < 4 * ((w as int) * (y as int) + (x as int)) ==> self.data@[k]
                            == target[k],
                    forall|k: int|
                        4 * ((w as int) * (y as int) + (x as int)) <= k < orig.len()
                            ==> self.data@[k] == orig[k],
                decreases w - x,
            {
                let ghost p = (w as int) * (y as int) + (x as int);
                proof {
                    assert(p < (w as int) * (h as int)) by (nonlinear_arith)
                        requires
                            p == (w as int) * (y as int) + (x as int),
                            x < w,
                            y < h,
                            w > 0,
                            h > 0,
                    ;
                    assert((w as int) <= (w as int) * (h as int)) by (nonlinear_arith)
                        requires
                            h >= 1 && w >= 0,
                    ;
                    assert((h as int) <= (w as int) * (h as int)) by (nonlinear_arith)
                        requires
                            w >= 1 && h >= 0,
                    ;
                    assert(p == (y as int) * (w as int) + (x as int)) by (nonlinear_arith)
                        requires
                            p == (w as int) * (y as int) + (x as int),
                    ;
                }
                let base: usize = (4 * ((w as u64) * (y as u64) + (x as u64))) as usize;
                let cov = coverage_at(c, x, y);
                let sa = scale_alpha(c.fill.alpha, cov);
                let d0 = self.data[base];
                let v0 = composite_one(d0, &c.fill, 0, sa);
                self.data.set(base, v0);
                let d1 = self.data[base + 1];
                let v1 = composite_one(d1, &c.fill, 1, sa);
                self.data.set(base + 1, v1);
                let d2 = self.data[base + 2];
                let v2 = composite_one(d2, &c.fill, 2, sa);
                self.data.set(base + 2, v2);
                let d3 = self.data[base + 3];
                let v3 = composite_one(d3, &c.fill, 3, sa);
                self.data.set(base + 3, v3);
                proof {
                    assert(base as int == 4 * p);
                    assert forall|k: int| 4 * p <= k < 4 * p + 4 implies self.data@[k]
                        == target[k] by {
                        let ch = k - 4 * p;
                        lemma_fundamental_div_mod_converse(k, 4, p, ch);
                        lemma_fundamental_div_mod_converse(p, w as int, y as int, x as int);
                        assert(target[k] == over(
                            orig[k] as int,
                            src_channel(
                                c.fill,
                                ch,
                                scaled_alpha(c.fill.alpha, coverage(*c, x as int, y as int)),
                            ),
                            scaled_alpha(c.fill.alpha, coverage(*c, x as int, y as int)),
                        ) as u8);
                    }
                    assert(4 * ((w as int) * (y as int) + (x as int + 1)) == 4 * p + 4);
                }
                x = x + 1;
            }
            proof {
                assert((w as int) * (y as int) + (w as int) == (w as int) * (y as int + 1))
                    by (nonlinear_arith);
            }
            y = y + 1;
        }
    }
}

/// Effective source alpha: the fill alpha scaled by coverage.
fn scale_alpha(alpha: u8, cov: u32) -> (sa: u32)
    requires
        cov <= 256,
    ensures
        sa as int == scaled_alpha(alpha, cov as int),
        sa <= 255,
{
    proof {
        assert((alpha as int) * (cov as int) <= 65280) by (nonlinear_arith)
            requires
                alpha <= 255 && cov <= 256,
        ;
    }
    let p = (alpha as u32) * cov;
    proof {
        lemma_div_is_ordered(p as int, 65280, 256);
    }
    p / 256
}

/// Composite one channel source-over: `ch` is 0 red, 1 green, 2 blue,
/// 3 alpha.
fn composite_one(dst: u8, col: &Rgba, ch: usize, sa: u32) -> (r: u8)
    requires
        ch < 4,
        sa <= 255,
        exists|cov: int|
            0 <= cov <= 256 && sa as int == scaled_alpha(col.alpha, cov),
    ensures
        r as int == over(dst as int, src_channel(*col, ch as int, sa as int), sa as int),
{
    proof {
        let cov = choose|cov: int| 0 <= cov <= 256 && sa as int == scaled_alpha(col.alpha, cov);
        lemma_composite_bounds(dst as int, *col, cov, ch as int);
    }
    let cc: u32 = if ch == 0 {
        col.red as u32
    } else if ch == 1 {
        col.green as u32
    } else if ch == 2 {
        col.blue as u32
    } else {
        0
    };
    proof {
        assert((cc as int) * (sa as int) <= 65025) by (nonlinear_arith)
            requires
                cc <= 255 && sa <= 255,
        ;
        assert((dst as int) * (255 - sa as int) <= 65025) by (nonlinear_arith)
            requires
                dst <= 255 && sa <= 255,
        ;
        lemma_div_is_ordered((cc as int) * (sa as int), 65025, 255);
        lemma_div_is_ordered((dst as int) * (255 - sa as int), 65025, 255);
        lemma_mul_nonnegative(dst as int, 255 - sa as int);
        lemma_div_is_ordered(0, (dst as int) * (255 - sa as int), 255);
    }
    let src: u32 = if ch == 3 {
        sa
    } else {
        (cc * sa) / 255
    };
    let out: u32 = src + ((dst as u32) * (255 - sa)) / 255;
    out as u8
}

/// Anti-aliased coverage of pixel `(x, y)` by the circle, in `[0, 256]`.
fn coverage_at(c: &Circle, x: u32, y: u32) -> (cov: u32)
    requires
        circle_wf(*c),
        x < MAX_AREA,
        y < MAX_AREA,
    ensures
        cov as int == coverage(*c, x as int, y as int),
        cov <= 256,
{
    let px: i64 = 256 * (x as i64) + 128;
    let py: i64 = 256 * (y as i64) + 128;
    let dx: i64 = px - c.cx;
    let dy: i64 = py - c.cy;
    proof {
        assert((dx as int) * (dx as int) <= 0x1200_0000_0000_0000 && 0 <= (dx as int) * (dx as int))
            by (nonlinear_arith)
            requires
                -0x4200_0000 <= dx <= 0x4200_0000,
        ;
        assert((dy as int) * (dy as int) <= 0x1200_0000_0000_0000 && 0 <= (dy as int) * (dy as int))
            by (nonlinear_arith)
            requires
                -0x4200_0000 <= dy <= 0x4200_0000,
        ;
    }
    let d2: i64 = dx * dx + dy * dy;
    proof {
        assert(d2 as int == dist2(*c, x as int, y as int));
    }
    let d = isqrt(d2 as u64);
    let di = d as i64;
    proof {
        assert(di as int == sqrt_floor(dist2(*c, x as int, y as int) as nat) as int);
    }
    if di <= c.radius - 128 {
        256
    } else if di >= c.radius + 128 {
        0
    } else {
        (c.radius + 128 - di) as u32
    }
}

/// Paint a scene's primitives, in order, onto a fresh transparent canvas of
/// the scene's size.
pub fn rasterize(scene: &Scene) -> (r: Result<PixelBuffer, RenderError>)
    requires
        scene.wf(),
    ensures
        match r {
            Ok(b) => {
                &&& scene.width > 0 && scene.height > 0
                &&& (scene.width as int) * (scene.height as int) <= MAX_AREA
                &&& b.wf()
                &&& b.spec_width() == scene.width
                &&& b.spec_height() == scene.height
                &&& b@ =~= painted_bytes(scene.circles@, scene.width as int, scene.height as int)
            },
            Err(e) => {
                &&& e == RenderError::AllocationError
                &&& (scene.width == 0 || scene.height == 0 || (scene.width as int) * (
                scene.height as int) > MAX_AREA)
            },
        },
{
    let mut buf = match PixelBuffer::new(scene.width, scene.height) {
        Ok(b) => b,
        Err(e) => {
            return Err(e);
        },
    };
    let w = scene.width;
    let h = scene.height;
    let mut i: usize = 0;
    proof {
        assert(scene.circles@.subrange(0, 0) =~= Seq::<Circle>::empty());
    }
    while i < scene.circles.len()
        invariant
            scene.wf(),
            i <= scene.circles@.len(),
            w == scene.width,
            h == scene.height,
            w > 0,
            h > 0,
            (w as int) * (h as int) <= MAX_AREA,
            buf.wf(),
            buf.spec_width() == w,
            buf.spec_height() == h,
            buf@ =~= painted_bytes(scene.circles@.subrange(0, i as int), w as int, h as int),
        decreases scene.circles@.len() - i,
    {
        let ghost pre = scene.circles@.subrange(0, i as int);
        let c = scene.circles[i];
        buf.paint_circle(&c);
        proof {
            assert(circle_wf(c));
            assert forall|j: int| 0 <= j < pre.len() implies 0 <= (#[trigger] pre[j]).radius by {
                assert(pre[j] == scene.circles@[j]);
                assert(circle_wf(scene.circles@[j]));
            }
            lemma_painted_bytes_step(pre, c, w as int, h as int);
            assert(pre.push(c) =~= scene.circles@.subrange(0, i as int + 1));
        }
        i = i + 1;
    }
    proof {
        assert(scene.circles@.subrange(0, scene.circles@.len() as int) =~= scene.circles@);
    }
    Ok(buf)
}

} // verus!
