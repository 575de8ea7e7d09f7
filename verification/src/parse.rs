//! A parser for the supported vector-markup subset: a root `svg` element
//! declaring pixel dimensions and an optional view box, containing
//! self-closing `circle` elements. Every accepted descriptor and every
//! rejection is pinned down by `spec_parse`.
//!
//! Numbers are signed integers of at most one million in magnitude; a view
//! box that differs from the pixel size scales the primitives, with
//! coordinates resolved to subpixel units by floor division.

use vstd::prelude::*;
use vstd::string::StringSliceAdditionalSpecFns;

use crate::model::{circle_wf, Circle, ParseError, Rgba, Scene, COORD_LIMIT};

verus! {

/// Largest magnitude a number in a descriptor may have.
pub const NUM_CAP: i64 = 1_000_000;

/// Largest declared canvas width or height.
pub const DIM_CAP: i64 = 100_000;

pub open spec fn is_ws(b: u8) -> bool {
    b == 32 || b == 9 || b == 10 || b == 13
}

pub open spec fn is_digit(b: u8) -> bool {
    48 <= b <= 57
}

/// Bytes that may appear in an element or attribute name.
pub open spec fn is_name_byte(b: u8) -> bool {
    (97 <= b <= 122) || (65 <= b <= 90) || b == 58 || b == 45
}

/// First index at or after `i` holding a non-whitespace byte, or the length.
pub open spec fn spec_skip_ws(s: Seq<u8>, i: int) -> int
    decreases s.len() - i,
{
    if 0 <= i < s.len() && is_ws(s[i]) {
        spec_skip_ws(s, i + 1)
    } else {
        i
    }
}

/// First index at or after `i` holding a non-digit, or the length.
pub open spec fn spec_num_end(s: Seq<u8>, i: int) -> int
    decreases s.len() - i,
{
    if 0 <= i < s.len() && is_digit(s[i]) {
        spec_num_end(s, i + 1)
    } else {
        i
    }
}

/// First index at or after `i` holding a non-name byte, or the length.
pub open spec fn spec_name_end(s: Seq<u8>, i: int) -> int
    decreases s.len() - i,
{
    if 0 <= i < s.len() && is_name_byte(s[i]) {
        spec_name_end(s, i + 1)
    } else {
        i
    }
}

/// Index of the next double quote at or after `i`, or the length.
pub open spec fn spec_quote_end(s: Seq<u8>, i: int) -> int
    decreases s.len() - i,
{
    if 0 <= i < s.len() {
        if s[i] == 34 {
            i
        } else {
            spec_quote_end(s, i + 1)
        }
    } else {
        s.len() as int
    }
}

/// The value of the decimal digits `s[i..j)`.
pub open spec fn spec_digits_val(s: Seq<u8>, i: int, j: int) -> int
    decreases j - i,
{
    if i >= j {
        0
    } else {
        spec_digits_val(s, i, j - 1) * 10 + (s[j - 1] - 48)
    }
}

pub proof fn lemma_digits_val_nonneg(s: Seq<u8>, i: int, j: int)
    requires
        forall|k: int| i <= k < j && 0 <= k < s.len() ==> is_digit(#[trigger] s[k]),
        0 <= i,
        j <= s.len(),
    ensures
        spec_digits_val(s, i, j) >= 0,
    decreases j - i,
{
    if i < j {
        lemma_digits_val_nonneg(s, i, j - 1);
        let v = spec_digits_val(s, i, j - 1);
        assert(v * 10 >= 0) by (nonlinear_arith)
            requires
                v >= 0,
        ;
    }
}

/// Reading more digits never shrinks the value.
pub proof fn lemma_digits_val_mono(s: Seq<u8>, i: int, j: int, k: int)
    requires
        forall|t: int| i <= t < k && 0 <= t < s.len() ==> is_digit(#[trigger] s[t]),
        0 <= i <= j <= k,
        k <= s.len(),
    ensures
        spec_digits_val(s, i, k) >= spec_digits_val(s, i, j),
    decreases k - j,
{
    if j < k {
        lemma_digits_val_mono(s, i, j, k - 1);
        lemma_digits_val_nonneg(s, i, k - 1);
        let v = spec_digits_val(s, i, k - 1);
        assert(v * 10 + (s[k - 1] - 48) >= v) by (nonlinear_arith)
            requires
                v >= 0 && s[k - 1] >= 48,
        ;
    }
}

/// A signed integer at `i`: an optional minus sign and at least one digit,
/// rejected past `NUM_CAP` in magnitude. Returns the value and the index
/// just past the digits.
pub open spec fn spec_parse_number(s: Seq<u8>, i: int) -> Result<(i64, int), ParseError> {
    let neg = 0 <= i < s.len() && s[i] == 45;
    let start = if neg {
        i + 1
    } else {
        i
    };
    let end = spec_num_end(s, start);
    if end == start {
        Err(ParseError::MalformedMarkup)
    } else {
        let v = spec_digits_val(s, start, end);
        if v > NUM_CAP {
            Err(ParseError::InvalidGeometry)
        } else if neg {
            Ok(((-v) as i64, end))
        } else {
            Ok((v as i64, end))
        }
    }
}

fn skip_ws(s: &Vec<u8>, i: usize) -> (r: usize)
    requires
        i <= s@.len(),
    ensures
        r as int == spec_skip_ws(s@, i as int),
        i <= r <= s@.len(),
{
    let mut j = i;
    while j < s.len() && (s[j] == 32 || s[j] == 9 || s[j] == 10 || s[j] == 13)
        invariant
            i <= j <= s@.len(),
            spec_skip_ws(s@, i as int) == spec_skip_ws(s@, j as int),
        decreases s@.len() - j,
    {
        j = j + 1;
    }
    j
}

fn num_end(s: &Vec<u8>, i: usize) -> (r: usize)
    requires
        i <= s@.len(),
    ensures
        r as int == spec_num_end(s@, i as int),
        i <= r <= s@.len(),
        forall|t: int| i <= t < r ==> is_digit(#[trigger] s@[t]),
{
    let mut j = i;
    while j < s.len() && 48 <= s[j] && s[j] <= 57
        invariant
            i <= j <= s@.len(),
            spec_num_end(s@, i as int) == spec_num_end(s@, j as int),
            forall|t: int| i <= t < j ==> is_digit(#[trigger] s@[t]),
        decreases s@.len() - j,
    {
        j = j + 1;
    }
    j
}

fn name_end(s: &Vec<u8>, i: usize) -> (r: usize)
    requires
        i <= s@.len(),
    ensures
        r as int == spec_name_end(s@, i as int),
        i <= r <= s@.len(),
{
    let mut j = i;
    while j < s.len() && ((97 <= s[j] && s[j] <= 122) || (65 <= s[j] && s[j] <= 90) || s[j] == 58
        || s[j] == 45)
        invariant
            i <= j <= s@.len(),
            spec_name_end(s@, i as int) == spec_name_end(s@, j as int),
        decreases s@.len() - j,
    {
        j = j + 1;
    }
    j
}

fn quote_end(s: &Vec<u8>, i: usize) -> (r: usize)
    requires
        i <= s@.len(),
    ensures
        r as int == spec_quote_end(s@, i as int),
        i <= r <= s@.len(),
{
    let mut j = i;
    while j < s.len() && s[j] != 34
        invariant
            i <= j <= s@.len(),
            spec_quote_end(s@, i as int) == spec_quote_end(s@, j as int),
        decreases s@.len() - j,
    {
        j = j + 1;
    }
    j
}

fn parse_number(s: &Vec<u8>, i: usize) -> (r: Result<(i64, usize), ParseError>)
    requires
        i <= s@.len(),
    ensures
        match r {
            Ok((v, n)) => {
                &&& spec_parse_number(s@, i as int) == Ok::<(i64, int), ParseError>((v, n as int))
                &&& i as int <= n <= s@.len()
                &&& -NUM_CAP <= v <= NUM_CAP
            },
            Err(e) => spec_parse_number(s@, i as int) == Err::<(i64, int), ParseError>(e),
        },
{
    let neg = i < s.len() && s[i] == 45;
    let start = if neg {
        i + 1
    } else {
        i
    };
    let end = num_end(s, start);
    if end == start {
        return Err(ParseError::MalformedMarkup);
    }
    let mut acc: i64 = 0;
    let mut j = start;
    while j < end
        invariant
            i <= start <= j <= end,
            end <= s@.len(),
            (i < s@.len() && s@[i as int] == 45 && start == i + 1) || (!(i < s@.len()
                && s@[i as int] == 45) && start == i),
            end as int == spec_num_end(s@, start as int),
            end > start,
            forall|t: int| start <= t < end ==> is_digit(#[trigger] s@[t]),
            acc == spec_digits_val(s@, start as int, j as int),
            0 <= acc <= NUM_CAP,
        decreases end - j,
    {
        let d = s[j];
        let next = acc * 10 + ((d - 48) as i64);
        proof {
            lemma_digits_val_nonneg(s@, start as int, j as int + 1);
        }
        if next > NUM_CAP {
            proof {
                assert(next as int == spec_digits_val(s@, start as int, j as int + 1));
                lemma_digits_val_mono(s@, start as int, j as int + 1, end as int);
                assert(spec_digits_val(s@, start as int, end as int) > NUM_CAP);
                assert(spec_parse_number(s@, i as int) == Err::<(i64, int), ParseError>(
                    ParseError::InvalidGeometry,
                ));
            }
            return Err(ParseError::InvalidGeometry);
        }
        acc = next;
        j = j + 1;
    }
    if neg {
        Ok((-acc, end))
    } else {
        Ok((acc, end))
    }
}

/// `s[i..j)` spells `width`.
pub open spec fn is_width_name(s: Seq<u8>, i: int, j: int) -> bool {
    j - i == 5 && s[i] == 119 && s[i + 1] == 105 && s[i + 2] == 100 && s[i + 3] == 116 && s[i + 4]
        == 104
}

/// `s[i..j)` spells `height`.
pub open spec fn is_height_name(s: Seq<u8>, i: int, j: int) -> bool {
    j - i == 6 && s[i] == 104 && s[i + 1] == 101 && s[i + 2] == 105 && s[i + 3] == 103 && s[i + 4]
        == 104 && s[i + 5] == 116
}

/// `s[i..j)` spells `viewBox`.
pub open spec fn is_viewbox_name(s: Seq<u8>, i: int, j: int) -> bool {
    j - i == 7 && s[i] == 118 && s[i + 1] == 105 && s[i + 2] == 101 && s[i + 3] == 119 && s[i + 4]
        == 66 && s[i + 5] == 111 && s[i + 6] == 120
}

/// `s[i..j)` spells `cx`.
pub open spec fn is_cx_name(s: Seq<u8>, i: int, j: int) -> bool {
    j - i == 2 && s[i] == 99 && s[i + 1] == 120
}

/// `s[i..j)` spells `cy`.
pub open spec fn is_cy_name(s: Seq<u8>, i: int, j: int) -> bool {
    j - i == 2 && s[i] == 99 && s[i + 1] == 121
}

/// `s[i..j)` spells `r`.
pub open spec fn is_r_name(s: Seq<u8>, i: int, j: int) -> bool {
    j - i == 1 && s[i] == 114
}

/// `s[i..j)` spells `fill`.
pub open spec fn is_fill_name(s: Seq<u8>, i: int, j: int) -> bool {
    j - i == 4 && s[i] == 102 && s[i + 1] == 105 && s[i + 2] == 108 && s[i + 3] == 108
}

/// `s[i..j)` spells `svg`.
pub open spec fn is_svg_name(s: Seq<u8>, i: int, j: int) -> bool {
    j - i == 3 && s[i] == 115 && s[i + 1] == 118 && s[i + 2] == 103
}

/// `s[i..j)` spells `circle`.
pub open spec fn is_circle_name(s: Seq<u8>, i: int, j: int) -> bool {
    j - i == 6 && s[i] == 99 && s[i + 1] == 105 && s[i + 2] == 114 && s[i + 3] == 99 && s[i + 4]
        == 108 && s[i + 5] == 101
}

/// The view box of a descriptor: an origin and a size in user units.
#[derive(Clone, Copy)]
pub struct ViewBox {
    pub minx: i64,
    pub miny: i64,
    pub vw: i64,
    pub vh: i64,
}

/// The root element's attributes gathered so far.
#[derive(Clone, Copy)]
pub struct SvgAttrs {
    pub width: Option<i64>,
    pub height: Option<i64>,
    pub viewbox: Option<ViewBox>,
}

/// A circle element's attributes gathered so far; centers default to the
/// origin and the fill to opaque black.
#[derive(Clone, Copy)]
pub struct CircleAttrs {
    pub cx: i64,
    pub cy: i64,
    pub r: Option<i64>,
    pub fill: Rgba,
}

/// Four whitespace-separated numbers and the closing quote.
pub open spec fn spec_parse_viewbox(s: Seq<u8>, i: int) -> Result<(ViewBox, int), ParseError> {
    match spec_parse_number(s, i) {
        Err(e) => Err(e),
        Ok((a, i1)) => match spec_parse_number(s, spec_skip_ws(s, i1)) {
            Err(e) => Err(e),
            Ok((b, i2)) => match spec_parse_number(s, spec_skip_ws(s, i2)) {
                Err(e) => Err(e),
                Ok((c, i3)) => match spec_parse_number(s, spec_skip_ws(s, i3)) {
                    Err(e) => Err(e),
                    Ok((d, i4)) => if i4 < s.len() && s[i4] == 34 {
                        Ok((ViewBox { minx: a, miny: b, vw: c, vh: d }, i4 + 1))
                    } else {
                        Err(ParseError::MalformedMarkup)
                    },
                },
            },
        },
    }
}

fn parse_viewbox(s: &Vec<u8>, i: usize) -> (r: Result<(ViewBox, usize), ParseError>)
    requires
        i <= s@.len(),
    ensures
        match r {
            Ok((vb, n)) => {
                &&& spec_parse_viewbox(s@, i as int) == Ok::<(ViewBox, int), ParseError>(
                    (vb, n as int),
                )
                &&& (i as int) < n <= s@.len()
                &&& -NUM_CAP <= vb.minx <= NUM_CAP
                &&& -NUM_CAP <= vb.miny <= NUM_CAP
                &&& -NUM_CAP <= vb.vw <= NUM_CAP
                &&& -NUM_CAP <= vb.vh <= NUM_CAP
            },
            Err(e) => spec_parse_viewbox(s@, i as int) == Err::<(ViewBox, int), ParseError>(e),
        },
{
    let (a, i1) = match parse_number(s, i) {
        Ok(v) => v,
        Err(e) => {
            return Err(e);
        },
    };
    let (b, i2) = match parse_number(s, skip_ws(s, i1)) {
        Ok(v) => v,
        Err(e) => {
            return Err(e);
        },
    };
    let (c, i3) = match parse_number(s, skip_ws(s, i2)) {
        Ok(v) => v,
        Err(e) => {
            return Err(e);
        },
    };
    let (d, i4) = match parse_number(s, skip_ws(s, i3)) {
        Ok(v) => v,
        Err(e) => {
            return Err(e);
        },
    };
    if i4 < s.len() && s[i4] == 34 {
        Ok((ViewBox { minx: a, miny: b, vw: c, vh: d }, i4 + 1))
    } else {
        Err(ParseError::MalformedMarkup)
    }
}

/// The value of a hexadecimal digit, or -1.
pub open spec fn hex_val(b: u8) -> int {
    if 48 <= b <= 57 {
        b - 48
    } else if 97 <= b <= 102 {
        b - 87
    } else if 65 <= b <= 70 {
        b - 55
    } else {
        -1
    }
}

/// A `#rrggbb` fill value and its closing quote; the alpha is opaque.
pub open spec fn spec_parse_fill(s: Seq<u8>, i: int) -> Result<(Rgba, int), ParseError> {
    if i + 8 <= s.len() && s[i] == 35 && hex_val(s[i + 1]) >= 0 && hex_val(s[i + 2]) >= 0 && hex_val(
        s[i + 3],
    ) >= 0 && hex_val(s[i + 4]) >= 0 && hex_val(s[i + 5]) >= 0 && hex_val(s[i + 6]) >= 0 && s[i + 7]
        == 34 {
        Ok(
            (
                Rgba {
                    red: (hex_val(s[i + 1]) * 16 + hex_val(s[i + 2])) as u8,
                    green: (hex_val(s[i + 3]) * 16 + hex_val(s[i + 4])) as u8,
                    blue: (hex_val(s[i + 5]) * 16 + hex_val(s[i + 6])) as u8,
                    alpha: 255,
                },
                i + 8,
            ),
        )
    } else {
        Err(ParseError::MalformedMarkup)
    }
}

fn hex_digit(b: u8) -> (r: i8)
    ensures
        r as int == hex_val(b),
{
    if 48 <= b && b <= 57 {
        (b - 48) as i8
    } else if 97 <= b && b <= 102 {
        (b - 87) as i8
    } else if 65 <= b && b <= 70 {
        (b - 55) as i8
    } else {
        -1
    }
}

fn parse_fill(s: &Vec<u8>, i: usize) -> (r: Result<(Rgba, usize), ParseError>)
    requires
        i <= s@.len(),
    ensures
        match r {
            Ok((c, n)) => {
                &&& spec_parse_fill(s@, i as int) == Ok::<(Rgba, int), ParseError>((c, n as int))
                &&& (i as int) < n <= s@.len()
            },
            Err(e) => spec_parse_fill(s@, i as int) == Err::<(Rgba, int), ParseError>(e),
        },
{
    if s.len() - i >= 8 && s[i] == 35 {
        let h1 = hex_digit(s[i + 1]);
        let h2 = hex_digit(s[i + 2]);
        let h3 = hex_digit(s[i + 3]);
        let h4 = hex_digit(s[i + 4]);
        let h5 = hex_digit(s[i + 5]);
        let h6 = hex_digit(s[i + 6]);
        if h1 >= 0 && h2 >= 0 && h3 >= 0 && h4 >= 0 && h5 >= 0 && h6 >= 0 && s[i + 7] == 34 {
            let c = Rgba {
                red: (h1 as u8) * 16 + (h2 as u8),
                green: (h3 as u8) * 16 + (h4 as u8),
                blue: (h5 as u8) * 16 + (h6 as u8),
                alpha: 255,
            };
            return Ok((c, i + 8));
        }
        Err(ParseError::MalformedMarkup)
    } else {
        Err(ParseError::MalformedMarkup)
    }
}

/// All gathered root attributes are within the number cap.
pub open spec fn svg_attrs_wf(a: SvgAttrs) -> bool {
    &&& match a.width {
        Some(v) => -NUM_CAP <= v <= NUM_CAP,
        None => true,
    }
    &&& match a.height {
        Some(v) => -NUM_CAP <= v <= NUM_CAP,
        None => true,
    }
    &&& match a.viewbox {
        Some(vb) => -NUM_CAP <= vb.minx <= NUM_CAP && -NUM_CAP <= vb.miny <= NUM_CAP && -NUM_CAP
            <= vb.vw <= NUM_CAP && -NUM_CAP <= vb.vh <= NUM_CAP,
        None => true,
    }
}

/// All gathered circle attributes are within the number cap.
pub open spec fn circle_attrs_wf(a: CircleAttrs) -> bool {
    &&& -NUM_CAP <= a.cx <= NUM_CAP
    &&& -NUM_CAP <= a.cy <= NUM_CAP
    &&& match a.r {
        Some(v) => -NUM_CAP <= v <= NUM_CAP,
        None => true,
    }
}

/// The attribute list of the root element, ending at `>` or `/>`: named
/// values in double quotes, with `width`, `height` and `viewBox`
/// interpreted and any other attribute skipped.
pub open spec fn spec_parse_svg_attrs(s: Seq<u8>, i: int, acc: SvgAttrs) -> Result<
    (SvgAttrs, int, bool),
    ParseError,
>
    decreases s.len() - i,
{
    let j = spec_skip_ws(s, i);
    if !(0 <= j < s.len()) {
        Err(ParseError::MalformedMarkup)
    } else if s[j] == 47 {
        if j + 1 < s.len() && s[j + 1] == 62 {
            Ok((acc, j + 2, true))
        } else {
            Err(ParseError::MalformedMarkup)
        }
    } else if s[j] == 62 {
        Ok((acc, j + 1, false))
    } else {
        let ne = spec_name_end(s, j);
        if ne == j {
            Err(ParseError::MalformedMarkup)
        } else if !(ne < s.len() && s[ne] == 61) {
            Err(ParseError::MalformedMarkup)
        } else if !(ne + 1 < s.len() && s[ne + 1] == 34) {
            Err(ParseError::MalformedMarkup)
        } else {
            let vs = ne + 2;
            if is_width_name(s, j, ne) {
                match spec_parse_number(s, vs) {
                    Err(e) => Err(e),
                    Ok((v, n)) => if n < s.len() && s[n] == 34 && i < n + 1 <= s.len() {
                        spec_parse_svg_attrs(
                            s,
                            n + 1,
                            SvgAttrs { width: Some(v), height: acc.height, viewbox: acc.viewbox },
                        )
                    } else {
                        Err(ParseError::MalformedMarkup)
                    },
                }
            } else if is_height_name(s, j, ne) {
                match spec_parse_number(s, vs) {
                    Err(e) => Err(e),
                    Ok((v, n)) => if n < s.len() && s[n] == 34 && i < n + 1 <= s.len() {
                        spec_parse_svg_attrs(
                            s,
                            n + 1,
                            SvgAttrs { width: acc.width, height: Some(v), viewbox: acc.viewbox },
                        )
                    } else {
                        Err(ParseError::MalformedMarkup)
                    },
                }
            } else if is_viewbox_name(s, j, ne) {
                match spec_parse_viewbox(s, vs) {
                    Err(e) => Err(e),
                    Ok((vb, n)) => if i < n <= s.len() {
                        spec_parse_svg_attrs(
                            s,
                            n,
                            SvgAttrs { width: acc.width, height: acc.height, viewbox: Some(vb) },
                        )
                    } else {
                        Err(ParseError::MalformedMarkup)
                    },
                }
            } else {
                let qe = spec_quote_end(s, vs);
                if qe < s.len() && i < qe + 1 <= s.len() {
                    spec_parse_svg_attrs(s, qe + 1, acc)
                } else {
                    Err(ParseError::MalformedMarkup)
                }
            }
        }
    }
}

fn parse_svg_attrs(s: &Vec<u8>, i: usize, acc: SvgAttrs) -> (r: Result<
    (SvgAttrs, usize, bool),
    ParseError,
>)
    requires
        i <= s@.len(),
        svg_attrs_wf(acc),
    ensures
        match r {
            Ok((a, n, closed)) => {
                &&& spec_parse_svg_attrs(s@, i as int, acc) == Ok::<
                    (SvgAttrs, int, bool),
                    ParseError,
                >((a, n as int, closed))
                &&& (i as int) < n <= s@.len()
                &&& svg_attrs_wf(a)
            },
            Err(e) => spec_parse_svg_attrs(s@, i as int, acc) == Err::<
                (SvgAttrs, int, bool),
                ParseError,
            >(e),
        },
    decreases s@.len() - i,
{
    let j = skip_ws(s, i);
    if j >= s.len() {
        return Err(ParseError::MalformedMarkup);
    }
    if s[j] == 47 {
        if j + 1 < s.len() && s[j + 1] == 62 {
            return Ok((acc, j + 2, true));
        }
        return Err(ParseError::MalformedMarkup);
    }
    if s[j] == 62 {
        return Ok((acc, j + 1, false));
    }
    let ne = name_end(s, j);
    if ne == j {
        return Err(ParseError::MalformedMarkup);
    }
    if !(ne < s.len() && s[ne] == 61) {
        return Err(ParseError::MalformedMarkup);
    }
    if !(ne + 1 < s.len() && s[ne + 1] == 34) {
        return Err(ParseError::MalformedMarkup);
    }
    let vs = ne + 2;
    let width_name = ne - j == 5 && s[j] == 119 && s[j + 1] == 105 && s[j + 2] == 100 && s[j + 3]
        == 116 && s[j + 4] == 104;
    let height_name = ne - j == 6 && s[j] == 104 && s[j + 1] == 101 && s[j + 2] == 105 && s[j + 3]
        == 103 && s[j + 4] == 104 && s[j + 5] == 116;
    let viewbox_name = ne - j == 7 && s[j] == 118 && s[j + 1] == 105 && s[j + 2] == 101 && s[j + 3]
        == 119 && s[j + 4] == 66 && s[j + 5] == 111 && s[j + 6] == 120;
    if width_name {
        match parse_number(s, vs) {
            Err(e) => Err(e),
            Ok((v, n)) => {
                if n < s.len() && s[n] == 34 && i < n + 1 {
                    parse_svg_attrs(
                        s,
                        n + 1,
                        SvgAttrs { width: Some(v), height: acc.height, viewbox: acc.viewbox },
                    )
                } else {
                    Err(ParseError::MalformedMarkup)
                }
            },
        }
    } else if height_name {
        match parse_number(s, vs) {
            Err(e) => Err(e),
            Ok((v, n)) => {
                if n < s.len() && s[n] == 34 && i < n + 1 {
                    parse_svg_attrs(
                        s,
                        n + 1,
                        SvgAttrs { width: acc.width, height: Some(v), viewbox: acc.viewbox },
                    )
                } else {
                    Err(ParseError::MalformedMarkup)
                }
            },
        }
    } else if viewbox_name {
        match parse_viewbox(s, vs) {
            Err(e) => Err(e),
            Ok((vb, n)) => {
                if i < n {
                    parse_svg_attrs(
                        s,
                        n,
                        SvgAttrs { width: acc.width, height: acc.height, viewbox: Some(vb) },
                    )
                } else {
                    Err(ParseError::MalformedMarkup)
                }
            },
        }
    } else {
        let qe = quote_end(s, vs);
        if qe < s.len() && i < qe + 1 {
            parse_svg_attrs(s, qe + 1, acc)
        } else {
            Err(ParseError::MalformedMarkup)
        }
    }
}

/// The attribute list of a circle element, which must end with `/>`: `cx`,
/// `cy`, `r` and `fill` are interpreted, any other attribute is skipped.
pub open spec fn spec_parse_circle_attrs(s: Seq<u8>, i: int, acc: CircleAttrs) -> Result<
    (CircleAttrs, int),
    ParseError,
>
    decreases s.len() - i,
{
    let j = spec_skip_ws(s, i);
    if !(0 <= j < s.len()) {
        Err(ParseError::MalformedMarkup)
    } else if s[j] == 47 {
        if j + 1 < s.len() && s[j + 1] == 62 {
            Ok((acc, j + 2))
        } else {
            Err(ParseError::MalformedMarkup)
        }
    } else if s[j] == 62 {
        Err(ParseError::MalformedMarkup)
    } else {
        let ne = spec_name_end(s, j);
        if ne == j {
            Err(ParseError::MalformedMarkup)
        } else if !(ne < s.len() && s[ne] == 61) {
            Err(ParseError::MalformedMarkup)
        } else if !(ne + 1 < s.len() && s[ne + 1] == 34) {
            Err(ParseError::MalformedMarkup)
        } else {
            let vs = ne + 2;
            if is_cx_name(s, j, ne) {
                match spec_parse_number(s, vs) {
                    Err(e) => Err(e),
                    Ok((v, n)) => if n < s.len() && s[n] == 34 && i < n + 1 <= s.len() {
                        spec_parse_circle_attrs(
                            s,
                            n + 1,
                            CircleAttrs { cx: v, cy: acc.cy, r: acc.r, fill: acc.fill },
                        )
                    } else {
                        Err(ParseError::MalformedMarkup)
                    },
                }
            } else if is_cy_name(s, j, ne) {
                match spec_parse_number(s, vs) {
                    Err(e) => Err(e),
                    Ok((v, n)) => if n < s.len() && s[n] == 34 && i < n + 1 <= s.len() {
                        spec_parse_circle_attrs(
                            s,
                            n + 1,
                            CircleAttrs { cx: acc.cx, cy: v, r: acc.r, fill: acc.fill },
                        )
                    } else {
                        Err(ParseError::MalformedMarkup)
                    },
                }
            } else if is_r_name(s, j, ne) {
                match spec_parse_number(s, vs) {
                    Err(e) => Err(e),
                    Ok((v, n)) => if n < s.len() && s[n] == 34 && i < n + 1 <= s.len() {
                        spec_parse_circle_attrs(
                            s,
                            n + 1,
                            CircleAttrs { cx: acc.cx, cy: acc.cy, r: Some(v), fill: acc.fill },
                        )
                    } else {
                        Err(ParseError::MalformedMarkup)
                    },
                }
            } else if is_fill_name(s, j, ne) {
                match spec_parse_fill(s, vs) {
                    Err(e) => Err(e),
                    Ok((c, n)) => if i < n <= s.len() {
                        spec_parse_circle_attrs(
                            s,
                            n,
                            CircleAttrs { cx: acc.cx, cy: acc.cy, r: acc.r, fill: c },
                        )
                    } else {
                        Err(ParseError::MalformedMarkup)
                    },
                }
            } else {
                let qe = spec_quote_end(s, vs);
                if qe < s.len() && i < qe + 1 <= s.len() {
                    spec_parse_circle_attrs(s, qe + 1, acc)
                } else {
                    Err(ParseError::MalformedMarkup)
                }
            }
        }
    }
}

fn parse_circle_attrs(s: &Vec<u8>, i: usize, acc: CircleAttrs) -> (r: Result<
    (CircleAttrs, usize),
    ParseError,
>)
    requires
        i <= s@.len(),
        circle_attrs_wf(acc),
    ensures
        match r {
            Ok((a, n)) => {
                &&& spec_parse_circle_attrs(s@, i as int, acc) == Ok::<
                    (CircleAttrs, int),
                    ParseError,
                >((a, n as int))
                &&& (i as int) < n <= s@.len()
                &&& circle_attrs_wf(a)
            },
            Err(e) => spec_parse_circle_attrs(s@, i as int, acc) == Err::<
                (CircleAttrs, int),
                ParseError,
            >(e),
        },
    decreases s@.len() - i,
{
    let j = skip_ws(s, i);
    if j >= s.len() {
        return Err(ParseError::MalformedMarkup);
    }
    if s[j] == 47 {
        if j + 1 < s.len() && s[j + 1] == 62 {
            return Ok((acc, j + 2));
        }
        return Err(ParseError::MalformedMarkup);
    }
    if s[j] == 62 {
        return Err(ParseError::MalformedMarkup);
    }
    let ne = name_end(s, j);
    if ne == j {
        return Err(ParseError::MalformedMarkup);
    }
    if !(ne < s.len() && s[ne] == 61) {
        return Err(ParseError::MalformedMarkup);
    }
    if !(ne + 1 < s.len() && s[ne + 1] == 34) {
        return Err(ParseError::MalformedMarkup);
    }
    let vs = ne + 2;
    let cx_name = ne - j == 2 && s[j] == 99 && s[j + 1] == 120;
    let cy_name = ne - j == 2 && s[j] == 99 && s[j + 1] == 121;
    let r_name = ne - j == 1 && s[j] == 114;
    let fill_name = ne - j == 4 && s[j] == 102 && s[j + 1] == 105 && s[j + 2] == 108 && s[j + 3]
        == 108;
    if cx_name {
        match parse_number(s, vs) {
            Err(e) => Err(e),
            Ok((v, n)) => {
                if n < s.len() && s[n] == 34 && i < n + 1 {
                    parse_circle_attrs(
                        s,
                        n + 1,
                        CircleAttrs { cx: v, cy: acc.cy, r: acc.r, fill: acc.fill },
                    )
                } else {
                    Err(ParseError::MalformedMarkup)
                }
            },
        }
    } else if cy_name {
        match parse_number(s, vs) {
            Err(e) => Err(e),
            Ok((v, n)) => {
                if n < s.len() && s[n] == 34 && i < n + 1 {
                    parse_circle_attrs(
                        s,
                        n + 1,
                        CircleAttrs { cx: acc.cx, cy: v, r: acc.r, fill: acc.fill },
                    )
                } else {
                    Err(ParseError::MalformedMarkup)
                }
            },
        }
    } else if r_name {
        match parse_number(s, vs) {
            Err(e) => Err(e),
            Ok((v, n)) => {
                if n < s.len() && s[n] == 34 && i < n + 1 {
                    parse_circle_attrs(
                        s,
                        n + 1,
                        CircleAttrs { cx: acc.cx, cy: acc.cy, r: Some(v), fill: acc.fill },
                    )
                } else {
                    Err(ParseError::MalformedMarkup)
                }
            },
        }
    } else if fill_name {
        match parse_fill(s, vs) {
            Err(e) => Err(e),
            Ok((c, n)) => {
                if i < n {
                    parse_circle_attrs(
                        s,
                        n,
                        CircleAttrs { cx: acc.cx, cy: acc.cy, r: acc.r, fill: c },
                    )
                } else {
                    Err(ParseError::MalformedMarkup)
                }
            },
        }
    } else {
        let qe = quote_end(s, vs);
        if qe < s.len() && i < qe + 1 {
            parse_circle_attrs(s, qe + 1, acc)
        } else {
            Err(ParseError::MalformedMarkup)
        }
    }
}

/// A user-unit length scaled to canvas subpixels, rounded toward minus
/// infinity: `(v - off) * mul * 256 / den`.
pub open spec fn spec_scale(v: i64, off: i64, mul: i64, den: i64) -> int {
    let num = (v - off) * (mul as int) * 256;
    if num >= 0 {
        num / (den as int)
    } else {
        -((-num + (den as int) - 1) / (den as int))
    }
}

fn scale_value(v: i64, off: i64, mul: i64, den: i64) -> (r: i64)
    requires
        -NUM_CAP <= v <= NUM_CAP,
        -NUM_CAP <= off <= NUM_CAP,
        1 <= mul <= DIM_CAP,
        1 <= den <= NUM_CAP,
    ensures
        r as int == spec_scale(v, off, mul, den),
{
    proof {
        assert(((v - off) as int) * (mul as int) * 256 <= 0x2E90_EDD0_0000_0000 && -0x2E90_EDD0_0000_0000
            <= ((v - off) as int) * (mul as int) * 256) by (nonlinear_arith)
            requires
                -2 * NUM_CAP <= v - off <= 2 * NUM_CAP,
                1 <= mul <= DIM_CAP,
        ;
    }
    let num: i64 = (v - off) * mul * 256;
    if num >= 0 {
        (((num as u64) / (den as u64)) as i64)
    } else {
        let m: u64 = (-num) as u64;
        let q: u64 = (m + (den as u64) - 1) / (den as u64);
        -(q as i64)
    }
}

/// Resolve a circle's raw attributes against the canvas: a missing or
/// negative radius, or resolved geometry out of range, is invalid.
pub open spec fn spec_resolve(ca: CircleAttrs, w: i64, h: i64, vb: ViewBox) -> Result<
    Circle,
    ParseError,
> {
    match ca.r {
        None => Err(ParseError::InvalidGeometry),
        Some(rv) => if rv < 0 {
            Err(ParseError::InvalidGeometry)
        } else {
            let cx = spec_scale(ca.cx, vb.minx, w, vb.vw);
            let cy = spec_scale(ca.cy, vb.miny, h, vb.vh);
            let rr = spec_scale(rv, 0, w, vb.vw);
            if -COORD_LIMIT <= cx <= COORD_LIMIT && -COORD_LIMIT <= cy <= COORD_LIMIT && 0 <= rr
                <= COORD_LIMIT {
                Ok(Circle { cx: cx as i64, cy: cy as i64, radius: rr as i64, fill: ca.fill })
            } else {
                Err(ParseError::InvalidGeometry)
            }
        },
    }
}

fn resolve_circle(ca: CircleAttrs, w: i64, h: i64, vb: ViewBox) -> (r: Result<Circle, ParseError>)
    requires
        circle_attrs_wf(ca),
        1 <= w <= DIM_CAP,
        1 <= h <= DIM_CAP,
        1 <= vb.vw <= NUM_CAP,
        1 <= vb.vh <= NUM_CAP,
        -NUM_CAP <= vb.minx <= NUM_CAP,
        -NUM_CAP <= vb.miny <= NUM_CAP,
    ensures
        match r {
            Ok(c) => spec_resolve(ca, w, h, vb) == Ok::<Circle, ParseError>(c) && circle_wf(c),
            Err(e) => spec_resolve(ca, w, h, vb) == Err::<Circle, ParseError>(e),
        },
{
    let rv = match ca.r {
        None => {
            return Err(ParseError::InvalidGeometry);
        },
        Some(v) => v,
    };
    if rv < 0 {
        return Err(ParseError::InvalidGeometry);
    }
    let cx = scale_value(ca.cx, vb.minx, w, vb.vw);
    let cy = scale_value(ca.cy, vb.miny, h, vb.vh);
    let rr = scale_value(rv, 0, w, vb.vw);
    if -COORD_LIMIT <= cx && cx <= COORD_LIMIT && -COORD_LIMIT <= cy && cy <= COORD_LIMIT && 0 <= rr
        && rr <= COORD_LIMIT {
        Ok(Circle { cx, cy, radius: rr, fill: ca.fill })
    } else {
        Err(ParseError::InvalidGeometry)
    }
}

/// The circle attributes before any are read: centered at the origin with
/// an opaque black fill and no radius.
pub open spec fn default_circle_attrs() -> CircleAttrs {
    CircleAttrs { cx: 0, cy: 0, r: None, fill: Rgba { red: 0, green: 0, blue: 0, alpha: 255 } }
}

/// The root element's children up to and including `</svg>` and trailing
/// whitespace: zero or more self-closing circles, each resolved against the
/// canvas.
pub open spec fn spec_parse_content(s: Seq<u8>, i: int, w: i64, h: i64, vb: ViewBox) -> Result<
    (Seq<Circle>, int),
    ParseError,
>
    decreases s.len() - i,
{
    let j = spec_skip_ws(s, i);
    if !(0 <= j && j + 1 < s.len() && s[j] == 60) {
        Err(ParseError::MalformedMarkup)
    } else if s[j + 1] == 47 {
        if j + 6 <= s.len() && s[j + 2] == 115 && s[j + 3] == 118 && s[j + 4] == 103 && s[j + 5]
            == 62 {
            let t = spec_skip_ws(s, j + 6);
            if t == s.len() {
                Ok((Seq::empty(), t))
            } else {
                Err(ParseError::MalformedMarkup)
            }
        } else {
            Err(ParseError::MalformedMarkup)
        }
    } else {
        let ns = j + 1;
        let ne = spec_name_end(s, ns);
        if !is_circle_name(s, ns, ne) {
            Err(ParseError::MalformedMarkup)
        } else {
            match spec_parse_circle_attrs(s, ne, default_circle_attrs()) {
                Err(e) => Err(e),
                Ok((ca, i2)) => match spec_resolve(ca, w, h, vb) {
                    Err(e) => Err(e),
                    Ok(c) => if i < i2 <= s.len() {
                        match spec_parse_content(s, i2, w, h, vb) {
                            Err(e) => Err(e),
                            Ok((rest, end)) => Ok((seq![c] + rest, end)),
                        }
                    } else {
                        Err(ParseError::MalformedMarkup)
                    },
                },
            }
        }
    }
}

fn parse_content(s: &Vec<u8>, i: usize, w: i64, h: i64, vb: ViewBox) -> (r: Result<
    (Vec<Circle>, usize),
    ParseError,
>)
    requires
        i <= s@.len(),
        1 <= w <= DIM_CAP,
        1 <= h <= DIM_CAP,
        1 <= vb.vw <= NUM_CAP,
        1 <= vb.vh <= NUM_CAP,
        -NUM_CAP <= vb.minx <= NUM_CAP,
        -NUM_CAP <= vb.miny <= NUM_CAP,
    ensures
        match r {
            Ok((cs, n)) => {
                &&& spec_parse_content(s@, i as int, w, h, vb) == Ok::<
                    (Seq<Circle>, int),
                    ParseError,
                >((cs@, n as int))
                &&& n <= s@.len()
                &&& forall|k: int| 0 <= k < cs@.len() ==> circle_wf(#[trigger] cs@[k])
            },
            Err(e) => spec_parse_content(s@, i as int, w, h, vb) == Err::<
                (Seq<Circle>, int),
                ParseError,
            >(e),
        },
    decreases s@.len() - i,
{
    let j = skip_ws(s, i);
    if j >= s.len() {
        return Err(ParseError::MalformedMarkup);
    }
    if !(j + 1 < s.len() && s[j] == 60) {
        return Err(ParseError::MalformedMarkup);
    }
    if s[j + 1] == 47 {
        if s.len() - j >= 6 && s[j + 2] == 115 && s[j + 3] == 118 && s[j + 4] == 103 && s[j + 5]
            == 62 {
            let t = skip_ws(s, j + 6);
            if t == s.len() {
                let cs: Vec<Circle> = Vec::new();
                proof {
                    assert(cs@ =~= Seq::<Circle>::empty());
                }
                return Ok((cs, t));
            }
            return Err(ParseError::MalformedMarkup);
        }
        return Err(ParseError::MalformedMarkup);
    }
    let ns = j + 1;
    let ne = name_end(s, ns);
    let circle_name = ne - ns == 6 && s[ns] == 99 && s[ns + 1] == 105 && s[ns + 2] == 114 && s[ns
        + 3] == 99 && s[ns + 4] == 108 && s[ns + 5] == 101;
    if !circle_name {
        return Err(ParseError::MalformedMarkup);
    }
    let acc0 = CircleAttrs { cx: 0, cy: 0, r: None, fill: Rgba { red: 0, green: 0, blue: 0, alpha: 255 } };
    match parse_circle_attrs(s, ne, acc0) {
        Err(e) => Err(e),
        Ok((ca, i2)) => match resolve_circle(ca, w, h, vb) {
            Err(e) => Err(e),
            Ok(c) => {
                if i < i2 {
                    match parse_content(s, i2, w, h, vb) {
                        Err(e) => Err(e),
                        Ok((rest, end)) => {
                            let ghost rest_view = rest@;
                            let mut cs = rest;
                            cs.insert(0, c);
                            proof {
                                assert(cs@ =~= seq![c] + rest_view);
                            }
                            Ok((cs, end))
                        },
                    }
                } else {
                    Err(ParseError::MalformedMarkup)
                }
            },
        },
    }
}

/// A declared canvas dimension: required, positive, and within the cap.
pub open spec fn spec_dim(v: Option<i64>) -> Result<i64, ParseError> {
    match v {
        None => Err(ParseError::MalformedMarkup),
        Some(d) => if d <= 0 {
            Err(ParseError::NonPositiveDimensions)
        } else if d > DIM_CAP {
            Err(ParseError::InvalidGeometry)
        } else {
            Ok(d)
        },
    }
}

fn canvas_dim(v: Option<i64>) -> (r: Result<i64, ParseError>)
    ensures
        r == spec_dim(v),
{
    match v {
        None => Err(ParseError::MalformedMarkup),
        Some(d) => {
            if d <= 0 {
                Err(ParseError::NonPositiveDimensions)
            } else if d > DIM_CAP {
                Err(ParseError::InvalidGeometry)
            } else {
                Ok(d)
            }
        },
    }
}

/// What parsing a descriptor's bytes yields: the canvas size in pixels and
/// the circles in document order with resolved subpixel geometry, or the
/// error that rejects it.
pub open spec fn spec_parse(s: Seq<u8>) -> Result<(u32, u32, Seq<Circle>), ParseError> {
    let i0 = spec_skip_ws(s, 0);
    if !(0 <= i0 < s.len() && s[i0] == 60) {
        Err(ParseError::MissingRoot)
    } else {
        let ns = i0 + 1;
        let ne = spec_name_end(s, ns);
        if !is_svg_name(s, ns, ne) {
            Err(ParseError::MissingRoot)
        } else {
            match spec_parse_svg_attrs(
                s,
                ne,
                SvgAttrs { width: None, height: None, viewbox: None },
            ) {
                Err(e) => Err(e),
                Ok((at, i1, closed)) => match spec_dim(at.width) {
                    Err(e) => Err(e),
                    Ok(w) => match spec_dim(at.height) {
                        Err(e) => Err(e),
                        Ok(h) => {
                            let vb = match at.viewbox {
                                None => ViewBox { minx: 0, miny: 0, vw: w, vh: h },
                                Some(v) => v,
                            };
                            if !(1 <= vb.vw && 1 <= vb.vh) {
                                Err(ParseError::InvalidGeometry)
                            } else if closed {
                                let t = spec_skip_ws(s, i1);
                                if t == s.len() {
                                    Ok((w as u32, h as u32, Seq::empty()))
                                } else {
                                    Err(ParseError::MalformedMarkup)
                                }
                            } else {
                                match spec_parse_content(s, i1, w, h, vb) {
                                    Err(e) => Err(e),
                                    Ok((cs, _end)) => Ok((w as u32, h as u32, cs)),
                                }
                            }
                        },
                    },
                },
            }
        }
    }
}

/// Parse a scene descriptor. The result is exactly what `spec_parse` says
/// of the descriptor's bytes; an accepted scene has a positive canvas and
/// primitives within the rasterizer's bounds.
pub fn parse(descriptor: &str) -> (r: Result<Scene, ParseError>)
    ensures
        match r {
            Ok(scene) => {
                &&& spec_parse(descriptor.spec_bytes()) == Ok::<
                    (u32, u32, Seq<Circle>),
                    ParseError,
                >((scene.width, scene.height, scene.circles@))
                &&& scene.wf()
                &&& 1 <= scene.width <= DIM_CAP
                &&& 1 <= scene.height <= DIM_CAP
            },
            Err(e) => spec_parse(descriptor.spec_bytes()) == Err::<
                (u32, u32, Seq<Circle>),
                ParseError,
            >(e),
        },
{
    let s: Vec<u8> = vstd::slice::slice_to_vec(descriptor.as_bytes());
    let i0 = skip_ws(&s, 0);
    if !(i0 < s.len() && s[i0] == 60) {
        return Err(ParseError::MissingRoot);
    }
    let ns = i0 + 1;
    let ne = name_end(&s, ns);
    let svg_name = ne - ns == 3 && s[ns] == 115 && s[ns + 1] == 118 && s[ns + 2] == 103;
    if !svg_name {
        return Err(ParseError::MissingRoot);
    }
    let at0 = SvgAttrs { width: None, height: None, viewbox: None };
    let (at, i1, closed) = match parse_svg_attrs(&s, ne, at0) {
        Err(e) => {
            return Err(e);
        },
        Ok(v) => v,
    };
    let w = match canvas_dim(at.width) {
        Err(e) => {
            return Err(e);
        },
        Ok(v) => v,
    };
    let h = match canvas_dim(at.height) {
        Err(e) => {
            return Err(e);
        },
        Ok(v) => v,
    };
    let vb = match at.viewbox {
        None => ViewBox { minx: 0, miny: 0, vw: w, vh: h },
        Some(v) => v,
    };
    if !(1 <= vb.vw && 1 <= vb.vh) {
        return Err(ParseError::InvalidGeometry);
    }
    if closed {
        let t = skip_ws(&s, i1);
        if t == s.len() {
            let circles: Vec<Circle> = Vec::new();
            proof {
                assert(circles@ =~= Seq::<Circle>::empty());
            }
            return Ok(Scene { width: w as u32, height: h as u32, circles });
        }
        return Err(ParseError::MalformedMarkup);
    }
    match parse_content(&s, i1, w, h, vb) {
        Err(e) => Err(e),
        Ok((circles, _end)) => Ok(Scene { width: w as u32, height: h as u32, circles }),
    }
}

} // verus!
