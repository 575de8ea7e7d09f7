use svgraster::codec::{adler32, crc32, encode_png};
use svgraster::generate;
use svgraster::model::{ParseError, RenderError, Scene};
use svgraster::parse::parse;
use svgraster::raster::{isqrt, rasterize, PixelBuffer};
use svgraster::ImageError;

const REFERENCE_SCENE: &str = "<svg xmlns=\"http://www.w3.org/2000/svg\" viewBox=\"0 0 800 600\" width=\"800\" height=\"600\"><circle cx=\"50\" cy=\"50\" r=\"50\" /></svg>";

fn decode(bytes: &[u8]) -> (u32, u32, Vec<u8>) {
    let decoder = png::Decoder::new(std::io::Cursor::new(bytes));
    let mut reader = decoder.read_info().expect("decodable header");
    let mut buf = vec![0u8; reader.output_buffer_size().expect("sane size")];
    let info = reader.next_frame(&mut buf).expect("decodable frame");
    assert_eq!(info.color_type, png::ColorType::Rgba);
    assert_eq!(info.bit_depth, png::BitDepth::Eight);
    buf.truncate(info.buffer_size());
    (info.width, info.height, buf)
}

fn pixel_of(buf: &[u8], w: u32, x: u32, y: u32) -> (u8, u8, u8, u8) {
    let i = 4 * (y as usize * w as usize + x as usize);
    (buf[i], buf[i + 1], buf[i + 2], buf[i + 3])
}

#[test]
fn end_to_end_reference_scene() {
    let img = generate(REFERENCE_SCENE).expect("reference scene renders");
    assert_eq!(img.content_type(), "image/png");
    let (w, h, pix) = decode(&img.bytes);
    assert_eq!((w, h), (800, 600));
    assert_eq!(pixel_of(&pix, w, 50, 50), (0, 0, 0, 255));
    assert_eq!(pixel_of(&pix, w, 780, 580), (0, 0, 0, 0));
}

#[test]
fn encoded_dimensions_match_declared() {
    let img = generate("<svg width=\"33\" height=\"7\"></svg>").expect("renders");
    let (w, h, _) = decode(&img.bytes);
    assert_eq!((w, h), (33, 7));
}

#[test]
fn encoding_is_deterministic() {
    let scene = parse("<svg width=\"40\" height=\"30\"><circle cx=\"10\" cy=\"10\" r=\"8\"/></svg>")
        .expect("parses");
    let buf = rasterize(&scene).expect("rasterizes");
    let img1 = encode_png(&buf);
    let img2 = encode_png(&buf);
    assert_eq!(img1.bytes, img2.bytes);
}

#[test]
fn decoding_recovers_buffer_exactly() {
    let scene = parse(
        "<svg width=\"64\" height=\"64\"><circle cx=\"20\" cy=\"20\" r=\"15\" fill=\"#3377cc\"/><circle cx=\"40\" cy=\"44\" r=\"12\"/></svg>",
    )
    .expect("parses");
    let buf = rasterize(&scene).expect("rasterizes");
    let img = encode_png(&buf);
    let (w, h, pix) = decode(&img.bytes);
    assert_eq!((w, h), (64, 64));
    assert_eq!(&pix[..], &buf.bytes()[..]);
}

#[test]
fn empty_descriptor_is_missing_root() {
    assert!(matches!(
        parse(""),
        Err(ParseError::MissingRoot)
    ));
    assert!(matches!(
        parse("   \n  "),
        Err(ParseError::MissingRoot)
    ));
}

#[test]
fn wrong_root_is_missing_root() {
    assert!(matches!(
        parse("<div width=\"10\" height=\"10\"></div>"),
        Err(ParseError::MissingRoot)
    ));
    assert!(matches!(
        parse("no markup at all"),
        Err(ParseError::MissingRoot)
    ));
}

#[test]
fn missing_dimension_is_malformed() {
    assert!(matches!(
        parse("<svg width=\"10\"></svg>"),
        Err(ParseError::MalformedMarkup)
    ));
}

#[test]
fn truncated_markup_is_malformed() {
    assert!(matches!(
        parse("<svg width=\"10\" height=\"10\"><circle cx=\"3\""),
        Err(ParseError::MalformedMarkup)
    ));
    assert!(matches!(
        parse("<svg width=\"10\" height=\"10\">"),
        Err(ParseError::MalformedMarkup)
    ));
}

#[test]
fn non_positive_dimensions_are_rejected() {
    assert!(matches!(
        parse("<svg width=\"0\" height=\"10\"></svg>"),
        Err(ParseError::NonPositiveDimensions)
    ));
    assert!(matches!(
        parse("<svg width=\"10\" height=\"-5\"></svg>"),
        Err(ParseError::NonPositiveDimensions)
    ));
}

#[test]
fn invalid_geometry_is_rejected() {
    assert!(matches!(
        parse("<svg width=\"10\" height=\"10\"><circle r=\"-1\"/></svg>"),
        Err(ParseError::InvalidGeometry)
    ));
    assert!(matches!(
        parse("<svg width=\"200000\" height=\"10\"></svg>"),
        Err(ParseError::InvalidGeometry)
    ));
    assert!(matches!(
        parse("<svg width=\"9999999\" height=\"10\"></svg>"),
        Err(ParseError::InvalidGeometry)
    ));
    assert!(matches!(
        parse("<svg width=\"10\" height=\"10\"><circle cx=\"5\"/></svg>"),
        Err(ParseError::InvalidGeometry)
    ));
}

#[test]
fn zero_canvas_is_allocation_error() {
    assert!(matches!(
        PixelBuffer::new(0, 0),
        Err(RenderError::AllocationError)
    ));
    assert!(matches!(
        PixelBuffer::new(0, 10),
        Err(RenderError::AllocationError)
    ));
    let scene = Scene { width: 0, height: 0, circles: vec![] };
    assert!(matches!(
        svgraster::render(&scene),
        Err(RenderError::AllocationError)
    ));
}

#[test]
fn oversized_canvas_is_allocation_error() {
    let r = generate("<svg width=\"100000\" height=\"100000\"></svg>");
    assert!(matches!(
        r,
        Err(ImageError::Render(RenderError::AllocationError))
    ));
}

#[test]
fn crc32_matches_reference_value() {
    let v: Vec<u8> = b"123456789".to_vec();
    assert_eq!(crc32(&v), 0xCBF4_3926);
    let empty: Vec<u8> = vec![];
    assert_eq!(crc32(&empty), 0);
}

#[test]
fn adler32_matches_reference_value() {
    let v: Vec<u8> = b"Wikipedia".to_vec();
    assert_eq!(adler32(&v), 0x11E6_0398);
    let empty: Vec<u8> = vec![];
    assert_eq!(adler32(&empty), 1);
}

#[test]
fn isqrt_exact_values() {
    assert_eq!(isqrt(0), 0);
    assert_eq!(isqrt(1), 1);
    assert_eq!(isqrt(15), 3);
    assert_eq!(isqrt(16), 4);
    assert_eq!(isqrt(32768), 181);
    assert_eq!(isqrt(0x3FFF_FFFF_FFFF_FFFF), 2147483647);
}

#[test]
fn viewbox_scales_geometry() {
    let scene = parse(
        "<svg viewBox=\"0 0 400 300\" width=\"800\" height=\"600\"><circle cx=\"50\" cy=\"30\" r=\"10\"/></svg>",
    )
    .expect("parses");
    assert_eq!(scene.width, 800);
    assert_eq!(scene.height, 600);
    assert_eq!(scene.circles.len(), 1);
    let c = scene.circles[0];
    assert_eq!(c.cx, 50 * 800 * 256 / 400);
    assert_eq!(c.cy, 30 * 600 * 256 / 300);
    assert_eq!(c.radius, 10 * 800 * 256 / 400);
}

#[test]
fn viewbox_origin_offsets_geometry() {
    let scene = parse(
        "<svg viewBox=\"-100 -100 200 200\" width=\"200\" height=\"200\"><circle cx=\"0\" cy=\"0\" r=\"5\"/></svg>",
    )
    .expect("parses");
    let c = scene.circles[0];
    assert_eq!(c.cx, 100 * 256);
    assert_eq!(c.cy, 100 * 256);
}

#[test]
fn fill_color_reaches_center_pixel() {
    let scene = parse(
        "<svg width=\"30\" height=\"30\"><circle cx=\"15\" cy=\"15\" r=\"10\" fill=\"#ff8000\"/></svg>",
    )
    .expect("parses");
    let buf = rasterize(&scene).expect("rasterizes");
    assert_eq!(buf.pixel(15, 15), (255, 128, 0, 255));
    assert_eq!(buf.pixel(0, 0), (0, 0, 0, 0));
}

#[test]
fn later_circle_occludes_earlier() {
    let scene = parse(
        "<svg width=\"40\" height=\"20\"><circle cx=\"15\" cy=\"10\" r=\"8\" fill=\"#ff0000\"/><circle cx=\"20\" cy=\"10\" r=\"8\" fill=\"#0000ff\"/></svg>",
    )
    .expect("parses");
    let buf = rasterize(&scene).expect("rasterizes");
    assert_eq!(buf.pixel(20, 10), (0, 0, 255, 255));
    assert_eq!(buf.pixel(10, 10), (255, 0, 0, 255));
}

#[test]
fn self_closing_root_renders_blank() {
    let img = generate("<svg width=\"5\" height=\"4\"/>").expect("renders");
    let (w, h, pix) = decode(&img.bytes);
    assert_eq!((w, h), (5, 4));
    assert!(pix.iter().all(|b| *b == 0));
}

#[test]
fn large_raw_stream_splits_into_blocks() {
    let img = generate("<svg width=\"300\" height=\"200\"><circle cx=\"150\" cy=\"100\" r=\"90\" fill=\"#102030\"/></svg>")
        .expect("renders");
    assert!(img.bytes.len() > 65535);
    let (w, h, pix) = decode(&img.bytes);
    assert_eq!((w, h), (300, 200));
    assert_eq!(pixel_of(&pix, w, 150, 100), (16, 32, 48, 255));
}

#[test]
fn trailing_garbage_is_malformed() {
    assert!(matches!(
        parse("<svg width=\"10\" height=\"10\"></svg>junk"),
        Err(ParseError::MalformedMarkup)
    ));
}

#[test]
fn antialiased_edge_has_fractional_alpha() {
    let scene = parse("<svg width=\"21\" height=\"21\"><circle cx=\"10\" cy=\"10\" r=\"5\"/></svg>")
        .expect("parses");
    let buf = rasterize(&scene).expect("rasterizes");
    let (_, _, _, edge_alpha) = buf.pixel(14, 10);
    assert!(edge_alpha > 0 && edge_alpha < 255);
    let (_, _, _, center_alpha) = buf.pixel(10, 10);
    assert_eq!(center_alpha, 255);
}
