use pixeldraw::canvas::{BrushSize, Canvas, CanvasError, PixelUpdate};
use pixeldraw::palette::PaletteMode;

fn stamp(x: u32, y: u32, color: &str) -> PixelUpdate {
    PixelUpdate {
        x,
        y,
        color: color.into(),
    }
}

fn rgb_at(canvas: &Canvas, index: usize) -> [u8; 3] {
    canvas.pixel(index).expect("cell holds a bead")
}

#[test]
fn rejects_invalid_size() {
    assert!(matches!(
        Canvas::new(0, 16, PaletteMode::Colors144),
        Err(CanvasError::InvalidSize { .. })
    ));
    assert!(matches!(
        Canvas::new(16, 129, PaletteMode::Colors24),
        Err(CanvasError::InvalidSize { .. })
    ));
}

#[test]
fn paints_and_rejects_out_of_bounds() {
    let mut canvas = Canvas::new(4, 4, PaletteMode::Colors24).unwrap();
    let ok = canvas.paint(&[stamp(1, 2, "红色")], BrushSize::One).unwrap();
    assert_eq!(ok, 1);

    let err = canvas
        .paint(&[stamp(4, 0, "黑色")], BrushSize::One)
        .unwrap_err();
    assert!(matches!(err, CanvasError::OutOfBounds { x: 4, y: 0, .. }));
}

#[test]
fn rejects_unknown_color_without_painting() {
    let mut canvas = Canvas::new(2, 2, PaletteMode::Colors24).unwrap();
    let err = canvas
        .paint(&[stamp(0, 0, "黑色"), stamp(1, 1, "彩虹")], BrushSize::One)
        .unwrap_err();
    assert!(matches!(
        err,
        CanvasError::UnknownColor {
            mode: PaletteMode::Colors24,
            ..
        }
    ));
    assert_eq!(rgb_at(&canvas, 0), PaletteMode::Colors24.white_rgb());
    assert!(err.to_string().contains("24 色模式"));
    assert!(err.to_string().contains("list_colors"));
    assert!(!err.to_string().contains("白色、"));
}

#[test]
fn twenty_four_mode_rejects_144_only_name_without_painting() {
    let mut canvas = Canvas::new(2, 2, PaletteMode::Colors24).unwrap();
    let err = canvas
        .paint(&[stamp(0, 0, "黑色"), stamp(1, 1, "鹅黄")], BrushSize::One)
        .unwrap_err();
    assert!(matches!(err, CanvasError::UnknownColor { .. }));
    assert_eq!(rgb_at(&canvas, 0), PaletteMode::Colors24.white_rgb());
}

#[test]
fn default_221_mode_rejects_24_only_name() {
    let mut canvas = Canvas::new(2, 2, PaletteMode::default()).unwrap();
    assert_eq!(canvas.mode(), PaletteMode::Colors221);
    let err = canvas
        .paint(&[stamp(0, 0, "红色")], BrushSize::One)
        .unwrap_err();
    assert!(matches!(
        err,
        CanvasError::UnknownColor {
            mode: PaletteMode::Colors221,
            ..
        }
    ));
    canvas.paint(&[stamp(0, 0, "正红")], BrushSize::One).unwrap();
    assert_eq!(rgb_at(&canvas, 0), [0xE7, 0x00, 0x2F]);
    canvas.paint(&[stamp(1, 1, "雪白")], BrushSize::One).unwrap();
    assert_eq!(rgb_at(&canvas, 3), [0xFD, 0xFB, 0xFF]);
}

#[test]
fn png_is_scaled_8x() {
    let canvas = Canvas::new(3, 2, PaletteMode::Colors144).unwrap();
    let png = canvas.encode_png_8x().unwrap();
    let img = image::load_from_memory(&png).unwrap();
    assert_eq!(img.width(), 24);
    assert_eq!(img.height(), 16);
}

#[test]
fn nearest_neighbor_keeps_solid_pixels() {
    let mut canvas = Canvas::new(2, 1, PaletteMode::Colors24).unwrap();
    canvas.paint(&[stamp(0, 0, "黑色")], BrushSize::One).unwrap();
    let png = canvas.encode_png_8x().unwrap();
    let img = image::load_from_memory(&png).unwrap().to_rgb8();
    assert_eq!(img.get_pixel(0, 0), &image::Rgb([0, 0, 0]));
    assert_eq!(img.get_pixel(7, 7), &image::Rgb([0, 0, 0]));
    assert_eq!(img.get_pixel(8, 0), &image::Rgb([255, 255, 255]));
}

#[test]
fn brush_parse_only_allows_1_2_4_8() {
    assert_eq!(BrushSize::parse(None).unwrap(), BrushSize::One);
    assert_eq!(BrushSize::parse(Some(1)).unwrap(), BrushSize::One);
    assert_eq!(BrushSize::parse(Some(2)).unwrap(), BrushSize::Two);
    assert_eq!(BrushSize::parse(Some(4)).unwrap(), BrushSize::Four);
    assert_eq!(BrushSize::parse(Some(8)).unwrap(), BrushSize::Eight);
    assert!(matches!(
        BrushSize::parse(Some(3)),
        Err(CanvasError::InvalidBrush { size: 3 })
    ));
    assert!(matches!(
        BrushSize::parse(Some(0)),
        Err(CanvasError::InvalidBrush { size: 0 })
    ));
}

#[test]
fn brush_two_fills_aligned_block() {
    let mut canvas = Canvas::new(8, 8, PaletteMode::Colors221).unwrap();
    let written = canvas.paint(&[stamp(0, 0, "正红")], BrushSize::Two).unwrap();
    assert_eq!(written, 4);
    let red = [0xE7, 0x00, 0x2F];
    let white = PaletteMode::Colors221.white_rgb();
    assert_eq!(rgb_at(&canvas, 0), red);
    assert_eq!(rgb_at(&canvas, 1), red);
    assert_eq!(rgb_at(&canvas, 8), red);
    assert_eq!(rgb_at(&canvas, 9), red);
    assert_eq!(rgb_at(&canvas, 2), white);
    assert_eq!(rgb_at(&canvas, 16), white);
}

#[test]
fn brush_two_rejects_unaligned_without_painting() {
    let mut canvas = Canvas::new(8, 8, PaletteMode::Colors221).unwrap();
    let err = canvas
        .paint(&[stamp(0, 0, "正红"), stamp(1, 0, "纯黑")], BrushSize::Two)
        .unwrap_err();
    assert!(matches!(
        err,
        CanvasError::Unaligned {
            x: 1,
            y: 0,
            brush: 2
        }
    ));
    assert!(err.to_string().contains("笔刷 2"));
    assert_eq!(rgb_at(&canvas, 0), PaletteMode::Colors221.white_rgb());
}

#[test]
fn shape_stroke_uses_brush_thickness_without_alignment() {
    let mut canvas = Canvas::new(8, 8, PaletteMode::Colors24).unwrap();
    let written = canvas.paint_line(1, 1, 5, 1, "黑色", BrushSize::Two).unwrap();
    assert!(written >= 10);
    let black = [0, 0, 0];
    assert_eq!(rgb_at(&canvas, 1 * 8 + 1), black);
    assert_eq!(rgb_at(&canvas, 0 * 8 + 1), black);
    assert_eq!(rgb_at(&canvas, 1 * 8 + 2), black);
}

#[test]
fn rect_fill_and_stroke_differ() {
    let mut canvas = Canvas::new(6, 6, PaletteMode::Colors24).unwrap();
    canvas.paint_rect(1, 1, 3, 3, "红色", true, BrushSize::One).unwrap();
    let red = [0xD8, 0x01, 0x27];
    let white = PaletteMode::Colors24.white_rgb();
    assert_eq!(rgb_at(&canvas, 1 * 6 + 1), red);
    assert_eq!(rgb_at(&canvas, 2 * 6 + 2), red);
    assert_eq!(rgb_at(&canvas, 0), white);

    let mut stroke = Canvas::new(6, 6, PaletteMode::Colors24).unwrap();
    stroke.paint_rect(1, 1, 3, 3, "黑色", false, BrushSize::One).unwrap();
    assert_eq!(rgb_at(&stroke, 1 * 6 + 1), [0, 0, 0]);
    assert_eq!(rgb_at(&stroke, 2 * 6 + 2), white);
    assert_eq!(rgb_at(&stroke, 1 * 6 + 3), [0, 0, 0]);
}

#[test]
fn triangle_fill_and_stroke_differ() {
    let mut canvas = Canvas::new(8, 8, PaletteMode::Colors24).unwrap();
    canvas
        .paint_triangle(1, 1, 6, 1, 1, 6, "红色", true, BrushSize::One)
        .unwrap();
    let red = [0xD8, 0x01, 0x27];
    let white = PaletteMode::Colors24.white_rgb();
    assert_eq!(rgb_at(&canvas, 1 * 8 + 1), red);
    assert_eq!(rgb_at(&canvas, 2 * 8 + 2), red);
    assert_eq!(rgb_at(&canvas, 7 * 8 + 7), white);

    let mut stroke = Canvas::new(8, 8, PaletteMode::Colors24).unwrap();
    stroke
        .paint_triangle(1, 1, 6, 1, 1, 6, "黑色", false, BrushSize::One)
        .unwrap();
    assert_eq!(rgb_at(&stroke, 1 * 8 + 1), [0, 0, 0]);
    assert_eq!(rgb_at(&stroke, 1 * 8 + 6), [0, 0, 0]);
    assert_eq!(rgb_at(&stroke, 6 * 8 + 1), [0, 0, 0]);
    assert_eq!(rgb_at(&stroke, 3 * 8 + 3), white);
}

#[test]
fn circle_and_ellipse_fill_and_flood() {
    let mut canvas = Canvas::new(9, 9, PaletteMode::Colors24).unwrap();
    canvas.paint_circle(4, 4, 2, "蓝色", true, BrushSize::One).unwrap();
    let blue = [0x10, 0x54, 0xC0];
    let yellow = [0xFF, 0xE9, 0x53];
    assert_eq!(rgb_at(&canvas, 4 * 9 + 4), blue);
    canvas.flood_fill(0, 0, "黄色").unwrap();
    assert_eq!(rgb_at(&canvas, 0), yellow);
    assert_eq!(rgb_at(&canvas, 4 * 9 + 4), blue);

    let mut ellipse = Canvas::new(9, 9, PaletteMode::Colors24).unwrap();
    ellipse
        .paint_ellipse(4, 4, 3, 1, "黑色", true, BrushSize::One, &[])
        .unwrap();
    assert_eq!(rgb_at(&ellipse, 4 * 9 + 4), [0, 0, 0]);
    assert_eq!(rgb_at(&ellipse, 4 * 9 + 1), [0, 0, 0]);
    assert_eq!(rgb_at(&ellipse, 0 * 9 + 4), PaletteMode::Colors24.white_rgb());
}

#[test]
fn shape_unknown_color_rejects_whole_op() {
    let mut canvas = Canvas::new(4, 4, PaletteMode::Colors24).unwrap();
    let err = canvas.paint_line(0, 0, 3, 3, "彩虹", BrushSize::One).unwrap_err();
    assert!(matches!(err, CanvasError::UnknownColor { .. }));
    assert_eq!(rgb_at(&canvas, 0), PaletteMode::Colors24.white_rgb());
}

#[test]
fn brush_four_and_eight_align_and_overflow() {
    let mut canvas = Canvas::new(8, 8, PaletteMode::Colors221).unwrap();
    assert_eq!(canvas.paint(&[stamp(4, 0, "正红")], BrushSize::Four).unwrap(), 16);
    let err = canvas
        .paint(&[stamp(2, 0, "纯黑")], BrushSize::Four)
        .unwrap_err();
    assert!(matches!(err, CanvasError::Unaligned { brush: 4, .. }));

    let overflow = canvas
        .paint(&[stamp(8, 0, "纯黑")], BrushSize::Eight)
        .unwrap_err();
    assert!(matches!(overflow, CanvasError::OutOfBounds { x: 8, .. }));

    let mut small = Canvas::new(8, 8, PaletteMode::Colors221).unwrap();
    assert_eq!(small.paint(&[stamp(0, 0, "正红")], BrushSize::Eight).unwrap(), 64);
    let mut tight = Canvas::new(5, 5, PaletteMode::Colors221).unwrap();
    let err = tight
        .paint(&[stamp(4, 0, "正红")], BrushSize::Four)
        .unwrap_err();
    assert!(matches!(err, CanvasError::OutOfBounds { x: 4, .. }));
    assert_eq!(rgb_at(&tight, 0), PaletteMode::Colors221.white_rgb());
}
