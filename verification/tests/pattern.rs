use std::collections::BTreeMap;

use pixeldraw::canvas::{BrushSize, Canvas, PixelUpdate};
use pixeldraw::palette::PaletteMode;
use pixeldraw::pattern::{counts, encode_png, foreground, glyph, CELL, LEFT, TOP};

fn chart(c: &Canvas) -> Vec<u8> {
    encode_png(c).unwrap()
}

fn code_counts(c: &Canvas) -> BTreeMap<&'static str, usize> {
    let colors = c.mode().colors();
    counts(c)
        .into_iter()
        .enumerate()
        .filter(|(_, n)| *n > 0)
        .map(|(k, n)| (colors[k].code, n))
        .collect()
}

#[test]
fn chart_counts_final_beads_and_leaves_empty_cells_unlabelled() {
    let mut c = Canvas::new_empty(3, 1, PaletteMode::Colors221).unwrap();
    c.paint(
        &[
            PixelUpdate {
                x: 0,
                y: 0,
                color: "H2".into(),
            },
            PixelUpdate {
                x: 1,
                y: 0,
                color: "纯黑".into(),
            },
        ],
        BrushSize::One,
    )
    .unwrap();
    assert_eq!(code_counts(&c), BTreeMap::from([("H2", 1), ("H7", 1)]));
    let im = image::load_from_memory(&chart(&c)).unwrap().to_rgb8();
    // Empty cell interior is entirely white, white bead cell has a black label.
    assert!((TOP + 3..TOP + CELL - 3).all(|y| {
        (LEFT + 2 * CELL + 3..LEFT + 3 * CELL - 3).all(|x| im.get_pixel(x, y).0 == [255; 3])
    }));
    assert!(
        (TOP + 3..TOP + CELL - 3)
            .any(|y| (LEFT + 3..LEFT + CELL - 3).any(|x| im.get_pixel(x, y).0 == [0; 3]))
    );
    c.paint(
        &[PixelUpdate {
            x: 1,
            y: 0,
            color: "-".into(),
        }],
        BrushSize::One,
    )
    .unwrap();
    assert_eq!(code_counts(&c), BTreeMap::from([("H2", 1)]));
}

#[test]
fn extremes_and_palette_glyphs_fit() {
    for mode in [
        PaletteMode::Colors24,
        PaletteMode::Colors144,
        PaletteMode::Colors221,
    ] {
        for color in mode.colors() {
            for ch in color.code.chars() {
                assert_ne!(glyph(ch), [0; 7]);
            }
        }
    }
    assert_eq!(foreground([0; 3]), [255; 3]);
    assert_eq!(foreground([255; 3]), [0; 3]);
    let c = Canvas::new_empty(1, 1, PaletteMode::Colors24).unwrap();
    let im = image::load_from_memory(&encode_png(&c).unwrap()).unwrap();
    assert_eq!(im.width(), 480);
    assert!(code_counts(&c).is_empty());
}

/// The luminance rule, computed in floating point.
fn float_foreground(rgb: [u8; 3]) -> [u8; 3] {
    let linear = rgb.map(|v| {
        let v = f64::from(v) / 255.;
        if v <= 0.04045 {
            v / 12.92
        } else {
            ((v + 0.055) / 1.055).powf(2.4)
        }
    });
    let luminance = linear[0] * 0.2126 + linear[1] * 0.7152 + linear[2] * 0.0722;
    if luminance > 0.179 { [0; 3] } else { [255; 3] }
}

#[test]
fn foreground_matches_the_luminance_rule() {
    for r in (0..=255u8).step_by(3) {
        for g in (0..=255u8).step_by(5) {
            for b in (0..=255u8).step_by(7) {
                assert_eq!(foreground([r, g, b]), float_foreground([r, g, b]), "{r} {g} {b}");
            }
        }
    }
    for mode in [PaletteMode::Colors24, PaletteMode::Colors144, PaletteMode::Colors221] {
        for color in mode.colors() {
            assert_eq!(foreground(color.rgb), float_foreground(color.rgb), "{}", color.code);
        }
    }
}

#[test]
fn chart_size_follows_grid_and_legend() {
    // 20 columns: 48 + 20 * 40 + 24 = 872 wide. 2 rows and one legend line:
    // 88 + 2 * 40 + 32 + 42 + 24 = 266 high.
    let mut c = Canvas::new(20, 2, PaletteMode::Colors24).unwrap();
    c.paint_line(0, 0, 19, 0, "黑色", BrushSize::One).unwrap();
    let im = image::load_from_memory(&chart(&c)).unwrap().to_rgb8();
    assert_eq!(im.dimensions(), (872, 266));
    // A black bead cell is filled black; its label is drawn in white.
    assert_eq!(im.get_pixel(LEFT + 2, TOP + 2).0, [0, 0, 0]);
    assert!((TOP + 3..TOP + CELL - 3)
        .any(|y| (LEFT + 3..LEFT + CELL - 3).any(|x| im.get_pixel(x, y).0 == [255; 3])));
    // The doubled grid line at column 0, and the gray of a single one at column 1.
    assert_eq!(im.get_pixel(LEFT + 1, TOP + CELL + 5).0, [110; 3]);
    assert_eq!(im.get_pixel(LEFT + CELL, TOP + CELL + 5).0, [110; 3]);
    assert_eq!(im.get_pixel(LEFT + CELL + 1, TOP + CELL + 5).0, [0xFF, 0xFF, 0xFF]);
}

#[test]
fn glyph_table_and_blank_for_others() {
    assert_eq!(glyph('0'), [14, 17, 19, 21, 25, 17, 14]);
    assert_eq!(glyph('X'), [17, 17, 10, 4, 10, 17, 17]);
    assert_eq!(glyph('z'), [0; 7]);
}
