use pixeldraw::canvas::{BrushSize, Canvas, PixelUpdate};
use pixeldraw::palette::{resolve, PaletteMode};
use pixeldraw::shapes::{circle_fill_points, ellipse_fill_points, triangle_fill_points};
use pixeldraw::text::trimmed_chars;
use pixeldraw::pattern::counts;
use pixeldraw::server::{
    next_suffix, parse_pixels, sanitize_filename, save_candidate, CreateCanvasRequest, DrawBatchRequest, DrawLineRequest,
    DrawPixelsRequest, DrawRectRequest, DrawStep, FloodFillRequest,
};
use pixeldraw::session::{Reply, Session};

fn stamp(x: u32, y: u32, color: &str) -> PixelUpdate {
    PixelUpdate {
        x,
        y,
        color: color.into(),
    }
}

#[test]
fn refused_operations_change_nothing() {
    let mut canvas = Canvas::new(6, 6, PaletteMode::Colors24).unwrap();
    canvas.paint(&[stamp(2, 2, "黑色")], BrushSize::One).unwrap();
    let before = canvas.codes_index();
    assert!(canvas.paint(&[stamp(0, 0, "红色"), stamp(9, 0, "红色")], BrushSize::One).is_err());
    assert_eq!(canvas.codes_index(), before);
    assert!(canvas.paint_rect(0, 0, 6, 0, "红色", true, BrushSize::One).is_err());
    assert_eq!(canvas.codes_index(), before);
    assert!(canvas.paint_circle(1, 1, 3, "不存在", false, BrushSize::Two).is_err());
    assert_eq!(canvas.codes_index(), before);
    assert!(canvas.flood_fill(0, 7, "红色").is_err());
    assert_eq!(canvas.codes_index(), before);
}

#[test]
fn drawing_keeps_the_frame() {
    let mut canvas = Canvas::new(5, 3, PaletteMode::Colors144).unwrap();
    canvas.paint_line(0, 0, 4, 2, "正红", BrushSize::Eight).unwrap();
    canvas.flood_fill(4, 0, "纯黑").unwrap();
    assert_eq!((canvas.width(), canvas.height()), (5, 3));
    assert_eq!(canvas.mode(), PaletteMode::Colors144);
    assert_eq!(canvas.codes_index().len(), 15);
}

#[test]
fn a_stamp_writes_exactly_its_square() {
    let mut canvas = Canvas::new_empty(4, 4, PaletteMode::Colors24).unwrap();
    canvas.paint(&[stamp(2, 2, "黑色")], BrushSize::Two).unwrap();
    let codes = canvas.codes();
    for (i, code) in codes.iter().enumerate() {
        let (x, y) = (i % 4, i / 4);
        let expected = if x >= 2 && y >= 2 { Some("H7") } else { None };
        assert_eq!(*code, expected, "cell {i}");
    }
    assert_eq!(canvas.pixel(2 * 4 + 2), resolve(PaletteMode::Colors24, "黑色"));
    canvas.paint(&[stamp(2, 2, "-")], BrushSize::One).unwrap();
    assert_eq!(canvas.pixel(2 * 4 + 2), None);
    assert_eq!(canvas.pixel(3 * 4 + 3), Some([0, 0, 0]));
}

#[test]
fn flood_fill_is_idempotent() {
    let mut canvas = Canvas::new(5, 5, PaletteMode::Colors24).unwrap();
    canvas.paint_rect(1, 0, 1, 4, "黑色", true, BrushSize::One).unwrap();
    assert_eq!(canvas.flood_fill(0, 0, "红色").unwrap(), 5);
    let after = canvas.codes_index();
    assert_eq!(canvas.flood_fill(0, 0, "红色").unwrap(), 0);
    assert_eq!(canvas.codes_index(), after);
}

#[test]
fn refused_tools_keep_the_session_canvas() {
    let mut session = Session::new();
    session.create_canvas(CreateCanvasRequest {
        width: 4,
        height: 4,
        palette: None,
        background: None,
    });
    let before = session.canvas().unwrap().codes_index();
    let reply = session.draw_rect(DrawRectRequest {
        x0: 0,
        y0: 0,
        x1: 3,
        y1: 3,
        color: "彩虹".into(),
        fill: true,
        brush: None,
    });
    assert!(matches!(reply, Reply::ToolError { .. }));
    let reply = session.draw_pixels(DrawPixelsRequest {
        pixels: "0 0 H7 1 1".into(),
        brush: None,
    });
    assert!(matches!(reply, Reply::ToolError { .. }));
    assert_eq!(session.canvas().unwrap().codes_index(), before);
}

#[test]
fn only_the_words_of_a_batch_count() {
    assert_eq!(
        parse_pixels("1 2 H7\t\t3 4 H2").unwrap(),
        parse_pixels("\n1\n2\nH7 3    4 H2  ").unwrap()
    );
}

#[test]
fn saved_names_are_plain() {
    for raw in ["cat", "a.b-c_d", "x.Png", "COM0"] {
        let name = sanitize_filename(raw).unwrap();
        assert!(name.chars().all(|c| c.is_ascii_alphanumeric() || matches!(c, '.' | '_' | '-')));
        assert!(name.to_ascii_lowercase().ends_with(".png"));
        assert!(name.len() <= 200);
    }
}

#[test]
fn resolve_takes_the_first_answering_entry() {
    let colors = PaletteMode::Colors144.colors();
    let first = colors
        .iter()
        .find(|c| c.code.eq_ignore_ascii_case("h2"))
        .unwrap();
    assert_eq!(resolve(PaletteMode::Colors144, " h2 "), Some(first.rgb));
    for c in &colors {
        assert!(resolve(PaletteMode::Colors144, c.name).is_some());
        assert!(resolve(PaletteMode::Colors144, c.code).is_some());
    }
    assert_eq!(resolve(PaletteMode::Colors144, "   "), None);
}

#[test]
fn counts_add_up_to_the_occupied_cells() {
    let mut canvas = Canvas::new_empty(4, 2, PaletteMode::Colors24).unwrap();
    canvas
        .paint(&[stamp(0, 0, "黑色"), stamp(1, 0, "黑色"), stamp(3, 1, "红色")], BrushSize::One)
        .unwrap();
    let totals = counts(&canvas);
    assert_eq!(totals.len(), 24);
    assert_eq!(totals.iter().sum::<usize>(), 3);
    let colors = PaletteMode::Colors24.colors();
    let black = colors.iter().position(|c| c.code == "H7").unwrap();
    assert_eq!(totals[black], 2);
}

#[test]
fn later_stamps_win_in_a_batch() {
    let mut canvas = Canvas::new(4, 4, PaletteMode::Colors24).unwrap();
    canvas
        .paint(
            &[stamp(0, 0, "红色"), stamp(0, 0, "黑色"), stamp(2, 2, "红色")],
            BrushSize::Two,
        )
        .unwrap();
    assert_eq!(canvas.pixel(0), Some([0, 0, 0]));
    assert_eq!(canvas.pixel(5), Some([0, 0, 0]));
    assert_eq!(canvas.pixel(15), resolve(PaletteMode::Colors24, "红色"));
}

#[test]
fn a_batch_splits_into_consecutive_batches() {
    let line = || {
        DrawStep::Line(DrawLineRequest {
            x0: 0,
            y0: 1,
            x1: 3,
            y1: 1,
            color: "黑色".into(),
            brush: None,
        })
    };
    let fill = || {
        DrawStep::Flood(FloodFillRequest {
            x: 0,
            y: 0,
            color: "红色".into(),
        })
    };
    let fresh = || {
        let mut s = Session::new();
        s.create_canvas(CreateCanvasRequest {
            width: 4,
            height: 4,
            palette: Some("24".into()),
            background: None,
        });
        s
    };
    let mut whole = fresh();
    whole.draw_batch(DrawBatchRequest {
        steps: vec![line(), fill()],
    });
    let mut parts = fresh();
    parts.draw_batch(DrawBatchRequest { steps: vec![line()] });
    parts.draw_batch(DrawBatchRequest { steps: vec![fill()] });
    assert_eq!(
        whole.canvas().unwrap().codes_index(),
        parts.canvas().unwrap().codes_index()
    );
}

#[test]
fn saved_names_are_stable() {
    for raw in ["cat", "cat.png", "a.b-c_d", "x.Png", "COM0", "lpt10"] {
        let name = sanitize_filename(raw).unwrap();
        assert_eq!(sanitize_filename(&name).unwrap(), name);
    }
    assert_eq!(sanitize_filename("cat").unwrap(), "cat.png");
}

#[test]
fn mode_names_parse_back() {
    for mode in [PaletteMode::Colors24, PaletteMode::Colors144, PaletteMode::Colors221] {
        assert_eq!(PaletteMode::parse(Some(mode.as_str())).unwrap(), mode);
    }
}

#[test]
fn trimming_twice_is_trimming_once() {
    for raw in ["  24 ", "\t\n", "", "a b", " \u{3000}x\u{3000} "] {
        let once: String = trimmed_chars(raw).into_iter().collect();
        let twice: String = trimmed_chars(&once).into_iter().collect();
        assert_eq!(once, twice);
        assert_eq!(once, raw.trim());
    }
}

#[test]
fn a_round_ellipse_fills_its_circle() {
    for r in [-2, 0, 1, 2, 3, 5, 8] {
        assert_eq!(ellipse_fill_points(4, -3, r, r), circle_fill_points(4, -3, r));
    }
}

#[test]
fn triangle_fill_is_the_closed_triangle() {
    let fill = triangle_fill_points(0, 0, 4, 0, 0, 4);
    for p in [(0, 0), (1, 1), (0, 3), (4, 0), (0, 4), (2, 2)] {
        assert!(fill.contains(&p));
    }
    for p in [(3, 3), (2, 3), (5, 0), (-1, 0)] {
        assert!(!fill.contains(&p));
    }
    assert_eq!(fill.len(), 15);
}

#[test]
fn triangle_fill_ignores_vertex_order() {
    let (a, b, c) = ((1, -2), (7, 3), (-3, 5));
    let fill = triangle_fill_points(a.0, a.1, b.0, b.1, c.0, c.1);
    for (p, q, r) in [(b, c, a), (c, a, b), (b, a, c), (a, c, b), (c, b, a)] {
        assert_eq!(triangle_fill_points(p.0, p.1, q.0, q.1, r.0, r.1), fill);
    }
}

#[test]
fn triangle_fill_is_row_major() {
    let fill = triangle_fill_points(6, -1, -2, 4, 3, 9);
    assert!(!fill.is_empty());
    for pair in fill.windows(2) {
        let (p, q) = (pair[0], pair[1]);
        assert!(p.1 < q.1 || (p.1 == q.1 && p.0 < q.0));
    }
}

#[test]
fn save_attempts_differ() {
    for name in ["cat.png", "a-1.png", "x.PNG", "b"] {
        let names: Vec<String> = (0..25).map(|k| save_candidate(name, k)).collect();
        for i in 0..names.len() {
            for j in 0..i {
                assert_ne!(names[i], names[j]);
            }
        }
    }
    assert_eq!(save_candidate("cat.png", 0), "cat.png");
    assert_eq!(save_candidate("cat.png", 12), "cat-12.png");
}

fn settle(name: &str, autogenerated: bool, taken: &[String]) -> Option<String> {
    let mut suffix = 0usize;
    loop {
        let candidate = save_candidate(name, suffix);
        if !taken.contains(&candidate) {
            return Some(candidate);
        }
        suffix = next_suffix(autogenerated, suffix)?;
    }
}

#[test]
fn a_save_takes_the_first_free_name() {
    let taken: Vec<String> = vec!["cat.png".into(), "cat-1.png".into(), "cat-2.png".into()];
    assert_eq!(settle("cat.png", true, &taken).unwrap(), "cat-3.png");
    assert_eq!(settle("cat.png", false, &taken), None);
    assert_eq!(settle("dog.png", false, &taken).unwrap(), "dog.png");
    let mut all: Vec<String> = (0..=100).map(|k| save_candidate("cat.png", k)).collect();
    assert_eq!(settle("cat.png", true, &all), None);
    all.pop();
    assert_eq!(settle("cat.png", true, &all).unwrap(), "cat-100.png");
}
