use pixeldraw::canvas::{BrushSize, Canvas, PixelUpdate};
use pixeldraw::palette::{format_list, PaletteMode};
use pixeldraw::pattern::encode_png;
use pixeldraw::server::{
    next_suffix, parse_pixels, pattern_file_name, sanitize_filename, save_attempts,
    save_candidate, timestamp_filename, CreateCanvasRequest, DrawBatchRequest,
    DrawCircleRequest, DrawEllipseRequest, DrawLineRequest, DrawPixelsRequest, DrawRectRequest,
    DrawStep, DrawTriangleRequest, ExportKind, FloodFillRequest, ListColorsRequest,
    MAX_PIXEL_BYTES, MAX_SAVE_SUFFIX, MAX_STAMPS, SaveImageRequest,
};
use pixeldraw::session::{Reply, Session, saved_reply};

#[test]
fn validates_filename_without_stripping_paths() {
    assert_eq!(sanitize_filename("cat.png").unwrap(), "cat.png");
    assert_eq!(sanitize_filename("cat").unwrap(), "cat.png");
    assert_eq!(sanitize_filename("cat.PNG").unwrap(), "cat.PNG");
    for name in [
        "",
        " ",
        ".",
        "..",
        "cat.",
        "a b.png",
        " cat.png",
        "cat.png ",
        "../evil.png",
        r"..\evil.png",
        "/cat.png",
        r"C:\cat.png",
        "猫.png",
        "con",
        "PrN.png",
        "aux.tar.png",
        "NUL",
        "COM1.png",
        "lpt9.PNG",
    ] {
        assert!(sanitize_filename(name).is_err(), "{name:?}");
    }
    for prefix in ["COM", "LPT"] {
        for digit in 1..=9 {
            assert!(sanitize_filename(&format!("{prefix}{digit}.png")).is_err());
        }
    }
    assert!(sanitize_filename("COM0.png").is_ok());
    assert!(sanitize_filename("LPT10.png").is_ok());
    assert!(sanitize_filename(&"a".repeat(196)).is_ok());
    assert!(sanitize_filename(&"a".repeat(197)).is_err());
    assert!(sanitize_filename(&format!("{}.png", "a".repeat(197))).is_err());
}

#[test]
fn parse_pixels_enforces_byte_and_stamp_limits() {
    assert!(parse_pixels(&" ".repeat(MAX_PIXEL_BYTES)).is_ok());
    assert!(parse_pixels(&" ".repeat(MAX_PIXEL_BYTES + 1)).is_err());
    assert!(parse_pixels(&"　".repeat(MAX_PIXEL_BYTES / 3 + 1)).is_err());
    assert_eq!(
        parse_pixels(&"0 0 H2 ".repeat(MAX_STAMPS)).unwrap().len(),
        MAX_STAMPS
    );
    assert!(parse_pixels(&"0 0 H2 ".repeat(MAX_STAMPS + 1)).is_err());
}

#[test]
fn parse_pixels_accepts_spaces_and_newlines() {
    let one_line = parse_pixels("0 0 正红 0 1 纯黑 2 0 正红").unwrap();
    let multiline = parse_pixels("0 0 正红\n0 1 纯黑\r\n2 0 正红").unwrap();
    let mixed = parse_pixels("0 0 正红\n0 1 纯黑 2 0 正红").unwrap();
    let expected = vec![
        PixelUpdate {
            x: 0,
            y: 0,
            color: "正红".into(),
        },
        PixelUpdate {
            x: 0,
            y: 1,
            color: "纯黑".into(),
        },
        PixelUpdate {
            x: 2,
            y: 0,
            color: "正红".into(),
        },
    ];
    assert_eq!(one_line, expected);
    assert_eq!(multiline, expected);
    assert_eq!(mixed, expected);
    assert!(parse_pixels("").unwrap().is_empty());
    assert!(parse_pixels("  \n\t ").unwrap().is_empty());
}

#[test]
fn parse_pixels_rejects_incomplete_or_invalid_coords() {
    assert!(parse_pixels("0 0 正红 1").is_err());
    assert!(parse_pixels("a 0 正红").is_err());
    assert!(parse_pixels("0 -1 正红").is_err());
}

#[test]
fn parsed_invalid_color_rejects_whole_batch() {
    let mut canvas = Canvas::new(4, 4, PaletteMode::Colors144).unwrap();
    let updates = parse_pixels("0 0 正红 1 1 彩虹").unwrap();
    let err = canvas.paint(&updates, BrushSize::One).unwrap_err();
    assert!(err.to_string().contains("未知颜色"));

    let png = canvas.encode_png_8x().unwrap();
    let img = image::load_from_memory(&png).unwrap().to_rgb8();
    assert_eq!(
        img.get_pixel(0, 0),
        &image::Rgb(PaletteMode::Colors144.white_rgb())
    );
}

#[test]
fn parsed_string_paints_pixels() {
    let mut canvas = Canvas::new(4, 4, PaletteMode::Colors144).unwrap();
    let updates = parse_pixels("0 0 正红\n1 2 纯黑").unwrap();
    assert_eq!(canvas.paint(&updates, BrushSize::One).unwrap(), 2);
    let png = canvas.encode_png_8x().unwrap();
    let img = image::load_from_memory(&png).unwrap().to_rgb8();
    assert_eq!(img.get_pixel(0, 0), &image::Rgb([0xE7, 0x00, 0x2F]));
    assert_eq!(img.get_pixel(8, 16), &image::Rgb([0, 0, 0]));
}

#[test]
fn parsed_string_paints_with_brush_two() {
    let mut canvas = Canvas::new(8, 8, PaletteMode::Colors144).unwrap();
    let updates = parse_pixels("0 0 正红\n2 0 纯黑").unwrap();
    assert_eq!(canvas.paint(&updates, BrushSize::Two).unwrap(), 8);
    let png = canvas.encode_png_8x().unwrap();
    let img = image::load_from_memory(&png).unwrap().to_rgb8();
    assert_eq!(img.get_pixel(8, 8), &image::Rgb([0xE7, 0x00, 0x2F]));
    assert_eq!(img.get_pixel(16, 0), &image::Rgb([0, 0, 0]));
    assert_eq!(
        img.get_pixel(32, 0),
        &image::Rgb(PaletteMode::Colors144.white_rgb())
    );
}

fn response_png(result: &Reply) -> Vec<u8> {
    match result {
        Reply::Success { images, text } if images.len() == 1 => {
            assert!(!text.is_empty());
            images[0].clone()
        }
        other => panic!("expected an image reply, got {other:?}"),
    }
}

fn is_tool_error(result: &Reply) -> bool {
    matches!(result, Reply::ToolError { .. })
}

fn create(session: &mut Session) -> Reply {
    session.create_canvas(CreateCanvasRequest {
        width: 4,
        height: 4,
        palette: Some("24".into()),
        background: None,
    })
}

fn current_png(session: &Session) -> Vec<u8> {
    session.canvas().unwrap().encode_png_8x().unwrap()
}

#[test]
fn shape_tools_draw_in_one_call() {
    let mut session = Session::new();
    create(&mut session);
    let lined = session.draw_line(DrawLineRequest {
        x0: 0,
        y0: 0,
        x1: 3,
        y1: 0,
        color: "黑色".into(),
        brush: Some(1),
    });
    assert!(!is_tool_error(&lined));
    let filled = session.draw_rect(DrawRectRequest {
        x0: 0,
        y0: 1,
        x1: 3,
        y1: 3,
        color: "红色".into(),
        fill: true,
        brush: None,
    });
    assert!(!is_tool_error(&filled));
    let png = response_png(&filled);
    let img = image::load_from_memory(&png).unwrap().to_rgb8();
    assert_eq!(img.get_pixel(0, 0), &image::Rgb([0, 0, 0]));
    assert_eq!(img.get_pixel(8, 8), &image::Rgb([0xD8, 0x01, 0x27]));

    let seed = session.flood_fill(FloodFillRequest {
        x: 0,
        y: 0,
        color: "黄色".into(),
    });
    assert!(!is_tool_error(&seed));
    let png = response_png(&seed);
    let img = image::load_from_memory(&png).unwrap().to_rgb8();
    assert_eq!(img.get_pixel(0, 0), &image::Rgb([0xFF, 0xE9, 0x53]));
}

#[test]
fn uncreated_session_refuses_drawing_and_saving() {
    let mut session = Session::new();
    let result = session.draw_pixels(DrawPixelsRequest {
        pixels: "0 0 H2".into(),
        brush: None,
    });
    assert!(is_tool_error(&result));
    let result = session.prepare_save(SaveImageRequest { filename: None, output: None }, 1);
    assert!(matches!(result, Err(Reply::ToolError { .. })));
    assert!(session.canvas().is_none());
}

#[test]
fn invalid_create_retains_canvas_and_palette() {
    let mut session = Session::new();
    let expected = response_png(&create(&mut session));
    for (width, height, palette) in [(0, 4, "144"), (4, 129, "221"), (4, 4, "bad")] {
        let result = session.create_canvas(CreateCanvasRequest {
            width,
            height,
            palette: Some(palette.into()),
            background: None,
        });
        assert!(is_tool_error(&result));
        let canvas = session.canvas().unwrap();
        assert_eq!(canvas.mode(), PaletteMode::Colors24);
        assert_eq!(canvas.encode_png_8x().unwrap(), expected);
    }
}

#[test]
fn invalid_paint_is_atomic_including_brush_and_limits() {
    let mut session = Session::new();
    let expected = response_png(&create(&mut session));
    for (pixels, brush) in [
        ("0 0 F5 2 2 invalid".into(), Some(2)),
        ("0 0 F5 4 0 H7".into(), Some(2)),
        ("0 0 F5 1 0 H7".into(), Some(2)),
        ("0 0 F5".into(), Some(3)),
        ("0 0 F5 1".into(), None),
        ("0 0 正红".into(), None),
        (" ".repeat(MAX_PIXEL_BYTES + 1), None),
        ("0 0 F5 ".repeat(MAX_STAMPS + 1), None),
    ] {
        let result = session.draw_pixels(DrawPixelsRequest { pixels, brush });
        assert!(is_tool_error(&result));
        assert_eq!(current_png(&session), expected);
    }
}

#[test]
fn session_palette_lock_image_response_and_independent_instances() {
    let mut first = Session::new();
    let mut second = Session::new();
    let initial = response_png(&create(&mut first));
    assert_eq!(response_png(&create(&mut second)), initial);
    let listed = first.list_colors(ListColorsRequest {
        palette: Some("invalid".into()),
    });
    match &listed {
        Reply::Success { text, images } if images.is_empty() => assert_eq!(
            text,
            &format!(
                "当前图纸已锁定以下色表。\n{}",
                format_list(PaletteMode::Colors24)
            )
        ),
        other => panic!("unexpected reply {other:?}"),
    }
    let painted = first.draw_pixels(DrawPixelsRequest {
        pixels: "0 0 H7".into(),
        brush: Some(2),
    });
    let png = response_png(&painted);
    let image = image::load_from_memory(&png).unwrap().to_rgb8();
    assert_eq!(image.dimensions(), (32, 32));
    assert_eq!(image.get_pixel(15, 15), &image::Rgb([0, 0, 0]));
    assert_eq!(
        image.get_pixel(16, 16),
        &image::Rgb(PaletteMode::Colors24.white_rgb())
    );
    assert_ne!(png, initial);
    assert_eq!(current_png(&second), initial);
}

#[test]
fn replies_carry_exact_messages() {
    let mut session = Session::new();
    match create(&mut session) {
        Reply::Success { text, images } if images.len() == 1 => assert_eq!(
            text,
            "已创建 4x4 像素图纸，底色为白色，已锁定 24 色模式。直接用 draw_line / draw_rect / draw_triangle / draw_circle / draw_ellipse / flood_fill / draw_pixels 画出图形；需要查色时再 list_colors。画完可查看返回的预览图，再继续修改和调整。绘制中途不能切换色表。"
        ),
        other => panic!("unexpected reply {other:?}"),
    }
    match session.draw_pixels(DrawPixelsRequest {
        pixels: "0 0 H7 2 2 红色".into(),
        brush: Some(2),
    }) {
        Reply::Success { text, .. } => {
            assert_eq!(text, "已绘制 8 个像素（笔刷 2，2 个落点），当前图纸 4x4。")
        }
        other => panic!("unexpected reply {other:?}"),
    }
    match session.draw_line(DrawLineRequest {
        x0: 0,
        y0: 3,
        x1: 3,
        y1: 3,
        color: "黑色".into(),
        brush: None,
    }) {
        Reply::Success { text, .. } => assert_eq!(text, "已绘制 4 个像素，当前图纸 4x4。"),
        other => panic!("unexpected reply {other:?}"),
    }
    match session.draw_line(DrawLineRequest {
        x0: 0,
        y0: 4,
        x1: 3,
        y1: 3,
        color: "黑色".into(),
        brush: None,
    }) {
        Reply::ToolError { text } => assert_eq!(text, "坐标越界：(0, 4) 不在 0..4 x 0..4 范围内"),
        other => panic!("unexpected reply {other:?}"),
    }
    match session.draw_circle(DrawCircleRequest {
        cx: 1,
        cy: 1,
        radius: 1,
        color: "黑色".into(),
        fill: false,
        brush: Some(5),
    }) {
        Reply::ToolError { text } => assert_eq!(text, "笔刷大小无效：5。只允许 1、2、4、8。"),
        other => panic!("unexpected reply {other:?}"),
    }
}

#[test]
fn drawing_without_canvas_names_create_canvas() {
    let mut session = Session::new();
    let replies = vec![
        session.draw_triangle(DrawTriangleRequest {
            x0: 0,
            y0: 0,
            x1: 1,
            y1: 0,
            x2: 0,
            y2: 1,
            color: "黑色".into(),
            fill: true,
            brush: None,
        }),
        session.draw_ellipse(
            DrawEllipseRequest {
                cx: 1,
                cy: 1,
                rx: 1,
                ry: 1,
                color: "黑色".into(),
                fill: false,
                brush: None,
            },
            &[(0, 1), (2, 1)],
        ),
        session.flood_fill(FloodFillRequest {
            x: 0,
            y: 0,
            color: "黑色".into(),
        }),
    ];
    for reply in replies {
        match reply {
            Reply::ToolError { text } => assert_eq!(text, "尚未创建图纸。请先调用 create_canvas。"),
            other => panic!("unexpected reply {other:?}"),
        }
    }
}

#[test]
fn list_colors_without_canvas_uses_the_requested_mode() {
    let session = Session::new();
    match session.list_colors(ListColorsRequest::default()) {
        Reply::Success { text, images } if images.is_empty() => assert_eq!(text, format_list(PaletteMode::Colors221)),
        other => panic!("unexpected reply {other:?}"),
    }
    match session.list_colors(ListColorsRequest {
        palette: Some("96".into()),
    }) {
        Reply::ToolError { text } => assert!(text.contains("96")),
        other => panic!("unexpected reply {other:?}"),
    }
}

#[test]
fn save_plan_names_and_reply() {
    let mut session = Session::new();
    create(&mut session);
    let plan = session
        .prepare_save(SaveImageRequest { filename: None, output: None }, 1700000000)
        .unwrap();
    assert_eq!(plan.name, "pixeldraw-1700000000.png");
    assert!(plan.autogenerated);
    assert_eq!(plan.files, vec![current_png(&session)]);
    let named = session
        .prepare_save(
            SaveImageRequest {
                filename: Some("demo".into()),
                output: None,
            },
            1,
        )
        .unwrap();
    assert_eq!(named.name, "demo.png");
    assert!(!named.autogenerated);
    for bad in ["", "../escape.png", r"..\escape.png", "NUL.png"] {
        let result = session.prepare_save(
            SaveImageRequest {
                filename: Some(bad.into()),
                output: None,
            },
            1,
        );
        assert!(matches!(result, Err(Reply::ToolError { .. })));
    }
    match saved_reply(named, &vec!["out/demo.png".to_string()]) {
        Reply::Success { text, images } if images.len() == 1 => {
            assert_eq!(text, "已保存 4x4 像素图（8 倍）到 out/demo.png")
        }
        other => panic!("unexpected reply {other:?}"),
    }
}

#[test]
fn save_retries_are_bounded() {
    assert_eq!(timestamp_filename(42), "pixeldraw-42.png");
    assert_eq!(save_attempts(true), MAX_SAVE_SUFFIX);
    assert_eq!(save_attempts(false), 0);
    assert_eq!(save_candidate("pixeldraw-42.png", 0), "pixeldraw-42.png");
    assert_eq!(save_candidate("pixeldraw-42.png", 1), "pixeldraw-42-1.png");
    assert_eq!(save_candidate("pixeldraw-42.png", 100), "pixeldraw-42-100.png");
    assert_eq!(next_suffix(true, 0), Some(1));
    assert_eq!(next_suffix(true, 99), Some(100));
    assert_eq!(next_suffix(true, 100), None);
    assert_eq!(next_suffix(false, 0), None);
}

#[test]
fn parse_pixels_reports_each_error() {
    assert_eq!(
        parse_pixels("0 0 正红 1").unwrap_err(),
        "像素字符串格式无效：应为「x y 颜色」三元组（可用空格或换行分隔），当前有 4 个词，不是 3 的倍数。"
    );
    assert_eq!(
        parse_pixels("a 0 正红").unwrap_err(),
        "无效的 X 坐标「a」，必须是非负整数。"
    );
    assert_eq!(
        parse_pixels("0 -1 正红").unwrap_err(),
        "无效的 Y 坐标「-1」，必须是非负整数。"
    );
    assert_eq!(
        parse_pixels(&" ".repeat(MAX_PIXEL_BYTES + 1)).unwrap_err(),
        "像素字符串不能超过 1 MiB（1048576 字节）"
    );
    assert_eq!(
        parse_pixels(&"0 0 H2 ".repeat(MAX_STAMPS + 1)).unwrap_err(),
        "每次最多允许 65536 个落点"
    );
    assert_eq!(
        parse_pixels("+7 4294967295 H2").unwrap(),
        vec![PixelUpdate {
            x: 7,
            y: 4294967295,
            color: "H2".into()
        }]
    );
    assert!(parse_pixels("4294967296 0 H2").is_err());
}

#[test]
fn filename_errors_have_their_messages() {
    assert_eq!(sanitize_filename("cat.").unwrap_err(), "文件名无效");
    assert_eq!(
        sanitize_filename("a b.png").unwrap_err(),
        "文件名只能包含字母、数字、点、下划线和连字符"
    );
    assert_eq!(
        sanitize_filename("aux.tar.png").unwrap_err(),
        "文件名不能使用 Windows 设备名"
    );
    assert_eq!(
        sanitize_filename(&"a".repeat(197)).unwrap_err(),
        "文件名补全 .png 后不能超过 200 字节"
    );
}

#[test]
fn empty_background_starts_without_beads() {
    let mut session = Session::new();
    match session.create_canvas(CreateCanvasRequest {
        width: 2,
        height: 1,
        palette: Some("144".into()),
        background: Some(" empty ".into()),
    }) {
        Reply::Success { text, images } if images.len() == 1 => assert!(text.starts_with("已创建 2x1 像素图纸，格子为空，已锁定 144 色模式。")),
        other => panic!("unexpected reply {other:?}"),
    }
    let canvas = session.canvas().unwrap();
    assert_eq!(canvas.codes(), vec![None, None]);
    let png = canvas.encode_png_8x().unwrap();
    let img = image::load_from_memory(&png).unwrap().to_rgba8();
    assert_eq!(img.get_pixel(0, 0).0, [0, 0, 0, 0]);
    match session.create_canvas(CreateCanvasRequest {
        width: 2,
        height: 2,
        palette: None,
        background: Some("black".into()),
    }) {
        Reply::ToolError { text } => {
            assert_eq!(text, "背景参数无效：「black」。请使用 \"white\" 或 \"empty\"。")
        }
        other => panic!("unexpected reply {other:?}"),
    }
    assert_eq!(session.canvas().unwrap().width(), 2);
    assert_eq!(session.canvas().unwrap().height(), 1);
}

fn batch_session() -> Session {
    let mut session = Session::new();
    session.create_canvas(CreateCanvasRequest {
        width: 4,
        height: 4,
        palette: Some("24".into()),
        background: None,
    });
    session
}

#[test]
fn draw_batch_applies_steps_in_order_with_one_preview() {
    let mut batched = batch_session();
    let reply = batched.draw_batch(DrawBatchRequest {
        steps: vec![
            DrawStep::Rect(DrawRectRequest {
                x0: 0,
                y0: 0,
                x1: 3,
                y1: 3,
                color: "红色".into(),
                fill: true,
                brush: None,
            }),
            DrawStep::Pixels(DrawPixelsRequest {
                pixels: "1 1 黑色".into(),
                brush: None,
            }),
            DrawStep::Flood(FloodFillRequest {
                x: 0,
                y: 0,
                color: "黄色".into(),
            }),
        ],
    });
    match &reply {
        Reply::Success { text, images } if images.len() == 1 => assert_eq!(text, "已执行 3 步，当前图纸 4x4。"),
        other => panic!("unexpected reply {other:?}"),
    }
    let mut single = batch_session();
    single.draw_rect(DrawRectRequest {
        x0: 0,
        y0: 0,
        x1: 3,
        y1: 3,
        color: "红色".into(),
        fill: true,
        brush: None,
    });
    single.draw_pixels(DrawPixelsRequest {
        pixels: "1 1 黑色".into(),
        brush: None,
    });
    single.flood_fill(FloodFillRequest {
        x: 0,
        y: 0,
        color: "黄色".into(),
    });
    assert_eq!(
        batched.canvas().unwrap().codes_index(),
        single.canvas().unwrap().codes_index()
    );
    assert_eq!(response_png(&reply), current_png(&single));
}

#[test]
fn draw_batch_is_all_or_nothing() {
    let mut session = batch_session();
    let before = current_png(&session);
    let reply = session.draw_batch(DrawBatchRequest {
        steps: vec![
            DrawStep::Line(DrawLineRequest {
                x0: 0,
                y0: 0,
                x1: 3,
                y1: 0,
                color: "黑色".into(),
                brush: None,
            }),
            DrawStep::Circle(DrawCircleRequest {
                cx: 9,
                cy: 1,
                radius: 1,
                color: "黑色".into(),
                fill: true,
                brush: None,
            }),
            DrawStep::Ellipse(
                DrawEllipseRequest {
                    cx: 1,
                    cy: 1,
                    rx: 1,
                    ry: 1,
                    color: "黑色".into(),
                    fill: false,
                    brush: None,
                },
                vec![(0, 1), (2, 1)],
            ),
        ],
    });
    match reply {
        Reply::ToolError { text } => assert_eq!(
            text,
            "第 2 步失败，整批未绘制：坐标越界：(9, 1) 不在 0..4 x 0..4 范围内"
        ),
        other => panic!("unexpected reply {other:?}"),
    }
    assert_eq!(current_png(&session), before);
    let reply = session.draw_batch(DrawBatchRequest {
        steps: vec![DrawStep::Pixels(DrawPixelsRequest {
            pixels: "0 0".into(),
            brush: None,
        })],
    });
    match reply {
        Reply::ToolError { text } => assert!(text.starts_with("第 1 步失败，整批未绘制：像素字符串格式无效")),
        other => panic!("unexpected reply {other:?}"),
    }
    assert_eq!(current_png(&session), before);
    let mut none = Session::new();
    assert!(is_tool_error(&none.draw_batch(DrawBatchRequest { steps: vec![] })));
}

#[test]
fn save_exports_pattern_and_both() {
    let mut session = Session::new();
    create(&mut session);
    let chart = encode_png(session.canvas().unwrap()).unwrap();
    let pattern = session
        .prepare_save(
            SaveImageRequest {
                filename: Some("cat".into()),
                output: Some("pattern".into()),
            },
            1,
        )
        .unwrap();
    assert_eq!(pattern.kind, ExportKind::Pattern);
    assert_eq!(pattern.files, vec![chart.clone()]);
    match saved_reply(pattern, &vec!["out/cat.png".to_string()]) {
        Reply::Success { text, images } => {
            assert_eq!(text, "已保存 4x4 豆图到 out/cat.png");
            assert_eq!(images, vec![chart.clone()]);
        }
        other => panic!("unexpected reply {other:?}"),
    }
    let both = session
        .prepare_save(
            SaveImageRequest {
                filename: Some("cat.png".into()),
                output: Some(" both".into()),
            },
            1,
        )
        .unwrap();
    assert_eq!(both.kind, ExportKind::Both);
    assert_eq!(both.files, vec![current_png(&session), chart.clone()]);
    assert_eq!(pattern_file_name(&both.name), "cat-pattern.png");
    match saved_reply(both, &vec!["o/cat.png".to_string(), "o/cat-pattern.png".to_string()]) {
        Reply::Success { text, images } => {
            assert_eq!(text, "已保存 4x4 像素图（8 倍）到 o/cat.png，豆图到 o/cat-pattern.png");
            assert_eq!(images.len(), 2);
        }
        other => panic!("unexpected reply {other:?}"),
    }
    let long = session.prepare_save(
        SaveImageRequest {
            filename: Some("a".repeat(190)),
            output: Some("both".into()),
        },
        1,
    );
    match long {
        Err(Reply::ToolError { text }) => assert_eq!(text, "文件名补全 -pattern.png 后不能超过 200 字节"),
        other => panic!("unexpected result {other:?}"),
    }
    assert!(session
        .prepare_save(
            SaveImageRequest {
                filename: Some("a".repeat(190)),
                output: Some("pixel".into()),
            },
            1,
        )
        .is_ok());
    match session.prepare_save(
        SaveImageRequest {
            filename: None,
            output: Some("svg".into()),
        },
        1,
    ) {
        Err(Reply::ToolError { text }) => {
            assert_eq!(text, "输出参数无效：「svg」。请使用 \"pixel\"、\"pattern\" 或 \"both\"。")
        }
        other => panic!("unexpected result {other:?}"),
    }
}
