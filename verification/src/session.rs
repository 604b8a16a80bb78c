//! The tool-level session of the drawing server: one canvas, the drawing
//! tools, atomic drawing batches, and the replies the tools give.
use vstd::prelude::*;

use crate::canvas::{
    brush_n, canvas_ok, checked_result, error_text, flood_result, paint_result, parse_brush,
    point_error, preview_png, rview, shape_result, triples_of, BrushSize, Canvas, CanvasError,
    CanvasView, ErrorView, Outcome, MAX_SIZE,
};
use crate::palette::{color_index, format_list, list_text, mode_str, parse_mode, PaletteMode};
use crate::pattern::{chart_png, encode_png};
use crate::server::{
    background_of, byte_len, export_of, opt_string, parse_background, parse_export,
    parse_pixels, parse_pixels_spec, pattern_file, pattern_file_name, pattern_name_too_long,
    sanitize_filename, sanitize_spec, timestamp_filename, timestamp_name, CreateCanvasRequest,
    DrawBatchRequest, DrawCircleRequest, DrawEllipseRequest, DrawLineRequest, DrawPixelsRequest,
    DrawRectRequest, DrawStep, DrawTriangleRequest, ExportKind, FloodFillRequest,
    ListColorsRequest, SaveImageRequest,
};
use crate::shapes::{
    circle_fill_spec, circle_stroke_spec, ellipse_fill_spec, ellipse_fits, line_spec, rect_fill_spec,
    rect_stroke_spec, span_fits, triangle_fill_spec, triangle_stroke_spec,
};
use crate::text::{chars_of, decimal, push_decimal, push_str, string_of};

verus! {

// ---------------------------------------------------------------------------
// Replies
// ---------------------------------------------------------------------------
/// What a tool answers.
#[derive(Debug)]
pub enum Reply {
    /// The tool did its work: a message and the PNG images it shows, such
    /// as the 8x preview of the canvas.
    Success { text: String, images: Vec<Vec<u8>> },
    /// The request was refused; the canvas is as it was.
    ToolError { text: String },
}

pub enum ReplyView {
    Success { text: Seq<char>, images: Seq<Seq<u8>> },
    ToolError { text: Seq<char> },
}

impl View for Reply {
    type V = ReplyView;

    open spec fn view(&self) -> ReplyView {
        match self {
            Reply::Success { text, images } => ReplyView::Success {
                text: text@,
                images: images_view(images@),
            },
            Reply::ToolError { text } => ReplyView::ToolError { text: text@ },
        }
    }
}

/// The bytes of each image.
pub open spec fn images_view(images: Seq<Vec<u8>>) -> Seq<Seq<u8>> {
    images.map_values(|p: Vec<u8>| p@)
}

fn one_image(png: Vec<u8>) -> (v: Vec<Vec<u8>>)
    ensures
        images_view(v@) == seq![png@],
{
    let ghost b = png@;
    let mut v: Vec<Vec<u8>> = Vec::new();
    v.push(png);
    assert(images_view(v@) =~= seq![b]);
    v
}

fn no_images() -> (v: Vec<Vec<u8>>)
    ensures
        images_view(v@) == Seq::<Seq<u8>>::empty(),
{
    let v: Vec<Vec<u8>> = Vec::new();
    assert(images_view(v@) =~= Seq::<Seq<u8>>::empty());
    v
}

pub open spec fn no_canvas_text() -> Seq<char> {
    "尚未创建图纸。请先调用 create_canvas。"@
}

pub open spec fn no_canvas_reply() -> ReplyView {
    ReplyView::ToolError { text: no_canvas_text() }
}

pub open spec fn locked_prefix() -> Seq<char> {
    "当前图纸已锁定以下色表。\n"@
}

/// How the creation message describes the background.
pub open spec fn background_phrase(empty: bool) -> Seq<char> {
    if empty {
        "格子为空"@
    } else {
        "底色为白色"@
    }
}

pub open spec fn created_text(w: u32, h: u32, mode: PaletteMode, empty: bool) -> Seq<char> {
    "已创建 "@ + decimal(w as nat) + "x"@ + decimal(h as nat) + " 像素图纸，"@ + background_phrase(empty)
        + "，已锁定 "@ + mode_str(mode)@
        + " 色模式。直接用 draw_line / draw_rect / draw_triangle / draw_circle / draw_ellipse / flood_fill / draw_pixels 画出图形；需要查色时再 list_colors。画完可查看返回的预览图，再继续修改和调整。绘制中途不能切换色表。"@
}

pub open spec fn drew_pixels_text(count: nat, n: nat, stamps: nat, w: u32, h: u32) -> Seq<char> {
    "已绘制 "@ + decimal(count) + " 个像素（笔刷 "@ + decimal(n) + "，"@ + decimal(stamps)
        + " 个落点），当前图纸 "@ + decimal(w as nat) + "x"@ + decimal(h as nat) + "。"@
}

pub open spec fn drew_text(count: nat, w: u32, h: u32) -> Seq<char> {
    "已绘制 "@ + decimal(count) + " 个像素，当前图纸 "@ + decimal(w as nat) + "x"@ + decimal(
        h as nat,
    ) + "。"@
}

/// The message after a save: where each exported file went.
pub open spec fn saved_text(kind: ExportKind, w: u32, h: u32, paths: Seq<Seq<char>>) -> Seq<char> {
    let head = "已保存 "@ + decimal(w as nat) + "x"@ + decimal(h as nat);
    match kind {
        ExportKind::Pixel => head + " 像素图（8 倍）到 "@ + paths[0],
        ExportKind::Pattern => head + " 豆图到 "@ + paths[0],
        ExportKind::Both => head + " 像素图（8 倍）到 "@ + paths[0] + if paths.len() > 1 {
            "，豆图到 "@ + paths[1]
        } else {
            Seq::empty()
        },
    }
}

/// The files a save writes for a canvas, in order.
pub open spec fn export_files(v: CanvasView, kind: ExportKind) -> Seq<Seq<u8>> {
    match kind {
        ExportKind::Pixel => seq![preview_png(v)],
        ExportKind::Pattern => seq![chart_png(v)],
        ExportKind::Both => seq![preview_png(v), chart_png(v)],
    }
}

/// The reply that shows the canvas `v` under `text`: the message with the
/// 8x preview.
pub open spec fn preview_reply(r: ReplyView, text: Seq<char>, v: CanvasView) -> bool {
    r == ReplyView::Success { text, images: seq![preview_png(v)] }
}

/// The reply to a drawing operation with outcome `o`.
pub open spec fn op_reply(r: ReplyView, o: Outcome) -> bool {
    match o.0 {
        Ok(count) => preview_reply(r, drew_text(count as nat, o.1.width, o.1.height), o.1),
        Err(e) => r == ReplyView::ToolError { text: error_text(e) },
    }
}

/// A drawing tool: refused without a canvas, refused for a bad brush, and
/// otherwise the operation `op` with the brush's size decides the new canvas
/// and the reply.
pub open spec fn brushed_tool(
    before: Option<CanvasView>,
    after: Option<CanvasView>,
    r: ReplyView,
    brush: Option<u32>,
    op: spec_fn(CanvasView, int) -> Outcome,
) -> bool {
    match before {
        None => r == no_canvas_reply() && after == before,
        Some(v) => match parse_brush(brush) {
            Err(e) => r == ReplyView::ToolError { text: error_text(e) } && after == before,
            Ok(b) => {
                let o = op(v, brush_n(b) as int);
                after == Some(o.1) && op_reply(r, o)
            },
        },
    }
}

/// A new canvas: every cell an H2 white bead, or every cell empty.
pub open spec fn fresh_canvas(w: u32, h: u32, mode: PaletteMode, empty: bool) -> CanvasView {
    CanvasView {
        width: w,
        height: h,
        mode,
        cells: Seq::new(
            (w * h) as nat,
            |i: int|
                if empty {
                    None
                } else {
                    Some(color_index(mode, "H2"@)->0 as usize)
                },
        ),
    }
}

/// The name a save tries first: the checked requested name, or the timestamped one.
pub open spec fn save_name(filename: Option<Seq<char>>, now_secs: u64) -> Result<Seq<char>, Seq<char>> {
    match filename {
        Some(f) => sanitize_spec(f, byte_len(f)),
        None => Ok(timestamp_name(now_secs)),
    }
}

fn no_canvas() -> (r: Reply)
    ensures
        r@ == no_canvas_reply(),
{
    Reply::ToolError { text: string_of(&chars_of("尚未创建图纸。请先调用 create_canvas。")) }
}

/// Show the canvas under `text`.
fn preview(canvas: &Canvas, text: String) -> (r: Reply)
    requires
        canvas.wf(),
    ensures
        preview_reply(r@, text@, canvas@),
{
    let png = canvas.encode_png_8x().unwrap();
    Reply::Success { text, images: one_image(png) }
}

fn drew_message(count: usize, w: u32, h: u32) -> (s: String)
    ensures
        s@ == drew_text(count as nat, w, h),
{
    let mut s = String::new();
    push_str(&mut s, "已绘制 ");
    push_decimal(&mut s, count as u64);
    push_str(&mut s, " 个像素，当前图纸 ");
    push_decimal(&mut s, w as u64);
    push_str(&mut s, "x");
    push_decimal(&mut s, h as u64);
    push_str(&mut s, "。");
    assert(s@ =~= drew_text(count as nat, w, h));
    s
}

/// The reply to a drawing operation that left `canvas` and gave `res`.
fn finish_op(canvas: &Canvas, res: Result<usize, CanvasError>) -> (r: Reply)
    requires
        canvas.wf(),
    ensures
        op_reply(r@, (rview(res), canvas@)),
{
    match res {
        Ok(count) => preview(canvas, drew_message(count, canvas.width(), canvas.height())),
        Err(e) => Reply::ToolError { text: e.to_string() },
    }
}

// ---------------------------------------------------------------------------
// The session
// ---------------------------------------------------------------------------
/// The state behind the tools: at most one canvas, created by
/// `create_canvas` and changed by the drawing tools.
pub struct Session {
    canvas: Option<Canvas>,
}

impl View for Session {
    type V = Option<CanvasView>;

    closed spec fn view(&self) -> Option<CanvasView> {
        match self.canvas {
            Some(c) => Some(c@),
            None => None,
        }
    }
}

/// What a save needs from the session: the name to try first, whether it was
/// generated, what is exported, the PNG files in order and the canvas size.
#[derive(Debug)]
pub struct SavePlan {
    pub name: String,
    pub autogenerated: bool,
    pub kind: ExportKind,
    pub files: Vec<Vec<u8>>,
    pub width: u32,
    pub height: u32,
}

impl Session {
    /// A session's canvas, when it has one, is well formed.
    pub open spec fn wf(&self) -> bool {
        self@ matches Some(v) ==> canvas_ok(v)
    }

    pub fn new() -> (s: Self)
        ensures
            s@ is None,
            s.wf(),
    {
        Session { canvas: None }
    }

    /// The current canvas.
    pub fn canvas(&self) -> (c: Option<&Canvas>)
        ensures
            match c {
                Some(c) => self@ == Some(c@),
                None => self@ is None,
            },
    {
        self.canvas.as_ref()
    }

    /// The brush of a drawing request, once a canvas exists.
    fn brush_for(&self, brush: Option<u32>) -> (r: Result<BrushSize, Reply>)
        ensures
            match self@ {
                None => r matches Err(rep) && rep@ == no_canvas_reply(),
                Some(v) => match parse_brush(brush) {
                    Ok(b) => r == Ok::<BrushSize, Reply>(b),
                    Err(e) => r matches Err(rep) && rep@ == (ReplyView::ToolError { text: error_text(e) }),
                },
            },
    {
        if self.canvas.is_none() {
            return Err(no_canvas());
        }
        match BrushSize::parse(brush) {
            Ok(b) => Ok(b),
            Err(e) => Err(Reply::ToolError { text: e.to_string() }),
        }
    }

    /// A new canvas of the requested size, palette and background replaces the
    /// current one; a bad palette, background or size keeps the current canvas.
    pub fn create_canvas(&mut self, req: CreateCanvasRequest) -> (r: Reply)
        requires
            old(self).wf(),
        ensures
            final(self).wf(),
            match parse_mode(opt_string(req.palette)) {
                Err(msg) => r@ == (ReplyView::ToolError { text: msg }) && final(self)@ == old(self)@,
                Ok(mode) => match parse_background(opt_string(req.background)) {
                    Err(msg) => r@ == (ReplyView::ToolError { text: msg }) && final(self)@ == old(self)@,
                    Ok(empty) => if 1 <= req.width <= MAX_SIZE && 1 <= req.height <= MAX_SIZE {
                        let v = fresh_canvas(req.width, req.height, mode, empty);
                        final(self)@ == Some(v) && preview_reply(
                            r@,
                            created_text(req.width, req.height, mode, empty),
                            v,
                        )
                    } else {
                        r@ == (ReplyView::ToolError {
                            text: error_text(ErrorView::InvalidSize { width: req.width, height: req.height }),
                        }) && final(self)@ == old(self)@
                    },
                },
            },
    {
        let parsed = match &req.palette {
            Some(p) => PaletteMode::parse(Some(p.as_str())),
            None => PaletteMode::parse(None),
        };
        let mode = match parsed {
            Ok(mode) => mode,
            Err(msg) => {
                return Reply::ToolError { text: msg };
            },
        };
        let empty = match background_of(&req.background) {
            Ok(e) => e,
            Err(msg) => {
                return Reply::ToolError { text: msg };
            },
        };
        let made = if empty {
            Canvas::new_empty(req.width, req.height, mode)
        } else {
            Canvas::new(req.width, req.height, mode)
        };
        let canvas = match made {
            Ok(c) => c,
            Err(e) => {
                return Reply::ToolError { text: e.to_string() };
            },
        };
        let mut text = String::new();
        push_str(&mut text, "已创建 ");
        push_decimal(&mut text, req.width as u64);
        push_str(&mut text, "x");
        push_decimal(&mut text, req.height as u64);
        push_str(&mut text, " 像素图纸，");
        if empty {
            push_str(&mut text, "格子为空");
        } else {
            push_str(&mut text, "底色为白色");
        }
        push_str(&mut text, "，已锁定 ");
        push_str(&mut text, mode.as_str());
        push_str(
            &mut text,
            " 色模式。直接用 draw_line / draw_rect / draw_triangle / draw_circle / draw_ellipse / flood_fill / draw_pixels 画出图形；需要查色时再 list_colors。画完可查看返回的预览图，再继续修改和调整。绘制中途不能切换色表。",
        );
        assert(text@ =~= created_text(req.width, req.height, mode, empty));
        assert(canvas@ =~= fresh_canvas(req.width, req.height, mode, empty));
        let reply = preview(&canvas, text);
        self.canvas = Some(canvas);
        reply
    }

    /// The color list: the locked palette when a canvas exists, else the
    /// requested one.
    pub fn list_colors(&self, req: ListColorsRequest) -> (r: Reply)
        ensures
            match self@ {
                Some(v) => r@ == (ReplyView::Success {
                    text: locked_prefix() + list_text(v.mode),
                    images: Seq::empty(),
                }),
                None => match parse_mode(opt_string(req.palette)) {
                    Ok(mode) => r@ == (ReplyView::Success { text: list_text(mode), images: Seq::empty() }),
                    Err(msg) => r@ == (ReplyView::ToolError { text: msg }),
                },
            },
    {
        match &self.canvas {
            Some(c) => {
                let mut text = String::new();
                push_str(&mut text, "当前图纸已锁定以下色表。\n");
                let list = format_list(c.mode());
                push_str(&mut text, list.as_str());
                Reply::Success { text, images: no_images() }
            },
            None => {
                let parsed = match &req.palette {
                    Some(p) => PaletteMode::parse(Some(p.as_str())),
                    None => PaletteMode::parse(None),
                };
                match parsed {
                    Ok(mode) => Reply::Success { text: format_list(mode), images: no_images() },
                    Err(msg) => Reply::ToolError { text: msg },
                }
            },
        }
    }

    /// Paint a pixel batch. The batch text is checked first, then the brush,
    /// then that a canvas exists; any invalid stamp rejects the whole batch.
    pub fn draw_pixels(&mut self, req: DrawPixelsRequest) -> (r: Reply)
        requires
            old(self).wf(),
        ensures
            final(self).wf(),
            match parse_pixels_spec(req.pixels@, byte_len(req.pixels@)) {
                Err(msg) => r@ == (ReplyView::ToolError { text: msg }) && final(self)@ == old(self)@,
                Ok(ts) => match parse_brush(req.brush) {
                    Err(e) => r@ == (ReplyView::ToolError { text: error_text(e) }) && final(self)@
                        == old(self)@,
                    Ok(b) => match old(self)@ {
                        None => r@ == no_canvas_reply() && final(self)@ == old(self)@,
                        Some(v) => {
                            let o = paint_result(v, ts, brush_n(b));
                            final(self)@ == Some(o.1) && match o.0 {
                                Ok(count) => preview_reply(
                                    r@,
                                    drew_pixels_text(
                                        count as nat,
                                        brush_n(b) as nat,
                                        ts.len(),
                                        v.width,
                                        v.height,
                                    ),
                                    o.1,
                                ),
                                Err(e) => r@ == (ReplyView::ToolError { text: error_text(e) }),
                            }
                        },
                    },
                },
            },
    {
        let updates = match parse_pixels(req.pixels.as_str()) {
            Ok(us) => us,
            Err(msg) => {
                return Reply::ToolError { text: msg };
            },
        };
        let brush = match BrushSize::parse(req.brush) {
            Ok(b) => b,
            Err(e) => {
                return Reply::ToolError { text: e.to_string() };
            },
        };
        let mut canvas = match self.canvas.take() {
            Some(c) => c,
            None => {
                return no_canvas();
            },
        };
        proof {
            assert(canvas.wf());
        }
        let res = canvas.paint(updates.as_slice(), brush);
        let reply = match res {
            Ok(count) => {
                let mut text = String::new();
                push_str(&mut text, "已绘制 ");
                push_decimal(&mut text, count as u64);
                push_str(&mut text, " 个像素（笔刷 ");
                push_decimal(&mut text, brush.size() as u64);
                push_str(&mut text, "，");
                push_decimal(&mut text, updates.len() as u64);
                push_str(&mut text, " 个落点），当前图纸 ");
                push_decimal(&mut text, canvas.width() as u64);
                push_str(&mut text, "x");
                push_decimal(&mut text, canvas.height() as u64);
                push_str(&mut text, "。");
                proof {
                    assert(triples_of(updates@).len() == updates@.len());
                }
                assert(text@ =~= drew_pixels_text(
                    count as nat,
                    brush_n(brush) as nat,
                    updates@.len(),
                    canvas@.width,
                    canvas@.height,
                ));
                preview(&canvas, text)
            },
            Err(e) => Reply::ToolError { text: e.to_string() },
        };
        self.canvas = Some(canvas);
        reply
    }

    /// A straight line between two points of the canvas.
    pub fn draw_line(&mut self, req: DrawLineRequest) -> (r: Reply)
        requires
            old(self).wf(),
        ensures
            final(self).wf(),
            brushed_tool(
                old(self)@,
                final(self)@,
                r@,
                req.brush,
                |v: CanvasView, n: int|
                    checked_result(
                        v,
                        seq![(req.x0, req.y0), (req.x1, req.y1)],
                        shape_result(v, line_spec(req.x0 as int, req.y0 as int, req.x1 as int, req.y1 as int), req.color@, n),
                    ),
            ),
    {
        let brush = match self.brush_for(req.brush) {
            Ok(b) => b,
            Err(rep) => {
                return rep;
            },
        };
        let mut canvas = self.canvas.take().unwrap();
        let res = canvas.paint_line(req.x0, req.y0, req.x1, req.y1, req.color.as_str(), brush);
        let reply = finish_op(&canvas, res);
        self.canvas = Some(canvas);
        reply
    }

    /// A rectangle between two opposite corners on the canvas, filled or stroked.
    pub fn draw_rect(&mut self, req: DrawRectRequest) -> (r: Reply)
        requires
            old(self).wf(),
        ensures
            final(self).wf(),
            brushed_tool(
                old(self)@,
                final(self)@,
                r@,
                req.brush,
                |v: CanvasView, n: int|
                    checked_result(
                        v,
                        seq![(req.x0, req.y0), (req.x1, req.y1)],
                        shape_result(
                            v,
                            if req.fill {
                                rect_fill_spec(req.x0 as int, req.y0 as int, req.x1 as int, req.y1 as int)
                            } else {
                                rect_stroke_spec(req.x0 as int, req.y0 as int, req.x1 as int, req.y1 as int)
                            },
                            req.color@,
                            if req.fill { 1 } else { n },
                        ),
                    ),
            ),
    {
        let brush = match self.brush_for(req.brush) {
            Ok(b) => b,
            Err(rep) => {
                return rep;
            },
        };
        let mut canvas = self.canvas.take().unwrap();
        let res = canvas.paint_rect(req.x0, req.y0, req.x1, req.y1, req.color.as_str(), req.fill, brush);
        let reply = finish_op(&canvas, res);
        self.canvas = Some(canvas);
        reply
    }

    /// A triangle with three corners on the canvas, filled or stroked.
    pub fn draw_triangle(&mut self, req: DrawTriangleRequest) -> (r: Reply)
        requires
            old(self).wf(),
        ensures
            final(self).wf(),
            brushed_tool(
                old(self)@,
                final(self)@,
                r@,
                req.brush,
                |v: CanvasView, n: int|
                    checked_result(
                        v,
                        seq![(req.x0, req.y0), (req.x1, req.y1), (req.x2, req.y2)],
                        shape_result(
                            v,
                            if req.fill {
                                triangle_fill_spec(req.x0 as int, req.y0 as int, req.x1 as int, req.y1 as int, req.x2 as int, req.y2 as int)
                            } else {
                                triangle_stroke_spec(req.x0 as int, req.y0 as int, req.x1 as int, req.y1 as int, req.x2 as int, req.y2 as int)
                            },
                            req.color@,
                            if req.fill { 1 } else { n },
                        ),
                    ),
            ),
    {
        let brush = match self.brush_for(req.brush) {
            Ok(b) => b,
            Err(rep) => {
                return rep;
            },
        };
        let mut canvas = self.canvas.take().unwrap();
        let res = canvas.paint_triangle(
            req.x0,
            req.y0,
            req.x1,
            req.y1,
            req.x2,
            req.y2,
            req.color.as_str(),
            req.fill,
            brush,
        );
        let reply = finish_op(&canvas, res);
        self.canvas = Some(canvas);
        reply
    }

    /// A circle around a center on the canvas; the parts past the edge are clipped.
    pub fn draw_circle(&mut self, req: DrawCircleRequest) -> (r: Reply)
        requires
            old(self).wf(),
            old(self)@ matches Some(v) && point_error(v, req.cx, req.cy) is None && (req.radius as i32)
                > 0 ==> span_fits(
                req.cx as int,
                req.cy as int,
                req.radius as i32 as int,
                req.radius as i32 as int,
            ),
        ensures
            final(self).wf(),
            brushed_tool(
                old(self)@,
                final(self)@,
                r@,
                req.brush,
                |v: CanvasView, n: int|
                    checked_result(
                        v,
                        seq![(req.cx, req.cy)],
                        shape_result(
                            v,
                            if req.fill {
                                circle_fill_spec(req.cx as int, req.cy as int, req.radius as i32 as int)
                            } else {
                                circle_stroke_spec(req.cx as int, req.cy as int, req.radius as i32 as int)
                            },
                            req.color@,
                            if req.fill { 1 } else { n },
                        ),
                    ),
            ),
    {
        let brush = match self.brush_for(req.brush) {
            Ok(b) => b,
            Err(rep) => {
                return rep;
            },
        };
        let mut canvas = self.canvas.take().unwrap();
        let res = canvas.paint_circle(req.cx, req.cy, req.radius, req.color.as_str(), req.fill, brush);
        let reply = finish_op(&canvas, res);
        self.canvas = Some(canvas);
        reply
    }

    /// An ellipse around a center on the canvas. A fill is rasterized here; a
    /// stroke stamps the outline points `stroke`, rasterized by the caller.
    pub fn draw_ellipse(&mut self, req: DrawEllipseRequest, stroke: &[(i32, i32)]) -> (r: Reply)
        requires
            old(self).wf(),
            old(self)@ matches Some(v) && req.fill && point_error(v, req.cx, req.cy) is None && !((
            req.rx as i32) <= 0 && (req.ry as i32) <= 0) ==> ellipse_fits(
                req.cx as int,
                req.cy as int,
                req.rx as i32 as int,
                req.ry as i32 as int,
            ),
        ensures
            final(self).wf(),
            brushed_tool(
                old(self)@,
                final(self)@,
                r@,
                req.brush,
                |v: CanvasView, n: int|
                    checked_result(
                        v,
                        seq![(req.cx, req.cy)],
                        shape_result(
                            v,
                            if req.fill {
                                ellipse_fill_spec(req.cx as int, req.cy as int, req.rx as i32 as int, req.ry as i32 as int)
                            } else {
                                stroke@
                            },
                            req.color@,
                            if req.fill { 1 } else { n },
                        ),
                    ),
            ),
    {
        let brush = match self.brush_for(req.brush) {
            Ok(b) => b,
            Err(rep) => {
                return rep;
            },
        };
        let mut canvas = self.canvas.take().unwrap();
        let res = canvas.paint_ellipse(req.cx, req.cy, req.rx, req.ry, req.color.as_str(), req.fill, brush, stroke);
        let reply = finish_op(&canvas, res);
        self.canvas = Some(canvas);
        reply
    }

    /// Flood fill from a seed on the canvas.
    pub fn flood_fill(&mut self, req: FloodFillRequest) -> (r: Reply)
        requires
            old(self).wf(),
        ensures
            final(self).wf(),
            match old(self)@ {
                None => r@ == no_canvas_reply() && final(self)@ == old(self)@,
                Some(v) => {
                    let o = flood_result(v, req.x, req.y, req.color@);
                    final(self)@ == Some(o.1) && op_reply(r@, o)
                },
            },
    {
        let mut canvas = match self.canvas.take() {
            Some(c) => c,
            None => {
                return no_canvas();
            },
        };
        let res = canvas.flood_fill(req.x, req.y, req.color.as_str());
        let reply = finish_op(&canvas, res);
        self.canvas = Some(canvas);
        reply
    }

    /// What a save needs before the disk is touched: a canvas, a valid export
    /// kind, a valid file name (the requested one checked and completed with
    /// `.png`, or one made from the time `now_secs`) whose chart companion,
    /// when both are exported, also fits, and the PNG files.
    pub fn prepare_save(&self, req: SaveImageRequest, now_secs: u64) -> (r: Result<SavePlan, Reply>)
        requires
            self.wf(),
        ensures
            match self@ {
                None => r matches Err(rep) && rep@ == no_canvas_reply(),
                Some(v) => match parse_export(opt_string(req.output)) {
                    Err(msg) => r matches Err(rep) && rep@ == (ReplyView::ToolError { text: msg }),
                    Ok(kind) => match save_name(opt_string(req.filename), now_secs) {
                        Err(msg) => r matches Err(rep) && rep@ == (ReplyView::ToolError { text: msg }),
                        Ok(name) => if kind == ExportKind::Both && pattern_file(name).len() > 200 {
                            r matches Err(rep) && rep@ == (ReplyView::ToolError { text: pattern_name_too_long() })
                        } else {
                            r matches Ok(plan) && plan.name@ == name && plan.autogenerated == (
                            req.filename is None) && plan.kind == kind && images_view(plan.files@)
                                == export_files(v, kind) && plan.width == v.width && plan.height
                                == v.height
                        },
                    },
                },
            },
    {
        let canvas = match &self.canvas {
            Some(c) => c,
            None => {
                return Err(no_canvas());
            },
        };
        let kind = match export_of(&req.output) {
            Ok(k) => k,
            Err(msg) => {
                return Err(Reply::ToolError { text: msg });
            },
        };
        let autogenerated = req.filename.is_none();
        let name = match &req.filename {
            Some(f) => match sanitize_filename(f.as_str()) {
                Ok(n) => n,
                Err(msg) => {
                    return Err(Reply::ToolError { text: msg });
                },
            },
            None => timestamp_filename(now_secs),
        };
        if kind == ExportKind::Both {
            let companion = pattern_file_name(name.as_str());
            if companion.unicode_len() > 200 {
                return Err(Reply::ToolError {
                    text: string_of(&chars_of("文件名补全 -pattern.png 后不能超过 200 字节")),
                });
            }
        }
        let mut files: Vec<Vec<u8>> = Vec::new();
        if kind != ExportKind::Pattern {
            files.push(canvas.encode_png_8x().unwrap());
        }
        if kind != ExportKind::Pixel {
            files.push(encode_png(canvas).unwrap());
        }
        assert(images_view(files@) =~= export_files(canvas@, kind));
        Ok(SavePlan { name, autogenerated, kind, files, width: canvas.width(), height: canvas.height() })
    }
}

/// The reply after the plan's files were saved at `paths`, in order.
pub fn saved_reply(plan: SavePlan, paths: &Vec<String>) -> (r: Reply)
    requires
        paths@.len() == plan.files@.len(),
        paths@.len() >= 1,
    ensures
        r@ == (ReplyView::Success {
            text: saved_text(plan.kind, plan.width, plan.height, paths@.map_values(|p: String| p@)),
            images: images_view(plan.files@),
        }),
{
    let mut text = String::new();
    push_str(&mut text, "已保存 ");
    push_decimal(&mut text, plan.width as u64);
    push_str(&mut text, "x");
    push_decimal(&mut text, plan.height as u64);
    match plan.kind {
        ExportKind::Pixel => {
            push_str(&mut text, " 像素图（8 倍）到 ");
            push_str(&mut text, paths[0].as_str());
        },
        ExportKind::Pattern => {
            push_str(&mut text, " 豆图到 ");
            push_str(&mut text, paths[0].as_str());
        },
        ExportKind::Both => {
            push_str(&mut text, " 像素图（8 倍）到 ");
            push_str(&mut text, paths[0].as_str());
            if paths.len() > 1 {
                push_str(&mut text, "，豆图到 ");
                push_str(&mut text, paths[1].as_str());
            }
        },
    }
    let ghost ps = paths@.map_values(|p: String| p@);
    assert(ps[0] == paths@[0]@);
    assert(paths@.len() > 1 ==> ps[1] == paths@[1]@);
    assert(text@ =~= saved_text(plan.kind, plan.width, plan.height, ps));
    Reply::Success { text, images: plan.files }
}

// ---------------------------------------------------------------------------
// Laws
// ---------------------------------------------------------------------------
/// A refused drawing tool leaves the canvas as it was, whenever the drawing
/// operation itself changes nothing when it fails, as every operation of the
/// canvas does.
pub proof fn law_refused_tool_keeps_canvas(
    before: Option<CanvasView>,
    after: Option<CanvasView>,
    r: ReplyView,
    brush: Option<u32>,
    op: spec_fn(CanvasView, int) -> Outcome,
)
    requires
        brushed_tool(before, after, r, brush, op),
        r is ToolError,
        forall|v: CanvasView, n: int| (#[trigger] op(v, n)).0 is Err ==> op(v, n).1 == v,
    ensures
        after == before,
{
    if let Some(v) = before {
        if let Ok(b) = parse_brush(brush) {
            let o = op(v, brush_n(b) as int);
            assert(o.0 is Err);
        }
    }
}

// ---------------------------------------------------------------------------
// Drawing batches
// ---------------------------------------------------------------------------
/// What one step of a batch does to the canvas `v`: the same as its tool,
/// with a malformed pixel batch reported as an invalid operation.
pub open spec fn step_outcome(v: CanvasView, step: DrawStep) -> Outcome {
    match step {
        DrawStep::Pixels(q) => match parse_pixels_spec(q.pixels@, byte_len(q.pixels@)) {
            Err(m) => (Err(ErrorView::InvalidOp { message: m }), v),
            Ok(ts) => match parse_brush(q.brush) {
                Err(e) => (Err(e), v),
                Ok(b) => paint_result(v, ts, brush_n(b)),
            },
        },
        DrawStep::Line(q) => match parse_brush(q.brush) {
            Err(e) => (Err(e), v),
            Ok(b) => checked_result(
                v,
                seq![(q.x0, q.y0), (q.x1, q.y1)],
                shape_result(v, line_spec(q.x0 as int, q.y0 as int, q.x1 as int, q.y1 as int), q.color@, brush_n(b) as int),
            ),
        },
        DrawStep::Rect(q) => match parse_brush(q.brush) {
            Err(e) => (Err(e), v),
            Ok(b) => checked_result(
                v,
                seq![(q.x0, q.y0), (q.x1, q.y1)],
                shape_result(
                    v,
                    if q.fill {
                        rect_fill_spec(q.x0 as int, q.y0 as int, q.x1 as int, q.y1 as int)
                    } else {
                        rect_stroke_spec(q.x0 as int, q.y0 as int, q.x1 as int, q.y1 as int)
                    },
                    q.color@,
                    if q.fill { 1 } else { brush_n(b) as int },
                ),
            ),
        },
        DrawStep::Triangle(q) => match parse_brush(q.brush) {
            Err(e) => (Err(e), v),
            Ok(b) => checked_result(
                v,
                seq![(q.x0, q.y0), (q.x1, q.y1), (q.x2, q.y2)],
                shape_result(
                    v,
                    if q.fill {
                        triangle_fill_spec(q.x0 as int, q.y0 as int, q.x1 as int, q.y1 as int, q.x2 as int, q.y2 as int)
                    } else {
                        triangle_stroke_spec(q.x0 as int, q.y0 as int, q.x1 as int, q.y1 as int, q.x2 as int, q.y2 as int)
                    },
                    q.color@,
                    if q.fill { 1 } else { brush_n(b) as int },
                ),
            ),
        },
        DrawStep::Circle(q) => match parse_brush(q.brush) {
            Err(e) => (Err(e), v),
            Ok(b) => checked_result(
                v,
                seq![(q.cx, q.cy)],
                shape_result(
                    v,
                    if q.fill {
                        circle_fill_spec(q.cx as int, q.cy as int, q.radius as i32 as int)
                    } else {
                        circle_stroke_spec(q.cx as int, q.cy as int, q.radius as i32 as int)
                    },
                    q.color@,
                    if q.fill { 1 } else { brush_n(b) as int },
                ),
            ),
        },
        DrawStep::Ellipse(q, stroke) => match parse_brush(q.brush) {
            Err(e) => (Err(e), v),
            Ok(b) => checked_result(
                v,
                seq![(q.cx, q.cy)],
                shape_result(
                    v,
                    if q.fill {
                        ellipse_fill_spec(q.cx as int, q.cy as int, q.rx as i32 as int, q.ry as i32 as int)
                    } else {
                        stroke@
                    },
                    q.color@,
                    if q.fill { 1 } else { brush_n(b) as int },
                ),
            ),
        },
        DrawStep::Flood(q) => flood_result(v, q.x, q.y, q.color@),
    }
}

/// Whether a step's shape stays within the integer ranges its rasterizer
/// works in, on a canvas of `v`'s size.
pub open spec fn step_fits(v: CanvasView, step: DrawStep) -> bool {
    match step {
        DrawStep::Circle(q) => point_error(v, q.cx, q.cy) is None && (q.radius as i32) > 0 ==> span_fits(
            q.cx as int,
            q.cy as int,
            q.radius as i32 as int,
            q.radius as i32 as int,
        ),
        DrawStep::Ellipse(q, _) => q.fill && point_error(v, q.cx, q.cy) is None && !((q.rx as i32) <= 0
            && (q.ry as i32) <= 0) ==> ellipse_fits(q.cx as int, q.cy as int, q.rx as i32 as int, q.ry as i32 as int),
        _ => true,
    }
}

/// Running the steps in order from `v`: the first failing step, by position,
/// with its error, or none, and the canvas reached.
pub open spec fn run_steps(v: CanvasView, steps: Seq<DrawStep>) -> (Option<(int, ErrorView)>, CanvasView)
    decreases steps.len(),
{
    if steps.len() == 0 {
        (None, v)
    } else {
        let before = run_steps(v, steps.drop_last());
        match before.0 {
            Some(f) => before,
            None => {
                let o = step_outcome(before.1, steps.last());
                match o.0 {
                    Err(e) => (Some(((steps.len() - 1) as int, e)), before.1),
                    Ok(_) => (None, o.1),
                }
            },
        }
    }
}

pub open spec fn batch_failed_text(i: int, e: ErrorView) -> Seq<char> {
    "第 "@ + decimal((i + 1) as nat) + " 步失败，整批未绘制："@ + error_text(e)
}

pub open spec fn batch_done_text(n: nat, w: u32, h: u32) -> Seq<char> {
    "已执行 "@ + decimal(n) + " 步，当前图纸 "@ + decimal(w as nat) + "x"@ + decimal(h as nat) + "。"@
}

/// Run one step on the canvas.
fn run_step(canvas: &mut Canvas, step: &DrawStep) -> (r: Result<usize, CanvasError>)
    requires
        old(canvas).wf(),
        step_fits(old(canvas)@, *step),
    ensures
        final(canvas).wf(),
        (rview(r), final(canvas)@) == step_outcome(old(canvas)@, *step),
{
    match step {
        DrawStep::Pixels(q) => {
            let updates = match parse_pixels(q.pixels.as_str()) {
                Ok(us) => us,
                Err(message) => {
                    return Err(CanvasError::InvalidOp { message });
                },
            };
            let brush = BrushSize::parse(q.brush)?;
            canvas.paint(updates.as_slice(), brush)
        },
        DrawStep::Line(q) => {
            let brush = BrushSize::parse(q.brush)?;
            canvas.paint_line(q.x0, q.y0, q.x1, q.y1, q.color.as_str(), brush)
        },
        DrawStep::Rect(q) => {
            let brush = BrushSize::parse(q.brush)?;
            canvas.paint_rect(q.x0, q.y0, q.x1, q.y1, q.color.as_str(), q.fill, brush)
        },
        DrawStep::Triangle(q) => {
            let brush = BrushSize::parse(q.brush)?;
            canvas.paint_triangle(q.x0, q.y0, q.x1, q.y1, q.x2, q.y2, q.color.as_str(), q.fill, brush)
        },
        DrawStep::Circle(q) => {
            let brush = BrushSize::parse(q.brush)?;
            canvas.paint_circle(q.cx, q.cy, q.radius, q.color.as_str(), q.fill, brush)
        },
        DrawStep::Ellipse(q, stroke) => {
            let brush = BrushSize::parse(q.brush)?;
            canvas.paint_ellipse(q.cx, q.cy, q.rx, q.ry, q.color.as_str(), q.fill, brush, stroke.as_slice())
        },
        DrawStep::Flood(q) => canvas.flood_fill(q.x, q.y, q.color.as_str()),
    }
}

impl Session {
    /// Apply the steps in order on a copy of the canvas: the first failing
    /// step rejects the whole batch and the canvas stays as it was; otherwise
    /// the result replaces it and one preview shows it.
    pub fn draw_batch(&mut self, req: DrawBatchRequest) -> (r: Reply)
        requires
            old(self).wf(),
            old(self)@ matches Some(v) ==> forall|i: int|
                0 <= i < req.steps@.len() ==> step_fits(v, #[trigger] req.steps@[i]),
        ensures
            final(self).wf(),
            match old(self)@ {
                None => r@ == no_canvas_reply() && final(self)@ == old(self)@,
                Some(v) => {
                    let run = run_steps(v, req.steps@);
                    match run.0 {
                        Some(f) => r@ == (ReplyView::ToolError { text: batch_failed_text(f.0, f.1) })
                            && final(self)@ == old(self)@,
                        None => final(self)@ == Some(run.1) && preview_reply(
                            r@,
                            batch_done_text(req.steps@.len(), v.width, v.height),
                            run.1,
                        ),
                    }
                },
            },
    {
        let canvas = match &self.canvas {
            Some(c) => c,
            None => {
                return no_canvas();
            },
        };
        let ghost v = canvas@;
        let mut scratch = canvas.snapshot();
        let mut i: usize = 0;
        while i < req.steps.len()
            invariant
                self@ == old(self)@,
                self.wf(),
                old(self)@ == Some(v),
                canvas_ok(v),
                scratch.wf(),
                scratch@.width == v.width,
                scratch@.height == v.height,
                scratch@.mode == v.mode,
                i <= req.steps@.len(),
                forall|k: int| 0 <= k < req.steps@.len() ==> step_fits(v, #[trigger] req.steps@[k]),
                run_steps(v, req.steps@.take(i as int)) == (None::<(int, ErrorView)>, scratch@),
            decreases req.steps@.len() - i,
        {
            let ghost before = scratch@;
            let ghost step = req.steps@[i as int];
            assert(step_fits(v, step));
            let res = run_step(&mut scratch, &req.steps[i]);
            proof {
                let t = req.steps@.take(i + 1);
                assert(t.drop_last() =~= req.steps@.take(i as int));
                assert(t.last() == step);
            }
            match res {
                Err(e) => {
                    let mut text = String::new();
                    push_str(&mut text, "第 ");
                    push_decimal(&mut text, (i as u64) + 1);
                    push_str(&mut text, " 步失败，整批未绘制：");
                    let detail = e.to_string();
                    push_str(&mut text, detail.as_str());
                    proof {
                        lemma_run_steps_stops(v, req.steps@, i as int + 1);
                        assert(text@ =~= batch_failed_text(i as int, e@));
                    }
                    return Reply::ToolError { text };
                },
                Ok(_) => {},
            }
            i = i + 1;
        }
        assert(req.steps@.take(req.steps@.len() as int) =~= req.steps@);
        let mut text = String::new();
        push_str(&mut text, "已执行 ");
        push_decimal(&mut text, req.steps.len() as u64);
        push_str(&mut text, " 步，当前图纸 ");
        push_decimal(&mut text, scratch.width() as u64);
        push_str(&mut text, "x");
        push_decimal(&mut text, scratch.height() as u64);
        push_str(&mut text, "。");
        assert(text@ =~= batch_done_text(req.steps@.len(), v.width, v.height));
        let reply = preview(&scratch, text);
        self.canvas = Some(scratch);
        reply
    }
}

/// Once a prefix of the steps fails, running more steps reports the same failure.
proof fn lemma_run_steps_stops(v: CanvasView, steps: Seq<DrawStep>, i: int)
    requires
        0 <= i <= steps.len(),
        run_steps(v, steps.take(i)).0 is Some,
    ensures
        run_steps(v, steps) == run_steps(v, steps.take(i)),
    decreases steps.len() - i,
{
    if i < steps.len() {
        let t = steps.take(i + 1);
        assert(t.drop_last() =~= steps.take(i));
        lemma_run_steps_stops(v, steps, i + 1);
    } else {
        assert(steps.take(i) =~= steps);
    }
}

/// A failure position moved past `n` earlier steps.
pub open spec fn shift_failure(f: Option<(int, ErrorView)>, n: int) -> Option<(int, ErrorView)> {
    match f {
        Some(p) => Some((p.0 + n, p.1)),
        None => None,
    }
}

/// A batch splits into two batches run one after the other: if the first
/// part fails, so does the whole, at the same step; otherwise the whole is
/// the second part run on the canvas the first part reached.
pub proof fn law_batch_splits(v: CanvasView, a: Seq<DrawStep>, b: Seq<DrawStep>)
    ensures
        run_steps(v, a + b) == if run_steps(v, a).0 is Some {
            run_steps(v, a)
        } else {
            let rest = run_steps(run_steps(v, a).1, b);
            (shift_failure(rest.0, a.len() as int), rest.1)
        },
    decreases b.len(),
{
    if b.len() == 0 {
        assert(a + b =~= a);
    } else {
        let b1 = b.drop_last();
        assert((a + b).drop_last() =~= a + b1);
        assert((a + b).last() == b.last());
        law_batch_splits(v, a, b1);
    }
}

} // verus!
