//! The bead canvas: a grid of cells, each empty or holding one bead of the
//! locked palette, painted by aligned brush stamps or rasterized shapes.
use vstd::prelude::*;
use vstd::arithmetic::div_mod::{lemma_fundamental_div_mod, lemma_fundamental_div_mod_converse};
use vstd::set_lib::{lemma_int_range, lemma_len_subset, set_int_range};

use crate::png::{encode_png_rgba, image_error_text, png_encoding, resize_nearest, scale_up, PngError};
use crate::palette::{color_index, color_index_of, mode_str, palette, PaletteMode};
use crate::shapes::{
    circle_fill_points, circle_fill_spec, circle_stroke_points, circle_stroke_spec,
    ellipse_fill_points, ellipse_fill_spec, ellipse_fits, line_points, line_spec, max, min,
    rect_fill_points, rect_fill_spec, rect_stroke_points, rect_stroke_spec, span_fits, triangle_fill_points,
    triangle_fill_spec, triangle_stroke_points, triangle_stroke_spec, grid, spread_fits,
};
use crate::text::{chars_of, decimal, push_decimal, push_str, trim, trimmed_chars};
use crate::palette::resolve_spec;

verus! {

pub const MAX_SIZE: u32 = 128;

pub const SCALE: u32 = 8;

#[derive(Debug, Clone, Copy, PartialEq, Eq, Structural)]
pub enum BrushSize {
    One,
    Two,
    Four,
    Eight,
}

impl Default for BrushSize {
    fn default() -> (b: Self)
        ensures
            b == BrushSize::One,
    {
        BrushSize::One
    }
}

/// Side of the square that a brush paints.
pub open spec fn brush_n(b: BrushSize) -> u32 {
    match b {
        BrushSize::One => 1,
        BrushSize::Two => 2,
        BrushSize::Four => 4,
        BrushSize::Eight => 8,
    }
}

#[derive(Debug, Clone, PartialEq, Eq)]
pub struct PixelUpdate {
    pub x: u32,
    pub y: u32,
    pub color: String,
}

#[derive(Debug, Clone, PartialEq, Eq)]
pub enum CanvasError {
    InvalidSize { width: u32, height: u32 },
    InvalidBrush { size: u32 },
    OutOfBounds { x: u32, y: u32, width: u32, height: u32 },
    Unaligned { x: u32, y: u32, brush: u32 },
    UnknownColor { color: String, mode: PaletteMode },
    InvalidOp { message: String },
}

/// What an error says, with its texts as character sequences.
pub enum ErrorView {
    InvalidSize { width: u32, height: u32 },
    InvalidBrush { size: u32 },
    OutOfBounds { x: u32, y: u32, width: u32, height: u32 },
    Unaligned { x: u32, y: u32, brush: u32 },
    UnknownColor { color: Seq<char>, mode: PaletteMode },
    InvalidOp { message: Seq<char> },
}

impl View for CanvasError {
    type V = ErrorView;

    open spec fn view(&self) -> ErrorView {
        match self {
            CanvasError::InvalidSize { width, height } => ErrorView::InvalidSize { width: *width, height: *height },
            CanvasError::InvalidBrush { size } => ErrorView::InvalidBrush { size: *size },
            CanvasError::OutOfBounds { x, y, width, height } => ErrorView::OutOfBounds {
                x: *x,
                y: *y,
                width: *width,
                height: *height,
            },
            CanvasError::Unaligned { x, y, brush } => ErrorView::Unaligned { x: *x, y: *y, brush: *brush },
            CanvasError::UnknownColor { color, mode } => ErrorView::UnknownColor { color: color@, mode: *mode },
            CanvasError::InvalidOp { message } => ErrorView::InvalidOp { message: message@ },
        }
    }
}

/// A result with its error seen through its view.
pub open spec fn rview<T>(r: Result<T, CanvasError>) -> Result<T, ErrorView> {
    match r {
        Ok(v) => Ok(v),
        Err(e) => Err(e@),
    }
}

/// A stamp as text gives it: coordinates and the color word.
pub type Triple = (u32, u32, Seq<char>);

/// The stamps of a batch of updates.
pub open spec fn triples_of(us: Seq<PixelUpdate>) -> Seq<Triple> {
    us.map_values(|u: PixelUpdate| (u.x, u.y, u.color@))
}

/// The brush that `parse` selects: none or `1` gives one, `2`, `4`, `8` their size.
pub open spec fn parse_brush(input: Option<u32>) -> Result<BrushSize, ErrorView> {
    match input {
        None => Ok(BrushSize::One),
        Some(s) => if s == 1 {
            Ok(BrushSize::One)
        } else if s == 2 {
            Ok(BrushSize::Two)
        } else if s == 4 {
            Ok(BrushSize::Four)
        } else if s == 8 {
            Ok(BrushSize::Eight)
        } else {
            Err(ErrorView::InvalidBrush { size: s })
        },
    }
}

impl BrushSize {
    /// Parse `1` / `2` / `4` / `8`. Missing input defaults to 1.
    pub fn parse(input: Option<u32>) -> (r: Result<Self, CanvasError>)
        ensures
            rview(r) == parse_brush(input),
    {
        match input {
            None => Ok(BrushSize::One),
            Some(1) => Ok(BrushSize::One),
            Some(2) => Ok(BrushSize::Two),
            Some(4) => Ok(BrushSize::Four),
            Some(8) => Ok(BrushSize::Eight),
            Some(size) => Err(CanvasError::InvalidBrush { size }),
        }
    }

    pub fn size(self) -> (n: u32)
        ensures
            n == brush_n(self),
    {
        match self {
            BrushSize::One => 1,
            BrushSize::Two => 2,
            BrushSize::Four => 4,
            BrushSize::Eight => 8,
        }
    }
}

/// The user-facing text of an error.
pub open spec fn error_text(e: ErrorView) -> Seq<char> {
    match e {
        ErrorView::InvalidSize { width, height } => "图纸尺寸无效："@ + decimal(width as nat) + "x"@
            + decimal(height as nat) + "，宽和高必须在 1..="@ + decimal(MAX_SIZE as nat) + " 之间"@,
        ErrorView::InvalidBrush { size } => "笔刷大小无效："@ + decimal(size as nat)
            + "。只允许 1、2、4、8。"@,
        ErrorView::OutOfBounds { x, y, width, height } => "坐标越界：("@ + decimal(x as nat) + ", "@
            + decimal(y as nat) + ") 不在 0.."@ + decimal(width as nat) + " x 0.."@ + decimal(
            height as nat,
        ) + " 范围内"@,
        ErrorView::Unaligned { x, y, brush } => "坐标未对齐：("@ + decimal(x as nat) + ", "@
            + decimal(y as nat) + ")。笔刷 "@ + decimal(brush as nat) + " 只能落在 0,"@ + decimal(
            brush as nat,
        ) + ","@ + decimal(min(2 * brush, u32::MAX as int) as nat) + "… 的网格交点上，且 "@
            + decimal(brush as nat) + "×"@ + decimal(brush as nat) + " 方块必须完全在图纸内。"@,
        ErrorView::UnknownColor { color, mode } => "未知颜色「"@ + color + "」。当前为 "@
            + mode_str(mode)@ + " 色模式，请使用该模式中的中文名或 MARD 色号。调用 list_colors 查看完整列表。"@,
        ErrorView::InvalidOp { message } => message,
    }
}

impl CanvasError {
    /// The message shown to the drawing client.
    pub fn to_string(&self) -> (s: String)
        ensures
            s@ == error_text(self@),
    {
        let mut s = String::new();
        match self {
            CanvasError::InvalidSize { width, height } => {
                push_str(&mut s, "图纸尺寸无效：");
                push_decimal(&mut s, *width as u64);
                push_str(&mut s, "x");
                push_decimal(&mut s, *height as u64);
                push_str(&mut s, "，宽和高必须在 1..=");
                push_decimal(&mut s, MAX_SIZE as u64);
                push_str(&mut s, " 之间");
            },
            CanvasError::InvalidBrush { size } => {
                push_str(&mut s, "笔刷大小无效：");
                push_decimal(&mut s, *size as u64);
                push_str(&mut s, "。只允许 1、2、4、8。");
            },
            CanvasError::OutOfBounds { x, y, width, height } => {
                push_str(&mut s, "坐标越界：(");
                push_decimal(&mut s, *x as u64);
                push_str(&mut s, ", ");
                push_decimal(&mut s, *y as u64);
                push_str(&mut s, ") 不在 0..");
                push_decimal(&mut s, *width as u64);
                push_str(&mut s, " x 0..");
                push_decimal(&mut s, *height as u64);
                push_str(&mut s, " 范围内");
            },
            CanvasError::Unaligned { x, y, brush } => {
                push_str(&mut s, "坐标未对齐：(");
                push_decimal(&mut s, *x as u64);
                push_str(&mut s, ", ");
                push_decimal(&mut s, *y as u64);
                push_str(&mut s, ")。笔刷 ");
                push_decimal(&mut s, *brush as u64);
                push_str(&mut s, " 只能落在 0,");
                push_decimal(&mut s, *brush as u64);
                push_str(&mut s, ",");
                let doubled: u64 = if *brush > u32::MAX / 2 {
                    u32::MAX as u64
                } else {
                    *brush as u64 * 2
                };
                push_decimal(&mut s, doubled);
                push_str(&mut s, "… 的网格交点上，且 ");
                push_decimal(&mut s, *brush as u64);
                push_str(&mut s, "×");
                push_decimal(&mut s, *brush as u64);
                push_str(&mut s, " 方块必须完全在图纸内。");
            },
            CanvasError::UnknownColor { color, mode } => {
                push_str(&mut s, "未知颜色「");
                push_str(&mut s, color.as_str());
                push_str(&mut s, "」。当前为 ");
                push_str(&mut s, mode.as_str());
                push_str(&mut s, " 色模式，请使用该模式中的中文名或 MARD 色号。调用 list_colors 查看完整列表。");
            },
            CanvasError::InvalidOp { message } => {
                push_str(&mut s, message.as_str());
            },
        }
        assert(s@ =~= error_text(self@));
        s
    }
}

// ---------------------------------------------------------------------------
// The canvas and its model
// ---------------------------------------------------------------------------
/// A cell holds nothing (no bead) or the position of its bead in the palette.
pub type Cell = Option<usize>;

/// What a canvas is, seen from outside.
pub struct CanvasView {
    pub width: u32,
    pub height: u32,
    pub mode: PaletteMode,
    pub cells: Seq<Cell>,
}

pub struct Canvas {
    width: u32,
    height: u32,
    mode: PaletteMode,
    cells: Vec<Cell>,
}

impl View for Canvas {
    type V = CanvasView;

    closed spec fn view(&self) -> CanvasView {
        CanvasView { width: self.width, height: self.height, mode: self.mode, cells: self.cells@ }
    }
}

/// Every bead of the cells belongs to a palette of `n` colors.
pub open spec fn cells_valid(cells: Seq<Cell>, n: nat) -> bool {
    forall|i: int| 0 <= i < cells.len() ==> (#[trigger] cells[i] matches Some(k) ==> k < n)
}

/// A well-formed canvas: 1..=128 wide and high, one cell per position, beads of its palette.
pub open spec fn canvas_ok(v: CanvasView) -> bool {
    &&& 1 <= v.width <= MAX_SIZE
    &&& 1 <= v.height <= MAX_SIZE
    &&& v.cells.len() == v.width * v.height
    &&& cells_valid(v.cells, palette(v.mode).len())
}

/// Column and row of cell `i` in a grid `w` wide.
pub open spec fn col(w: int, i: int) -> int {
    i % w
}

pub open spec fn row(w: int, i: int) -> int {
    i / w
}

/// Whether cell `i` lies in the `n`-square with top-left corner `(left, top)`.
pub open spec fn in_square(w: int, i: int, left: int, top: int, n: int) -> bool {
    left <= col(w, i) < left + n && top <= row(w, i) < top + n
}

/// The cells with every cell of the square set to `val`; positions off the grid are dropped.
pub open spec fn square_fill(cells: Seq<Cell>, w: int, left: int, top: int, n: int, val: Cell) -> Seq<
    Cell,
> {
    Seq::new(cells.len(), |i: int| if in_square(w, i, left, top, n) { val } else { cells[i] })
}

/// How many of `n` positions from `a` on fall in `0..w`.
pub open spec fn clip(a: int, n: int, w: int) -> int {
    let lo = max(a, 0);
    let hi = min(a + n, w);
    if hi > lo {
        hi - lo
    } else {
        0
    }
}

/// Cells of the `n`-square at `(left, top)` that lie on a `w` by `h` grid.
pub open spec fn square_count(w: int, h: int, left: int, top: int, n: int) -> int {
    clip(left, n, w) * clip(top, n, h)
}

/// The canvas with its cells replaced.
pub open spec fn with_cells(v: CanvasView, cells: Seq<Cell>) -> CanvasView {
    CanvasView { cells, ..v }
}

/// What a color token paints: `-` clears a cell, a name or code paints its bead.
pub open spec fn stamp_value(mode: PaletteMode, color: Seq<char>) -> Option<Cell> {
    if trim(color) == "-"@ {
        Some(None)
    } else {
        match color_index(mode, color) {
            Some(k) => Some(Some(k as usize)),
            None => None,
        }
    }
}

/// Why one stamp of a batch is refused, if it is: misaligned, then off the
/// canvas, then an unknown color.
pub open spec fn update_error(v: CanvasView, t: Triple, n: u32) -> Option<ErrorView> {
    if t.0 % n != 0 || t.1 % n != 0 {
        Some(ErrorView::Unaligned { x: t.0, y: t.1, brush: n })
    } else if t.0 + n > v.width || t.1 + n > v.height {
        Some(ErrorView::OutOfBounds { x: t.0, y: t.1, width: v.width, height: v.height })
    } else if stamp_value(v.mode, t.2) is None {
        Some(ErrorView::UnknownColor { color: t.2, mode: v.mode })
    } else {
        None
    }
}

/// The error of the first refused stamp at or after `i`.
pub open spec fn batch_error(v: CanvasView, us: Seq<Triple>, n: u32, i: int) -> Option<
    ErrorView,
>
    decreases us.len() - i,
{
    if 0 <= i < us.len() {
        match update_error(v, us[i], n) {
            Some(e) => Some(e),
            None => batch_error(v, us, n, i + 1),
        }
    } else {
        None
    }
}

/// The cells after the stamps of `us`, applied in order.
pub open spec fn paint_updates(v: CanvasView, cells: Seq<Cell>, us: Seq<Triple>, n: u32) -> Seq<
    Cell,
>
    decreases us.len(),
{
    if us.len() == 0 {
        cells
    } else {
        let u = us.last();
        let val = match stamp_value(v.mode, u.2) {
            Some(c) => c,
            None => None,
        };
        square_fill(paint_updates(v, cells, us.drop_last(), n), v.width as int, u.0 as int, u.1 as int, n as int, val)
    }
}

/// Painting a batch: the first invalid stamp rejects it all and leaves the
/// canvas alone; otherwise every stamp is painted in order and the result is
/// the number of pixels written, stamps times brush area.
pub open spec fn paint_result(v: CanvasView, us: Seq<Triple>, n: u32) -> Outcome {
    match batch_error(v, us, n, 0) {
        Some(e) => (Err(e), v),
        None => (Ok((us.len() * n * n) as usize), with_cells(v, paint_updates(v, v.cells, us, n))),
    }
}

/// The brush square centered on a point: `n / 2` up and to the left of it.
pub open spec fn centered(p: int, n: int) -> int {
    p - n / 2
}

/// The cells after a centered stamp on each point, in order.
pub open spec fn stamp_points(cells: Seq<Cell>, w: int, ps: Seq<(i32, i32)>, n: int, val: Cell) -> Seq<
    Cell,
>
    decreases ps.len(),
{
    if ps.len() == 0 {
        cells
    } else {
        let p = ps.last();
        square_fill(stamp_points(cells, w, ps.drop_last(), n, val), w, centered(p.0 as int, n), centered(p.1 as int, n), n, val)
    }
}

/// Sum over the points of the cells each centered stamp covers on the grid.
pub open spec fn stamp_count(w: int, h: int, ps: Seq<(i32, i32)>, n: int) -> int
    decreases ps.len(),
{
    if ps.len() == 0 {
        0
    } else {
        let p = ps.last();
        stamp_count(w, h, ps.drop_last(), n) + square_count(w, h, centered(p.0 as int, n), centered(p.1 as int, n), n)
    }
}

/// The error for a point off the canvas, if it is.
pub open spec fn point_error(v: CanvasView, x: u32, y: u32) -> Option<ErrorView> {
    if x >= v.width || y >= v.height {
        Some(ErrorView::OutOfBounds { x, y, width: v.width, height: v.height })
    } else {
        None
    }
}

/// The RGB of a cell, if it holds a bead.
pub open spec fn cell_rgb(mode: PaletteMode, c: Cell) -> Option<[u8; 3]> {
    match c {
        Some(k) => Some(palette(mode)[k as int].rgb),
        None => None,
    }
}

pub proof fn lemma_cell_position(w: int, h: int, i: int)
    requires
        0 < w,
        0 <= i < w * h,
    ensures
        0 <= col(w, i) < w,
        0 <= row(w, i) < h,
        i == row(w, i) * w + col(w, i),
{
    lemma_fundamental_div_mod(i, w);
    assert(i == (i / w) * w + i % w && 0 <= i / w < h) by (nonlinear_arith)
        requires
            0 <= i < w * h,
            0 < w,
            i == w * (i / w) + i % w,
            0 <= i % w < w,
    ;
}

pub proof fn lemma_position_cell(w: int, h: int, r: int, c: int)
    requires
        0 <= r < h,
        0 <= c < w,
    ensures
        0 <= r * w + c < w * h,
        col(w, r * w + c) == c,
        row(w, r * w + c) == r,
{
    lemma_fundamental_div_mod_converse(r * w + c, w, r, c);
    assert(0 <= r * w + c < w * h) by (nonlinear_arith)
        requires
            0 <= r < h,
            0 <= c < w,
    ;
}

/// Position of the cell at `(x, y)`.
fn cell_index(w: u32, h: u32, x: u32, y: u32) -> (i: usize)
    requires
        1 <= w <= MAX_SIZE,
        1 <= h <= MAX_SIZE,
        x < w,
        y < h,
    ensures
        i == y * w + x,
        i < w * h,
        col(w as int, i as int) == x,
        row(w as int, i as int) == y,
{
    proof {
        lemma_position_cell(w as int, h as int, y as int, x as int);
    }
    assert(y * w + x < 0x10000) by (nonlinear_arith)
        requires
            w <= 128,
            y < h <= 128,
            x < w,
    ;
    (y * w + x) as usize
}

impl Canvas {
    pub open spec fn wf(&self) -> bool {
        canvas_ok(self@)
    }

    fn filled(width: u32, height: u32, mode: PaletteMode, value: Cell) -> (r: Result<
        Self,
        CanvasError,
    >)
        requires
            value matches Some(k) ==> k < palette(mode).len(),
        ensures
            match r {
                Ok(c) => 1 <= width <= MAX_SIZE && 1 <= height <= MAX_SIZE && c.wf() && c@.width
                    == width && c@.height == height && c@.mode == mode && c@.cells == Seq::new(
                    (width * height) as nat,
                    |i: int| value,
                ),
                Err(e) => !(1 <= width <= MAX_SIZE && 1 <= height <= MAX_SIZE) && e@
                    == ErrorView::InvalidSize { width, height },
            },
    {
        if !(1 <= width && width <= MAX_SIZE) || !(1 <= height && height <= MAX_SIZE) {
            return Err(CanvasError::InvalidSize { width, height });
        }
        assert(width * height <= 0x4000) by (nonlinear_arith)
            requires
                width <= 128,
                height <= 128,
        ;
        let len = (width * height) as usize;
        let mut cells: Vec<Cell> = Vec::new();
        let mut i: usize = 0;
        while i < len
            invariant
                i <= len,
                cells@ == Seq::new(i as nat, |j: int| value),
            decreases len - i,
        {
            cells.push(value);
            i = i + 1;
            assert(cells@ =~= Seq::new(i as nat, |j: int| value));
        }
        Ok(Canvas { width, height, mode, cells })
    }

    /// A canvas covered with `H2` white beads.
    pub fn new(width: u32, height: u32, mode: PaletteMode) -> (r: Result<Self, CanvasError>)
        ensures
            match r {
                Ok(c) => 1 <= width <= MAX_SIZE && 1 <= height <= MAX_SIZE && c.wf() && c@.width
                    == width && c@.height == height && c@.mode == mode && c@.cells == Seq::new(
                    (width * height) as nat,
                    |i: int| Some(color_index(mode, "H2"@)->0 as usize),
                ),
                Err(e) => !(1 <= width <= MAX_SIZE && 1 <= height <= MAX_SIZE) && e@
                    == ErrorView::InvalidSize { width, height },
            },
    {
        let white = color_index_of(mode, "H2");
        proof {
            crate::palette::lemma_white_resolves(mode);
        }
        let k = white.unwrap();
        Self::filled(width, height, mode, Some(k))
    }

    /// A canvas without any bead.
    pub fn new_empty(width: u32, height: u32, mode: PaletteMode) -> (r: Result<Self, CanvasError>)
        ensures
            match r {
                Ok(c) => 1 <= width <= MAX_SIZE && 1 <= height <= MAX_SIZE && c.wf() && c@.width
                    == width && c@.height == height && c@.mode == mode && c@.cells == Seq::new(
                    (width * height) as nat,
                    |i: int| None::<usize>,
                ),
                Err(e) => !(1 <= width <= MAX_SIZE && 1 <= height <= MAX_SIZE) && e@
                    == ErrorView::InvalidSize { width, height },
            },
    {
        Self::filled(width, height, mode, None)
    }

    pub fn width(&self) -> (w: u32)
        ensures
            w == self@.width,
    {
        self.width
    }

    pub fn height(&self) -> (h: u32)
        ensures
            h == self@.height,
    {
        self.height
    }

    pub fn mode(&self) -> (m: PaletteMode)
        ensures
            m == self@.mode,
    {
        self.mode
    }

    /// The RGB of the bead in cell `index`, if there is one.
    pub fn pixel(&self, index: usize) -> (c: Option<[u8; 3]>)
        requires
            self.wf(),
            index < self@.cells.len(),
        ensures
            c == cell_rgb(self@.mode, self@.cells[index as int]),
    {
        match self.cells[index] {
            Some(k) => {
                let colors = self.mode.colors();
                Some(colors[k].rgb)
            },
            None => None,
        }
    }

    /// The cells, row by row: the palette position of each bead, or nothing.
    pub fn codes_index(&self) -> (r: Vec<Cell>)
        ensures
            r@ == self@.cells,
    {
        self.cells.clone()
    }

    /// An independent copy of the canvas.
    pub fn snapshot(&self) -> (c: Canvas)
        ensures
            c@ == self@,
    {
        Canvas { width: self.width, height: self.height, mode: self.mode, cells: self.cells.clone() }
    }

    /// The palette code of each cell's bead, row by row.
    pub fn codes(&self) -> (r: Vec<Option<&'static str>>)
        requires
            self.wf(),
        ensures
            r@.len() == self@.cells.len(),
            forall|i: int|
                0 <= i < r@.len() ==> #[trigger] r@[i] == match self@.cells[i] {
                    Some(k) => Some(palette(self@.mode)[k as int].code),
                    None => None,
                },
    {
        let colors = self.mode.colors();
        let mut r: Vec<Option<&'static str>> = Vec::new();
        let mut i: usize = 0;
        while i < self.cells.len()
            invariant
                self.wf(),
                colors@ == palette(self@.mode),
                i <= self@.cells.len(),
                r@.len() == i,
                forall|j: int|
                    0 <= j < i ==> #[trigger] r@[j] == match self@.cells[j] {
                        Some(k) => Some(palette(self@.mode)[k as int].code),
                        None => None,
                    },
            decreases self@.cells.len() - i,
        {
            let c = match self.cells[i] {
                Some(k) => Some(colors[k].code),
                None => None,
            };
            r.push(c);
            i = i + 1;
        }
        r
    }

    /// Set every cell of the `n`-square at `(left, top)` that lies on the canvas to `val`.
    /// Returns how many cells were written.
    fn fill_clipped(&mut self, left: i64, top: i64, n: u32, val: Cell) -> (written: usize)
        requires
            old(self).wf(),
            val matches Some(k) ==> k < palette(old(self)@.mode).len(),
            1 <= n <= 8,
            -0x1_0000_0000 <= left <= 0x1_0000_0000,
            -0x1_0000_0000 <= top <= 0x1_0000_0000,
        ensures
            final(self).wf(),
            final(self)@ == with_cells(
                old(self)@,
                square_fill(old(self)@.cells, old(self)@.width as int, left as int, top as int, n as int, val),
            ),
            written == square_count(old(self)@.width as int, old(self)@.height as int, left as int, top as int, n as int),
    {
        let ghost base = self@.cells;
        let ghost w = self.width as int;
        let ghost h = self.height as int;
        let ghost cw = clip(left as int, n as int, w);
        let mut written: usize = 0;
        let mut dy: u32 = 0;
        while dy < n
            invariant
                self.wf(),
                self.width == w,
                self.height == h,
                self@.mode == old(self)@.mode,
                base == old(self)@.cells,
                val matches Some(k) ==> k < palette(self@.mode).len(),
                1 <= n <= 8,
                -0x1_0000_0000 <= left <= 0x1_0000_0000,
                -0x1_0000_0000 <= top <= 0x1_0000_0000,
                cw == clip(left as int, n as int, w),
                0 <= cw <= n,
                0 <= dy <= n,
                self@.cells == Seq::new(
                    base.len(),
                    |i: int|
                        if in_square(w, i, left as int, top as int, n as int) && row(w, i) - top < dy {
                            val
                        } else {
                            base[i]
                        },
                ),
                written == clip(top as int, dy as int, h) * cw,
                0 <= clip(top as int, dy as int, h) <= dy,
            decreases n - dy,
        {
            let py: i64 = top + dy as i64;
            assert(clip(top as int, dy as int, h) * cw <= 64) by (nonlinear_arith)
                requires
                    0 <= clip(top as int, dy as int, h) <= dy,
                    dy < n <= 8,
                    0 <= cw <= n,
            ;
            let ghost row_base = self@.cells;
            let ghost written0 = written as int;
            let mut dx: u32 = 0;
            while dx < n
                invariant
                    self.wf(),
                    self.width == w,
                    self.height == h,
                    self@.mode == old(self)@.mode,
                    val matches Some(k) ==> k < palette(self@.mode).len(),
                    1 <= n <= 8,
                    -0x1_0000_0000 <= left <= 0x1_0000_0000,
                    py == top + dy,
                    0 <= dy < n,
                    0 <= dx <= n,
                    row_base.len() == base.len(),
                    self@.cells == Seq::new(
                        base.len(),
                        |i: int|
                            if row(w, i) == py && left <= col(w, i) < left + dx {
                                val
                            } else {
                                row_base[i]
                            },
                    ),
                    written == written0 + (if 0 <= py < h {
                        clip(left as int, dx as int, w)
                    } else {
                        0
                    }),
                    0 <= written0 <= 64,
                    0 <= clip(left as int, dx as int, w) <= dx,
                decreases n - dx,
            {
                let px: i64 = left + dx as i64;
                let ghost before = self@.cells;
                if px >= 0 && py >= 0 && px < self.width as i64 && py < self.height as i64 {
                    let index = cell_index(self.width, self.height, px as u32, py as u32);
                    self.cells.set(index, val);
                    written = written + 1;
                    proof {
                        assert forall|i: int| 0 <= i < base.len() implies #[trigger] self@.cells[i]
                            == (if row(w, i) == py && left <= col(w, i) < left + dx + 1 {
                            val
                        } else {
                            row_base[i]
                        }) by {
                            lemma_cell_position(w, h, i);
                            if row(w, i) == py && col(w, i) == px {
                                assert(i == index);
                            }
                        }
                    }
                } else {
                    proof {
                        assert forall|i: int| 0 <= i < base.len() implies #[trigger] self@.cells[i]
                            == (if row(w, i) == py && left <= col(w, i) < left + dx + 1 {
                            val
                        } else {
                            row_base[i]
                        }) by {
                            lemma_cell_position(w, h, i);
                        }
                    }
                }
                assert(self@.cells =~= Seq::new(
                    base.len(),
                    |i: int|
                        if row(w, i) == py && left <= col(w, i) < left + dx + 1 {
                            val
                        } else {
                            row_base[i]
                        },
                ));
                dx = dx + 1;
            }
            proof {
                let in_row: int = if 0 <= py < h {
                    1
                } else {
                    0
                };
                assert(clip(top as int, dy + 1, h) == clip(top as int, dy as int, h) + in_row);
                assert(clip(top as int, dy + 1, h) * cw == clip(top as int, dy as int, h) * cw
                    + in_row * cw) by (nonlinear_arith)
                    requires
                        clip(top as int, dy + 1, h) == clip(top as int, dy as int, h) + in_row,
                ;
                assert(clip(top as int, dy as int, h) * cw <= 56) by (nonlinear_arith)
                    requires
                        0 <= clip(top as int, dy as int, h) <= dy,
                        dy < n <= 8,
                        0 <= cw <= n,
                ;
                assert forall|i: int| 0 <= i < base.len() implies #[trigger] self@.cells[i] == (
                if in_square(w, i, left as int, top as int, n as int) && row(w, i) - top < dy + 1 {
                    val
                } else {
                    base[i]
                }) by {
                    lemma_cell_position(w, h, i);
                }
                assert(self@.cells =~= Seq::new(
                    base.len(),
                    |i: int|
                        if in_square(w, i, left as int, top as int, n as int) && row(w, i) - top < dy + 1 {
                            val
                        } else {
                            base[i]
                        },
                ));
            }
            dy = dy + 1;
        }
        assert(self@.cells =~= square_fill(base, w, left as int, top as int, n as int, val));
        assert(clip(top as int, n as int, h) * cw == cw * clip(top as int, n as int, h))
            by (nonlinear_arith);
        written
    }

    /// Why a stamp of a batch is refused, or the cell value it paints.
    fn check_update(&self, update: &PixelUpdate, n: u32) -> (r: Result<Cell, CanvasError>)
        requires
            self.wf(),
            1 <= n <= 8,
        ensures
            match update_error(self@, (update.x, update.y, update.color@), n) {
                Some(e) => r matches Err(er) && er@ == e,
                None => r == Ok::<Cell, CanvasError>(stamp_value(self@.mode, update.color@)->0),
            },
            r matches Ok(Some(k)) ==> k < palette(self@.mode).len(),
    {
        if update.x % n != 0 || update.y % n != 0 {
            return Err(CanvasError::Unaligned { x: update.x, y: update.y, brush: n });
        }
        if update.x as u64 + n as u64 > self.width as u64 || update.y as u64 + n as u64
            > self.height as u64 {
            return Err(
                CanvasError::OutOfBounds {
                    x: update.x,
                    y: update.y,
                    width: self.width,
                    height: self.height,
                },
            );
        }
        match stamp_value_of(self.mode, update.color.as_str()) {
            Some(v) => Ok(v),
            None => Err(CanvasError::UnknownColor { color: update.color.clone(), mode: self.mode }),
        }
    }

    /// Validate the whole batch, then paint. Any invalid stamp rejects everything.
    /// Returns the number of pixels written (stamps × brush²).
    pub fn paint(&mut self, updates: &[PixelUpdate], brush: BrushSize) -> (r: Result<
        usize,
        CanvasError,
    >)
        requires
            old(self).wf(),
            updates@.len() * 64 <= usize::MAX,
        ensures
            final(self).wf(),
            (rview(r), final(self)@) == paint_result(old(self)@, triples_of(updates@), brush_n(brush)),
    {
        let n = brush.size();
        let ghost v0 = self@;
        let ghost us = triples_of(updates@);
        let mut resolved: Vec<Cell> = Vec::new();
        let mut i: usize = 0;
        while i < updates.len()
            invariant
                self.wf(),
                self@ == v0,
                us == triples_of(updates@),
                n == brush_n(brush),
                0 <= i <= us.len(),
                batch_error(v0, us, n, 0) == batch_error(v0, us, n, i as int),
                resolved@.len() == i,
                forall|j: int|
                    0 <= j < i ==> update_error(v0, #[trigger] us[j], n) is None,
                forall|j: int|
                    0 <= j < i ==> #[trigger] resolved@[j] == stamp_value(v0.mode, us[j].2)->0,
                forall|j: int|
                    0 <= j < i ==> (#[trigger] resolved@[j] matches Some(k) ==> k < palette(
                        v0.mode,
                    ).len()),
            decreases us.len() - i,
        {
            match self.check_update(&updates[i], n) {
                Ok(v) => {
                    resolved.push(v);
                },
                Err(e) => {
                    return Err(e);
                },
            }
            i = i + 1;
        }
        let mut k: usize = 0;
        while k < updates.len()
            invariant
                self.wf(),
                self@.width == v0.width,
                self@.height == v0.height,
                self@.mode == v0.mode,
                us == triples_of(updates@),
                n == brush_n(brush),
                batch_error(v0, us, n, 0) is None,
                resolved@.len() == us.len(),
                forall|j: int| 0 <= j < us.len() ==> update_error(v0, #[trigger] us[j], n) is None,
                forall|j: int|
                    0 <= j < us.len() ==> #[trigger] resolved@[j] == stamp_value(v0.mode, us[j].2)->0,
                forall|j: int|
                    0 <= j < us.len() ==> (#[trigger] resolved@[j] matches Some(c) ==> c < palette(
                        v0.mode,
                    ).len()),
                0 <= k <= us.len(),
                self@.cells == paint_updates(v0, v0.cells, us.take(k as int), n),
            decreases us.len() - k,
        {
            let u = &updates[k];
            assert(update_error(v0, us[k as int], n) is None);
            self.fill_clipped(u.x as i64, u.y as i64, n, resolved[k]);
            proof {
                assert(us.take(k + 1).drop_last() =~= us.take(k as int));
                assert(us.take(k + 1).last() == us[k as int]);
            }
            k = k + 1;
        }
        assert(us.take(us.len() as int) =~= us);
        assert(updates@.len() * n <= usize::MAX && updates@.len() * n * n <= usize::MAX)
            by (nonlinear_arith)
            requires
                updates@.len() * 64 <= usize::MAX,
                1 <= n <= 8,
        ;
        Ok(updates.len() * (n as usize) * (n as usize))
    }

    /// Stamp a brush-sized square centered on `(x, y)`, clipping at the edges.
    /// Returns how many pixels were written.
    fn stamp_centered(&mut self, x: i32, y: i32, val: Cell, n: u32) -> (written: usize)
        requires
            old(self).wf(),
            val matches Some(k) ==> k < palette(old(self)@.mode).len(),
            1 <= n <= 8,
        ensures
            final(self).wf(),
            final(self)@ == with_cells(
                old(self)@,
                square_fill(
                    old(self)@.cells,
                    old(self)@.width as int,
                    centered(x as int, n as int),
                    centered(y as int, n as int),
                    n as int,
                    val,
                ),
            ),
            written == square_count(
                old(self)@.width as int,
                old(self)@.height as int,
                centered(x as int, n as int),
                centered(y as int, n as int),
                n as int,
            ),
    {
        let offset: i64 = (n / 2) as i64;
        self.fill_clipped(x as i64 - offset, y as i64 - offset, n, val)
    }

    /// Paint pre-rasterized shape points with a brush stamp on each point.
    /// Coordinates may fall outside the canvas; those stamps are clipped.
    /// The count saturates at `usize::MAX`.
    pub fn paint_shape_points(&mut self, points: &[(i32, i32)], color: &str, brush: BrushSize) -> (r:
        Result<usize, CanvasError>)
        requires
            old(self).wf(),
        ensures
            final(self).wf(),
            (rview(r), final(self)@) == shape_result(old(self)@, points@, color@, brush_n(brush) as int),
    {
        let k = match color_index_of(self.mode, color) {
            Some(k) => k,
            None => {
                return Err(unknown_color(color, self.mode));
            },
        };
        let n = brush.size();
        let ghost v0 = self@;
        let ghost ps = points@;
        let mut written: usize = 0;
        let mut i: usize = 0;
        while i < points.len()
            invariant
                self.wf(),
                self@.width == v0.width,
                self@.height == v0.height,
                self@.mode == v0.mode,
                ps == points@,
                n == brush_n(brush),
                k < palette(v0.mode).len(),
                0 <= i <= ps.len(),
                self@.cells == stamp_points(v0.cells, v0.width as int, ps.take(i as int), n as int, Some(k)),
                written == min(stamp_count(v0.width as int, v0.height as int, ps.take(i as int), n as int), usize::MAX as int),
                stamp_count(v0.width as int, v0.height as int, ps.take(i as int), n as int) >= 0,
            decreases ps.len() - i,
        {
            let (x, y) = points[i];
            let c = self.stamp_centered(x, y, Some(k), n);
            proof {
                assert(ps.take(i + 1).drop_last() =~= ps.take(i as int));
                assert(ps.take(i + 1).last() == ps[i as int]);
                let w = v0.width as int;
                let h = v0.height as int;
                assert(0 <= clip(centered(x as int, n as int), n as int, w));
                assert(0 <= clip(centered(y as int, n as int), n as int, h));
                assert(0 <= square_count(w, h, centered(x as int, n as int), centered(y as int, n as int), n as int)) by (nonlinear_arith)
                    requires
                        0 <= clip(centered(x as int, n as int), n as int, w),
                        0 <= clip(centered(y as int, n as int), n as int, h),
                        square_count(w, h, centered(x as int, n as int), centered(y as int, n as int), n as int)
                            == clip(centered(x as int, n as int), n as int, w) * clip(centered(y as int, n as int), n as int, h),
                ;
            }
            written = written.saturating_add(c);
            i = i + 1;
        }
        assert(ps.take(ps.len() as int) =~= ps);
        Ok(written)
    }

    /// The error for a point off the canvas.
    fn require_point(&self, x: u32, y: u32) -> (r: Result<(), CanvasError>)
        ensures
            match point_error(self@, x, y) {
                Some(e) => r matches Err(er) && er@ == e,
                None => r is Ok,
            },
    {
        if x >= self.width || y >= self.height {
            return Err(CanvasError::OutOfBounds { x, y, width: self.width, height: self.height });
        }
        Ok(())
    }
}

/// An unknown-color error for `color` in `mode`.
pub open spec fn is_unknown_color(e: CanvasError, color: Seq<char>, mode: PaletteMode) -> bool {
    e@ == ErrorView::UnknownColor { color, mode }
}

fn unknown_color(color: &str, mode: PaletteMode) -> (e: CanvasError)
    ensures
        is_unknown_color(e, color@, mode),
{
    let mut c = String::new();
    push_str(&mut c, color);
    CanvasError::UnknownColor { color: c, mode }
}

/// What a color token paints, if anything.
pub fn stamp_value_of(mode: PaletteMode, color: &str) -> (r: Option<Cell>)
    ensures
        r == stamp_value(mode, color@),
        r matches Some(Some(k)) ==> k < palette(mode).len(),
{
    let t = trimmed_chars(color);
    let dash = chars_of("-");
    if crate::text::chars_eq(&t, &dash) {
        return Some(None);
    }
    match color_index_of(mode, color) {
        Some(k) => Some(Some(k)),
        None => None,
    }
}

/// What an operation on a canvas gives: its result, errors seen through their
/// views, and the canvas afterwards.
pub type Outcome = (Result<usize, ErrorView>, CanvasView);

/// Stamping the points `ps` in color `color` with an `n`-brush: an unknown
/// color leaves the canvas alone, a known one stamps every point and counts
/// the cells written, up to `usize::MAX`.
pub open spec fn shape_result(v: CanvasView, ps: Seq<(i32, i32)>, color: Seq<char>, n: int) -> Outcome {
    match color_index(v.mode, color) {
        None => (Err(ErrorView::UnknownColor { color, mode: v.mode }), v),
        Some(k) => (
            Ok(min(stamp_count(v.width as int, v.height as int, ps, n), usize::MAX as int) as usize),
            with_cells(v, stamp_points(v.cells, v.width as int, ps, n, Some(k as usize))),
        ),
    }
}

/// The first of the given points that lies off the canvas, as an error.
pub open spec fn points_error(v: CanvasView, pts: Seq<(u32, u32)>) -> Option<ErrorView>
    decreases pts.len(),
{
    if pts.len() == 0 {
        None
    } else {
        match point_error(v, pts[0].0, pts[0].1) {
            Some(e) => Some(e),
            None => points_error(v, pts.drop_first()),
        }
    }
}

/// A point off the canvas is an error that leaves it alone; otherwise `then` happens.
pub open spec fn checked_result(v: CanvasView, pts: Seq<(u32, u32)>, then: Outcome) -> Outcome {
    match points_error(v, pts) {
        Some(e) => (Err(e), v),
        None => then,
    }
}

/// The brush that strokes use; fills paint the exact region.
pub open spec fn stroke_n(fill: bool, brush: BrushSize) -> int {
    if fill {
        1
    } else {
        brush_n(brush) as int
    }
}

impl Canvas {
    pub fn paint_line(
        &mut self,
        x0: u32,
        y0: u32,
        x1: u32,
        y1: u32,
        color: &str,
        brush: BrushSize,
    ) -> (r: Result<usize, CanvasError>)
        requires
            old(self).wf(),
        ensures
            final(self).wf(),
            (rview(r), final(self)@) == checked_result(
                old(self)@,
                seq![(x0, y0), (x1, y1)],
                shape_result(old(self)@, line_spec(x0 as int, y0 as int, x1 as int, y1 as int), color@, brush_n(brush) as int),
            ),
    {
        proof {
            reveal_with_fuel(points_error, 3);
        }
        assert(seq![(x0, y0), (x1, y1)].drop_first() =~= seq![(x1, y1)]);
        assert(seq![(x1, y1)].drop_first() =~= Seq::<(u32, u32)>::empty());
        self.require_point(x0, y0)?;
        self.require_point(x1, y1)?;
        let points = line_points(x0 as i32, y0 as i32, x1 as i32, y1 as i32);
        self.paint_shape_points(points.as_slice(), color, brush)
    }

    pub fn paint_rect(
        &mut self,
        x0: u32,
        y0: u32,
        x1: u32,
        y1: u32,
        color: &str,
        fill: bool,
        brush: BrushSize,
    ) -> (r: Result<usize, CanvasError>)
        requires
            old(self).wf(),
        ensures
            final(self).wf(),
            (rview(r), final(self)@) == checked_result(
                old(self)@,
                seq![(x0, y0), (x1, y1)],
                shape_result(old(self)@, if fill {
                        rect_fill_spec(x0 as int, y0 as int, x1 as int, y1 as int)
                    } else {
                        rect_stroke_spec(x0 as int, y0 as int, x1 as int, y1 as int)
                    }, color@, stroke_n(fill, brush)),
            ),
    {
        proof {
            reveal_with_fuel(points_error, 3);
        }
        assert(seq![(x0, y0), (x1, y1)].drop_first() =~= seq![(x1, y1)]);
        assert(seq![(x1, y1)].drop_first() =~= Seq::<(u32, u32)>::empty());
        self.require_point(x0, y0)?;
        self.require_point(x1, y1)?;
        let points = if fill {
            rect_fill_points(x0 as i32, y0 as i32, x1 as i32, y1 as i32)
        } else {
            rect_stroke_points(x0 as i32, y0 as i32, x1 as i32, y1 as i32)
        };
        // Fills paint the exact region; brush thickness only applies to strokes.
        let brush = if fill {
            BrushSize::One
        } else {
            brush
        };
        self.paint_shape_points(points.as_slice(), color, brush)
    }

    pub fn paint_triangle(
        &mut self,
        x0: u32,
        y0: u32,
        x1: u32,
        y1: u32,
        x2: u32,
        y2: u32,
        color: &str,
        fill: bool,
        brush: BrushSize,
    ) -> (r: Result<usize, CanvasError>)
        requires
            old(self).wf(),
        ensures
            final(self).wf(),
            (rview(r), final(self)@) == checked_result(
                old(self)@,
                seq![(x0, y0), (x1, y1), (x2, y2)],
                shape_result(old(self)@, if fill {
                        triangle_fill_spec(x0 as int, y0 as int, x1 as int, y1 as int, x2 as int, y2 as int)
                    } else {
                        triangle_stroke_spec(x0 as int, y0 as int, x1 as int, y1 as int, x2 as int, y2 as int)
                    }, color@, stroke_n(fill, brush)),
            ),
    {
        proof {
            reveal_with_fuel(points_error, 4);
        }
        assert(seq![(x0, y0), (x1, y1), (x2, y2)].drop_first() =~= seq![(x1, y1), (x2, y2)]);
        assert(seq![(x1, y1), (x2, y2)].drop_first() =~= seq![(x2, y2)]);
        assert(seq![(x2, y2)].drop_first() =~= Seq::<(u32, u32)>::empty());
        self.require_point(x0, y0)?;
        self.require_point(x1, y1)?;
        self.require_point(x2, y2)?;
        let points = if fill {
            let ghost xs = seq![x0 as int, x1 as int, x2 as int];
            let ghost ys = seq![y0 as int, y1 as int, y2 as int];
            assert(spread_fits(xs, ys)) by {
                assert(forall|i: int| 0 <= i < 3 ==> 0 <= #[trigger] xs[i] < 128);
                assert(forall|i: int| 0 <= i < 3 ==> 0 <= #[trigger] ys[i] < 128);
            }
            triangle_fill_points(x0 as i32, y0 as i32, x1 as i32, y1 as i32, x2 as i32, y2 as i32)
        } else {
            triangle_stroke_points(x0 as i32, y0 as i32, x1 as i32, y1 as i32, x2 as i32, y2 as i32)
        };
        let brush = if fill {
            BrushSize::One
        } else {
            brush
        };
        self.paint_shape_points(points.as_slice(), color, brush)
    }

    pub fn paint_circle(
        &mut self,
        cx: u32,
        cy: u32,
        radius: u32,
        color: &str,
        fill: bool,
        brush: BrushSize,
    ) -> (r: Result<usize, CanvasError>)
        requires
            old(self).wf(),
            point_error(old(self)@, cx, cy) is None && (radius as i32) > 0 ==> span_fits(
                cx as int,
                cy as int,
                radius as i32 as int,
                radius as i32 as int,
            ),
        ensures
            final(self).wf(),
            (rview(r), final(self)@) == checked_result(
                old(self)@,
                seq![(cx, cy)],
                shape_result(old(self)@, if fill {
                        circle_fill_spec(cx as int, cy as int, radius as i32 as int)
                    } else {
                        circle_stroke_spec(cx as int, cy as int, radius as i32 as int)
                    }, color@, stroke_n(fill, brush)),
            ),
    {
        proof {
            reveal_with_fuel(points_error, 2);
        }
        assert(seq![(cx, cy)].drop_first() =~= Seq::<(u32, u32)>::empty());
        self.require_point(cx, cy)?;
        let r = radius as i32;
        let points = if fill {
            circle_fill_points(cx as i32, cy as i32, r)
        } else {
            circle_stroke_points(cx as i32, cy as i32, r)
        };
        let brush = if fill {
            BrushSize::One
        } else {
            brush
        };
        self.paint_shape_points(points.as_slice(), color, brush)
    }

    /// Ellipse around `(cx, cy)`. A fill rasterizes the interior here; a
    /// stroke stamps the outline points in `stroke`, which the caller rasterizes.
    pub fn paint_ellipse(
        &mut self,
        cx: u32,
        cy: u32,
        rx: u32,
        ry: u32,
        color: &str,
        fill: bool,
        brush: BrushSize,
        stroke: &[(i32, i32)],
    ) -> (r: Result<usize, CanvasError>)
        requires
            old(self).wf(),
            fill && point_error(old(self)@, cx, cy) is None && !((rx as i32) <= 0 && (ry as i32)
                <= 0) ==> ellipse_fits(cx as int, cy as int, rx as i32 as int, ry as i32 as int),
        ensures
            final(self).wf(),
            (rview(r), final(self)@) == checked_result(
                old(self)@,
                seq![(cx, cy)],
                shape_result(old(self)@, if fill {
                        ellipse_fill_spec(cx as int, cy as int, rx as i32 as int, ry as i32 as int)
                    } else {
                        stroke@
                    }, color@, stroke_n(fill, brush)),
            ),
    {
        proof {
            reveal_with_fuel(points_error, 2);
        }
        assert(seq![(cx, cy)].drop_first() =~= Seq::<(u32, u32)>::empty());
        self.require_point(cx, cy)?;
        if fill {
            let points = ellipse_fill_points(cx as i32, cy as i32, rx as i32, ry as i32);
            self.paint_shape_points(points.as_slice(), color, BrushSize::One)
        } else {
            self.paint_shape_points(stroke, color, brush)
        }
    }
}

/// Cells `i` and `j` of a grid `w` wide share an edge.
pub open spec fn adjacent4(w: int, i: int, j: int) -> bool {
    ||| row(w, i) == row(w, j) && (col(w, i) - col(w, j) == 1 || col(w, j) - col(w, i) == 1)
    ||| col(w, i) == col(w, j) && (row(w, i) - row(w, j) == 1 || row(w, j) - row(w, i) == 1)
}

/// `p` walks from `seed` through edge-sharing cells that all hold the seed's value.
pub open spec fn is_path(cells: Seq<Cell>, w: int, seed: int, p: Seq<int>) -> bool {
    &&& p.len() > 0
    &&& p[0] == seed
    &&& forall|k: int| 0 <= k < p.len() ==> 0 <= #[trigger] p[k] < cells.len() && cells[p[k]] == cells[seed]
    &&& forall|k: int| 0 <= k < p.len() - 1 ==> adjacent4(w, #[trigger] p[k], p[k + 1])
}

/// The four-connected region of cells that hold the seed's value and reach the seed.
pub open spec fn region(cells: Seq<Cell>, w: int, seed: int) -> Set<int> {
    Set::new(|i: int| exists|p: Seq<int>| #[trigger] is_path(cells, w, seed, p) && p.last() == i)
}

/// The cells with the seed's region set to `val`.
pub open spec fn flood(cells: Seq<Cell>, w: int, seed: int, val: Cell) -> Seq<Cell> {
    Seq::new(cells.len(), |i: int| if region(cells, w, seed).contains(i) { val } else { cells[i] })
}

/// The cell index of a grid position.
pub open spec fn index_of(w: int, p: (u32, u32)) -> int {
    p.1 * w + p.0
}

fn same_cell(a: Cell, b: Cell) -> (r: bool)
    ensures
        r == (a == b),
{
    match (a, b) {
        (Some(x), Some(y)) => x == y,
        (None, None) => true,
        _ => false,
    }
}

/// Every cell on a path from the seed lies in any set that holds the seed and
/// is closed under stepping to an edge-sharing cell of the seed's value.
proof fn lemma_closed_holds_region(cells: Seq<Cell>, w: int, seed: int, s: Set<int>, p: Seq<int>, k: int)
    requires
        is_path(cells, w, seed, p),
        0 <= k < p.len(),
        s.contains(seed),
        forall|a: int, b: int|
            #![trigger s.contains(a), adjacent4(w, a, b)]
            s.contains(a) && 0 <= b < cells.len() && adjacent4(w, a, b) && cells[b] == cells[seed]
                ==> s.contains(b),
    ensures
        s.contains(p[k]),
    decreases k,
{
    if k > 0 {
        lemma_closed_holds_region(cells, w, seed, s, p, k - 1);
        assert(adjacent4(w, p[k - 1], p[k]));
        assert(s.contains(p[k - 1]));
    }
}

/// The in-bounds edge neighbours of `(px, py)`, in the order the fill visits them:
/// left, right, up, down.
pub open spec fn neighbors(px: u32, py: u32, w: int, h: int) -> Seq<(u32, u32)> {
    let s0 = Seq::<(u32, u32)>::empty();
    let s1 = if px > 0 {
        s0.push(((px - 1) as u32, py))
    } else {
        s0
    };
    let s2 = if px + 1 < w {
        s1.push(((px + 1) as u32, py))
    } else {
        s1
    };
    let s3 = if py > 0 {
        s2.push((px, (py - 1) as u32))
    } else {
        s2
    };
    if py + 1 < h {
        s3.push((px, (py + 1) as u32))
    } else {
        s3
    }
}

/// The positions of `neighbors`: each entry is an in-bounds edge neighbour,
/// and each in-bounds edge neighbour sits at its place in the order.
proof fn lemma_neighbors(px: u32, py: u32, w: int, h: int)
    requires
        px < w,
        py < h,
    ensures
        ({
            let nb = neighbors(px, py, w, h);
            let l: int = if px > 0 {
                1
            } else {
                0
            };
            let r: int = if px + 1 < w {
                1
            } else {
                0
            };
            let u: int = if py > 0 {
                1
            } else {
                0
            };
            &&& nb.len() == l + r + u + (if py + 1 < h {
                1int
            } else {
                0
            })
            &&& px > 0 ==> nb[0] == ((px - 1) as u32, py)
            &&& px + 1 < w ==> nb[l] == ((px + 1) as u32, py)
            &&& py > 0 ==> nb[l + r] == (px, (py - 1) as u32)
            &&& py + 1 < h ==> nb[l + r + u] == (px, (py + 1) as u32)
            &&& forall|t: int|
                0 <= t < nb.len() ==> (px > 0 && #[trigger] nb[t] == ((px - 1) as u32, py)) || (px
                    + 1 < w && nb[t] == ((px + 1) as u32, py)) || (py > 0 && nb[t] == (
                    px,
                    (py - 1) as u32,
                )) || (py + 1 < h && nb[t] == (px, (py + 1) as u32))
        }),
{
    let s0 = Seq::<(u32, u32)>::empty();
    let s1 = if px > 0 {
        s0.push(((px - 1) as u32, py))
    } else {
        s0
    };
    let s2 = if px + 1 < w {
        s1.push(((px + 1) as u32, py))
    } else {
        s1
    };
    let s3 = if py > 0 {
        s2.push((px, (py - 1) as u32))
    } else {
        s2
    };
    let nb = neighbors(px, py, w, h);
    assert(forall|t: int| 0 <= t < s1.len() ==> s1[t] == ((px - 1) as u32, py) && px > 0);
    assert(forall|t: int|
        0 <= t < s2.len() ==> (px > 0 && #[trigger] s2[t] == ((px - 1) as u32, py)) || (px + 1 < w
            && s2[t] == ((px + 1) as u32, py)));
    assert(forall|t: int|
        0 <= t < s3.len() ==> (px > 0 && #[trigger] s3[t] == ((px - 1) as u32, py)) || (px + 1 < w
            && s3[t] == ((px + 1) as u32, py)) || (py > 0 && s3[t] == (px, (py - 1) as u32)));
}

/// What the fill loop keeps: the filled cells `done` lie in the seed's region;
/// every pending entry is on the grid and is the seed or touches a filled
/// cell; the seed is filled or pending; and every unfilled neighbour of a
/// filled cell that holds the target value is pending.
#[verifier::opaque]
pub open spec fn fill_state(
    base: Seq<Cell>,
    w: int,
    h: int,
    seed: int,
    target: Cell,
    done: Set<int>,
    stack: Seq<(u32, u32)>,
) -> bool {
    &&& done.subset_of(set_int_range(0, w * h))
    &&& done.finite()
    &&& forall|i: int| #[trigger] done.contains(i) ==> region(base, w, seed).contains(i)
    &&& forall|j: int| 0 <= j < stack.len() ==> (#[trigger] stack[j]).0 < w && stack[j].1 < h
    &&& forall|j: int|
        0 <= j < stack.len() ==> index_of(w, #[trigger] stack[j]) == seed || exists|a: int|
            #[trigger] done.contains(a) && adjacent4(w, a, index_of(w, stack[j]))
    &&& done.contains(seed) || exists|j: int|
        0 <= j < stack.len() && index_of(w, #[trigger] stack[j]) == seed
    &&& forall|a: int, b: int|
        #![trigger done.contains(a), adjacent4(w, a, b)]
        done.contains(a) && 0 <= b < w * h && adjacent4(w, a, b) && base[b] == target
            ==> done.contains(b) || exists|j: int|
            0 <= j < stack.len() && index_of(w, #[trigger] stack[j]) == b
}

/// Dropping the top entry keeps the fill state when that cell is already
/// filled or does not hold the target value.
proof fn lemma_fill_drop(
    base: Seq<Cell>,
    w: int,
    h: int,
    seed: int,
    target: Cell,
    done: Set<int>,
    stack: Seq<(u32, u32)>,
)
    requires
        1 <= w,
        1 <= h,
        base.len() == w * h,
        0 <= seed < w * h,
        base[seed] == target,
        stack.len() > 0,
        fill_state(base, w, h, seed, target, done, stack),
        done.contains(index_of(w, stack.last())) || base[index_of(w, stack.last())] != target,
    ensures
        fill_state(base, w, h, seed, target, done, stack.drop_last()),
{
    reveal(fill_state);
    let q = index_of(w, stack.last());
    let rest = stack.drop_last();
    assert forall|a: int, b: int|
        #![trigger done.contains(a), adjacent4(w, a, b)]
        done.contains(a) && 0 <= b < w * h && adjacent4(w, a, b) && base[b] == target
            implies done.contains(b) || exists|j: int|
            0 <= j < rest.len() && index_of(w, #[trigger] rest[j]) == b by {
        if !done.contains(b) {
            let j0 = choose|j: int| 0 <= j < stack.len() && index_of(w, #[trigger] stack[j]) == b;
            if j0 < stack.len() - 1 {
                assert(rest[j0] == stack[j0]);
            }
        }
    }
    if !done.contains(seed) {
        let j0 = choose|j: int| 0 <= j < stack.len() && index_of(w, #[trigger] stack[j]) == seed;
        if j0 < stack.len() - 1 {
            assert(rest[j0] == stack[j0]);
        }
    }
    assert forall|j: int|
        0 <= j < rest.len() implies index_of(w, #[trigger] rest[j]) == seed || exists|a: int|
            #[trigger] done.contains(a) && adjacent4(w, a, index_of(w, rest[j])) by {
        assert(rest[j] == stack[j]);
    }
    assert forall|j: int| 0 <= j < rest.len() implies (#[trigger] rest[j]).0 < w && rest[j].1 < h by {
        assert(rest[j] == stack[j]);
    }
}

/// A target-valued cell that touches a filled cell, or the seed itself, lies in the region.
proof fn lemma_fill_reach(base: Seq<Cell>, w: int, seed: int, done: Set<int>, q: int)
    requires
        0 <= seed < base.len(),
        0 <= q < base.len(),
        base[q] == base[seed],
        forall|i: int| #[trigger] done.contains(i) ==> region(base, w, seed).contains(i),
        q == seed || exists|a: int| #[trigger] done.contains(a) && adjacent4(w, a, q),
    ensures
        region(base, w, seed).contains(q),
{
    if q == seed {
        assert(is_path(base, w, seed, seq![seed]));
    } else {
        let a = choose|a: int| #[trigger] done.contains(a) && adjacent4(w, a, q);
        assert(region(base, w, seed).contains(a));
        let p = choose|p: Seq<int>| #[trigger] is_path(base, w, seed, p) && p.last() == a;
        let p2 = p.push(q);
        assert forall|t: int| 0 <= t < p2.len() implies 0 <= #[trigger] p2[t] < base.len()
            && base[p2[t]] == base[seed] by {
            if t < p.len() {
                assert(p2[t] == p[t]);
            }
        }
        assert forall|t: int| 0 <= t < p2.len() - 1 implies adjacent4(w, #[trigger] p2[t], p2[t + 1]) by {
            if t < p.len() - 1 {
                assert(p2[t] == p[t] && p2[t + 1] == p[t + 1]);
            } else {
                assert(p2[t] == a && p2[t + 1] == q);
            }
        }
        assert(is_path(base, w, seed, p2));
        assert(p2.last() == q);
    }
}

/// The neighbours of a cell are on the grid and share an edge with it, and
/// every cell that shares an edge with it is among them.
proof fn lemma_neighbor_cells(px: u32, py: u32, w: int, h: int)
    requires
        1 <= w <= MAX_SIZE,
        1 <= h <= MAX_SIZE,
        px < w,
        py < h,
    ensures
        forall|t: int|
            0 <= t < neighbors(px, py, w, h).len() ==> (#[trigger] neighbors(px, py, w, h)[t]).0 < w
                && neighbors(px, py, w, h)[t].1 < h && adjacent4(
                w,
                index_of(w, (px, py)),
                index_of(w, neighbors(px, py, w, h)[t]),
            ),
        forall|b: int|
            0 <= b < w * h && #[trigger] adjacent4(w, index_of(w, (px, py)), b) ==> exists|t: int|
                0 <= t < neighbors(px, py, w, h).len() && index_of(w, #[trigger] neighbors(px, py, w, h)[t]) == b,
{
    let nb = neighbors(px, py, w, h);
    let q = index_of(w, (px, py));
    lemma_neighbors(px, py, w, h);
    lemma_position_cell(w, h, py as int, px as int);
    assert((py - 1) * w == py * w - w) by (nonlinear_arith);
    assert((py + 1) * w == py * w + w) by (nonlinear_arith);
    assert forall|t: int| 0 <= t < nb.len() implies (#[trigger] nb[t]).0 < w && nb[t].1 < h
        && adjacent4(w, q, index_of(w, nb[t])) by {
        let e = nb[t];
        assert(e.0 < w && e.1 < h);
        lemma_position_cell(w, h, e.1 as int, e.0 as int);
        if px > 0 && e == ((px - 1) as u32, py) {
            assert(row(w, index_of(w, e)) == py && col(w, index_of(w, e)) == px - 1);
        } else if px + 1 < w && e == ((px + 1) as u32, py) {
            assert(row(w, index_of(w, e)) == py && col(w, index_of(w, e)) == px + 1);
        } else if py > 0 && e == (px, (py - 1) as u32) {
            assert(row(w, index_of(w, e)) == py - 1 && col(w, index_of(w, e)) == px);
        } else {
            assert(e == (px, (py + 1) as u32));
            assert(row(w, index_of(w, e)) == py + 1 && col(w, index_of(w, e)) == px);
        }
    }
    assert forall|b: int| 0 <= b < w * h && #[trigger] adjacent4(w, q, b) implies exists|t: int|
        0 <= t < nb.len() && index_of(w, #[trigger] nb[t]) == b by {
        lemma_cell_position(w, h, b);
        let rb = row(w, b);
        let cb = col(w, b);
        let l: int = if px > 0 {
            1
        } else {
            0
        };
        let r: int = if px + 1 < w {
            1
        } else {
            0
        };
        let u: int = if py > 0 {
            1
        } else {
            0
        };
        if rb == py && cb == px - 1 {
            assert(index_of(w, nb[0]) == b);
        } else if rb == py && cb == px + 1 {
            assert(index_of(w, nb[l]) == b);
        } else if cb == px && rb == py - 1 {
            assert(index_of(w, nb[l + r]) == b);
        } else {
            assert(cb == px && rb == py + 1);
            assert(nb[l + r + u] == (px, (py + 1) as u32));
            assert(b == (py + 1) * w + px);
            assert(index_of(w, nb[l + r + u]) == b);
        }
    }
}

/// Filling the top entry's cell, when it holds the target value and is not yet
/// filled, and pushing its neighbours keeps the fill state; the cell lies in
/// the seed's region.
#[verifier::spinoff_prover]
#[verifier::rlimit(60)]
proof fn lemma_fill_step(
    base: Seq<Cell>,
    w: int,
    h: int,
    seed: int,
    target: Cell,
    done: Set<int>,
    stack: Seq<(u32, u32)>,
)
    requires
        1 <= w <= MAX_SIZE,
        1 <= h <= MAX_SIZE,
        base.len() == w * h,
        0 <= seed < w * h,
        base[seed] == target,
        stack.len() > 0,
        fill_state(base, w, h, seed, target, done, stack),
        !done.contains(index_of(w, stack.last())),
        base[index_of(w, stack.last())] == target,
    ensures
        region(base, w, seed).contains(index_of(w, stack.last())),
        fill_state(
            base,
            w,
            h,
            seed,
            target,
            done.insert(index_of(w, stack.last())),
            stack.drop_last() + neighbors(stack.last().0, stack.last().1, w, h),
        ),
{
    reveal(fill_state);
    let (px, py) = stack.last();
    let q = index_of(w, stack.last());
    let popped = stack.drop_last();
    let nb = neighbors(px, py, w, h);
    let next = popped + nb;
    let done2 = done.insert(q);
    assert(px < w && py < h);
    lemma_position_cell(w, h, py as int, px as int);
    if q != seed {
        assert(index_of(w, stack[stack.len() - 1]) != seed);
    }
    lemma_fill_reach(base, w, seed, done, q);
    lemma_neighbor_cells(px, py, w, h);
    assert forall|j: int| 0 <= j < next.len() implies (#[trigger] next[j]).0 < w && next[j].1 < h by {
        if j < popped.len() {
            assert(next[j] == stack[j]);
        } else {
            assert(next[j] == nb[j - popped.len()]);
        }
    }
    assert forall|j: int|
        0 <= j < next.len() implies index_of(w, #[trigger] next[j]) == seed || exists|a: int|
            #[trigger] done2.contains(a) && adjacent4(w, a, index_of(w, next[j])) by {
        if j >= popped.len() {
            assert(next[j] == nb[j - popped.len()]);
            assert(done2.contains(q) && adjacent4(w, q, index_of(w, next[j])));
        } else {
            assert(next[j] == stack[j]);
            if index_of(w, next[j]) != seed {
                let a = choose|a: int|
                    #[trigger] done.contains(a) && adjacent4(w, a, index_of(w, stack[j]));
                assert(done2.contains(a) && adjacent4(w, a, index_of(w, next[j])));
            }
        }
    }
    if !done.contains(seed) && seed != q {
        let j0 = choose|j: int| 0 <= j < stack.len() && index_of(w, #[trigger] stack[j]) == seed;
        assert(j0 < stack.len() - 1);
        assert(next[j0] == stack[j0]);
    }
    assert forall|a: int, b: int|
        #![trigger done2.contains(a), adjacent4(w, a, b)]
        done2.contains(a) && 0 <= b < w * h && adjacent4(w, a, b) && base[b] == target
            implies done2.contains(b) || exists|j: int|
            0 <= j < next.len() && index_of(w, #[trigger] next[j]) == b by {
        if !done2.contains(b) {
            if a == q {
                let t = choose|t: int| 0 <= t < nb.len() && index_of(w, #[trigger] nb[t]) == b;
                assert(next[popped.len() + t] == nb[t]);
            } else {
                assert(done.contains(a));
                let j0 = choose|j: int| 0 <= j < stack.len() && index_of(w, #[trigger] stack[j]) == b;
                assert(j0 < stack.len() - 1);
                assert(next[j0] == stack[j0]);
            }
        }
    }
    assert(done2.subset_of(set_int_range(0, w * h)));
}

/// When nothing is pending, the filled cells are exactly the seed's region.
proof fn lemma_fill_done(base: Seq<Cell>, w: int, h: int, seed: int, target: Cell, done: Set<int>)
    requires
        1 <= w,
        1 <= h,
        base.len() == w * h,
        0 <= seed < w * h,
        base[seed] == target,
        fill_state(base, w, h, seed, target, done, Seq::empty()),
    ensures
        done == region(base, w, seed),
{
    reveal(fill_state);
    let reg = region(base, w, seed);
    assert forall|i: int| reg.contains(i) implies done.contains(i) by {
        let p = choose|p: Seq<int>| #[trigger] is_path(base, w, seed, p) && p.last() == i;
        lemma_closed_holds_region(base, w, seed, done, p, p.len() - 1);
    }
    assert(done =~= reg);
}

/// The fill starts from the seed alone.
proof fn lemma_fill_start(base: Seq<Cell>, w: int, h: int, seed: int, target: Cell, start: (u32, u32))
    requires
        start.0 < w,
        start.1 < h,
        index_of(w, start) == seed,
    ensures
        fill_state(base, w, h, seed, target, Set::empty(), seq![start]),
{
    reveal(fill_state);
    assert(index_of(w, seq![start][0]) == seed);
}

/// Facts of the fill state that the loop itself needs.
proof fn lemma_fill_facts(base: Seq<Cell>, w: int, h: int, seed: int, target: Cell, done: Set<int>, stack: Seq<(u32, u32)>)
    requires
        fill_state(base, w, h, seed, target, done, stack),
    ensures
        done.subset_of(set_int_range(0, w * h)),
        done.finite(),
        forall|j: int| 0 <= j < stack.len() ==> (#[trigger] stack[j]).0 < w && stack[j].1 < h,
{
    reveal(fill_state);
}

/// Flood fill from `(x, y)`: the seed must lie on the canvas and the color
/// must be known; a seed already of that color changes nothing; otherwise the
/// seed's 4-connected region takes the color and its size is the result.
pub open spec fn flood_result(v: CanvasView, x: u32, y: u32, color: Seq<char>) -> Outcome {
    match point_error(v, x, y) {
        Some(e) => (Err(e), v),
        None => match color_index(v.mode, color) {
            None => (Err(ErrorView::UnknownColor { color, mode: v.mode }), v),
            Some(k) => {
                let seed = y * v.width + x;
                if v.cells[seed] == Some(k as usize) {
                    (Ok(0), v)
                } else {
                    (
                        Ok(region(v.cells, v.width as int, seed).len() as usize),
                        with_cells(v, flood(v.cells, v.width as int, seed, Some(k as usize))),
                    )
                }
            },
        },
    }
}

impl Canvas {
    /// 4-connected flood fill replacing the seed color. Returns pixels changed.
    #[verifier::spinoff_prover]
    #[verifier::rlimit(60)]
    pub fn flood_fill(&mut self, x: u32, y: u32, color: &str) -> (r: Result<usize, CanvasError>)
        requires
            old(self).wf(),
        ensures
            final(self).wf(),
            (rview(r), final(self)@) == flood_result(old(self)@, x, y, color@),
            r matches Ok(count) && count > 0 ==> region(
                old(self)@.cells,
                old(self)@.width as int,
                y * old(self)@.width + x,
            ).finite(),
    {
        self.require_point(x, y)?;
        let k = match color_index_of(self.mode, color) {
            Some(k) => k,
            None => {
                return Err(unknown_color(color, self.mode));
            },
        };
        let val: Cell = Some(k);
        let ghost v0 = self@;
        let ghost w = self.width as int;
        let ghost h = self.height as int;
        let ghost len = v0.cells.len() as int;
        let seed_index = cell_index(self.width, self.height, x, y);
        let ghost seed = seed_index as int;
        let target = self.cells[seed_index];
        if same_cell(target, val) {
            return Ok(0);
        }
        let ghost base = v0.cells;
        let mut stack: Vec<(u32, u32)> = Vec::new();
        stack.push((x, y));
        let mut written: usize = 0;
        let ghost mut done: Set<int> = Set::empty();
        proof {
            lemma_int_range(0, len);
            lemma_fill_start(base, w, h, seed, target, (x, y));
            assert(w * h <= 0x4000) by (nonlinear_arith)
                requires
                    1 <= w <= 128,
                    1 <= h <= 128,
            ;
            assert(stack@ =~= seq![(x, y)]);
        }
        while stack.len() > 0
            invariant
                self.wf(),
                self@.width == v0.width,
                self@.height == v0.height,
                self@.mode == v0.mode,
                w == v0.width,
                h == v0.height,
                1 <= w <= 128,
                1 <= h <= 128,
                len == w * h,
                len <= 0x4000,
                base == v0.cells,
                base.len() == len,
                0 <= seed < len,
                base[seed] == target,
                target != val,
                val == Some(k),
                k < palette(v0.mode).len(),
                set_int_range(0, len).finite(),
                set_int_range(0, len).len() == len,
                written == done.len(),
                self@.cells == Seq::new(base.len(), |i: int| if done.contains(i) { val } else { base[i] }),
                fill_state(base, w, h, seed, target, done, stack@),
            decreases 5 * (len - done.len()) + stack@.len(),
        {
            proof {
                lemma_fill_facts(base, w, h, seed, target, done, stack@);
                lemma_len_subset(done, set_int_range(0, len));
            }
            let ghost old_stack = stack@;
            let (px, py) = stack.pop().unwrap();
            assert(old_stack.last() == (px, py));
            assert(old_stack[old_stack.len() - 1] == (px, py));
            assert(stack@ =~= old_stack.drop_last());
            let index = cell_index(self.width, self.height, px, py);
            assert(index_of(w, old_stack.last()) == index);
            if !same_cell(self.cells[index], target) {
                proof {
                    lemma_fill_drop(base, w, h, seed, target, done, old_stack);
                }
                continue;
            }
            proof {
                lemma_fill_step(base, w, h, seed, target, done, old_stack);
            }
            self.cells.set(index, val);
            written = written + 1;
            proof {
                done = done.insert(index as int);
                assert(self@.cells =~= Seq::new(base.len(), |i: int| if done.contains(i) { val } else { base[i] }));
                lemma_fill_facts(base, w, h, seed, target, done, old_stack.drop_last() + neighbors(px, py, w, h));
                lemma_len_subset(done, set_int_range(0, len));
            }
            let ghost popped = stack@;
            if px > 0 {
                stack.push((px - 1, py));
            }
            if px + 1 < self.width {
                stack.push((px + 1, py));
            }
            if py > 0 {
                stack.push((px, py - 1));
            }
            if py + 1 < self.height {
                stack.push((px, py + 1));
            }
            assert(stack@ =~= popped + neighbors(px, py, w, h));
        }
        proof {
            assert(stack@ =~= Seq::<(u32, u32)>::empty());
            lemma_fill_done(base, w, h, seed, target, done);
            lemma_fill_facts(base, w, h, seed, target, done, stack@);
            assert(self@.cells =~= flood(base, w, seed, val));
        }
        Ok(written)
    }
}

/// The RGBA bytes of one cell: its bead's RGB, opaque, or a transparent pixel when empty.
pub open spec fn cell_rgba(mode: PaletteMode, c: Cell) -> Seq<u8> {
    match cell_rgb(mode, c) {
        Some(rgb) => seq![rgb[0], rgb[1], rgb[2], 255u8],
        None => seq![0u8, 0u8, 0u8, 0u8],
    }
}

/// The RGBA bytes of the cells, row by row.
pub open spec fn cells_rgba(mode: PaletteMode, cells: Seq<Cell>) -> Seq<u8>
    decreases cells.len(),
{
    if cells.len() == 0 {
        Seq::empty()
    } else {
        cells_rgba(mode, cells.drop_last()) + cell_rgba(mode, cells.last())
    }
}

/// The 8x preview PNG of a canvas.
pub open spec fn preview_png(v: CanvasView) -> Seq<u8> {
    png_encoding(
        (v.width * SCALE) as u32,
        (v.height * SCALE) as u32,
        scale_up(
            cells_rgba(v.mode, v.cells),
            v.width as int,
            SCALE as int,
            v.width * SCALE,
            v.height * SCALE,
        ),
    )
}

/// The RGBA bytes of the cells hold four bytes per cell, cell `i` at `4 * i`.
proof fn lemma_cells_rgba_index(mode: PaletteMode, cells: Seq<Cell>, i: int, c: int)
    requires
        0 <= i < cells.len(),
        0 <= c < 4,
    ensures
        cells_rgba(mode, cells).len() == 4 * cells.len(),
        cells_rgba(mode, cells)[4 * i + c] == cell_rgba(mode, cells[i])[c],
    decreases cells.len(),
{
    let d = cells.drop_last();
    if i < d.len() {
        lemma_cells_rgba_index(mode, d, i, c);
    } else if d.len() > 0 {
        lemma_cells_rgba_index(mode, d, 0, 0);
    }
}

/// The preview repeats each cell as an 8 by 8 block: pixel `(x, y)` of the
/// scaled image holds the RGBA of cell `(x / 8, y / 8)`, opaque bead colour
/// or transparent when the cell is empty.
pub proof fn law_preview_repeats_cells(v: CanvasView, x: int, y: int, c: int)
    requires
        v.cells.len() == v.width * v.height,
        0 <= x < v.width * SCALE,
        0 <= y < v.height * SCALE,
        0 <= c < 4,
    ensures
        scale_up(
            cells_rgba(v.mode, v.cells),
            v.width as int,
            SCALE as int,
            v.width * SCALE,
            v.height * SCALE,
        )[(y * (v.width * SCALE) + x) * 4 + c] == cell_rgba(v.mode, v.cells[(y / 8) * v.width + x / 8])[c],
{
    let w = v.width as int;
    let h = v.height as int;
    let nw = w * 8;
    let p = y * nw + x;
    let i = p * 4 + c;
    lemma_fundamental_div_mod_converse(i, 4, p, c);
    lemma_fundamental_div_mod_converse(p, nw, y, x);
    assert(0 <= p < nw * (h * 8)) by (nonlinear_arith)
        requires
            0 <= x < nw,
            0 <= y < h * 8,
            p == y * nw + x,
    ;
    assert(0 <= i < nw * (h * 8) * 4) by (nonlinear_arith)
        requires
            0 <= p < nw * (h * 8),
            i == p * 4 + c,
            0 <= c < 4,
    ;
    let k = (y / 8) * w + x / 8;
    assert(0 <= k < w * h) by (nonlinear_arith)
        requires
            0 <= x < w * 8,
            0 <= y < h * 8,
            k == (y / 8) * w + x / 8,
    ;
    lemma_cells_rgba_index(v.mode, v.cells, k, c);
}

impl Canvas {
    /// The canvas as an 8x nearest-neighbour PNG; empty cells are transparent.
    pub fn encode_png_8x(&self) -> (r: Result<Vec<u8>, PngError>)
        requires
            self.wf(),
        ensures
            r matches Ok(bytes) && bytes@ == preview_png(self@),
    {
        let colors = self.mode.colors();
        let mut rgba: Vec<u8> = Vec::new();
        let mut i: usize = 0;
        while i < self.cells.len()
            invariant
                self.wf(),
                colors@ == palette(self@.mode),
                i <= self@.cells.len(),
                rgba@ == cells_rgba(self@.mode, self@.cells.take(i as int)),
                rgba@.len() == 4 * i,
            decreases self@.cells.len() - i,
        {
            match self.cells[i] {
                Some(k) => {
                    let rgb = colors[k].rgb;
                    rgba.push(rgb[0]);
                    rgba.push(rgb[1]);
                    rgba.push(rgb[2]);
                    rgba.push(255u8);
                },
                None => {
                    rgba.push(0u8);
                    rgba.push(0u8);
                    rgba.push(0u8);
                    rgba.push(0u8);
                },
            }
            proof {
                let cs = self@.cells;
                assert(cs.take(i + 1).drop_last() =~= cs.take(i as int));
                assert(cs.take(i + 1).last() == cs[i as int]);
                assert(rgba@ =~= cells_rgba(self@.mode, cs.take(i as int)) + cell_rgba(self@.mode, cs[i as int]));
            }
            i = i + 1;
        }
        assert(self@.cells.take(self@.cells.len() as int) =~= self@.cells);
        assert(self.width * SCALE <= 1024 && self.height * SCALE <= 1024);
        assert(rgba@.len() == self.width * self.height * 4) by (nonlinear_arith)
            requires
                rgba@.len() == 4 * (self.width * self.height),
        ;
        let nw = self.width * SCALE;
        let nh = self.height * SCALE;
        let scaled = resize_nearest(self.width, self.height, rgba, nw, nh);
        match encode_png_rgba(nw, nh, scaled) {
            Ok(bytes) => Ok(bytes),
            Err(e) => Err(PngError { message: image_error_text(&e) }),
        }
    }
}

// ---------------------------------------------------------------------------
// Laws
// ---------------------------------------------------------------------------
/// A refused operation changes nothing: when a batch of stamps, a shape or a
/// flood fill ends in an error, the canvas is exactly as it was.
pub proof fn law_refusal_changes_nothing(
    v: CanvasView,
    us: Seq<Triple>,
    n: u32,
    pts: Seq<(u32, u32)>,
    ps: Seq<(i32, i32)>,
    color: Seq<char>,
    m: int,
    x: u32,
    y: u32,
)
    ensures
        paint_result(v, us, n).0 is Err ==> paint_result(v, us, n).1 == v,
        checked_result(v, pts, shape_result(v, ps, color, m)).0 is Err ==> checked_result(
            v,
            pts,
            shape_result(v, ps, color, m),
        ).1 == v,
        flood_result(v, x, y, color).0 is Err ==> flood_result(v, x, y, color).1 == v,
{
}

/// Drawing keeps the frame: no batch, shape or flood fill changes a canvas's
/// width, height or palette.
pub proof fn law_drawing_keeps_frame(
    v: CanvasView,
    us: Seq<Triple>,
    n: u32,
    pts: Seq<(u32, u32)>,
    ps: Seq<(i32, i32)>,
    color: Seq<char>,
    m: int,
    x: u32,
    y: u32,
)
    ensures
        ({
            let a = paint_result(v, us, n).1;
            a.width == v.width && a.height == v.height && a.mode == v.mode
        }),
        ({
            let a = checked_result(v, pts, shape_result(v, ps, color, m)).1;
            a.width == v.width && a.height == v.height && a.mode == v.mode
        }),
        ({
            let a = flood_result(v, x, y, color).1;
            a.width == v.width && a.height == v.height && a.mode == v.mode
        }),
{
}

/// A stamp writes exactly its square: after a valid batch of one stamp, the
/// cells of the brush square at `(x, y)` hold what the color paints and every
/// other cell is as it was; a named color then reads back as its RGB.
pub proof fn law_stamp_writes_its_square(v: CanvasView, x: u32, y: u32, color: Seq<char>, n: u32)
    requires
        canvas_ok(v),
        n >= 1,
        batch_error(v, seq![(x, y, color)], n, 0) is None,
    ensures
        ({
            let after = paint_result(v, seq![(x, y, color)], n).1;
            let val = stamp_value(v.mode, color)->0;
            &&& after.cells.len() == v.cells.len()
            &&& forall|i: int|
                0 <= i < v.cells.len() ==> #[trigger] after.cells[i] == if in_square(
                    v.width as int,
                    i,
                    x as int,
                    y as int,
                    n as int,
                ) {
                    val
                } else {
                    v.cells[i]
                }
            &&& trim(color) != "-"@ ==> cell_rgb(v.mode, after.cells[y * v.width + x]) == resolve_spec(
                v.mode,
                color,
            )
        }),
{
    let us = seq![(x, y, color)];
    reveal_with_fuel(paint_updates, 2);
    reveal_with_fuel(batch_error, 2);
    assert(us.drop_last() =~= Seq::<Triple>::empty());
    assert(us.last() == (x, y, color));
    assert(update_error(v, us[0], n) is None);
    let w = v.width as int;
    let val = stamp_value(v.mode, color)->0;
    let cells = paint_updates(v, v.cells, us, n);
    assert(paint_updates(v, v.cells, us.drop_last(), n) == v.cells);
    assert(cells == square_fill(v.cells, w, x as int, y as int, n as int, val));
    lemma_position_cell(w, v.height as int, y as int, x as int);
    if trim(color) != "-"@ {
        crate::palette::lemma_find_color(palette(v.mode), trim(color), 0);
        let k = color_index(v.mode, color)->0;
        assert(0 <= k < palette(v.mode).len());
        assert(in_square(w, y * w + x, x as int, y as int, n as int));
        assert(cells[y * w + x] == Some(k as usize));
    }
}

/// Flood fill is idempotent: filling the same seed with the same color a
/// second time finds nothing to change.
pub proof fn law_flood_idempotent(v: CanvasView, x: u32, y: u32, color: Seq<char>)
    requires
        canvas_ok(v),
        flood_result(v, x, y, color).0 is Ok,
    ensures
        ({
            let after = flood_result(v, x, y, color).1;
            flood_result(after, x, y, color) == (Ok::<usize, ErrorView>(0), after)
        }),
{
    let w = v.width as int;
    let seed = y * v.width + x;
    lemma_position_cell(w, v.height as int, y as int, x as int);
    let k = color_index(v.mode, color)->0;
    if v.cells[seed] != Some(k as usize) {
        let p = seq![seed];
        assert(is_path(v.cells, w, seed, p));
        assert(p.last() == seed);
        assert(region(v.cells, w, seed).contains(seed));
    }
}

proof fn lemma_batch_prefix_ok(v: CanvasView, us: Seq<Triple>, t: Triple, n: u32, i: int)
    requires
        0 <= i,
        batch_error(v, us.push(t), n, i) is None,
    ensures
        batch_error(v, us, n, i) is None,
    decreases us.len() - i,
{
    if i < us.len() {
        assert(us.push(t)[i] == us[i]);
        lemma_batch_prefix_ok(v, us, t, n, i + 1);
    }
}

/// Stamps apply in order: in a valid batch, the last stamp decides the cells
/// of its square, and every other cell is as the stamps before it left it.
pub proof fn law_later_stamp_wins(v: CanvasView, us: Seq<Triple>, t: Triple, n: u32)
    requires
        batch_error(v, us.push(t), n, 0) is None,
    ensures
        ({
            let all = paint_result(v, us.push(t), n).1.cells;
            let before = paint_result(v, us, n).1.cells;
            &&& all.len() == before.len()
            &&& forall|i: int|
                0 <= i < before.len() ==> #[trigger] all[i] == if in_square(
                    v.width as int,
                    i,
                    t.0 as int,
                    t.1 as int,
                    n as int,
                ) {
                    stamp_value(v.mode, t.2)->0
                } else {
                    before[i]
                }
        }),
{
    lemma_batch_prefix_ok(v, us, t, n, 0);
    assert(us.push(t).drop_last() =~= us);
    assert(us.push(t).last() == t);
    reveal_with_fuel(batch_error, 1);
    let j = us.len() as int;
    lemma_batch_at(v, us.push(t), n, 0, j);
}

proof fn lemma_batch_at(v: CanvasView, us: Seq<Triple>, n: u32, i: int, j: int)
    requires
        0 <= i <= j < us.len(),
        batch_error(v, us, n, i) is None,
    ensures
        update_error(v, us[j], n) is None,
    decreases j - i,
{
    if i < j {
        lemma_batch_at(v, us, n, i + 1, j);
    }
}

} // verus!
