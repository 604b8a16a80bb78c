//! The drawing server's requests and the parts of handling them that need no
//! I/O: the pixel batch syntax, the tool arguments, and file names for saving.
use vstd::prelude::*;

use vstd::utf8::encode_utf8;

use crate::canvas::{triples_of, PixelUpdate, Triple};
use crate::text::{
    char_is_ascii_alnum, chars_eq_ignore_ascii_case, chars_of, decimal, eq_ignore_ascii_case,
    is_ascii_alnum, char_is_ws, lemma_skip_word_bounds, lemma_skip_ws_bounds, parse_u32,
    parse_u32_chars, push_chars, push_decimal, push_str, lower_ascii, skip_word, skip_ws, string_of,
    sub_chars, words, words_from, trim, trimmed_chars, chars_eq, lemma_decimal_injective,
    lemma_decimal_nonempty,
};

verus! {

pub const MAX_PIXEL_BYTES: usize = 1048576;

pub const MAX_STAMPS: usize = 65536;

pub const MAX_SAVE_SUFFIX: usize = 100;

// ---------------------------------------------------------------------------
// File names
// ---------------------------------------------------------------------------
/// Characters a file name may hold: ASCII letters, digits, `.`, `_` and `-`.
pub open spec fn name_char_ok(c: char) -> bool {
    is_ascii_alnum(c) || c == '.' || c == '_' || c == '-'
}

/// The part of `s` before its first `.` (all of it when there is none).
pub open spec fn first_segment(s: Seq<char>) -> Seq<char>
    decreases s.len(),
{
    if s.len() == 0 || s[0] == '.' {
        Seq::empty()
    } else {
        seq![s[0]] + first_segment(s.drop_first())
    }
}

/// Windows device names, compared without ASCII case: `CON`, `PRN`, `AUX`,
/// `NUL`, and `COM` or `LPT` followed by one digit 1 to 9.
pub open spec fn is_device_name(stem: Seq<char>) -> bool {
    ||| eq_ignore_ascii_case(stem, "CON"@)
    ||| eq_ignore_ascii_case(stem, "PRN"@)
    ||| eq_ignore_ascii_case(stem, "AUX"@)
    ||| eq_ignore_ascii_case(stem, "NUL"@)
    ||| (stem.len() == 4 && (eq_ignore_ascii_case(stem.take(3), "COM"@) || eq_ignore_ascii_case(
        stem.take(3),
        "LPT"@,
    )) && 49 <= stem[3] as u32 && stem[3] as u32 <= 57)
}

/// Whether `s` ends with `.png`, ignoring ASCII case.
pub open spec fn has_png_ext(s: Seq<char>) -> bool {
    s.len() >= 4 && eq_ignore_ascii_case(s.subrange(s.len() - 4, s.len() as int), ".png"@)
}

/// The file name that a requested name gives, or why it is refused. `byte_len`
/// is the name's length in UTF-8 bytes.
pub open spec fn sanitize_spec(raw: Seq<char>, byte_len: int) -> Result<Seq<char>, Seq<char>> {
    if raw.len() == 0 || raw.last() == '.' || byte_len > 200 {
        Err("文件名无效"@)
    } else if !(forall|i: int| 0 <= i < raw.len() ==> name_char_ok(#[trigger] raw[i])) {
        Err("文件名只能包含字母、数字、点、下划线和连字符"@)
    } else if is_device_name(first_segment(raw)) {
        Err("文件名不能使用 Windows 设备名"@)
    } else {
        let name = if has_png_ext(raw) {
            raw
        } else {
            raw + ".png"@
        };
        if name.len() > 200 {
            Err("文件名补全 .png 后不能超过 200 字节"@)
        } else {
            Ok(name)
        }
    }
}

proof fn lemma_first_segment(s: Seq<char>, i: int)
    requires
        0 <= i <= s.len(),
        forall|k: int| 0 <= k < i ==> s[k] != '.',
        i == s.len() || s[i] == '.',
    ensures
        first_segment(s) == s.take(i),
    decreases s.len(),
{
    if s.len() > 0 && s[0] != '.' {
        lemma_first_segment(s.drop_first(), i - 1);
        assert(seq![s[0]] + s.drop_first().take(i - 1) =~= s.take(i));
    } else {
        assert(s.take(i) =~= Seq::<char>::empty());
    }
}

fn is_device_name_exec(stem: &Vec<char>) -> (r: bool)
    ensures
        r == is_device_name(stem@),
{
    if chars_eq_ignore_ascii_case(stem, &chars_of("CON")) || chars_eq_ignore_ascii_case(
        stem,
        &chars_of("PRN"),
    ) || chars_eq_ignore_ascii_case(stem, &chars_of("AUX")) || chars_eq_ignore_ascii_case(
        stem,
        &chars_of("NUL"),
    ) {
        return true;
    }
    if stem.len() != 4 {
        return false;
    }
    let head = sub_chars(stem, 0, 3);
    assert(head@ =~= stem@.take(3));
    let d = stem[3] as u32;
    (chars_eq_ignore_ascii_case(&head, &chars_of("COM")) || chars_eq_ignore_ascii_case(
        &head,
        &chars_of("LPT"),
    )) && 49 <= d && d <= 57
}

/// Check a requested file name and complete it with `.png`.
pub fn sanitize_filename(raw: &str) -> (r: Result<String, String>)
    ensures
        match sanitize_spec(raw@, raw.len() as int) {
            Ok(name) => r matches Ok(s) && s@ == name,
            Err(msg) => r matches Err(s) && s@ == msg,
        },
{
    let name = chars_of(raw);
    if name.len() == 0 || name[name.len() - 1] == '.' || raw.len() > 200 {
        return Err(string_of(&chars_of("文件名无效")));
    }
    let mut i: usize = 0;
    while i < name.len()
        invariant
            i <= name@.len(),
            name@ == raw@,
            name@.len() > 0,
            name@.last() != '.',
            raw.len() <= 200,
            forall|k: int| 0 <= k < i ==> name_char_ok(#[trigger] name@[k]),
        decreases name@.len() - i,
    {
        let c = name[i];
        if !(char_is_ascii_alnum(c) || c == '.' || c == '_' || c == '-') {
            assert(!name_char_ok(name@[i as int]));
            assert(!(forall|k: int| 0 <= k < raw@.len() ==> name_char_ok(#[trigger] raw@[k])));
            return Err(string_of(&chars_of("文件名只能包含字母、数字、点、下划线和连字符")));
        }
        i = i + 1;
    }
    let mut dot: usize = 0;
    while dot < name.len() && name[dot] != '.'
        invariant
            dot <= name@.len(),
            forall|k: int| 0 <= k < dot ==> name@[k] != '.',
        decreases name@.len() - dot,
    {
        dot = dot + 1;
    }
    proof {
        lemma_first_segment(name@, dot as int);
    }
    let stem = sub_chars(&name, 0, dot);
    assert(stem@ =~= name@.take(dot as int));
    if is_device_name_exec(&stem) {
        return Err(string_of(&chars_of("文件名不能使用 Windows 设备名")));
    }
    let ext = chars_of(".png");
    let has_ext = if name.len() >= 4 {
        let tail = sub_chars(&name, name.len() - 4, name.len());
        chars_eq_ignore_ascii_case(&tail, &ext)
    } else {
        false
    };
    let mut full: Vec<char> = name.clone();
    if !has_ext {
        let mut k: usize = 0;
        while k < ext.len()
            invariant
                k <= ext@.len(),
                full@ == name@ + ext@.take(k as int),
            decreases ext@.len() - k,
        {
            full.push(ext[k]);
            assert(ext@.take(k + 1) =~= ext@.take(k as int).push(ext@[k as int]));
            k = k + 1;
        }
        assert(ext@.take(ext@.len() as int) =~= ext@);
    }
    if full.len() > 200 {
        return Err(string_of(&chars_of("文件名补全 .png 后不能超过 200 字节")));
    }
    Ok(string_of(&full))
}

/// The automatic file name for a moment in seconds since the Unix epoch.
pub open spec fn timestamp_name(secs: u64) -> Seq<char> {
    "pixeldraw-"@ + decimal(secs as nat) + ".png"@
}

pub fn timestamp_filename(secs: u64) -> (s: String)
    ensures
        s@ == timestamp_name(secs),
{
    let mut s = String::new();
    push_str(&mut s, "pixeldraw-");
    push_decimal(&mut s, secs);
    push_str(&mut s, ".png");
    assert(s@ =~= timestamp_name(secs));
    s
}

/// How many numeric suffixes a save may try after its own name: automatic
/// names retry up to `MAX_SAVE_SUFFIX` times, requested names never.
pub fn save_attempts(autogenerated: bool) -> (n: usize)
    ensures
        n == (if autogenerated {
            MAX_SAVE_SUFFIX
        } else {
            0
        }),
{
    if autogenerated {
        MAX_SAVE_SUFFIX
    } else {
        0
    }
}

/// `name` without a trailing `.png` (matched exactly), or all of it.
pub open spec fn strip_png(name: Seq<char>) -> Seq<char> {
    if name.len() >= 4 && name.subrange(name.len() - 4, name.len() as int) == ".png"@ {
        name.take(name.len() - 4)
    } else {
        name
    }
}

/// The name a save tries at a given attempt: the name itself first, then
/// `stem-1.png`, `stem-2.png`, ...
pub open spec fn candidate_spec(name: Seq<char>, suffix: nat) -> Seq<char> {
    if suffix == 0 {
        name
    } else {
        strip_png(name) + "-"@ + decimal(suffix) + ".png"@
    }
}

pub fn save_candidate(name: &str, suffix: usize) -> (s: String)
    ensures
        s@ == candidate_spec(name@, suffix as nat),
{
    let cs = chars_of(name);
    if suffix == 0 {
        return string_of(&cs);
    }
    let ext = chars_of(".png");
    let stem = if cs.len() >= 4 && crate::text::chars_eq(&sub_chars(&cs, cs.len() - 4, cs.len()), &ext) {
        sub_chars(&cs, 0, cs.len() - 4)
    } else {
        cs
    };
    let mut s = string_of(&stem);
    push_str(&mut s, "-");
    push_decimal(&mut s, suffix as u64);
    push_str(&mut s, ".png");
    assert(s@ =~= candidate_spec(name@, suffix as nat));
    s
}

// ---------------------------------------------------------------------------
// Pixel batches
// ---------------------------------------------------------------------------
pub open spec fn too_many_bytes_message() -> Seq<char> {
    "像素字符串不能超过 1 MiB（1048576 字节）"@
}

pub open spec fn too_many_stamps_message() -> Seq<char> {
    "每次最多允许 65536 个落点"@
}

pub open spec fn arity_message(n: nat) -> Seq<char> {
    "像素字符串格式无效：应为「x y 颜色」三元组（可用空格或换行分隔），当前有 "@ + decimal(n)
        + " 个词，不是 3 的倍数。"@
}

pub open spec fn bad_x_message(t: Seq<char>) -> Seq<char> {
    "无效的 X 坐标「"@ + t + "」，必须是非负整数。"@
}

pub open spec fn bad_y_message(t: Seq<char>) -> Seq<char> {
    "无效的 Y 坐标「"@ + t + "」，必须是非负整数。"@
}

/// Prefix the triples of a successful parse; an error stays as it is.
pub open spec fn prepend(p: Seq<Triple>, r: Result<Seq<Triple>, Seq<char>>) -> Result<Seq<Triple>, Seq<char>> {
    match r {
        Ok(rest) => Ok(p + rest),
        Err(e) => Err(e),
    }
}

/// The stamps of the words from the `j`-th triple on; the first bad
/// coordinate, in order, is the error.
pub open spec fn triples_from(ws: Seq<Seq<char>>, j: int) -> Result<Seq<Triple>, Seq<char>>
    decreases ws.len() - 3 * j,
{
    if j < 0 || 3 * j + 3 > ws.len() {
        Ok(Seq::empty())
    } else {
        match parse_u32(ws[3 * j]) {
            None => Err(bad_x_message(ws[3 * j])),
            Some(x) => match parse_u32(ws[3 * j + 1]) {
                None => Err(bad_y_message(ws[3 * j + 1])),
                Some(y) => prepend(seq![(x, y, ws[3 * j + 2])], triples_from(ws, j + 1)),
            },
        }
    }
}

/// The stamps of a pixel batch: `x y color` triples separated by any
/// whitespace. At most 1 MiB of text and 65536 stamps.
pub open spec fn parse_pixels_spec(s: Seq<char>, byte_len: int) -> Result<Seq<Triple>, Seq<char>> {
    if byte_len > MAX_PIXEL_BYTES {
        Err(too_many_bytes_message())
    } else {
        let ws = words(s);
        if ws.len() > 3 * MAX_STAMPS {
            Err(too_many_stamps_message())
        } else if ws.len() == 0 {
            Ok(Seq::empty())
        } else if ws.len() % 3 != 0 {
            Err(arity_message(ws.len()))
        } else {
            triples_from(ws, 0)
        }
    }
}

/// The words that index pairs cut out of `s`.
pub open spec fn cut(s: Seq<char>, toks: Seq<(usize, usize)>) -> Seq<Seq<char>> {
    toks.map_values(|p: (usize, usize)| s.subrange(p.0 as int, p.1 as int))
}

proof fn lemma_words_step(s: Seq<char>, i: int, a: int, b: int)
    requires
        0 <= i <= s.len(),
        a == skip_ws(s, i),
        a < s.len(),
        b == skip_word(s, a),
    ensures
        a < b <= s.len(),
        words_from(s, i) == seq![s.subrange(a, b)] + words_from(s, b),
{
    lemma_skip_ws_bounds(s, i);
    lemma_skip_word_bounds(s, a);
}

/// Split the batch into word bounds; stops once there are more words than
/// the batch may hold.
fn split_words(cs: &Vec<char>) -> (toks: Vec<(usize, usize)>)
    ensures
        toks@.len() <= 3 * MAX_STAMPS + 1,
        forall|k: int| 0 <= k < toks@.len() ==> (#[trigger] toks@[k]).0 <= toks@[k].1 <= cs@.len(),
        toks@.len() <= 3 * MAX_STAMPS ==> cut(cs@, toks@) == words(cs@),
        toks@.len() > 3 * MAX_STAMPS ==> words(cs@).len() > 3 * MAX_STAMPS,
{
    let mut toks: Vec<(usize, usize)> = Vec::new();
    let mut i: usize = 0;
    let ghost s = cs@;
    loop
        invariant_except_break
            s == cs@,
            i <= s.len(),
            toks@.len() <= 3 * MAX_STAMPS,
            forall|k: int| 0 <= k < toks@.len() ==> (#[trigger] toks@[k]).0 <= toks@[k].1 <= s.len(),
            cut(s, toks@) + words_from(s, i as int) == words(s),
        ensures
            toks@.len() <= 3 * MAX_STAMPS + 1,
            forall|k: int| 0 <= k < toks@.len() ==> (#[trigger] toks@[k]).0 <= toks@[k].1 <= s.len(),
            toks@.len() <= 3 * MAX_STAMPS ==> cut(s, toks@) == words(s),
            toks@.len() > 3 * MAX_STAMPS ==> words(s).len() > 3 * MAX_STAMPS,
        decreases s.len() - i,
    {
        let mut a = i;
        while a < cs.len() && char_is_ws(cs[a])
            invariant
                s == cs@,
                i <= a <= s.len(),
                skip_ws(s, i as int) == skip_ws(s, a as int),
            decreases s.len() - a,
        {
            a = a + 1;
        }
        proof {
            lemma_skip_ws_bounds(s, i as int);
        }
        if a >= cs.len() {
            assert(words_from(s, i as int) =~= Seq::<Seq<char>>::empty());
            assert(cut(s, toks@) + words_from(s, i as int) =~= cut(s, toks@));
            break;
        }
        let mut b = a;
        while b < cs.len() && !char_is_ws(cs[b])
            invariant
                s == cs@,
                a <= b <= s.len(),
                skip_word(s, a as int) == skip_word(s, b as int),
            decreases s.len() - b,
        {
            b = b + 1;
        }
        proof {
            lemma_words_step(s, i as int, a as int, b as int);
        }
        let ghost before = toks@;
        toks.push((a, b));
        assert(cut(s, toks@) =~= cut(s, before).push(s.subrange(a as int, b as int)));
        assert(cut(s, toks@) + words_from(s, b as int) =~= cut(s, before) + words_from(s, i as int));
        i = b;
        if toks.len() > 3 * MAX_STAMPS {
            assert(words(s).len() >= cut(s, toks@).len());
            break;
        }
    }
    toks
}

/// Parse `x y color` triplets separated by any whitespace, including newlines.
pub fn parse_pixels(raw: &str) -> (r: Result<Vec<PixelUpdate>, String>)
    ensures
        match parse_pixels_spec(raw@, raw.len() as int) {
            Ok(ts) => r matches Ok(us) && triples_of(us@) == ts && us@.len() <= MAX_STAMPS,
            Err(msg) => r matches Err(e) && e@ == msg,
        },
{
    if raw.len() > MAX_PIXEL_BYTES {
        return Err(string_of(&chars_of("像素字符串不能超过 1 MiB（1048576 字节）")));
    }
    let cs = chars_of(raw);
    let toks = split_words(&cs);
    let ghost ws = words(cs@);
    if toks.len() > 3 * MAX_STAMPS {
        return Err(string_of(&chars_of("每次最多允许 65536 个落点")));
    }
    assert(cut(cs@, toks@) == ws);
    if toks.len() == 0 {
        let none: Vec<PixelUpdate> = Vec::new();
        assert(triples_of(none@) =~= Seq::<Triple>::empty());
        return Ok(none);
    }
    if toks.len() % 3 != 0 {
        let mut msg = String::new();
        push_str(&mut msg, "像素字符串格式无效：应为「x y 颜色」三元组（可用空格或换行分隔），当前有 ");
        push_decimal(&mut msg, toks.len() as u64);
        push_str(&mut msg, " 个词，不是 3 的倍数。");
        assert(msg@ =~= arity_message(ws.len()));
        return Err(msg);
    }
    let mut updates: Vec<PixelUpdate> = Vec::new();
    let ghost mut done: Seq<Triple> = Seq::empty();
    let mut j: usize = 0;
    let count = toks.len() / 3;
    while j < count
        invariant
            cut(cs@, toks@) == ws,
            ws.len() == toks@.len(),
            ws.len() % 3 == 0,
            count == ws.len() / 3,
            ws.len() <= 3 * MAX_STAMPS,
            forall|k: int| 0 <= k < toks@.len() ==> (#[trigger] toks@[k]).0 <= toks@[k].1 <= cs@.len(),
            parse_pixels_spec(raw@, raw.len() as int) == triples_from(ws, 0),
            j <= count,
            done.len() == j,
            updates@.len() == j,
            triples_from(ws, 0) == prepend(done, triples_from(ws, j as int)),
            forall|k: int|
                0 <= k < j ==> (#[trigger] updates@[k]).x == done[k].0 && updates@[k].y == done[k].1
                    && updates@[k].color@ == done[k].2,
        decreases count - j,
    {
        let (xa, xb) = toks[3 * j];
        let (ya, yb) = toks[3 * j + 1];
        let (ca, cb) = toks[3 * j + 2];
        let xw = sub_chars(&cs, xa, xb);
        let yw = sub_chars(&cs, ya, yb);
        let cw = sub_chars(&cs, ca, cb);
        assert(xw@ == ws[3 * j as int]);
        assert(yw@ == ws[3 * j + 1]);
        assert(cw@ == ws[3 * j + 2]);
        let x = match parse_u32_chars(&xw) {
            Some(x) => x,
            None => {
                let mut msg = String::new();
                push_str(&mut msg, "无效的 X 坐标「");
                push_chars(&mut msg, &xw);
                push_str(&mut msg, "」，必须是非负整数。");
                assert(msg@ =~= bad_x_message(xw@));
                return Err(msg);
            },
        };
        let y = match parse_u32_chars(&yw) {
            Some(y) => y,
            None => {
                let mut msg = String::new();
                push_str(&mut msg, "无效的 Y 坐标「");
                push_chars(&mut msg, &yw);
                push_str(&mut msg, "」，必须是非负整数。");
                assert(msg@ =~= bad_y_message(yw@));
                return Err(msg);
            },
        };
        updates.push(PixelUpdate { x, y, color: string_of(&cw) });
        proof {
            let t = (x, y, cw@);
            let next = triples_from(ws, j + 1);
            assert(triples_from(ws, j as int) == prepend(seq![t], next));
            assert(done + seq![t] =~= done.push(t));
            match next {
                Ok(rest) => {
                    assert(done + (seq![t] + rest) =~= done.push(t) + rest);
                },
                Err(e) => {},
            }
            done = done.push(t);
        }
        j = j + 1;
    }
    proof {
        assert(triples_from(ws, count as int) == Ok::<Seq<Triple>, Seq<char>>(Seq::empty()));
        assert(done + Seq::<Triple>::empty() =~= done);
        assert(triples_of(updates@) =~= done);
    }
    Ok(updates)
}

// ---------------------------------------------------------------------------
// Tool requests
// ---------------------------------------------------------------------------
/// `create_canvas`: the size in pixels, each side in `1..=128`, the palette
/// mode, `24`, `144` or `221` (default `221`), locked for the canvas's
/// lifetime, and the background, `white` H2 beads (default) or `empty` cells.
#[derive(Debug)]
pub struct CreateCanvasRequest {
    pub width: u32,
    pub height: u32,
    pub palette: Option<String>,
    pub background: Option<String>,
}

/// `list_colors`: the mode to list when no canvas exists; ignored otherwise.
#[derive(Debug)]
pub struct ListColorsRequest {
    pub palette: Option<String>,
}

impl Default for ListColorsRequest {
    fn default() -> (r: Self)
        ensures
            r.palette is None,
    {
        ListColorsRequest { palette: None }
    }
}

/// `draw_pixels`: `x y color` triples in one string, and the brush (1, 2, 4
/// or 8, default 1).
#[derive(Debug)]
pub struct DrawPixelsRequest {
    pub pixels: String,
    pub brush: Option<u32>,
}

/// `draw_line`: both end points on the canvas, a color and a brush width.
#[derive(Debug)]
pub struct DrawLineRequest {
    pub x0: u32,
    pub y0: u32,
    pub x1: u32,
    pub y1: u32,
    pub color: String,
    pub brush: Option<u32>,
}

/// `draw_rect`: two opposite corners on the canvas; filled or stroked.
#[derive(Debug)]
pub struct DrawRectRequest {
    pub x0: u32,
    pub y0: u32,
    pub x1: u32,
    pub y1: u32,
    pub color: String,
    pub fill: bool,
    pub brush: Option<u32>,
}

/// `draw_triangle`: three corners on the canvas; filled or stroked.
#[derive(Debug)]
pub struct DrawTriangleRequest {
    pub x0: u32,
    pub y0: u32,
    pub x1: u32,
    pub y1: u32,
    pub x2: u32,
    pub y2: u32,
    pub color: String,
    pub fill: bool,
    pub brush: Option<u32>,
}

/// `draw_circle`: the center on the canvas and a radius that may reach past it.
#[derive(Debug)]
pub struct DrawCircleRequest {
    pub cx: u32,
    pub cy: u32,
    pub radius: u32,
    pub color: String,
    pub fill: bool,
    pub brush: Option<u32>,
}

/// `draw_ellipse`: the center on the canvas and the two radii.
#[derive(Debug)]
pub struct DrawEllipseRequest {
    pub cx: u32,
    pub cy: u32,
    pub rx: u32,
    pub ry: u32,
    pub color: String,
    pub fill: bool,
    pub brush: Option<u32>,
}

/// One step of `draw_batch`: a drawing tool's request. An ellipse step
/// carries its stroke outline, rasterized by the caller.
#[derive(Debug)]
pub enum DrawStep {
    Pixels(DrawPixelsRequest),
    Line(DrawLineRequest),
    Rect(DrawRectRequest),
    Triangle(DrawTriangleRequest),
    Circle(DrawCircleRequest),
    Ellipse(DrawEllipseRequest, Vec<(i32, i32)>),
    Flood(FloodFillRequest),
}

/// `draw_batch`: drawing steps applied in order, all or nothing.
#[derive(Debug)]
pub struct DrawBatchRequest {
    pub steps: Vec<DrawStep>,
}

/// `flood_fill`: the seed on the canvas and the new color.
#[derive(Debug)]
pub struct FloodFillRequest {
    pub x: u32,
    pub y: u32,
    pub color: String,
}

/// `save_image`: the file name to use, or none for a timestamped one, and
/// what to export: `pixel` (default), `pattern` or `both`.
#[derive(Debug)]
pub struct SaveImageRequest {
    pub filename: Option<String>,
    pub output: Option<String>,
}

/// What a save writes: the 8x pixel art, the bead chart, or both (the chart
/// under the pixel art's name with `-pattern`).
#[derive(Debug, Clone, Copy, PartialEq, Eq, Structural)]
pub enum ExportKind {
    Pixel,
    Pattern,
    Both,
}

/// The text of an optional string.
pub open spec fn opt_string(o: Option<String>) -> Option<Seq<char>> {
    match o {
        Some(s) => Some(s@),
        None => None,
    }
}

/// Length in UTF-8 bytes, as `str::len` gives it.
pub open spec fn byte_len(s: Seq<char>) -> int {
    encode_utf8(s).len() as usize as int
}
/// The message for a background argument that names none.
pub open spec fn bad_background_message(t: Seq<char>) -> Seq<char> {
    "背景参数无效：「"@ + t + "」。请使用 \"white\" 或 \"empty\"。"@
}

/// Background selection: missing or blank input means white beads; otherwise
/// the trimmed text must be `white` or `empty`. The result says whether the
/// canvas starts empty.
pub open spec fn parse_background(input: Option<Seq<char>>) -> Result<bool, Seq<char>> {
    match input {
        None => Ok(false),
        Some(s) => {
            let t = trim(s);
            if t.len() == 0 || t == "white"@ {
                Ok(false)
            } else if t == "empty"@ {
                Ok(true)
            } else {
                Err(bad_background_message(t))
            }
        },
    }
}

pub(crate) fn background_of(input: &Option<String>) -> (r: Result<bool, String>)
    ensures
        match parse_background(opt_string(*input)) {
            Ok(e) => r == Ok::<bool, String>(e),
            Err(msg) => r matches Err(m) && m@ == msg,
        },
{
    match input {
        None => Ok(false),
        Some(s) => {
            let t = trimmed_chars(s.as_str());
            if t.len() == 0 || chars_eq(&t, &chars_of("white")) {
                return Ok(false);
            }
            if chars_eq(&t, &chars_of("empty")) {
                return Ok(true);
            }
            let mut msg = String::new();
            push_str(&mut msg, "背景参数无效：「");
            push_chars(&mut msg, &t);
            push_str(&mut msg, "」。请使用 \"white\" 或 \"empty\"。");
            assert(msg@ =~= bad_background_message(t@));
            Err(msg)
        },
    }
}

/// The message for an output argument that names no export.
pub open spec fn bad_export_message(t: Seq<char>) -> Seq<char> {
    "输出参数无效：「"@ + t + "」。请使用 \"pixel\"、\"pattern\" 或 \"both\"。"@
}

/// Export selection: missing or blank input means the pixel art; otherwise
/// the trimmed text must be `pixel`, `pattern` or `both`.
pub open spec fn parse_export(input: Option<Seq<char>>) -> Result<ExportKind, Seq<char>> {
    match input {
        None => Ok(ExportKind::Pixel),
        Some(s) => {
            let t = trim(s);
            if t.len() == 0 || t == "pixel"@ {
                Ok(ExportKind::Pixel)
            } else if t == "pattern"@ {
                Ok(ExportKind::Pattern)
            } else if t == "both"@ {
                Ok(ExportKind::Both)
            } else {
                Err(bad_export_message(t))
            }
        },
    }
}

pub(crate) fn export_of(input: &Option<String>) -> (r: Result<ExportKind, String>)
    ensures
        match parse_export(opt_string(*input)) {
            Ok(k) => r == Ok::<ExportKind, String>(k),
            Err(msg) => r matches Err(m) && m@ == msg,
        },
{
    match input {
        None => Ok(ExportKind::Pixel),
        Some(s) => {
            let t = trimmed_chars(s.as_str());
            if t.len() == 0 || chars_eq(&t, &chars_of("pixel")) {
                return Ok(ExportKind::Pixel);
            }
            if chars_eq(&t, &chars_of("pattern")) {
                return Ok(ExportKind::Pattern);
            }
            if chars_eq(&t, &chars_of("both")) {
                return Ok(ExportKind::Both);
            }
            let mut msg = String::new();
            push_str(&mut msg, "输出参数无效：「");
            push_chars(&mut msg, &t);
            push_str(&mut msg, "」。请使用 \"pixel\"、\"pattern\" 或 \"both\"。");
            assert(msg@ =~= bad_export_message(t@));
            Err(msg)
        },
    }
}

// ---------------------------------------------------------------------------
// Names of saved files
// ---------------------------------------------------------------------------
/// The chart's file name beside the pixel art `name`: `stem-pattern.png`.
pub open spec fn pattern_file(name: Seq<char>) -> Seq<char> {
    strip_png(name) + "-pattern.png"@
}

pub open spec fn pattern_name_too_long() -> Seq<char> {
    "文件名补全 -pattern.png 后不能超过 200 字节"@
}

pub fn pattern_file_name(name: &str) -> (s: String)
    ensures
        s@ == pattern_file(name@),
{
    let cs = chars_of(name);
    let ext = chars_of(".png");
    let stem = if cs.len() >= 4 && crate::text::chars_eq(&sub_chars(&cs, cs.len() - 4, cs.len()), &ext) {
        sub_chars(&cs, 0, cs.len() - 4)
    } else {
        cs
    };
    let mut s = string_of(&stem);
    push_str(&mut s, "-pattern.png");
    assert(s@ =~= pattern_file(name@));
    s
}

/// How many retries a save may make: `MAX_SAVE_SUFFIX` for automatic names,
/// none for requested ones.
pub open spec fn max_suffix(autogenerated: bool) -> nat {
    if autogenerated {
        MAX_SAVE_SUFFIX as nat
    } else {
        0
    }
}

/// The suffix to try after the attempt with `suffix` found its name taken.
pub open spec fn next_suffix_spec(autogenerated: bool, suffix: nat) -> Option<nat> {
    if suffix < max_suffix(autogenerated) {
        Some(suffix + 1)
    } else {
        None
    }
}

/// After the attempt with `suffix` found its name taken: the next suffix to
/// try while attempts remain, else none.
pub fn next_suffix(autogenerated: bool, suffix: usize) -> (r: Option<usize>)
    ensures
        r == (match next_suffix_spec(autogenerated, suffix as nat) {
            Some(n) => Some(n as usize),
            None => None::<usize>,
        }),
{
    if suffix < save_attempts(autogenerated) {
        Some(suffix + 1)
    } else {
        None
    }
}

/// Where a save that starts at attempt `suffix` ends when the files named in
/// `taken` already exist: it writes the first candidate that is free, moving
/// on by `next_suffix`, or gives up (`None`) once no attempt remains.
pub open spec fn save_outcome(name: Seq<char>, autogenerated: bool, taken: Set<Seq<char>>, suffix: nat) -> Option<nat>
    decreases max_suffix(autogenerated) - suffix,
{
    if !taken.contains(candidate_spec(name, suffix)) {
        Some(suffix)
    } else {
        match next_suffix_spec(autogenerated, suffix) {
            Some(n) => save_outcome(name, autogenerated, taken, n),
            None => None,
        }
    }
}

// ---------------------------------------------------------------------------
// Laws
// ---------------------------------------------------------------------------
/// Only the words of a pixel batch count: two batches within the size limit
/// that split into the same words parse the same, however they are spaced.
pub proof fn law_only_words_count(s1: Seq<char>, b1: int, s2: Seq<char>, b2: int)
    requires
        words(s1) == words(s2),
        b1 <= MAX_PIXEL_BYTES,
        b2 <= MAX_PIXEL_BYTES,
    ensures
        parse_pixels_spec(s1, b1) == parse_pixels_spec(s2, b2),
{
}

/// A saved file name is a plain name: only ASCII letters, digits, `.`, `_`
/// and `-` (so no path), ending in `.png` in any case, at most 200 bytes.
pub proof fn law_saved_names_are_plain(raw: Seq<char>, byte_len: int)
    requires
        sanitize_spec(raw, byte_len) is Ok,
    ensures
        ({
            let name = sanitize_spec(raw, byte_len)->Ok_0;
            &&& forall|i: int| 0 <= i < name.len() ==> name_char_ok(#[trigger] name[i])
            &&& has_png_ext(name)
            &&& name.len() <= 200
        }),
{
    let name = sanitize_spec(raw, byte_len)->Ok_0;
    if !has_png_ext(raw) {
        let ext = ".png"@;
        reveal_strlit(".png");
        assert(name == raw + ext);
        assert(name.subrange(name.len() - 4, name.len() as int) =~= ext);
        assert(forall|i: int| 0 <= i < name.len() ==> name_char_ok(#[trigger] name[i])) by {
            assert forall|i: int| 0 <= i < name.len() implies name_char_ok(#[trigger] name[i]) by {
                if i >= raw.len() {
                    assert(name[i] == ext[i - raw.len()]);
                }
            }
        }
    }
}

proof fn lemma_first_segment_append(s: Seq<char>, t: Seq<char>)
    requires
        t.len() > 0,
        t[0] == '.',
    ensures
        first_segment(s + t) == first_segment(s),
    decreases s.len(),
{
    if s.len() == 0 {
        assert(s + t =~= t);
    } else if s[0] != '.' {
        assert((s + t).drop_first() =~= s.drop_first() + t);
        lemma_first_segment_append(s.drop_first(), t);
    }
}

/// A text of ASCII characters takes one UTF-8 byte per character.
proof fn lemma_ascii_utf8_len(s: Seq<char>)
    requires
        forall|i: int| 0 <= i < s.len() ==> (#[trigger] s[i] as u32) <= 127,
    ensures
        encode_utf8(s).len() == s.len(),
    decreases s.len(),
{
    if s.len() > 0 {
        assert((s[0] as u32) <= 127);
        assert forall|i: int| 0 <= i < s.drop_first().len() implies (#[trigger] s.drop_first()[i] as u32) <= 127 by {
            assert(s.drop_first()[i] == s[i + 1]);
        }
        lemma_ascii_utf8_len(s.drop_first());
    }
}

/// A saved name is stable: checking it again, with its own byte length,
/// accepts it unchanged.
pub proof fn law_saved_names_are_stable(raw: Seq<char>, byte_len: int)
    requires
        sanitize_spec(raw, byte_len) is Ok,
    ensures
        ({
            let name = sanitize_spec(raw, byte_len)->Ok_0;
            sanitize_spec(name, crate::server::byte_len(name)) == Ok::<Seq<char>, Seq<char>>(name)
        }),
{
    law_saved_names_are_plain(raw, byte_len);
    let name = sanitize_spec(raw, byte_len)->Ok_0;
    reveal_strlit(".png");
    let ext = ".png"@;
    assert forall|i: int| 0 <= i < name.len() implies (#[trigger] name[i] as u32) <= 127 by {
        assert(name_char_ok(name[i]));
    }
    lemma_ascii_utf8_len(name);
    let tail = name.subrange(name.len() - 4, name.len() as int);
    assert(lower_ascii(tail[3]) == lower_ascii(ext[3]));
    assert(tail[3] == name.last());
    assert(name.last() != '.');
    if !has_png_ext(raw) {
        assert(name == raw + ext);
        lemma_first_segment_append(raw, ext);
    }
}

/// A save tries a new file name at every attempt: two different attempts
/// never name the same file.
pub proof fn law_save_attempts_differ(name: Seq<char>, j: nat, k: nat)
    requires
        j != k,
    ensures
        candidate_spec(name, j) != candidate_spec(name, k),
{
    reveal_strlit(".png");
    reveal_strlit("-");
    let stem = strip_png(name);
    assert(stem.len() + 4 >= name.len());
    if j == 0 || k == 0 {
        let n = if j == 0 {
            k
        } else {
            j
        };
        lemma_decimal_nonempty(n);
        assert(candidate_spec(name, n).len() > name.len());
    } else {
        let cj = candidate_spec(name, j);
        let ck = candidate_spec(name, k);
        if cj == ck {
            let p = stem + "-"@;
            let dj = decimal(j);
            let dk = decimal(k);
            assert(cj == p + dj + ".png"@);
            assert(ck == p + dk + ".png"@);
            assert(".png"@.len() == 4);
            assert(cj.len() == p.len() + dj.len() + 4);
            assert(ck.len() == p.len() + dk.len() + 4);
            assert(dj.len() == dk.len());
            assert(cj.subrange(p.len() as int, (p.len() + dj.len()) as int) =~= dj);
            assert(ck.subrange(p.len() as int, (p.len() + dk.len()) as int) =~= dk);
            lemma_decimal_injective(j, k);
        }
    }
}

proof fn lemma_save_outcome_from(name: Seq<char>, autogenerated: bool, taken: Set<Seq<char>>, s: nat)
    requires
        s <= max_suffix(autogenerated),
    ensures
        match save_outcome(name, autogenerated, taken, s) {
            Some(k) => {
                &&& s <= k <= max_suffix(autogenerated)
                &&& !taken.contains(candidate_spec(name, k))
                &&& forall|j: nat| s <= j < k ==> taken.contains(#[trigger] candidate_spec(name, j))
            },
            None => forall|j: nat|
                s <= j <= max_suffix(autogenerated) ==> taken.contains(#[trigger] candidate_spec(name, j)),
        },
    decreases max_suffix(autogenerated) - s,
{
    if taken.contains(candidate_spec(name, s)) && s < max_suffix(autogenerated) {
        lemma_save_outcome_from(name, autogenerated, taken, s + 1);
    }
}

/// A save never replaces a file and settles on the first free name: with the
/// files named in `taken` already present, it writes the first candidate
/// (the name, then `stem-1.png`, `stem-2.png`, ... up to `MAX_SAVE_SUFFIX`
/// for automatic names; the name alone for requested ones) that is not
/// taken, and gives up exactly when every allowed candidate is taken.
pub proof fn law_save_takes_first_free_name(name: Seq<char>, autogenerated: bool, taken: Set<Seq<char>>)
    ensures
        match save_outcome(name, autogenerated, taken, 0) {
            Some(k) => {
                &&& k <= max_suffix(autogenerated)
                &&& !taken.contains(candidate_spec(name, k))
                &&& forall|j: nat| j < k ==> taken.contains(#[trigger] candidate_spec(name, j))
            },
            None => forall|j: nat|
                j <= max_suffix(autogenerated) ==> taken.contains(#[trigger] candidate_spec(name, j)),
        },
{
    lemma_save_outcome_from(name, autogenerated, taken, 0);
}

} // verus!
