//! Bead charts: how many beads of each palette color a canvas holds, the
//! built-in 5x7 bitmap font, and the labelled chart PNG with its grid and
//! legend.
use vstd::prelude::*;

use crate::canvas::{Canvas, CanvasView, Cell};
use crate::palette::mode_str;
use crate::raster::{
    centered_rects, draw_centered, lemma_paint_concat, lemma_paint_len, paint_rects, text_rects,
    white, Rect,
};
use crate::shapes::max;
use crate::canvas::{lemma_position_cell, MAX_SIZE};
use crate::palette::Color;
use crate::raster::{blank, draw_text, fill_rect, lemma_paint_push};
use crate::png::{encode_png_rgb, image_error_text, png_rgb_encoding, PngError};
use crate::text::{chars_of, decimal, push_decimal, push_str};
use crate::palette::palette;

verus! {

/// Whether a cell holds the bead at palette position `k`.
pub open spec fn holds(c: Cell, k: int) -> bool {
    match c {
        Some(v) => v == k,
        None => false,
    }
}

/// How many of the cells hold the bead at palette position `k`.
pub open spec fn bead_count(cells: Seq<Cell>, k: int) -> nat
    decreases cells.len(),
{
    if cells.len() == 0 {
        0
    } else {
        bead_count(cells.drop_last(), k) + (if holds(cells.last(), k) {
            1nat
        } else {
            0nat
        })
    }
}

/// How many of the cells hold a bead at all.
pub open spec fn occupied_count(cells: Seq<Cell>) -> nat
    decreases cells.len(),
{
    if cells.len() == 0 {
        0
    } else {
        occupied_count(cells.drop_last()) + (if cells.last() is Some {
            1nat
        } else {
            0nat
        })
    }
}

/// Bead totals per palette color, in palette order; empty cells count for nothing.
pub fn counts(canvas: &Canvas) -> (r: Vec<usize>)
    requires
        canvas.wf(),
    ensures
        r@.len() == palette(canvas@.mode).len(),
        forall|k: int| 0 <= k < r@.len() ==> #[trigger] r@[k] == bead_count(canvas@.cells, k),
{
    let cells = canvas.codes_index();
    let n = canvas.mode().colors().len();
    let mut r: Vec<usize> = Vec::new();
    let mut j: usize = 0;
    while j < n
        invariant
            n == palette(canvas@.mode).len(),
            j <= n,
            r@.len() == j,
            forall|k: int| 0 <= k < j ==> #[trigger] r@[k] == 0,
        decreases n - j,
    {
        r.push(0);
        j = j + 1;
    }
    assert(cells@.len() <= 0x4000) by (nonlinear_arith)
        requires
            cells@.len() == canvas@.width * canvas@.height,
            canvas@.width <= 128,
            canvas@.height <= 128,
    ;
    let mut i: usize = 0;
    while i < cells.len()
        invariant
            canvas.wf(),
            cells@ == canvas@.cells,
            n == palette(canvas@.mode).len(),
            r@.len() == n,
            i <= cells@.len(),
            cells@.len() <= 0x4000,
            forall|k: int| 0 <= k < n ==> #[trigger] r@[k] == bead_count(cells@.take(i as int), k),
            forall|k: int| 0 <= k < n ==> bead_count(cells@.take(i as int), k) <= i,
        decreases cells@.len() - i,
    {
        proof {
            assert(cells@.take(i + 1).drop_last() =~= cells@.take(i as int));
            assert(cells@.take(i + 1).last() == cells@[i as int]);
            let t1 = cells@.take(i + 1);
            assert forall|k: int| 0 <= k < n implies #[trigger] bead_count(t1, k) <= i + 1 by {
                assert(bead_count(t1, k) == bead_count(cells@.take(i as int), k) + (
                if holds(cells@[i as int], k) {
                    1nat
                } else {
                    0nat
                }));
            }
        }
        match cells[i] {
            Some(k) => {
                let c = r[k];
                r.set(k, c + 1);
            },
            None => {},
        }
        i = i + 1;
    }
    assert(cells@.take(cells@.len() as int) =~= cells@);
    r
}

/// Every bead is counted under exactly one color: the totals add up to the
/// occupied cells.
pub proof fn law_counts_total(cells: Seq<Cell>, n: nat)
    requires
        forall|i: int| 0 <= i < cells.len() ==> (#[trigger] cells[i] matches Some(k) ==> k < n),
    ensures
        sum_counts(cells, n as int) == occupied_count(cells),
    decreases cells.len(),
{
    if cells.len() == 0 {
        lemma_sum_counts_empty(cells, n as int);
    } else {
        let rest = cells.drop_last();
        assert(cells[cells.len() - 1] == cells.last());
        law_counts_total(rest, n);
        lemma_sum_counts_step(cells, n as int);
    }
}

/// The totals of palette positions `0..n`.
pub open spec fn sum_counts(cells: Seq<Cell>, n: int) -> nat
    decreases n,
{
    if n <= 0 {
        0
    } else {
        sum_counts(cells, n - 1) + bead_count(cells, n - 1)
    }
}

proof fn lemma_sum_counts_empty(cells: Seq<Cell>, n: int)
    requires
        cells.len() == 0,
    ensures
        sum_counts(cells, n) == 0,
    decreases n,
{
    if n > 0 {
        lemma_sum_counts_empty(cells, n - 1);
    }
}

proof fn lemma_sum_counts_step(cells: Seq<Cell>, n: int)
    requires
        cells.len() > 0,
        cells.last() matches Some(k) ==> k < n,
    ensures
        sum_counts(cells, n) == sum_counts(cells.drop_last(), n) + (if cells.last() is Some && n > 0 {
            1nat
        } else {
            0nat
        }),
    decreases n,
{
    if n > 0 {
        lemma_sum_counts_step_at(cells, n);
    }
}

proof fn lemma_sum_counts_step_at(cells: Seq<Cell>, n: int)
    requires
        cells.len() > 0,
        n > 0,
        cells.last() matches Some(k) ==> k < n,
    ensures
        sum_counts(cells, n) == sum_counts(cells.drop_last(), n) + (if cells.last() is Some {
            1nat
        } else {
            0nat
        }),
    decreases n,
{
    let rest = cells.drop_last();
    assert(sum_counts(cells, n) == sum_counts(cells, n - 1) + bead_count(cells, n - 1));
    assert(sum_counts(rest, n) == sum_counts(rest, n - 1) + bead_count(rest, n - 1));
    assert(bead_count(cells, n - 1) == bead_count(rest, n - 1) + (if holds(cells.last(), n - 1) {
        1nat
    } else {
        0nat
    }));
    if n - 1 == 0 {
        assert(sum_counts(cells, 0) == 0 && sum_counts(rest, 0) == 0);
    }
    match cells.last() {
        Some(k) => {
            if (k as int) < n - 1 {
                lemma_sum_counts_step_at(cells, n - 1);
            } else {
                lemma_sum_counts_none(cells, n - 1, k as int);
            }
        },
        None => {
            if n - 1 > 0 {
                lemma_sum_counts_step_at(cells, n - 1);
            }
        },
    }
}

proof fn lemma_sum_counts_none(cells: Seq<Cell>, n: int, k: int)
    requires
        cells.len() > 0,
        holds(cells.last(), k),
        0 <= k,
        n <= k,
    ensures
        sum_counts(cells, n) == sum_counts(cells.drop_last(), n),
    decreases n,
{
    if n > 0 {
        lemma_sum_counts_none(cells, n - 1, k);
    }
}

/// The 5x7 bitmap of a character, one row per byte with the leftmost column
/// in bit 4; characters outside the font are blank.
pub open spec fn glyph_rows(ch: char) -> [u8; 7] {
    match ch {
        '0' => [14, 17, 19, 21, 25, 17, 14],
        '1' => [4, 12, 4, 4, 4, 4, 14],
        '2' => [14, 17, 1, 2, 4, 8, 31],
        '3' => [30, 1, 1, 14, 1, 1, 30],
        '4' => [2, 6, 10, 18, 31, 2, 2],
        '5' => [31, 16, 16, 30, 1, 1, 30],
        '6' => [14, 16, 16, 30, 17, 17, 14],
        '7' => [31, 1, 2, 4, 8, 8, 8],
        '8' => [14, 17, 17, 14, 17, 17, 14],
        '9' => [14, 17, 17, 15, 1, 1, 14],
        'A' => [14, 17, 17, 31, 17, 17, 17],
        'B' => [30, 17, 17, 30, 17, 17, 30],
        'C' => [14, 17, 16, 16, 16, 17, 14],
        'D' => [30, 17, 17, 17, 17, 17, 30],
        'E' => [31, 16, 16, 30, 16, 16, 31],
        'F' => [31, 16, 16, 30, 16, 16, 16],
        'G' => [14, 17, 16, 23, 17, 17, 15],
        'H' => [17, 17, 17, 31, 17, 17, 17],
        'L' => [16, 16, 16, 16, 16, 16, 31],
        'M' => [17, 27, 21, 21, 17, 17, 17],
        'O' => [14, 17, 17, 17, 17, 17, 14],
        'R' => [30, 17, 17, 30, 20, 18, 17],
        'T' => [31, 4, 4, 4, 4, 4, 4],
        'X' => [17, 17, 10, 4, 10, 17, 17],
        _ => [0, 0, 0, 0, 0, 0, 0],
    }
}

// 5x7 bitmap glyphs: only the ASCII characters used in MARD codes and headings.
pub fn glyph(ch: char) -> (g: [u8; 7])
    ensures
        g == glyph_rows(ch),
{
    match ch {
        '0' => [14, 17, 19, 21, 25, 17, 14],
        '1' => [4, 12, 4, 4, 4, 4, 14],
        '2' => [14, 17, 1, 2, 4, 8, 31],
        '3' => [30, 1, 1, 14, 1, 1, 30],
        '4' => [2, 6, 10, 18, 31, 2, 2],
        '5' => [31, 16, 16, 30, 1, 1, 30],
        '6' => [14, 16, 16, 30, 17, 17, 14],
        '7' => [31, 1, 2, 4, 8, 8, 8],
        '8' => [14, 17, 17, 14, 17, 17, 14],
        '9' => [14, 17, 17, 15, 1, 1, 14],
        'A' => [14, 17, 17, 31, 17, 17, 17],
        'B' => [30, 17, 17, 30, 17, 17, 30],
        'C' => [14, 17, 16, 16, 16, 17, 14],
        'D' => [30, 17, 17, 17, 17, 17, 30],
        'E' => [31, 16, 16, 30, 16, 16, 31],
        'F' => [31, 16, 16, 30, 16, 16, 16],
        'G' => [14, 17, 16, 23, 17, 17, 15],
        'H' => [17, 17, 17, 31, 17, 17, 17],
        'L' => [16, 16, 16, 16, 16, 16, 31],
        'M' => [17, 27, 21, 21, 17, 17, 17],
        'O' => [14, 17, 17, 17, 17, 17, 14],
        'R' => [30, 17, 17, 30, 20, 18, 17],
        'T' => [31, 4, 4, 4, 4, 4, 4],
        'X' => [17, 17, 10, 4, 10, 17, 17],
        _ => [0, 0, 0, 0, 0, 0, 0],
    }
}

// ---------------------------------------------------------------------------
// The bead chart
// ---------------------------------------------------------------------------
/// Side of a chart cell, in pixels.
pub const CELL: u32 = 40;

/// Left margin of the grid, where the row numbers go.
pub const LEFT: u32 = 48;

/// Top margin of the grid, below the heading and the column numbers.
pub const TOP: u32 = 88;

pub open spec fn black() -> [u8; 3] {
    [0u8, 0u8, 0u8]
}

pub open spec fn gray() -> [u8; 3] {
    [110u8, 110u8, 110u8]
}

/// How many of the palette positions `0..j` have at least one bead.
pub open spec fn present(cells: Seq<Cell>, j: int) -> nat
    decreases j,
{
    if j <= 0 {
        0
    } else {
        present(cells, j - 1) + if bead_count(cells, j - 1) > 0 {
            1nat
        } else {
            0nat
        }
    }
}

/// Chart width: the grid with its margins, at least 480 pixels.
pub open spec fn chart_width(v: CanvasView) -> int {
    max(LEFT + v.width * CELL + 24, 480)
}

/// Top of the legend, below the grid.
pub open spec fn legend_top(v: CanvasView) -> int {
    TOP + v.height * CELL + 32
}

/// Chart height: the grid, then four legend entries per line.
pub open spec fn chart_height(v: CanvasView) -> int {
    legend_top(v) + ((present(v.cells, palette(v.mode).len() as int) + 3) / 4) * 42 + 24
}

/// The heading: the palette, then the size and the bead total.
pub open spec fn heading(v: CanvasView) -> Seq<char> {
    "MARD "@ + mode_str(v.mode)@
}

pub open spec fn size_line(v: CanvasView) -> Seq<char> {
    decimal(v.width as nat) + " X "@ + decimal(v.height as nat) + "   TOTAL "@ + decimal(
        occupied_count(v.cells),
    )
}

/// The chart's size line reports the number of beads the legend lists: the
/// total after `TOTAL` is the sum, over every palette color, of the count the
/// legend gives it, so empty cells are not counted.
pub proof fn law_chart_total_is_the_legend_sum(v: CanvasView)
    requires
        forall|i: int| 0 <= i < v.cells.len() ==> (#[trigger] v.cells[i] matches Some(k) ==> k < palette(
            v.mode,
        ).len()),
    ensures
        size_line(v) == decimal(v.width as nat) + " X "@ + decimal(v.height as nat) + "   TOTAL "@
            + decimal(sum_counts(v.cells, palette(v.mode).len() as int)),
{
    law_counts_total(v.cells, palette(v.mode).len());
}

/// The column numbers `1..=n` above the grid.
pub open spec fn column_labels(n: int) -> Seq<Rect>
    decreases n,
{
    if n <= 0 {
        Seq::empty()
    } else {
        column_labels(n - 1) + centered_rects(
            LEFT + (n - 1) * CELL + CELL / 2,
            TOP - 22,
            decimal(n as nat),
            black(),
            1,
        )
    }
}

/// A bead cell: its color, with its code on top in the contrasting color.
pub open spec fn cell_rects(v: CanvasView, x: int, y: int) -> Seq<Rect> {
    match v.cells[y * v.width + x] {
        None => Seq::empty(),
        Some(k) => seq![(LEFT + x * CELL, TOP + y * CELL, CELL as int, CELL as int, palette(v.mode)[k as int].rgb)]
            + centered_rects(
            LEFT + x * CELL + CELL / 2,
            TOP + y * CELL + 13,
            palette(v.mode)[k as int].code@,
            foreground_spec(palette(v.mode)[k as int].rgb),
            2,
        ),
    }
}

/// The first `n` cells of row `y`.
pub open spec fn row_cells(v: CanvasView, y: int, n: int) -> Seq<Rect>
    decreases n,
{
    if n <= 0 {
        Seq::empty()
    } else {
        row_cells(v, y, n - 1) + cell_rects(v, n - 1, y)
    }
}

/// The first `n` rows: each its number, then its cells.
pub open spec fn grid_rows(v: CanvasView, n: int) -> Seq<Rect>
    decreases n,
{
    if n <= 0 {
        Seq::empty()
    } else {
        grid_rows(v, n - 1) + centered_rects(
            (LEFT / 2) as int,
            TOP + (n - 1) * CELL + 16,
            decimal(n as nat),
            black(),
            1,
        ) + row_cells(v, n - 1, v.width as int)
    }
}

/// Line thickness: every fifth line is doubled.
pub open spec fn line_weight(i: int) -> int {
    if i % 5 == 0 {
        2
    } else {
        1
    }
}

/// The first `n` vertical grid lines.
pub open spec fn vertical_lines(v: CanvasView, n: int) -> Seq<Rect>
    decreases n,
{
    if n <= 0 {
        Seq::empty()
    } else {
        vertical_lines(v, n - 1).push(
            (LEFT + (n - 1) * CELL, TOP as int, line_weight(n - 1), v.height * CELL + 1, gray()),
        )
    }
}

/// The first `n` horizontal grid lines.
pub open spec fn horizontal_lines(v: CanvasView, n: int) -> Seq<Rect>
    decreases n,
{
    if n <= 0 {
        Seq::empty()
    } else {
        horizontal_lines(v, n - 1).push(
            (LEFT as int, TOP + (n - 1) * CELL, v.width * CELL + 1, line_weight(n - 1), gray()),
        )
    }
}

/// The legend label of palette position `k`: its code and bead count.
pub open spec fn legend_label(v: CanvasView, k: int) -> Seq<char> {
    palette(v.mode)[k].code@ + " "@ + decimal(bead_count(v.cells, k))
}

/// Legend entry `i` (in reading order, four per line) for palette position `k`.
pub open spec fn legend_entry(v: CanvasView, i: int, k: int) -> Seq<Rect> {
    let block = (chart_width(v) - 48) / 4;
    let x = 24 + (i % 4) * block;
    let y = legend_top(v) + (i / 4) * 42;
    let label = legend_label(v, k);
    let scale = if label.len() * 12 < block - 12 {
        2int
    } else {
        1int
    };
    seq![(x, y, block - 8, 32int, gray()), (x + 1, y + 1, block - 10, 30int, palette(v.mode)[k].rgb)]
        + centered_rects(
        x + (block - 8) / 2,
        y + (32 - 7 * scale) / 2,
        label,
        foreground_spec(palette(v.mode)[k].rgb),
        scale,
    )
}

/// The legend entries of the palette positions `0..j` that have beads, in palette order.
pub open spec fn legend(v: CanvasView, j: int) -> Seq<Rect>
    decreases j,
{
    if j <= 0 {
        Seq::empty()
    } else {
        legend(v, j - 1) + if bead_count(v.cells, j - 1) > 0 {
            legend_entry(v, present(v.cells, j - 1) as int, j - 1)
        } else {
            Seq::empty()
        }
    }
}

/// The sRGB linearization of each 8-bit channel value `v`, in billionths:
/// `c / 12.92` for `c = v / 255` up to 0.04045, else `((c + 0.055) / 1.055)^2.4`.
pub open spec fn linear_channel() -> Seq<u32> {
    seq![0, 303527, 607054, 910581, 1214108, 1517635, 1821162, 2124689, 2428216, 2731743, 3035270, 3346536, 3676507, 4024717, 4391442, 4776953, 5181517, 5605392, 6048833, 6512091, 6995410, 7499032, 8023193, 8568126, 9134059, 9721217, 10329823, 10960094, 11612245, 12286488, 12983032, 13702083, 14443844, 15208514, 15996293, 16807376, 17641954, 18500220, 19382361, 20288563, 21219010, 22173885, 23153366, 24157632, 25186860, 26241222, 27320892, 28426040, 29556834, 30713444, 31896033, 33104767, 34339807, 35601315, 36889450, 38204372, 39546235, 40915197, 42311411, 43735029, 45186204, 46665086, 48171824, 49706566, 51269458, 52860647, 54480276, 56128490, 57805430, 59511238, 61246054, 63010018, 64803267, 66625939, 68478170, 70360096, 72271851, 74213568, 76185381, 78187422, 80219820, 82282707, 84376212, 86500462, 88655586, 90841711, 93058963, 95307467, 97587347, 99898728, 102241733, 104616484, 107023103, 109461711, 111932428, 114435374, 116970668, 119538428, 122138772, 124771818, 127437680, 130136477, 132868322, 135633330, 138431615, 141263291, 144128471, 147027266, 149959790, 152926152, 155926464, 158960835, 162029376, 165132195, 168269400, 171441101, 174647404, 177888416, 181164244, 184474995, 187820772, 191201683, 194617830, 198069320, 201556254, 205078736, 208636870, 212230757, 215860500, 219526200, 223227957, 226965874, 230740049, 234550582, 238397574, 242281122, 246201327, 250158285, 254152094, 258182853, 262250658, 266355605, 270497791, 274677312, 278894263, 283148740, 287440838, 291770650, 296138271, 300543794, 304987314, 309468923, 313988713, 318546778, 323143209, 327778098, 332451536, 337163615, 341914425, 346704056, 351532600, 356400144, 361306780, 366252596, 371237680, 376262123, 381326011, 386429434, 391572478, 396755231, 401977780, 407240212, 412542613, 417885071, 423267670, 428690497, 434153636, 439657174, 445201195, 450785783, 456411023, 462077000, 467783796, 473531496, 479320183, 485149940, 491020850, 496932995, 502886458, 508881321, 514917665, 520995573, 527115126, 533276404, 539479489, 545724461, 552011402, 558340390, 564711506, 571124829, 577580440, 584078418, 590618841, 597201788, 603827339, 610495571, 617206562, 623960392, 630757136, 637596874, 644479682, 651405637, 658374817, 665387298, 672443157, 679542470, 686685312, 693871761, 701101892, 708375780, 715693501, 723055129, 730460740, 737910409, 745404210, 752942217, 760524505, 768151147, 775822218, 783537792, 791297940, 799102738, 806952258, 814846572, 822785754, 830769877, 838799012, 846873232, 854992608, 863157213, 871367119, 879622397, 887923118, 896269353, 904661174, 913098652, 921581856, 930110858, 938685728, 947306537, 955973353, 964686248, 973445290, 982250550, 991102097, 1000000000]
}

fn linear_table() -> (t: Vec<u32>)
    ensures
        t@ == linear_channel(),
{
    vec![0, 303527, 607054, 910581, 1214108, 1517635, 1821162, 2124689, 2428216, 2731743, 3035270, 3346536, 3676507, 4024717, 4391442, 4776953, 5181517, 5605392, 6048833, 6512091, 6995410, 7499032, 8023193, 8568126, 9134059, 9721217, 10329823, 10960094, 11612245, 12286488, 12983032, 13702083, 14443844, 15208514, 15996293, 16807376, 17641954, 18500220, 19382361, 20288563, 21219010, 22173885, 23153366, 24157632, 25186860, 26241222, 27320892, 28426040, 29556834, 30713444, 31896033, 33104767, 34339807, 35601315, 36889450, 38204372, 39546235, 40915197, 42311411, 43735029, 45186204, 46665086, 48171824, 49706566, 51269458, 52860647, 54480276, 56128490, 57805430, 59511238, 61246054, 63010018, 64803267, 66625939, 68478170, 70360096, 72271851, 74213568, 76185381, 78187422, 80219820, 82282707, 84376212, 86500462, 88655586, 90841711, 93058963, 95307467, 97587347, 99898728, 102241733, 104616484, 107023103, 109461711, 111932428, 114435374, 116970668, 119538428, 122138772, 124771818, 127437680, 130136477, 132868322, 135633330, 138431615, 141263291, 144128471, 147027266, 149959790, 152926152, 155926464, 158960835, 162029376, 165132195, 168269400, 171441101, 174647404, 177888416, 181164244, 184474995, 187820772, 191201683, 194617830, 198069320, 201556254, 205078736, 208636870, 212230757, 215860500, 219526200, 223227957, 226965874, 230740049, 234550582, 238397574, 242281122, 246201327, 250158285, 254152094, 258182853, 262250658, 266355605, 270497791, 274677312, 278894263, 283148740, 287440838, 291770650, 296138271, 300543794, 304987314, 309468923, 313988713, 318546778, 323143209, 327778098, 332451536, 337163615, 341914425, 346704056, 351532600, 356400144, 361306780, 366252596, 371237680, 376262123, 381326011, 386429434, 391572478, 396755231, 401977780, 407240212, 412542613, 417885071, 423267670, 428690497, 434153636, 439657174, 445201195, 450785783, 456411023, 462077000, 467783796, 473531496, 479320183, 485149940, 491020850, 496932995, 502886458, 508881321, 514917665, 520995573, 527115126, 533276404, 539479489, 545724461, 552011402, 558340390, 564711506, 571124829, 577580440, 584078418, 590618841, 597201788, 603827339, 610495571, 617206562, 623960392, 630757136, 637596874, 644479682, 651405637, 658374817, 665387298, 672443157, 679542470, 686685312, 693871761, 701101892, 708375780, 715693501, 723055129, 730460740, 737910409, 745404210, 752942217, 760524505, 768151147, 775822218, 783537792, 791297940, 799102738, 806952258, 814846572, 822785754, 830769877, 838799012, 846873232, 854992608, 863157213, 871367119, 879622397, 887923118, 896269353, 904661174, 913098652, 921581856, 930110858, 938685728, 947306537, 955973353, 964686248, 973445290, 982250550, 991102097, 1000000000]
}

/// Relative luminance in units of 10^-13: `0.2126 R + 0.7152 G + 0.0722 B`
/// over the linearized channels.
pub open spec fn luminance(rgb: [u8; 3]) -> int {
    2126 * linear_channel()[rgb[0] as int] + 7152 * linear_channel()[rgb[1] as int] + 722
        * linear_channel()[rgb[2] as int]
}

/// The label color on a bead: black on light beads (relative luminance above
/// 0.179), white on dark ones.
pub open spec fn foreground_spec(rgb: [u8; 3]) -> [u8; 3] {
    if luminance(rgb) > 1790 * 1_000_000_000 {
        [0u8, 0u8, 0u8]
    } else {
        [255u8, 255u8, 255u8]
    }
}

pub fn foreground(rgb: [u8; 3]) -> (c: [u8; 3])
    ensures
        c == foreground_spec(rgb),
{
    let t = linear_table();
    assert(t@.len() == 256);
    let lum: u64 = 2126 * (t[rgb[0] as usize] as u64) + 7152 * (t[rgb[1] as usize] as u64) + 722
        * (t[rgb[2] as usize] as u64);
    if lum > 1790 * 1_000_000_000 {
        [0u8, 0u8, 0u8]
    } else {
        [255u8, 255u8, 255u8]
    }
}

/// Everything the chart paints on white, in order: heading, column numbers,
/// rows, grid lines and legend.
pub open spec fn chart_rects(v: CanvasView) -> Seq<Rect> {
    text_rects(24, 16, heading(v), black(), 2) + text_rects(24, 42, size_line(v), black(), 2)
        + column_labels(v.width as int) + grid_rows(v, v.height as int) + vertical_lines(
        v,
        v.width + 1,
    ) + horizontal_lines(v, v.height + 1) + legend(v, palette(v.mode).len() as int)
}

/// The chart's pixels.
pub open spec fn chart_pixels(v: CanvasView) -> Seq<[u8; 3]> {
    paint_rects(white((chart_width(v) * chart_height(v)) as nat), chart_width(v), chart_rects(v))
}

fn digits(n: u64) -> (cs: Vec<char>)
    ensures
        cs@ == decimal(n as nat),
{
    let mut s = String::new();
    push_decimal(&mut s, n);
    chars_of(s.as_str())
}

fn draw_column_labels(img: &mut Vec<[u8; 3]>, w: u32, h: u32, n: u32)
    requires
        w > 0,
        old(img)@.len() == w * h,
        n <= MAX_SIZE,
    ensures
        final(img)@ == paint_rects(old(img)@, w as int, column_labels(n as int)),
{
    let ghost base = img@;
    let mut x: u32 = 0;
    while x < n
        invariant
            w > 0,
            base.len() == w * h,
            img@.len() == w * h,
            x <= n <= MAX_SIZE,
            img@ == paint_rects(base, w as int, column_labels(x as int)),
        decreases n - x,
    {
        let label = digits((x + 1) as u64);
        let ghost mid = img@;
        let ghost part = centered_rects(
            LEFT + x * CELL + CELL / 2,
            TOP - 22,
            decimal((x + 1) as nat),
            black(),
            1,
        );
        draw_centered(img, w, h, (LEFT + x * CELL + CELL / 2) as u128, (TOP - 22) as u128, &label, [0u8, 0u8, 0u8], 1);
        proof {
            lemma_paint_concat(base, w as int, column_labels(x as int), part);
            lemma_paint_len(mid, w as int, part);
        }
        x = x + 1;
    }
}

fn draw_cell(
    img: &mut Vec<[u8; 3]>,
    w: u32,
    h: u32,
    canvas: &Canvas,
    cells: &Vec<Cell>,
    colors: &Vec<Color>,
    x: u32,
    y: u32,
)
    requires
        w > 0,
        old(img)@.len() == w * h,
        canvas.wf(),
        cells@ == canvas@.cells,
        colors@ == palette(canvas@.mode),
        x < canvas@.width,
        y < canvas@.height,
    ensures
        final(img)@ == paint_rects(old(img)@, w as int, cell_rects(canvas@, x as int, y as int)),
{
    let ghost base = img@;
    let ghost v = canvas@;
    proof {
        lemma_position_cell(v.width as int, v.height as int, y as int, x as int);
    }
    assert(v.width * v.height <= 0x4000) by (nonlinear_arith)
        requires
            v.width <= 128,
            v.height <= 128,
    ;
    let idx = (y * canvas.width() + x) as usize;
    match cells[idx] {
        None => {},
        Some(k) => {
            let c = colors[k];
            let r: (u128, u128, u128, u128) = ((LEFT + x * CELL) as u128, (TOP + y * CELL) as u128, CELL as u128, CELL as u128);
            fill_rect(img, w, h, r.0, r.1, r.2, r.3, c.rgb);
            let ghost painted = img@;
            let code = chars_of(c.code);
            draw_centered(img, w, h, (LEFT + x * CELL + CELL / 2) as u128, (TOP + y * CELL + 13) as u128, &code, foreground(c.rgb), 2);
            proof {
                let rect: Rect = (r.0 as int, r.1 as int, r.2 as int, r.3 as int, c.rgb);
                let label = centered_rects(
                    LEFT + x * CELL + CELL / 2,
                    TOP + y * CELL + 13,
                    palette(v.mode)[k as int].code@,
                    foreground_spec(c.rgb),
                    2,
                );
                lemma_paint_push(base, w as int, Seq::empty(), rect);
                assert(Seq::<Rect>::empty().push(rect) =~= seq![rect]);
                lemma_paint_concat(base, w as int, seq![rect], label);
            }
        },
    }
}

fn draw_row_cells(
    img: &mut Vec<[u8; 3]>,
    w: u32,
    h: u32,
    canvas: &Canvas,
    cells: &Vec<Cell>,
    colors: &Vec<Color>,
    y: u32,
)
    requires
        w > 0,
        old(img)@.len() == w * h,
        canvas.wf(),
        cells@ == canvas@.cells,
        colors@ == palette(canvas@.mode),
        y < canvas@.height,
    ensures
        final(img)@ == paint_rects(old(img)@, w as int, row_cells(canvas@, y as int, canvas@.width as int)),
{
    let ghost base = img@;
    let n = canvas.width();
    let mut x: u32 = 0;
    while x < n
        invariant
            w > 0,
            base.len() == w * h,
            img@.len() == w * h,
            canvas.wf(),
            cells@ == canvas@.cells,
            colors@ == palette(canvas@.mode),
                y < canvas@.height,
            n == canvas@.width,
            x <= n,
            img@ == paint_rects(base, w as int, row_cells(canvas@, y as int, x as int)),
        decreases n - x,
    {
        let ghost mid = img@;
        draw_cell(img, w, h, canvas, cells, colors, x, y);
        proof {
            let part = cell_rects(canvas@, x as int, y as int);
            lemma_paint_concat(base, w as int, row_cells(canvas@, y as int, x as int), part);
            lemma_paint_len(mid, w as int, part);
        }
        x = x + 1;
    }
}

fn draw_grid_rows(
    img: &mut Vec<[u8; 3]>,
    w: u32,
    h: u32,
    canvas: &Canvas,
    cells: &Vec<Cell>,
    colors: &Vec<Color>,
)
    requires
        w > 0,
        old(img)@.len() == w * h,
        canvas.wf(),
        cells@ == canvas@.cells,
        colors@ == palette(canvas@.mode),
    ensures
        final(img)@ == paint_rects(old(img)@, w as int, grid_rows(canvas@, canvas@.height as int)),
{
    let ghost base = img@;
    let n = canvas.height();
    let mut y: u32 = 0;
    while y < n
        invariant
            w > 0,
            base.len() == w * h,
            img@.len() == w * h,
            canvas.wf(),
            cells@ == canvas@.cells,
            colors@ == palette(canvas@.mode),
                n == canvas@.height,
            y <= n,
            img@ == paint_rects(base, w as int, grid_rows(canvas@, y as int)),
        decreases n - y,
    {
        let ghost before = grid_rows(canvas@, y as int);
        let ghost m0 = img@;
        let label = digits((y + 1) as u64);
        draw_centered(img, w, h, (LEFT / 2) as u128, (TOP + y * CELL + 16) as u128, &label, [0u8, 0u8, 0u8], 1);
        proof {
            lemma_paint_len(
                m0,
                w as int,
                centered_rects((LEFT / 2) as int, TOP + y * CELL + 16, decimal((y + 1) as nat), black(), 1),
            );
        }
        let ghost m1 = img@;
        draw_row_cells(img, w, h, canvas, cells, colors, y);
        proof {
            let lab = centered_rects((LEFT / 2) as int, TOP + y * CELL + 16, decimal((y + 1) as nat), black(), 1);
            let rc = row_cells(canvas@, y as int, canvas@.width as int);
            lemma_paint_len(m0, w as int, lab);
            lemma_paint_len(m1, w as int, rc);
            lemma_paint_concat(base, w as int, before, lab);
            lemma_paint_concat(base, w as int, before + lab, rc);
        }
        y = y + 1;
    }
}

fn draw_lines(img: &mut Vec<[u8; 3]>, w: u32, h: u32, canvas: &Canvas)
    requires
        w > 0,
        old(img)@.len() == w * h,
        canvas.wf(),
    ensures
        final(img)@ == paint_rects(
            old(img)@,
            w as int,
            vertical_lines(canvas@, canvas@.width + 1) + horizontal_lines(canvas@, canvas@.height + 1),
        ),
{
    let ghost base = img@;
    let cw = canvas.width();
    let chh = canvas.height();
    let mut x: u32 = 0;
    while x <= cw
        invariant
            w > 0,
            base.len() == w * h,
            img@.len() == w * h,
            canvas.wf(),
            cw == canvas@.width,
            chh == canvas@.height,
            x <= cw + 1,
            img@ == paint_rects(base, w as int, vertical_lines(canvas@, x as int)),
        decreases cw + 1 - x,
    {
        let weight: u128 = if x % 5 == 0 {
            2
        } else {
            1
        };
        let ghost before = vertical_lines(canvas@, x as int);
        fill_rect(img, w, h, (LEFT + x * CELL) as u128, TOP as u128, weight, (chh * CELL + 1) as u128, [110u8, 110u8, 110u8]);
        proof {
            lemma_paint_push(
                base,
                w as int,
                before,
                (LEFT + x * CELL, TOP as int, line_weight(x as int), chh * CELL + 1, gray()),
            );
        }
        x = x + 1;
    }
    let ghost vl = img@;
    let ghost vls = vertical_lines(canvas@, cw + 1);
    let mut y: u32 = 0;
    while y <= chh
        invariant
            w > 0,
            vl.len() == w * h,
            img@.len() == w * h,
            canvas.wf(),
            cw == canvas@.width,
            chh == canvas@.height,
            y <= chh + 1,
            img@ == paint_rects(vl, w as int, horizontal_lines(canvas@, y as int)),
        decreases chh + 1 - y,
    {
        let weight: u128 = if y % 5 == 0 {
            2
        } else {
            1
        };
        let ghost before = horizontal_lines(canvas@, y as int);
        fill_rect(img, w, h, LEFT as u128, (TOP + y * CELL) as u128, (cw * CELL + 1) as u128, weight, [110u8, 110u8, 110u8]);
        proof {
            lemma_paint_push(
                vl,
                w as int,
                before,
                (LEFT as int, TOP + y * CELL, cw * CELL + 1, line_weight(y as int), gray()),
            );
        }
        y = y + 1;
    }
    proof {
        lemma_paint_concat(base, w as int, vls, horizontal_lines(canvas@, chh + 1));
    }
}

fn draw_legend_entry(
    img: &mut Vec<[u8; 3]>,
    w: u32,
    h: u32,
    canvas: &Canvas,
    colors: &Vec<Color>,
    count: usize,
    i: u32,
    k: usize,
)
    requires
        w > 0,
        old(img)@.len() == w * h,
        canvas.wf(),
        w == chart_width(canvas@),
        colors@ == palette(canvas@.mode),
        k < colors@.len(),
        i <= k,
        count == bead_count(canvas@.cells, k as int),
    ensures
        final(img)@ == paint_rects(old(img)@, w as int, legend_entry(canvas@, i as int, k as int)),
{
    let ghost v = canvas@;
    let ghost base = img@;
    proof {
        crate::palette::lemma_palette_len(v.mode);
    }
    let block = ((w - 48) / 4) as u128;
    let top = (TOP + canvas.height() * CELL + 32) as u128;
    assert(((i % 4) as u128) * block <= 3 * block) by (nonlinear_arith)
        requires
            (i % 4) as u128 <= 3,
    ;
    let x: u128 = 24 + ((i % 4) as u128) * block;
    let y: u128 = top + ((i / 4) as u128) * 42;
    let c = colors[k];
    fill_rect(img, w, h, x, y, block - 8, 32, [110u8, 110u8, 110u8]);
    let ghost m1 = img@;
    fill_rect(img, w, h, x + 1, y + 1, block - 10, 30, c.rgb);
    let ghost m2 = img@;
    let mut text = String::new();
    push_str(&mut text, c.code);
    push_str(&mut text, " ");
    push_decimal(&mut text, count as u64);
    let label = chars_of(text.as_str());
    assert(label@ =~= legend_label(v, k as int));
    let scale: u128 = if (label.len() as u128) * 12 < block - 12 {
        2
    } else {
        1
    };
    draw_centered(img, w, h, x + (block - 8) / 2, y + (32 - 7 * scale) / 2, &label, foreground(c.rgb), scale);
    proof {
        let r1: Rect = (x as int, y as int, block - 8, 32int, gray());
        let r2: Rect = (x + 1, y + 1, block - 10, 30int, c.rgb);
        let lab = centered_rects(x + (block - 8) / 2, y + (32 - 7 * scale) / 2, label@, foreground_spec(c.rgb), scale as int);
        lemma_paint_push(base, w as int, Seq::empty(), r1);
        lemma_paint_push(base, w as int, seq![r1], r2);
        assert(Seq::<Rect>::empty().push(r1) =~= seq![r1]);
        assert(seq![r1].push(r2) =~= seq![r1, r2]);
        lemma_paint_concat(base, w as int, seq![r1, r2], lab);
    }
}

fn draw_legend(
    img: &mut Vec<[u8; 3]>,
    w: u32,
    h: u32,
    canvas: &Canvas,
    colors: &Vec<Color>,
    totals: &Vec<usize>,
)
    requires
        w > 0,
        old(img)@.len() == w * h,
        canvas.wf(),
        w == chart_width(canvas@),
        colors@ == palette(canvas@.mode),
        totals@.len() == colors@.len(),
        forall|k: int| 0 <= k < totals@.len() ==> #[trigger] totals@[k] == bead_count(canvas@.cells, k),
    ensures
        final(img)@ == paint_rects(old(img)@, w as int, legend(canvas@, colors@.len() as int)),
{
    let ghost base = img@;
    proof {
        crate::palette::lemma_palette_len(canvas@.mode);
    }
    let mut slot: u32 = 0;
    let mut j: usize = 0;
    while j < colors.len()
        invariant
            w > 0,
            base.len() == w * h,
            img@.len() == w * h,
            canvas.wf(),
            w == chart_width(canvas@),
            colors@ == palette(canvas@.mode),
            colors@.len() <= 145,
                totals@.len() == colors@.len(),
            forall|k: int| 0 <= k < totals@.len() ==> #[trigger] totals@[k] == bead_count(canvas@.cells, k),
            j <= colors@.len(),
            slot == present(canvas@.cells, j as int),
            slot <= j,
            img@ == paint_rects(base, w as int, legend(canvas@, j as int)),
        decreases colors@.len() - j,
    {
        let ghost before = legend(canvas@, j as int);
        let ghost mid = img@;
        if totals[j] > 0 {
            draw_legend_entry(img, w, h, canvas, colors, totals[j], slot, j);
            proof {
                let e = legend_entry(canvas@, slot as int, j as int);
                lemma_paint_concat(base, w as int, before, e);
                lemma_paint_len(mid, w as int, e);
            }
            slot = slot + 1;
        } else {
            proof {
                assert(before + Seq::<Rect>::empty() =~= before);
            }
        }
        j = j + 1;
    }
}

/// The chart as a PNG file.
pub open spec fn chart_png(v: CanvasView) -> Seq<u8> {
    png_rgb_encoding(chart_width(v) as u32, chart_height(v) as u32, rgb_bytes(chart_pixels(v)))
}

/// The RGB bytes of the pixels, row by row.
pub open spec fn rgb_bytes(px: Seq<[u8; 3]>) -> Seq<u8>
    decreases px.len(),
{
    if px.len() == 0 {
        Seq::empty()
    } else {
        rgb_bytes(px.drop_last()) + seq![px.last()[0], px.last()[1], px.last()[2]]
    }
}

fn flatten(px: &Vec<[u8; 3]>) -> (b: Vec<u8>)
    requires
        px@.len() * 3 <= usize::MAX,
    ensures
        b@ == rgb_bytes(px@),
        b@.len() == px@.len() * 3,
{
    let mut b: Vec<u8> = Vec::new();
    let mut i: usize = 0;
    while i < px.len()
        invariant
            i <= px@.len(),
            b@ == rgb_bytes(px@.take(i as int)),
            b@.len() == i * 3,
        decreases px@.len() - i,
    {
        let p = px[i];
        b.push(p[0]);
        b.push(p[1]);
        b.push(p[2]);
        proof {
            let t = px@.take(i + 1);
            assert(t.drop_last() =~= px@.take(i as int));
            assert(t.last() == p);
            assert(b@ =~= rgb_bytes(px@.take(i as int)) + seq![p[0], p[1], p[2]]);
        }
        i = i + 1;
    }
    assert(px@.take(px@.len() as int) =~= px@);
    b
}

/// How many cells hold a bead.
fn occupied(cells: &Vec<Cell>) -> (n: u64)
    requires
        cells@.len() <= 0x4000,
    ensures
        n == occupied_count(cells@),
{
    let mut n: u64 = 0;
    let mut i: usize = 0;
    while i < cells.len()
        invariant
            i <= cells@.len() <= 0x4000,
            n == occupied_count(cells@.take(i as int)),
            n <= i,
        decreases cells@.len() - i,
    {
        proof {
            let t = cells@.take(i + 1);
            assert(t.drop_last() =~= cells@.take(i as int));
            assert(t.last() == cells@[i as int]);
        }
        if cells[i].is_some() {
            n = n + 1;
        }
        i = i + 1;
    }
    assert(cells@.take(cells@.len() as int) =~= cells@);
    n
}

/// The bead chart of a canvas as a PNG: a heading with the palette and the
/// bead total, the numbered grid with each bead's code on its color, and a
/// legend of the colors in use with their counts.
pub fn encode_png(canvas: &Canvas) -> (r: Result<Vec<u8>, PngError>)
    requires
        canvas.wf(),
    ensures
        r matches Ok(bytes) && bytes@ == chart_png(canvas@),
{
    let ghost v = canvas@;
    proof {
        crate::palette::lemma_palette_len(v.mode);
    }
    let colors = canvas.mode().colors();
    let cells = canvas.codes_index();
    let totals = counts(canvas);
    let mut present_n: u32 = 0;
    let mut j: usize = 0;
    while j < totals.len()
        invariant
            totals@.len() == palette(v.mode).len() <= 145,
            forall|k: int| 0 <= k < totals@.len() ==> #[trigger] totals@[k] == bead_count(v.cells, k),
            j <= totals@.len(),
            present_n == present(v.cells, j as int),
            present_n <= j,
        decreases totals@.len() - j,
    {
        if totals[j] > 0 {
            present_n = present_n + 1;
        }
        j = j + 1;
    }
    let cw_cells = canvas.width();
    let ch_cells = canvas.height();
    let grid_w = LEFT + cw_cells * CELL + 24;
    let w: u32 = if grid_w > 480 {
        grid_w
    } else {
        480
    };
    let legend_y = TOP + ch_cells * CELL + 32;
    let h: u32 = legend_y + ((present_n + 3) / 4) * 42 + 24;
    assert(w == chart_width(v));
    assert(h == chart_height(v));
    assert(w * h <= 0x400_0000) by (nonlinear_arith)
        requires
            w <= 0x2000,
            h <= 0x2000,
    ;
    let mut img = blank(w, h);
    let ghost base = img@;
    let mut heading_text = String::new();
    push_str(&mut heading_text, "MARD ");
    push_str(&mut heading_text, canvas.mode().as_str());
    let heading_chars = chars_of(heading_text.as_str());
    assert(heading_chars@ =~= heading(v));
    draw_text(&mut img, w, h, 24, 16, &heading_chars, [0u8, 0u8, 0u8], 2);
    let ghost p1 = img@;
    assert(cells@.len() <= 0x4000) by (nonlinear_arith)
        requires
            cells@.len() == v.width * v.height,
            v.width <= 128,
            v.height <= 128,
    ;
    let total = occupied(&cells);
    let mut size_text = String::new();
    push_decimal(&mut size_text, cw_cells as u64);
    push_str(&mut size_text, " X ");
    push_decimal(&mut size_text, ch_cells as u64);
    push_str(&mut size_text, "   TOTAL ");
    push_decimal(&mut size_text, total);
    let size_chars = chars_of(size_text.as_str());
    assert(size_chars@ =~= size_line(v));
    proof {
        lemma_paint_len(base, w as int, text_rects(24, 16, heading(v), black(), 2));
    }
    draw_text(&mut img, w, h, 24, 42, &size_chars, [0u8, 0u8, 0u8], 2);
    let ghost p2 = img@;
    proof {
        lemma_paint_len(p1, w as int, text_rects(24, 42, size_line(v), black(), 2));
    }
    draw_column_labels(&mut img, w, h, cw_cells);
    let ghost p3 = img@;
    proof {
        lemma_paint_len(p2, w as int, column_labels(v.width as int));
    }
    draw_grid_rows(&mut img, w, h, canvas, &cells, &colors);
    let ghost p4 = img@;
    proof {
        lemma_paint_len(p3, w as int, grid_rows(v, v.height as int));
    }
    draw_lines(&mut img, w, h, canvas);
    let ghost p5 = img@;
    proof {
        lemma_paint_len(p4, w as int, vertical_lines(v, v.width + 1) + horizontal_lines(v, v.height + 1));
    }
    draw_legend(&mut img, w, h, canvas, &colors, &totals);
    proof {
        lemma_paint_len(p5, w as int, legend(v, palette(v.mode).len() as int));
        assert(img@.len() * 3 <= 0xC00_0000);
        let a = text_rects(24, 16, heading(v), black(), 2);
        let b = text_rects(24, 42, size_line(v), black(), 2);
        let c = column_labels(v.width as int);
        let d = grid_rows(v, v.height as int);
        let e = vertical_lines(v, v.width + 1) + horizontal_lines(v, v.height + 1);
        let f = legend(v, palette(v.mode).len() as int);
        let wi = w as int;
        lemma_paint_concat(base, wi, a, b);
        lemma_paint_concat(base, wi, a + b, c);
        lemma_paint_concat(base, wi, a + b + c, d);
        lemma_paint_concat(base, wi, a + b + c + d, e);
        lemma_paint_concat(base, wi, a + b + c + d + e, f);
        assert(vertical_lines(v, v.width + 1) + horizontal_lines(v, v.height + 1) + f =~= e + f);
        assert(a + b + c + d + vertical_lines(v, v.width + 1) + horizontal_lines(v, v.height + 1) + f
            =~= a + b + c + d + e + f);
        assert(img@ == chart_pixels(v));
    }
    let bytes = flatten(&img);
    match encode_png_rgb(w, h, bytes) {
        Ok(png) => Ok(png),
        Err(e) => Err(PngError { message: image_error_text(&e) }),
    }
}

} // verus!
