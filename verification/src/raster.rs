//! A small RGB raster for the bead chart: images are painted by a list of
//! filled rectangles, later ones over earlier ones, clipped to the image.
use vstd::prelude::*;
use vstd::arithmetic::div_mod::lemma_fundamental_div_mod_converse;

use crate::pattern::{glyph, glyph_rows};

verus! {

/// A filled rectangle: left, top, width, height and color.
pub type Rect = (int, int, int, int, [u8; 3]);

/// Whether the rectangle covers the point `(x, y)`.
pub open spec fn covers(r: Rect, x: int, y: int) -> bool {
    r.0 <= x < r.0 + r.2 && r.1 <= y < r.1 + r.3
}

/// The image, `w` pixels wide and row by row, with one rectangle painted over it.
pub open spec fn paint_one(img: Seq<[u8; 3]>, w: int, r: Rect) -> Seq<[u8; 3]> {
    Seq::new(img.len(), |p: int| if covers(r, p % w, p / w) { r.4 } else { img[p] })
}

/// The image with the rectangles painted over it in order.
pub open spec fn paint_rects(img: Seq<[u8; 3]>, w: int, rs: Seq<Rect>) -> Seq<[u8; 3]>
    decreases rs.len(),
{
    if rs.len() == 0 {
        img
    } else {
        paint_one(paint_rects(img, w, rs.drop_last()), w, rs.last())
    }
}

/// A white image of `n` pixels.
pub open spec fn white(n: nat) -> Seq<[u8; 3]> {
    Seq::new(n, |p: int| [255u8, 255u8, 255u8])
}

/// Painting two lists one after the other is painting their concatenation.
pub proof fn lemma_paint_concat(img: Seq<[u8; 3]>, w: int, a: Seq<Rect>, b: Seq<Rect>)
    ensures
        paint_rects(img, w, a + b) == paint_rects(paint_rects(img, w, a), w, b),
    decreases b.len(),
{
    if b.len() == 0 {
        assert(a + b =~= a);
    } else {
        assert((a + b).drop_last() =~= a + b.drop_last());
        assert((a + b).last() == b.last());
        lemma_paint_concat(img, w, a, b.drop_last());
    }
}

/// Painting keeps the number of pixels.
pub proof fn lemma_paint_len(img: Seq<[u8; 3]>, w: int, rs: Seq<Rect>)
    ensures
        paint_rects(img, w, rs).len() == img.len(),
    decreases rs.len(),
{
    if rs.len() > 0 {
        lemma_paint_len(img, w, rs.drop_last());
    }
}

/// Painting one more rectangle.
pub proof fn lemma_paint_push(img: Seq<[u8; 3]>, w: int, rs: Seq<Rect>, r: Rect)
    ensures
        paint_rects(img, w, rs.push(r)) == paint_one(paint_rects(img, w, rs), w, r),
{
    assert(rs.push(r).drop_last() =~= rs);
}

/// A white image of `w` by `h` pixels.
pub fn blank(w: u32, h: u32) -> (img: Vec<[u8; 3]>)
    requires
        w * h <= usize::MAX,
    ensures
        img@ == white((w * h) as nat),
{
    let n = (w as usize) * (h as usize);
    let mut img: Vec<[u8; 3]> = Vec::new();
    let mut i: usize = 0;
    while i < n
        invariant
            i <= n,
            n == w * h,
            img@ == white(i as nat),
        decreases n - i,
    {
        img.push([255u8, 255u8, 255u8]);
        i = i + 1;
        assert(img@ =~= white(i as nat));
    }
    img
}

/// Paint the rectangle `(x, y, rw, rh)` in `rgb` on an image `w` by `h`,
/// clipped to the image.
pub fn fill_rect(img: &mut Vec<[u8; 3]>, w: u32, h: u32, x: u128, y: u128, rw: u128, rh: u128, rgb: [u8; 3])
    requires
        w > 0,
        old(img)@.len() == w * h,
        x + rw <= u128::MAX,
        y + rh <= u128::MAX,
    ensures
        final(img)@ == paint_one(old(img)@, w as int, (x as int, y as int, rw as int, rh as int, rgb)),
{
    let ghost r: Rect = (x as int, y as int, rw as int, rh as int, rgb);
    let len = img.len();
    let ghost base = img@;
    let ghost wi = w as int;
    let y_end: u128 = if y + rh < h as u128 {
        y + rh
    } else {
        h as u128
    };
    let x_end: u128 = if x + rw < w as u128 {
        x + rw
    } else {
        w as u128
    };
    let mut yy = y;
    while yy < y_end
        invariant
            img@.len() == base.len(),
            base.len() == w * h,
            base.len() == len,
            w > 0,
            y <= yy,
            y_end <= h,
            y_end <= y + rh,
            x_end <= w,
            x_end <= x + rw,
            x_end == (if x + rw < w { x + rw } else { w as int }),
            r == (x as int, y as int, rw as int, rh as int, rgb),
            wi == w,
            forall|p: int|
                0 <= p < base.len() ==> #[trigger] img@[p] == if covers(r, p % wi, p / wi) && p / wi
                    < yy {
                    rgb
                } else {
                    base[p]
                },
        decreases y_end - yy,
    {
        let mut xx = x;
        while xx < x_end
            invariant
                img@.len() == base.len(),
                base.len() == w * h,
                base.len() == len,
                w > 0,
                y <= yy < y_end,
                y_end <= h,
                y_end <= y + rh,
                x <= xx,
                x_end <= w,
                x_end <= x + rw,
                x_end == (if x + rw < w { x + rw } else { w as int }),
                r == (x as int, y as int, rw as int, rh as int, rgb),
                wi == w,
                forall|p: int|
                    0 <= p < base.len() ==> #[trigger] img@[p] == if covers(r, p % wi, p / wi) && (p
                        / wi < yy || (p / wi == yy && p % wi < xx)) {
                        rgb
                    } else {
                        base[p]
                    },
            decreases x_end - xx,
        {
            proof {
                lemma_fundamental_div_mod_converse(yy * wi + xx, wi, yy as int, xx as int);
                assert(yy * wi + xx < wi * h) by (nonlinear_arith)
                    requires
                        yy < h,
                        xx < wi,
                ;
                assert(yy * wi <= yy * wi + xx);
            }
            let p = (yy as usize) * (w as usize) + (xx as usize);
            img.set(p, rgb);
            proof {
                assert forall|q: int| 0 <= q < base.len() && #[trigger] (q / wi) == yy && q % wi == xx implies q == p by {
                    vstd::arithmetic::div_mod::lemma_fundamental_div_mod(q, wi);
                    assert(wi * (q / wi) == yy * wi) by (nonlinear_arith)
                        requires
                            q / wi == yy,
                    ;
                }
            }
            xx = xx + 1;
        }
        proof {
            assert forall|p: int| 0 <= p < base.len() implies #[trigger] img@[p] == if covers(
                r,
                p % wi,
                p / wi,
            ) && p / wi < yy + 1 {
                rgb
            } else {
                base[p]
            } by {
                assert(0 <= p % wi < wi);
                if covers(r, p % wi, p / wi) && p / wi == yy {
                    assert(p % wi < x + rw);
                    assert(p % wi < x_end);
                }
            }
        }
        yy = yy + 1;
    }
    proof {
        assert forall|p: int| 0 <= p < base.len() implies #[trigger] img@[p] == paint_one(base, wi, r)[p] by {
            if covers(r, p % wi, p / wi) {
                assert(p / wi < h) by (nonlinear_arith)
                    requires
                        0 <= p < wi * h,
                        wi > 0,
                ;
            }
        }
        assert(img@ =~= paint_one(base, wi, r));
    }
}

// ---------------------------------------------------------------------------
// Text in the 5x7 bitmap font
// ---------------------------------------------------------------------------
/// Whether column `col` (0 to 4, left to right) of a glyph row is lit.
pub open spec fn lit(bits: u8, col: u32) -> bool {
    bits & (1u8 << ((4 - col) as u32)) != 0
}

/// The squares of the first `n` columns of a glyph row at `(x, y)`: each lit
/// column paints a `scale` square.
pub open spec fn row_rects(x: int, y: int, bits: u8, scale: int, rgb: [u8; 3], n: int) -> Seq<Rect>
    decreases n,
{
    if n <= 0 {
        Seq::empty()
    } else {
        row_rects(x, y, bits, scale, rgb, n - 1) + if lit(bits, (n - 1) as u32) {
            seq![(x + (n - 1) * scale, y, scale, scale, rgb)]
        } else {
            Seq::empty()
        }
    }
}

/// The squares of the first `m` rows of a glyph at `(x, y)`.
pub open spec fn glyph_rects(x: int, y: int, g: [u8; 7], scale: int, rgb: [u8; 3], m: int) -> Seq<Rect>
    decreases m,
{
    if m <= 0 {
        Seq::empty()
    } else {
        glyph_rects(x, y, g, scale, rgb, m - 1) + row_rects(x, y + (m - 1) * scale, g[m - 1], scale, rgb, 5)
    }
}

/// The squares of a text at `(x, y)`: each character takes six columns.
pub open spec fn text_rects(x: int, y: int, s: Seq<char>, rgb: [u8; 3], scale: int) -> Seq<Rect>
    decreases s.len(),
{
    if s.len() == 0 {
        Seq::empty()
    } else {
        text_rects(x, y, s.drop_last(), rgb, scale) + glyph_rects(
            x + (s.len() - 1) * 6 * scale,
            y,
            glyph_rows(s.last()),
            scale,
            rgb,
            7,
        )
    }
}

/// The text centered on `x`: shifted left by half its width, but not past 0.
pub open spec fn centered_rects(x: int, y: int, s: Seq<char>, rgb: [u8; 3], scale: int) -> Seq<Rect> {
    let width = (if s.len() * 6 >= 1 {
        s.len() * 6 - 1
    } else {
        0
    }) * scale;
    let left = if x >= width / 2 {
        x - width / 2
    } else {
        0
    };
    text_rects(left, y, s, rgb, scale)
}

proof fn lemma_paint_empty(img: Seq<[u8; 3]>, w: int, rs: Seq<Rect>)
    ensures
        paint_rects(img, w, rs + Seq::empty()) == paint_rects(img, w, rs),
{
    assert(rs + Seq::<Rect>::empty() =~= rs);
}

fn draw_row(img: &mut Vec<[u8; 3]>, w: u32, h: u32, x: u128, y: u128, bits: u8, scale: u128, rgb: [u8; 3])
    requires
        w > 0,
        old(img)@.len() == w * h,
        x <= 0x1_0000_0000_0000_0000_0000_0000,
        y <= 0x1_0000_0000_0000_0000_0000_0000,
        scale <= 4,
    ensures
        final(img)@ == paint_rects(old(img)@, w as int, row_rects(x as int, y as int, bits, scale as int, rgb, 5)),
{
    let ghost base = img@;
    let mut col: u32 = 0;
    while col < 5
        invariant
            w > 0,
            base.len() == w * h,
            img@.len() == w * h,
            col <= 5,
            x <= 0x1_0000_0000_0000_0000_0000_0000,
            y <= 0x1_0000_0000_0000_0000_0000_0000,
            scale <= 4,
            img@ == paint_rects(base, w as int, row_rects(x as int, y as int, bits, scale as int, rgb, col as int)),
        decreases 5 - col,
    {
        let ghost before = row_rects(x as int, y as int, bits, scale as int, rgb, col as int);
        if bits & (1u8 << (4 - col)) != 0 {
            assert(col * scale <= 16) by (nonlinear_arith)
                requires
                    col < 5,
                    scale <= 4,
            ;
            let left = x + col as u128 * scale;
            fill_rect(img, w, h, left, y, scale, scale, rgb);
            proof {
                let r: Rect = (left as int, y as int, scale as int, scale as int, rgb);
                lemma_paint_push(base, w as int, before, r);
                assert(before + seq![r] =~= before.push(r));
            }
        } else {
            proof {
                lemma_paint_empty(base, w as int, before);
            }
        }
        col = col + 1;
    }
}

fn draw_glyph(img: &mut Vec<[u8; 3]>, w: u32, h: u32, x: u128, y: u128, g: [u8; 7], scale: u128, rgb: [u8; 3])
    requires
        w > 0,
        old(img)@.len() == w * h,
        x <= 0x1_0000_0000_0000_0000_0000,
        y <= 0x1_0000_0000_0000_0000_0000,
        scale <= 4,
    ensures
        final(img)@ == paint_rects(old(img)@, w as int, glyph_rects(x as int, y as int, g, scale as int, rgb, 7)),
{
    let ghost base = img@;
    let mut row: usize = 0;
    while row < 7
        invariant
            w > 0,
            base.len() == w * h,
            img@.len() == w * h,
            row <= 7,
            x <= 0x1_0000_0000_0000_0000_0000,
            y <= 0x1_0000_0000_0000_0000_0000,
            scale <= 4,
            img@ == paint_rects(base, w as int, glyph_rects(x as int, y as int, g, scale as int, rgb, row as int)),
        decreases 7 - row,
    {
        let ghost before = glyph_rects(x as int, y as int, g, scale as int, rgb, row as int);
        let ghost mid = img@;
        assert(row * scale <= 24) by (nonlinear_arith)
            requires
                row < 7,
                scale <= 4,
        ;
        draw_row(img, w, h, x, y + row as u128 * scale, g[row], scale, rgb);
        proof {
            lemma_paint_concat(
                base,
                w as int,
                before,
                row_rects(x as int, y + row * scale, g[row as int], scale as int, rgb, 5),
            );
            lemma_paint_len(mid, w as int, row_rects(x as int, y + row * scale, g[row as int], scale as int, rgb, 5));
        }
        row = row + 1;
    }
}

/// Paint `s` at `(x, y)` in the bitmap font, `scale` pixels per font pixel.
pub fn draw_text(img: &mut Vec<[u8; 3]>, w: u32, h: u32, x: u128, y: u128, s: &Vec<char>, rgb: [u8; 3], scale: u128)
    requires
        w > 0,
        old(img)@.len() == w * h,
        x <= 0x1_0000_0000_0000_0000,
        y <= 0x1_0000_0000_0000_0000,
        scale <= 4,
    ensures
        final(img)@ == paint_rects(old(img)@, w as int, text_rects(x as int, y as int, s@, rgb, scale as int)),
{
    let ghost base = img@;
    let mut i: usize = 0;
    while i < s.len()
        invariant
            w > 0,
            base.len() == w * h,
            img@.len() == w * h,
            i <= s@.len(),
            x <= 0x1_0000_0000_0000_0000,
            y <= 0x1_0000_0000_0000_0000,
                scale <= 4,
            img@ == paint_rects(base, w as int, text_rects(x as int, y as int, s@.take(i as int), rgb, scale as int)),
        decreases s@.len() - i,
    {
        let ghost before = text_rects(x as int, y as int, s@.take(i as int), rgb, scale as int);
        let ghost mid = img@;
        assert(i * 6 * scale <= 0x1_0000_0000_0000_0000 * 24) by (nonlinear_arith)
            requires
                i < 0x1_0000_0000_0000_0000,
                scale <= 4,
        ;
        let left = x + (i as u128) * 6 * scale;
        draw_glyph(img, w, h, left, y, glyph(s[i]), scale, rgb);
        proof {
            let gr = glyph_rects(left as int, y as int, glyph_rows(s@[i as int]), scale as int, rgb, 7);
            lemma_paint_concat(base, w as int, before, gr);
            lemma_paint_len(mid, w as int, gr);
            let t = s@.take(i + 1);
            assert(t.drop_last() =~= s@.take(i as int));
            assert(t.last() == s@[i as int]);
            assert(text_rects(x as int, y as int, t, rgb, scale as int) == before + gr);
        }
        i = i + 1;
    }
    assert(s@.take(s@.len() as int) =~= s@);
}

/// Paint `s` centered on `x`.
pub fn draw_centered(
    img: &mut Vec<[u8; 3]>,
    w: u32,
    h: u32,
    x: u128,
    y: u128,
    s: &Vec<char>,
    rgb: [u8; 3],
    scale: u128,
)
    requires
        w > 0,
        old(img)@.len() == w * h,
        x <= 0x1_0000_0000_0000_0000,
        y <= 0x1_0000_0000_0000_0000,
        scale <= 4,
    ensures
        final(img)@ == paint_rects(old(img)@, w as int, centered_rects(x as int, y as int, s@, rgb, scale as int)),
{
    let chars6 = (s.len() as u128) * 6;
    let c1 = if chars6 >= 1 {
        chars6 - 1
    } else {
        0
    };
    assert(c1 * scale <= 0x6_0000_0000_0000_0000 * 4) by (nonlinear_arith)
        requires
            c1 <= 0x6_0000_0000_0000_0000,
            scale <= 4,
    ;
    let width = c1 * scale;
    let left = if x >= width / 2 {
        x - width / 2
    } else {
        0
    };
    draw_text(img, w, h, left, y, s, rgb, scale);
}

} // verus!
