//! Rasterize pixel-art primitives to center-line / interior points.
//! Coordinates are signed so thick brushes can expand past the origin;
//! the canvas clips when stamping.
use vstd::prelude::*;
use vstd::arithmetic::div_mod::{
    lemma_fundamental_div_mod, lemma_fundamental_div_mod_converse, lemma_mod_pos_bound,
};

verus! {

pub open spec fn abs(a: int) -> int {
    if a < 0 {
        -a
    } else {
        a
    }
}

pub open spec fn max(a: int, b: int) -> int {
    if a < b {
        b
    } else {
        a
    }
}

pub open spec fn min(a: int, b: int) -> int {
    if a < b {
        a
    } else {
        b
    }
}

pub open spec fn pt(x: int, y: int) -> (i32, i32) {
    (x as i32, y as i32)
}

/// Two points are equal or touch by an edge or a corner.
pub open spec fn adjacent8(p: (i32, i32), q: (i32, i32)) -> bool {
    abs(p.0 - q.0) <= 1 && abs(p.1 - q.1) <= 1
}

// ---------------------------------------------------------------------------
// Lines
// ---------------------------------------------------------------------------
/// Bresenham's all-octant walk from `(x, y)` with error term `err` towards
/// `(x1, y1)`; `fuel` bounds the number of points emitted.
pub open spec fn line_walk(
    x: int,
    y: int,
    err: int,
    x1: int,
    y1: int,
    dx: int,
    dy: int,
    sx: int,
    sy: int,
    fuel: nat,
) -> Seq<(i32, i32)>
    decreases fuel,
{
    if fuel == 0 {
        Seq::empty()
    } else if x == x1 && y == y1 {
        seq![pt(x, y)]
    } else {
        let e2 = 2 * err;
        let err_a = if e2 >= dy {
            err + dy
        } else {
            err
        };
        let nx = if e2 >= dy {
            x + sx
        } else {
            x
        };
        let err_b = if e2 <= dx {
            err_a + dx
        } else {
            err_a
        };
        let ny = if e2 <= dx {
            y + sy
        } else {
            y
        };
        seq![pt(x, y)] + line_walk(nx, ny, err_b, x1, y1, dx, dy, sx, sy, (fuel - 1) as nat)
    }
}

/// The Bresenham line from `(x0, y0)` to `(x1, y1)`, both ends included.
pub open spec fn line_spec(x0: int, y0: int, x1: int, y1: int) -> Seq<(i32, i32)> {
    let dx = abs(x1 - x0);
    let dy = -abs(y1 - y0);
    let sx = if x0 < x1 {
        1
    } else {
        -1int
    };
    let sy = if y0 < y1 {
        1
    } else {
        -1int
    };
    line_walk(x0, y0, dx + dy, x1, y1, dx, dy, sx, sy, (dx - dy + 1) as nat)
}

proof fn lemma_line_walk_step(
    x: int,
    y: int,
    err: int,
    x1: int,
    y1: int,
    dx: int,
    dy: int,
    sx: int,
    sy: int,
    fuel: nat,
)
    requires
        fuel > 0,
        !(x == x1 && y == y1),
    ensures
        ({
            let e2 = 2 * err;
            let err_a = if e2 >= dy {
                err + dy
            } else {
                err
            };
            let nx = if e2 >= dy {
                x + sx
            } else {
                x
            };
            let err_b = if e2 <= dx {
                err_a + dx
            } else {
                err_a
            };
            let ny = if e2 <= dx {
                y + sy
            } else {
                y
            };
            line_walk(x, y, err, x1, y1, dx, dy, sx, sy, fuel) == seq![pt(x, y)] + line_walk(
                nx,
                ny,
                err_b,
                x1,
                y1,
                dx,
                dy,
                sx,
                sy,
                (fuel - 1) as nat,
            )
        }),
{
}

/// Bresenham line between two points. The result starts at `(x0, y0)`, ends at
/// `(x1, y1)`, holds `max(|dx|, |dy|) + 1` points, and each point touches the
/// next by an edge or a corner.
#[verifier::rlimit(30)]
pub fn line_points(x0: i32, y0: i32, x1: i32, y1: i32) -> (points: Vec<(i32, i32)>)
    ensures
        points@ == line_spec(x0 as int, y0 as int, x1 as int, y1 as int),
        points@.len() == max(abs(x1 - x0), abs(y1 - y0)) + 1,
        points@[0] == (x0, y0),
        points@.last() == (x1, y1),
        forall|i: int| 0 <= i < points@.len() - 1 ==> adjacent8(#[trigger] points@[i], points@[i + 1]),
{
    let ghost gdx = abs(x1 - x0);
    let ghost gdy = abs(y1 - y0);
    let dx: i64 = if x1 >= x0 {
        x1 as i64 - x0 as i64
    } else {
        x0 as i64 - x1 as i64
    };
    let dy: i64 = if y1 >= y0 {
        -(y1 as i64 - y0 as i64)
    } else {
        -(y0 as i64 - y1 as i64)
    };
    let sx: i32 = if x0 < x1 {
        1
    } else {
        -1
    };
    let sy: i32 = if y0 < y1 {
        1
    } else {
        -1
    };
    let mut points: Vec<(i32, i32)> = Vec::new();
    let mut x: i32 = x0;
    let mut y: i32 = y0;
    let mut err: i64 = dx + dy;
    // Steps taken along each axis, with their products kept linear.
    let ghost mut a: int = 0;
    let ghost mut b: int = 0;
    let ghost mut pa: int = 0;
    let ghost mut pb: int = 0;
    let ghost full = line_spec(x0 as int, y0 as int, x1 as int, y1 as int);
    loop
        invariant_except_break
            dx == gdx,
            dy == -gdy,
            0 <= gdx <= 0x1_0000_0000,
            0 <= gdy <= 0x1_0000_0000,
            gdx == abs(x1 - x0),
            gdy == abs(y1 - y0),
            full == line_spec(x0 as int, y0 as int, x1 as int, y1 as int),
            sx == (if x0 < x1 {
                1int
            } else {
                -1int
            }),
            sy == (if y0 < y1 {
                1int
            } else {
                -1int
            }),
            0 <= a <= gdx,
            0 <= b <= gdy,
            x == x0 + (if x0 < x1 {
                a
            } else {
                -a
            }),
            y == y0 + (if y0 < y1 {
                b
            } else {
                -b
            }),
            pa == gdy * a,
            pb == gdx * b,
            err == gdx + pb - gdy - pa,
            -3 * gdy <= 2 * err <= 3 * gdx,
            gdx >= gdy ==> 2 * err >= -gdy,
            gdy >= gdx ==> 2 * err <= gdx,
            (x == x1) == (a == gdx),
            (y == y1) == (b == gdy),
            points@.len() == (if gdx >= gdy {
                a
            } else {
                b
            }),
            points@.len() > 0 ==> points@[0] == (x0, y0),
            points@.len() > 0 ==> adjacent8(points@.last(), (x, y)),
            points@.len() == 0 ==> a == 0 && b == 0,
            forall|i: int|
                0 <= i < points@.len() - 1 ==> adjacent8(#[trigger] points@[i], points@[i + 1]),
            points@ + line_walk(
                x as int,
                y as int,
                err as int,
                x1 as int,
                y1 as int,
                dx as int,
                dy as int,
                sx as int,
                sy as int,
                (gdx + gdy + 1 - points@.len()) as nat,
            ) == full,
        ensures
            points@ == full,
            points@.len() == max(gdx, gdy) + 1,
            points@[0] == (x0, y0),
            points@.last() == (x1, y1),
            forall|i: int|
                0 <= i < points@.len() - 1 ==> adjacent8(#[trigger] points@[i], points@[i + 1]),
        decreases gdx - a + gdy - b,
    {
        let ghost fuel: nat = (gdx + gdy + 1 - points@.len()) as nat;
        let ghost prev = points@;
        points.push((x, y));
        if x == x1 && y == y1 {
            assert(line_walk(
                x as int,
                y as int,
                err as int,
                x1 as int,
                y1 as int,
                dx as int,
                dy as int,
                sx as int,
                sy as int,
                fuel,
            ) == seq![pt(x as int, y as int)]);
            assert(prev + seq![pt(x as int, y as int)] =~= points@);
            break;
        }
        proof {
            lemma_line_walk_step(
                x as int,
                y as int,
                err as int,
                x1 as int,
                y1 as int,
                dx as int,
                dy as int,
                sx as int,
                sy as int,
                fuel,
            );
        }
        let e2 = 2 * err;
        proof {
            // No step overshoots its axis.
            if a == gdx && b < gdy {
                assert(pb <= gdx * (gdy - 1)) by (nonlinear_arith)
                    requires
                        pb == gdx * b,
                        b <= gdy - 1,
                        gdx >= 0,
                ;
                assert(pa == gdy * gdx) by (nonlinear_arith)
                    requires
                        pa == gdy * a,
                        a == gdx,
                ;
                assert(gdx * (gdy - 1) == gdy * gdx - gdx) by (nonlinear_arith);
                assert(e2 < dy);
            }
            if b == gdy && a < gdx {
                assert(pa <= gdy * (gdx - 1)) by (nonlinear_arith)
                    requires
                        pa == gdy * a,
                        a <= gdx - 1,
                        gdy >= 0,
                ;
                assert(pb == gdx * gdy) by (nonlinear_arith)
                    requires
                        pb == gdx * b,
                        b == gdy,
                ;
                assert(gdy * (gdx - 1) == gdy * gdx - gdy) by (nonlinear_arith);
                assert(gdx * gdy == gdy * gdx) by (nonlinear_arith);
                assert(e2 > dx);
            }
        }
        if e2 >= dy {
            err = err + dy;
            x = x + sx;
            proof {
                a = a + 1;
                pa = pa + gdy;
                assert(pa == gdy * a) by (nonlinear_arith)
                    requires
                        pa == gdy * (a - 1) + gdy,
                ;
            }
        }
        if e2 <= dx {
            err = err + dx;
            y = y + sy;
            proof {
                b = b + 1;
                pb = pb + gdx;
                assert(pb == gdx * b) by (nonlinear_arith)
                    requires
                        pb == gdx * (b - 1) + gdx,
                ;
            }
        }
        proof {
            assert(prev + seq![pt(points@.last().0 as int, points@.last().1 as int)] =~= points@);
            assert(points@ + line_walk(
                x as int,
                y as int,
                err as int,
                x1 as int,
                y1 as int,
                dx as int,
                dy as int,
                sx as int,
                sy as int,
                (gdx + gdy + 1 - points@.len()) as nat,
            ) =~= full);
        }
    }
    points
}

// ---------------------------------------------------------------------------
// Rectangles
// ---------------------------------------------------------------------------
/// Normalize two corners into inclusive min/max bounds.
pub fn rect_bounds(x0: i32, y0: i32, x1: i32, y1: i32) -> (r: (i32, i32, i32, i32))
    ensures
        r.0 == min(x0 as int, x1 as int),
        r.1 == min(y0 as int, y1 as int),
        r.2 == max(x0 as int, x1 as int),
        r.3 == max(y0 as int, y1 as int),
{
    let left = if x0 < x1 {
        x0
    } else {
        x1
    };
    let top = if y0 < y1 {
        y0
    } else {
        y1
    };
    let right = if x0 < x1 {
        x1
    } else {
        x0
    };
    let bottom = if y0 < y1 {
        y1
    } else {
        y0
    };
    (left, top, right, bottom)
}

/// The `w` by `h` block of points with top-left corner `(left, top)`, row by row.
pub open spec fn grid(left: int, top: int, w: int, h: int) -> Seq<(i32, i32)> {
    Seq::new((w * h) as nat, |k: int| pt(left + k % w, top + k / w))
}

pub proof fn lemma_grid_index(w: int, h: int, r: int, c: int)
    requires
        0 <= r < h,
        0 <= c < w,
    ensures
        (r * w + c) % w == c,
        (r * w + c) / w == r,
        0 <= r * w + c,
        r * w + c + 1 <= w * h,
        r * w + w == (r + 1) * w,
{
    lemma_fundamental_div_mod_converse(r * w + c, w, r, c);
    assert(0 <= r * w) by (nonlinear_arith)
        requires
            0 <= r,
            0 <= c < w,
    ;
    assert((r + 1) * w <= h * w) by (nonlinear_arith)
        requires
            r + 1 <= h,
            0 <= w,
    ;
    assert(r * w + w == (r + 1) * w) by (nonlinear_arith);
    assert(w * h == h * w) by (nonlinear_arith);
}

pub proof fn lemma_take_push<A>(s: Seq<A>, k: int)
    requires
        0 <= k < s.len(),
    ensures
        s.take(k + 1) == s.take(k).push(s[k]),
        s.take(k + 1).drop_last() == s.take(k),
        s.take(k + 1).last() == s[k],
{
    assert(s.take(k + 1) =~= s.take(k).push(s[k]));
    assert(s.take(k + 1).drop_last() =~= s.take(k));
}

pub proof fn lemma_take_filter_push<A>(s: Seq<A>, k: int, pred: spec_fn(A) -> bool)
    requires
        0 <= k < s.len(),
    ensures
        s.take(k + 1).filter(pred) == (if pred(s[k]) {
            s.take(k).filter(pred).push(s[k])
        } else {
            s.take(k).filter(pred)
        }),
{
    lemma_take_push(s, k);
    reveal_with_fuel(Seq::<_>::filter, 1);
}

/// Every point of the rectangle spanned by two corners, row by row.
pub open spec fn rect_fill_spec(x0: int, y0: int, x1: int, y1: int) -> Seq<(i32, i32)> {
    let (l, t, r, b) = (min(x0, x1), min(y0, y1), max(x0, x1), max(y0, y1));
    grid(l, t, r - l + 1, b - t + 1)
}

/// Every point of the rectangle, row by row.
pub fn rect_fill_points(x0: i32, y0: i32, x1: i32, y1: i32) -> (points: Vec<(i32, i32)>)
    ensures
        points@ == rect_fill_spec(x0 as int, y0 as int, x1 as int, y1 as int),
{
    let (left, top, right, bottom) = rect_bounds(x0, y0, x1, y1);
    let w: i64 = right as i64 - left as i64 + 1;
    let h: i64 = bottom as i64 - top as i64 + 1;
    let ghost g = grid(left as int, top as int, w as int, h as int);
    let mut points: Vec<(i32, i32)> = Vec::new();
    let mut r: i64 = 0;
    while r < h
        invariant
            1 <= w <= 0x1_0000_0000,
            1 <= h <= 0x1_0000_0000,
            w == right - left + 1,
            h == bottom - top + 1,
            0 <= r <= h,
            g == grid(left as int, top as int, w as int, h as int),
            points@ == g.take(r * w),
        decreases h - r,
    {
        let mut c: i64 = 0;
        while c < w
            invariant
                1 <= w <= 0x1_0000_0000,
                1 <= h <= 0x1_0000_0000,
                w == right - left + 1,
                h == bottom - top + 1,
                0 <= r < h,
                0 <= c <= w,
                g == grid(left as int, top as int, w as int, h as int),
                points@ == g.take(r * w + c),
            decreases w - c,
        {
            proof {
                lemma_grid_index(w as int, h as int, r as int, c as int);
                lemma_take_push(g, r * w + c);
            }
            points.push(((left as i64 + c) as i32, (top as i64 + r) as i32));
            c = c + 1;
        }
        proof {
            lemma_grid_index(w as int, h as int, r as int, 0);
        }
        r = r + 1;
    }
    assert(g.take(h * w) =~= g) by {
        assert(h * w == w * h) by (nonlinear_arith);
    }
    points
}

/// Outline of a rectangle with distinct left/right and top/bottom edges:
/// top and bottom rows column by column, then the left and right columns in between.
pub open spec fn rect_border(l: int, t: int, r: int, b: int) -> Seq<(i32, i32)> {
    border_rows(l, t, r, b) + border_columns(l, t, r, b)
}

/// Top and bottom row of a rectangle outline, interleaved column by column.
pub open spec fn border_rows(l: int, t: int, r: int, b: int) -> Seq<(i32, i32)> {
    Seq::new((2 * (r - l + 1)) as nat, |k: int| pt(l + k / 2, if k % 2 == 0 { t } else { b }))
}

/// Left and right column of a rectangle outline strictly between its rows.
pub open spec fn border_columns(l: int, t: int, r: int, b: int) -> Seq<(i32, i32)> {
    Seq::new((2 * (b - t - 1)) as nat, |k: int| pt(if k % 2 == 0 { l } else { r }, t + 1 + k / 2))
}

/// The outline points of a rectangle.
pub open spec fn rect_stroke_spec(x0: int, y0: int, x1: int, y1: int) -> Seq<(i32, i32)> {
    let (l, t, r, b) = (min(x0, x1), min(y0, y1), max(x0, x1), max(y0, y1));
    if l == r && t == b {
        seq![pt(l, t)]
    } else if l == r {
        line_spec(l, t, l, b)
    } else if t == b {
        line_spec(l, t, r, t)
    } else {
        rect_border(l, t, r, b)
    }
}

pub fn rect_stroke_points(x0: i32, y0: i32, x1: i32, y1: i32) -> (points: Vec<(i32, i32)>)
    ensures
        points@ == rect_stroke_spec(x0 as int, y0 as int, x1 as int, y1 as int),
{
    let (left, top, right, bottom) = rect_bounds(x0, y0, x1, y1);
    if left == right && top == bottom {
        let v = vec![(left, top)];
        assert(v@ =~= seq![pt(left as int, top as int)]);
        return v;
    }
    if left == right {
        return line_points(left, top, left, bottom);
    }
    if top == bottom {
        return line_points(left, top, right, top);
    }
    let ghost first = border_rows(left as int, top as int, right as int, bottom as int);
    let ghost second = border_columns(left as int, top as int, right as int, bottom as int);
    let mut points: Vec<(i32, i32)> = Vec::new();
    let mut x: i32 = left;
    loop
        invariant_except_break
            left <= x <= right,
            first == border_rows(left as int, top as int, right as int, bottom as int),
            points@ == first.take(2 * (x - left)),
        ensures
            points@ == first,
        decreases right - x,
    {
        let ghost k = 2 * (x - left);
        let ghost prev = points@;
        points.push((x, top));
        points.push((x, bottom));
        assert(k / 2 == x - left && k % 2 == 0);
        assert((k + 1) / 2 == x - left && (k + 1) % 2 == 1);
        assert(first[k] == (x, top));
        assert(first[k + 1] == (x, bottom));
        assert(first.take(k + 2) =~= prev.push((x, top)).push((x, bottom)));
        assert(points@ =~= first.take(k + 2));
        if x == right {
            assert(first.take(k + 2) =~= first);
            break;
        }
        x = x + 1;
    }
    let mut y: i32 = top + 1;
    while y < bottom
        invariant
            top + 1 <= y <= bottom,
            top < bottom,
            left < right,
            first == border_rows(left as int, top as int, right as int, bottom as int),
            second == border_columns(left as int, top as int, right as int, bottom as int),
            points@ == first + second.take(2 * (y - top - 1)),
        decreases bottom - y,
    {
        let ghost k = 2 * (y - top - 1);
        let ghost prev = points@;
        points.push((left, y));
        points.push((right, y));
        assert(k / 2 == y - top - 1 && k % 2 == 0);
        assert((k + 1) / 2 == y - top - 1 && (k + 1) % 2 == 1);
        assert(second[k] == (left, y));
        assert(second[k + 1] == (right, y));
        assert(second.take(k + 2) =~= second.take(k).push((left, y)).push((right, y)));
        assert(points@ =~= first + second.take(k + 2));
        y = y + 1;
    }
    assert(second.take(2 * (bottom - top - 1)) =~= second);
    points
}

// ---------------------------------------------------------------------------
// Circles
// ---------------------------------------------------------------------------
/// The eight octant reflections of `(x, y)` about `(cx, cy)`.
pub open spec fn octants(cx: int, cy: int, x: int, y: int) -> Seq<(i32, i32)> {
    seq![
        pt(cx + x, cy + y),
        pt(cx - x, cy + y),
        pt(cx + x, cy - y),
        pt(cx - x, cy - y),
        pt(cx + y, cy + x),
        pt(cx - y, cy + x),
        pt(cx + y, cy - x),
        pt(cx - y, cy - x),
    ]
}

/// The midpoint circle walk from `(x, y)` with decision value `d`.
pub open spec fn circle_walk(cx: int, cy: int, x: int, y: int, d: int) -> Seq<(i32, i32)>
    decreases (if x <= y {
        y - x + 1
    } else {
        0
    }),
{
    if x <= y {
        let (nd, ny) = if d < 0 {
            (d + 2 * x + 3, y)
        } else {
            (d + 2 * (x - y) + 5, y - 1)
        };
        octants(cx, cy, x, y) + circle_walk(cx, cy, x + 1, ny, nd)
    } else {
        Seq::empty()
    }
}

/// Midpoint circle outline; a radius of zero or less gives the center alone.
pub open spec fn circle_stroke_spec(cx: int, cy: int, r: int) -> Seq<(i32, i32)> {
    if r <= 0 {
        seq![pt(cx, cy)]
    } else {
        circle_walk(cx, cy, 0, r, 1 - r)
    }
}

/// The coordinates `cx - r ..= cx + r` and `cy - r ..= cy + r` fit in `i32`.
pub open spec fn span_fits(cx: int, cy: int, rx: int, ry: int) -> bool {
    &&& i32::MIN <= cx - rx
    &&& cx + rx <= i32::MAX
    &&& i32::MIN <= cy - ry
    &&& cy + ry <= i32::MAX
}

pub fn circle_stroke_points(cx: i32, cy: i32, r: i32) -> (points: Vec<(i32, i32)>)
    requires
        r <= 0 || span_fits(cx as int, cy as int, r as int, r as int),
    ensures
        points@ == circle_stroke_spec(cx as int, cy as int, r as int),
{
    if r <= 0 {
        let v = vec![(cx, cy)];
        assert(v@ =~= seq![pt(cx as int, cy as int)]);
        return v;
    }
    let ghost full = circle_walk(cx as int, cy as int, 0, r as int, 1 - r);
    let mut points: Vec<(i32, i32)> = Vec::new();
    let mut x: i64 = 0;
    let mut y: i64 = r as i64;
    let mut d: i64 = 1 - r as i64;
    while x <= y
        invariant
            0 < r,
            span_fits(cx as int, cy as int, r as int, r as int),
            0 <= x <= y + 2,
            -1 <= y,
            y <= r,
            x <= r + 1,
            -2 * r <= d <= 5 * x + 5,
            full == circle_walk(cx as int, cy as int, 0, r as int, 1 - r),
            points@ + circle_walk(cx as int, cy as int, x as int, y as int, d as int) == full,
        decreases (if x <= y {
            y - x + 1
        } else {
            0
        }),
    {
        let ghost prev = points@;
        let (px, py) = (cx as i64, cy as i64);
        points.push(((px + x) as i32, (py + y) as i32));
        points.push(((px - x) as i32, (py + y) as i32));
        points.push(((px + x) as i32, (py - y) as i32));
        points.push(((px - x) as i32, (py - y) as i32));
        points.push(((px + y) as i32, (py + x) as i32));
        points.push(((px - y) as i32, (py + x) as i32));
        points.push(((px + y) as i32, (py - x) as i32));
        points.push(((px - y) as i32, (py - x) as i32));
        assert(points@ =~= prev + octants(cx as int, cy as int, x as int, y as int));
        if d < 0 {
            d = d + 2 * x + 3;
        } else {
            d = d + 2 * (x - y) + 5;
            y = y - 1;
        }
        x = x + 1;
        assert(points@ + circle_walk(cx as int, cy as int, x as int, y as int, d as int) =~= full);
    }
    points
}

/// Whether `p` lies within distance `r` of `(cx, cy)`.
pub open spec fn in_circle(cx: int, cy: int, r: int) -> spec_fn((i32, i32)) -> bool {
    |p: (i32, i32)| (p.0 - cx) * (p.0 - cx) + (p.1 - cy) * (p.1 - cy) <= r * r
}

/// Filled disc; a radius of zero or less gives the center alone.
pub open spec fn circle_fill_spec(cx: int, cy: int, r: int) -> Seq<(i32, i32)> {
    if r <= 0 {
        seq![pt(cx, cy)]
    } else {
        grid(cx - r, cy - r, 2 * r + 1, 2 * r + 1).filter(in_circle(cx, cy, r))
    }
}

pub fn circle_fill_points(cx: i32, cy: i32, r: i32) -> (points: Vec<(i32, i32)>)
    requires
        r <= 0 || span_fits(cx as int, cy as int, r as int, r as int),
    ensures
        points@ == circle_fill_spec(cx as int, cy as int, r as int),
{
    if r <= 0 {
        let v = vec![(cx, cy)];
        assert(v@ =~= seq![pt(cx as int, cy as int)]);
        return v;
    }
    let n: i64 = 2 * r as i64 + 1;
    let left: i64 = cx as i64 - r as i64;
    let top: i64 = cy as i64 - r as i64;
    assert(0 < r as int * r as int <= 0x3FFF_FFFF_0000_0001) by (nonlinear_arith)
        requires
            0 < r <= 0x7FFF_FFFF,
    ;
    let rr: i64 = r as i64 * r as i64;
    let ghost g = grid(left as int, top as int, n as int, n as int);
    let ghost pred = in_circle(cx as int, cy as int, r as int);
    let mut points: Vec<(i32, i32)> = Vec::new();
    let mut row: i64 = 0;
    while row < n
        invariant
            0 < r,
            span_fits(cx as int, cy as int, r as int, r as int),
            n == 2 * r + 1,
            left == cx - r,
            top == cy - r,
            rr == r * r,
            0 <= row <= n,
            g == grid(left as int, top as int, n as int, n as int),
            pred == in_circle(cx as int, cy as int, r as int),
            points@ == g.take(row * n).filter(pred),
        decreases n - row,
    {
        let mut col: i64 = 0;
        while col < n
            invariant
                0 < r,
                span_fits(cx as int, cy as int, r as int, r as int),
                n == 2 * r + 1,
                left == cx - r,
                top == cy - r,
                rr == r * r,
                0 <= row < n,
                0 <= col <= n,
                g == grid(left as int, top as int, n as int, n as int),
                pred == in_circle(cx as int, cy as int, r as int),
                points@ == g.take(row * n + col).filter(pred),
            decreases n - col,
        {
            proof {
                lemma_grid_index(n as int, n as int, row as int, col as int);
                lemma_take_filter_push(g, row * n + col, pred);
            }
            let dx: i64 = col - r as i64;
            let dy: i64 = row - r as i64;
            assert(dx * dx <= r * r && dy * dy <= r * r) by (nonlinear_arith)
                requires
                    -r <= dx <= r,
                    -r <= dy <= r,
            ;
            assert(0 <= dx * dx <= 0x3FFF_FFFF_0000_0001 && 0 <= dy * dy
                <= 0x3FFF_FFFF_0000_0001) by (nonlinear_arith)
                requires
                    -0x7FFF_FFFF <= dx <= 0x7FFF_FFFF,
                    -0x7FFF_FFFF <= dy <= 0x7FFF_FFFF,
            ;
            if dx * dx + dy * dy <= rr {
                points.push(((cx as i64 + dx) as i32, (cy as i64 + dy) as i32));
            }
            col = col + 1;
        }
        proof {
            lemma_grid_index(n as int, n as int, row as int, 0);
        }
        row = row + 1;
    }
    assert(g.take(n * n) =~= g);
    points
}

// ---------------------------------------------------------------------------
// Ellipses
// ---------------------------------------------------------------------------
/// Whether `p` lies inside the ellipse with radii `rx`, `ry` around `(cx, cy)`,
/// tested as `dx²·ry² + dy²·rx² ≤ max(rx²·ry², 1)`.
pub open spec fn in_ellipse(cx: int, cy: int, rx: int, ry: int) -> spec_fn((i32, i32)) -> bool {
    |p: (i32, i32)|
        (p.0 - cx) * (p.0 - cx) * (ry * ry) + (p.1 - cy) * (p.1 - cy) * (rx * rx) <= max(
            rx * rx * (ry * ry),
            1,
        )
}

/// Filled ellipse; negative radii count as zero, and two radii of zero or
/// less give the center alone.
pub open spec fn ellipse_fill_spec(cx: int, cy: int, rx: int, ry: int) -> Seq<(i32, i32)> {
    if rx <= 0 && ry <= 0 {
        seq![pt(cx, cy)]
    } else {
        let ax = max(rx, 0);
        let ay = max(ry, 0);
        grid(cx - ax, cy - ay, 2 * ax + 1, 2 * ay + 1).filter(in_ellipse(cx, cy, ax, ay))
    }
}

/// The ellipse test fits in `i64` arithmetic.
pub open spec fn ellipse_fits(cx: int, cy: int, rx: int, ry: int) -> bool {
    let ax = max(rx, 0);
    let ay = max(ry, 0);
    &&& span_fits(cx, cy, ax, ay)
    &&& 2 * ((ax * ax) * (ay * ay)) <= i64::MAX
}

pub fn ellipse_fill_points(cx: i32, cy: i32, rx: i32, ry: i32) -> (points: Vec<(i32, i32)>)
    requires
        (rx <= 0 && ry <= 0) || ellipse_fits(cx as int, cy as int, rx as int, ry as int),
    ensures
        points@ == ellipse_fill_spec(cx as int, cy as int, rx as int, ry as int),
{
    if rx <= 0 && ry <= 0 {
        let v = vec![(cx, cy)];
        assert(v@ =~= seq![pt(cx as int, cy as int)]);
        return v;
    }
    let ax: i64 = if rx > 0 {
        rx as i64
    } else {
        0
    };
    let ay: i64 = if ry > 0 {
        ry as i64
    } else {
        0
    };
    assert(ax * ax <= 0x4000_0000_0000_0000 && ay * ay <= 0x4000_0000_0000_0000)
        by (nonlinear_arith)
        requires
            0 <= ax <= 0x8000_0000,
            0 <= ay <= 0x8000_0000,
    ;
    let rx2: i64 = ax * ax;
    let ry2: i64 = ay * ay;
    assert(0 <= rx2 * ry2 <= i64::MAX / 2) by (nonlinear_arith)
        requires
            2 * ((ax * ax) * (ay * ay)) <= i64::MAX,
            rx2 == ax * ax,
            ry2 == ay * ay,
            rx2 >= 0,
            ry2 >= 0,
    ;
    let prod: i64 = rx2 * ry2;
    let denom: i64 = if prod > 1 {
        prod
    } else {
        1
    };
    let w: i64 = 2 * ax + 1;
    let h: i64 = 2 * ay + 1;
    let left: i64 = cx as i64 - ax;
    let top: i64 = cy as i64 - ay;
    let ghost g = grid(left as int, top as int, w as int, h as int);
    let ghost pred = in_ellipse(cx as int, cy as int, ax as int, ay as int);
    let mut points: Vec<(i32, i32)> = Vec::new();
    let mut row: i64 = 0;
    while row < h
        invariant
            0 <= ax,
            0 <= ay,
            ax == max(rx as int, 0),
            ay == max(ry as int, 0),
            ellipse_fits(cx as int, cy as int, rx as int, ry as int),
            rx2 == ax * ax,
            ry2 == ay * ay,
            denom == max(rx2 * ry2, 1),
            0 <= rx2 * ry2 <= i64::MAX / 2,
            0 <= rx2,
            0 <= ry2,
            w == 2 * ax + 1,
            h == 2 * ay + 1,
            left == cx - ax,
            top == cy - ay,
            0 <= row <= h,
            g == grid(left as int, top as int, w as int, h as int),
            pred == in_ellipse(cx as int, cy as int, ax as int, ay as int),
            points@ == g.take(row * w).filter(pred),
        decreases h - row,
    {
        let mut col: i64 = 0;
        while col < w
            invariant
                0 <= ax,
                0 <= ay,
                ax == max(rx as int, 0),
                ay == max(ry as int, 0),
                ellipse_fits(cx as int, cy as int, rx as int, ry as int),
                rx2 == ax * ax,
                ry2 == ay * ay,
                denom == max(rx2 * ry2, 1),
                0 <= rx2 * ry2 <= i64::MAX / 2,
                0 <= rx2,
                0 <= ry2,
                w == 2 * ax + 1,
                h == 2 * ay + 1,
                left == cx - ax,
                top == cy - ay,
                0 <= row < h,
                0 <= col <= w,
                g == grid(left as int, top as int, w as int, h as int),
                pred == in_ellipse(cx as int, cy as int, ax as int, ay as int),
                points@ == g.take(row * w + col).filter(pred),
            decreases w - col,
        {
            proof {
                lemma_grid_index(w as int, h as int, row as int, col as int);
                lemma_take_filter_push(g, row * w + col, pred);
            }
            let dx: i64 = col - ax;
            let dy: i64 = row - ay;
            assert(0 <= dx * dx <= rx2 && 0 <= dy * dy <= ry2 && dx * dx * ry2 <= rx2 * ry2
                && dy * dy * rx2 <= rx2 * ry2 && 0 <= dx * dx * ry2 && 0 <= dy * dy * rx2)
                by (nonlinear_arith)
                requires
                    -ax <= dx <= ax,
                    -ay <= dy <= ay,
                    rx2 == ax * ax,
                    ry2 == ay * ay,
                    ax >= 0,
                    ay >= 0,
            ;
            let lhs: i64 = dx * dx * ry2 + dy * dy * rx2;
            if lhs <= denom {
                points.push(((cx as i64 + dx) as i32, (cy as i64 + dy) as i32));
            }
            col = col + 1;
        }
        proof {
            lemma_grid_index(w as int, h as int, row as int, 0);
        }
        row = row + 1;
    }
    assert(g.take(h * w) =~= g) by {
        assert(h * w == w * h) by (nonlinear_arith);
    }
    points
}

// ---------------------------------------------------------------------------
// Triangles
// ---------------------------------------------------------------------------
/// Twice the signed area of triangle `(a, b, p)`.
pub open spec fn edge_spec(ax: int, ay: int, bx: int, by: int, px: int, py: int) -> int {
    (bx - ax) * (py - ay) - (by - ay) * (px - ax)
}

/// All coordinate differences among the points stay within `i32`, so the
/// edge products fit in `i64`.
pub open spec fn spread_fits(xs: Seq<int>, ys: Seq<int>) -> bool {
    &&& forall|i: int, j: int| 0 <= i < xs.len() && 0 <= j < xs.len() ==> abs(xs[i] - xs[j]) <= i32::MAX
    &&& forall|i: int, j: int| 0 <= i < ys.len() && 0 <= j < ys.len() ==> abs(ys[i] - ys[j]) <= i32::MAX
}

fn edge(ax: i32, ay: i32, bx: i32, by: i32, px: i32, py: i32) -> (e: i64)
    requires
        abs(bx - ax) <= i32::MAX,
        abs(py - ay) <= i32::MAX,
        abs(by - ay) <= i32::MAX,
        abs(px - ax) <= i32::MAX,
    ensures
        e == edge_spec(ax as int, ay as int, bx as int, by as int, px as int, py as int),
{
    let p: i64 = bx as i64 - ax as i64;
    let q: i64 = py as i64 - ay as i64;
    let s: i64 = by as i64 - ay as i64;
    let t: i64 = px as i64 - ax as i64;
    assert(-0x3FFF_FFFF_0000_0001 <= p * q <= 0x3FFF_FFFF_0000_0001) by (nonlinear_arith)
        requires
            -0x7FFF_FFFF <= p <= 0x7FFF_FFFF,
            -0x7FFF_FFFF <= q <= 0x7FFF_FFFF,
    ;
    assert(-0x3FFF_FFFF_0000_0001 <= s * t <= 0x3FFF_FFFF_0000_0001) by (nonlinear_arith)
        requires
            -0x7FFF_FFFF <= s <= 0x7FFF_FFFF,
            -0x7FFF_FFFF <= t <= 0x7FFF_FFFF,
    ;
    p * q - s * t
}

/// The three sides of a triangle, each as a Bresenham line.
pub open spec fn triangle_stroke_spec(x0: int, y0: int, x1: int, y1: int, x2: int, y2: int) -> Seq<
    (i32, i32),
> {
    line_spec(x0, y0, x1, y1) + line_spec(x1, y1, x2, y2) + line_spec(x2, y2, x0, y0)
}

pub fn triangle_stroke_points(x0: i32, y0: i32, x1: i32, y1: i32, x2: i32, y2: i32) -> (points:
    Vec<(i32, i32)>)
    ensures
        points@ == triangle_stroke_spec(
            x0 as int,
            y0 as int,
            x1 as int,
            y1 as int,
            x2 as int,
            y2 as int,
        ),
{
    let mut points = line_points(x0, y0, x1, y1);
    let mut second = line_points(x1, y1, x2, y2);
    let mut third = line_points(x2, y2, x0, y0);
    points.append(&mut second);
    points.append(&mut third);
    points
}

/// Whether `p` is inside or on the triangle: its three edge values share a sign.
pub open spec fn in_triangle(x0: int, y0: int, x1: int, y1: int, x2: int, y2: int) -> spec_fn(
    (i32, i32),
) -> bool {
    |p: (i32, i32)|
        {
            let w0 = edge_spec(x1, y1, x2, y2, p.0 as int, p.1 as int);
            let w1 = edge_spec(x2, y2, x0, y0, p.0 as int, p.1 as int);
            let w2 = edge_spec(x0, y0, x1, y1, p.0 as int, p.1 as int);
            (w0 >= 0 && w1 >= 0 && w2 >= 0) || (w0 <= 0 && w1 <= 0 && w2 <= 0)
        }
}

/// Filled triangle over its bounding box; a degenerate triangle is stroked.
pub open spec fn triangle_fill_spec(x0: int, y0: int, x1: int, y1: int, x2: int, y2: int) -> Seq<
    (i32, i32),
> {
    if edge_spec(x0, y0, x1, y1, x2, y2) == 0 {
        triangle_stroke_spec(x0, y0, x1, y1, x2, y2)
    } else {
        let l = min(min(x0, x1), x2);
        let r = max(max(x0, x1), x2);
        let t = min(min(y0, y1), y2);
        let b = max(max(y0, y1), y2);
        grid(l, t, r - l + 1, b - t + 1).filter(in_triangle(x0, y0, x1, y1, x2, y2))
    }
}

pub fn triangle_fill_points(x0: i32, y0: i32, x1: i32, y1: i32, x2: i32, y2: i32) -> (points:
    Vec<(i32, i32)>)
    requires
        spread_fits(seq![x0 as int, x1 as int, x2 as int], seq![y0 as int, y1 as int, y2 as int]),
    ensures
        points@ == triangle_fill_spec(
            x0 as int,
            y0 as int,
            x1 as int,
            y1 as int,
            x2 as int,
            y2 as int,
        ),
{
    let ghost xs = seq![x0 as int, x1 as int, x2 as int];
    let ghost ys = seq![y0 as int, y1 as int, y2 as int];
    assert(abs(x1 - x0) <= i32::MAX && abs(x2 - x0) <= i32::MAX && abs(x2 - x1) <= i32::MAX
        && abs(x0 - x1) <= i32::MAX && abs(x0 - x2) <= i32::MAX && abs(x1 - x2) <= i32::MAX) by {
        assert(xs[0] == x0 && xs[1] == x1 && xs[2] == x2);
        assert(abs(xs[1] - xs[0]) <= i32::MAX);
        assert(abs(xs[2] - xs[0]) <= i32::MAX);
        assert(abs(xs[2] - xs[1]) <= i32::MAX);
        assert(abs(xs[0] - xs[1]) <= i32::MAX);
        assert(abs(xs[0] - xs[2]) <= i32::MAX);
        assert(abs(xs[1] - xs[2]) <= i32::MAX);
    }
    assert(abs(y1 - y0) <= i32::MAX && abs(y2 - y0) <= i32::MAX && abs(y2 - y1) <= i32::MAX
        && abs(y0 - y1) <= i32::MAX && abs(y0 - y2) <= i32::MAX && abs(y1 - y2) <= i32::MAX) by {
        assert(ys[0] == y0 && ys[1] == y1 && ys[2] == y2);
        assert(abs(ys[1] - ys[0]) <= i32::MAX);
        assert(abs(ys[2] - ys[0]) <= i32::MAX);
        assert(abs(ys[2] - ys[1]) <= i32::MAX);
        assert(abs(ys[0] - ys[1]) <= i32::MAX);
        assert(abs(ys[0] - ys[2]) <= i32::MAX);
        assert(abs(ys[1] - ys[2]) <= i32::MAX);
    }
    let area = edge(x0, y0, x1, y1, x2, y2);
    if area == 0 {
        return triangle_stroke_points(x0, y0, x1, y1, x2, y2);
    }
    let left: i32 = if x0 < x1 {
        if x0 < x2 {
            x0
        } else {
            x2
        }
    } else {
        if x1 < x2 {
            x1
        } else {
            x2
        }
    };
    let right: i32 = if x0 < x1 {
        if x1 < x2 {
            x2
        } else {
            x1
        }
    } else {
        if x0 < x2 {
            x2
        } else {
            x0
        }
    };
    let top: i32 = if y0 < y1 {
        if y0 < y2 {
            y0
        } else {
            y2
        }
    } else {
        if y1 < y2 {
            y1
        } else {
            y2
        }
    };
    let bottom: i32 = if y0 < y1 {
        if y1 < y2 {
            y2
        } else {
            y1
        }
    } else {
        if y0 < y2 {
            y2
        } else {
            y0
        }
    };
    assert(left == min(min(x0 as int, x1 as int), x2 as int));
    assert(right == max(max(x0 as int, x1 as int), x2 as int));
    assert(top == min(min(y0 as int, y1 as int), y2 as int));
    assert(bottom == max(max(y0 as int, y1 as int), y2 as int));
    let w: i64 = right as i64 - left as i64 + 1;
    let h: i64 = bottom as i64 - top as i64 + 1;
    let ghost g = grid(left as int, top as int, w as int, h as int);
    let ghost pred = in_triangle(
        x0 as int,
        y0 as int,
        x1 as int,
        y1 as int,
        x2 as int,
        y2 as int,
    );
    let mut points: Vec<(i32, i32)> = Vec::new();
    let mut row: i64 = 0;
    while row < h
        invariant
            left <= x0 <= right,
            left <= x1 <= right,
            left <= x2 <= right,
            top <= y0 <= bottom,
            top <= y1 <= bottom,
            top <= y2 <= bottom,
            right - left <= i32::MAX,
            bottom - top <= i32::MAX,
            w == right - left + 1,
            h == bottom - top + 1,
            0 <= row <= h,
            g == grid(left as int, top as int, w as int, h as int),
            pred == in_triangle(x0 as int, y0 as int, x1 as int, y1 as int, x2 as int, y2 as int),
            points@ == g.take(row * w).filter(pred),
        decreases h - row,
    {
        let mut col: i64 = 0;
        while col < w
            invariant
                left <= x0 <= right,
                left <= x1 <= right,
                left <= x2 <= right,
                top <= y0 <= bottom,
                top <= y1 <= bottom,
                top <= y2 <= bottom,
                right - left <= i32::MAX,
                bottom - top <= i32::MAX,
                w == right - left + 1,
                h == bottom - top + 1,
                0 <= row < h,
                0 <= col <= w,
                g == grid(left as int, top as int, w as int, h as int),
                pred == in_triangle(
                    x0 as int,
                    y0 as int,
                    x1 as int,
                    y1 as int,
                    x2 as int,
                    y2 as int,
                ),
                points@ == g.take(row * w + col).filter(pred),
            decreases w - col,
        {
            proof {
                lemma_grid_index(w as int, h as int, row as int, col as int);
                lemma_take_filter_push(g, row * w + col, pred);
            }
            let x: i32 = (left as i64 + col) as i32;
            let y: i32 = (top as i64 + row) as i32;
            let w0 = edge(x1, y1, x2, y2, x, y);
            let w1 = edge(x2, y2, x0, y0, x, y);
            let w2 = edge(x0, y0, x1, y1, x, y);
            if (w0 >= 0 && w1 >= 0 && w2 >= 0) || (w0 <= 0 && w1 <= 0 && w2 <= 0) {
                points.push((x, y));
            }
            col = col + 1;
        }
        proof {
            lemma_grid_index(w as int, h as int, row as int, 0);
        }
        row = row + 1;
    }
    assert(g.take(h * w) =~= g) by {
        assert(h * w == w * h) by (nonlinear_arith);
    }
    points
}

/// An ellipse whose two radii are equal fills the same points, in the same
/// order, as the circle of that radius.
pub proof fn law_round_ellipse_is_circle(cx: int, cy: int, r: int)
    ensures
        ellipse_fill_spec(cx, cy, r, r) == circle_fill_spec(cx, cy, r),
{
    if r > 0 {
        assert(in_ellipse(cx, cy, r, r) =~= in_circle(cx, cy, r)) by {
            assert forall|p: (i32, i32)| #[trigger] in_ellipse(cx, cy, r, r)(p) == in_circle(cx, cy, r)(p) by {
                let a = (p.0 - cx) * (p.0 - cx);
                let b = (p.1 - cy) * (p.1 - cy);
                assert(r * r * (r * r) >= 1) by (nonlinear_arith)
                    requires
                        r >= 1,
                ;
                assert((a * (r * r) + b * (r * r) <= r * r * (r * r)) == (a + b <= r * r)) by (nonlinear_arith)
                    requires
                        r >= 1,
                ;
            }
        }
    }
}

/// `(a0 + a1 + a2)·p = a0·v0 + a1·v1 + a2·v2` with weights `a0, a1, a2 ≥ 0`
/// that are not all zero: `p` is a convex combination of the three vertices.
pub open spec fn convex_weights(
    a0: int,
    a1: int,
    a2: int,
    x0: int,
    y0: int,
    x1: int,
    y1: int,
    x2: int,
    y2: int,
    px: int,
    py: int,
) -> bool {
    &&& a0 >= 0 && a1 >= 0 && a2 >= 0
    &&& a0 + a1 + a2 > 0
    &&& (a0 + a1 + a2) * px == a0 * x0 + a1 * x1 + a2 * x2
    &&& (a0 + a1 + a2) * py == a0 * y0 + a1 * y1 + a2 * y2
}

/// Whether `(px, py)` lies in the closed triangle with the given vertices
/// (its inside, its edges and its corners).
pub open spec fn in_closed_triangle(
    x0: int,
    y0: int,
    x1: int,
    y1: int,
    x2: int,
    y2: int,
    px: int,
    py: int,
) -> bool {
    exists|a0: int, a1: int, a2: int| #[trigger]
        convex_weights(a0, a1, a2, x0, y0, x1, y1, x2, y2, px, py)
}

/// `u × v`, the cross product of two plane vectors.
pub open spec fn cross(ux: int, uy: int, vx: int, vy: int) -> int {
    ux * vy - uy * vx
}

/// An edge value is the cross product of the two edge ends seen from the point.
proof fn lemma_edge_from_point(ax: int, ay: int, bx: int, by: int, px: int, py: int)
    ensures
        edge_spec(ax, ay, bx, by, px, py) == cross(ax - px, ay - py, bx - px, by - py),
{
    assert(edge_spec(ax, ay, bx, by, px, py) == cross(ax - px, ay - py, bx - px, by - py))
        by (nonlinear_arith);
}

/// The three edge values of a point add up to twice the signed area.
proof fn lemma_cross_sum(ax: int, ay: int, bx: int, by: int, cx: int, cy: int)
    ensures
        cross(bx, by, cx, cy) + cross(cx, cy, ax, ay) + cross(ax, ay, bx, by) == cross(
            bx - ax,
            by - ay,
            cx - ax,
            cy - ay,
        ),
{
    broadcast use vstd::arithmetic::mul::group_mul_is_commutative_and_distributive;

    assert((bx - ax) * (cy - ay) == bx * cy - bx * ay - ax * cy + ax * ay);
    assert((by - ay) * (cx - ax) == by * cx - by * ax - ay * cx + ay * ax);
}

/// `(b × c)·a + (c × a)·b + (a × b)·c = 0` in each coordinate.
proof fn lemma_cross_triple(ax: int, ay: int, bx: int, by: int, cx: int, cy: int)
    ensures
        cross(bx, by, cx, cy) * ax + cross(cx, cy, ax, ay) * bx + cross(ax, ay, bx, by) * cx == 0,
        cross(bx, by, cx, cy) * ay + cross(cx, cy, ax, ay) * by + cross(ax, ay, bx, by) * cy == 0,
{
    broadcast use vstd::arithmetic::mul::group_mul_is_commutative_and_distributive;
    broadcast use vstd::arithmetic::mul::lemma_mul_is_associative;

    assert(cross(bx, by, cx, cy) * ax == bx * cy * ax - by * cx * ax);
    assert(cross(cx, cy, ax, ay) * bx == cx * ay * bx - cy * ax * bx);
    assert(cross(ax, ay, bx, by) * cx == ax * by * cx - ay * bx * cx);
    assert(cross(bx, by, cx, cy) * ay == bx * cy * ay - by * cx * ay);
    assert(cross(cx, cy, ax, ay) * by == cx * ay * by - cy * ax * by);
    assert(cross(ax, ay, bx, by) * cy == ax * by * cy - ay * bx * cy);
}

/// The edge values of a point are its barycentric weights, scaled by twice
/// the signed area.
proof fn lemma_barycentric(x0: int, y0: int, x1: int, y1: int, x2: int, y2: int, px: int, py: int)
    ensures
        ({
            let a = edge_spec(x0, y0, x1, y1, x2, y2);
            let w0 = edge_spec(x1, y1, x2, y2, px, py);
            let w1 = edge_spec(x2, y2, x0, y0, px, py);
            let w2 = edge_spec(x0, y0, x1, y1, px, py);
            &&& w0 + w1 + w2 == a
            &&& a * px == w0 * x0 + w1 * x1 + w2 * x2
            &&& a * py == w0 * y0 + w1 * y1 + w2 * y2
        }),
{
    broadcast use vstd::arithmetic::mul::group_mul_is_commutative_and_distributive;

    let (u0x, u0y, u1x, u1y, u2x, u2y) = (x0 - px, y0 - py, x1 - px, y1 - py, x2 - px, y2 - py);
    let a = edge_spec(x0, y0, x1, y1, x2, y2);
    let w0 = edge_spec(x1, y1, x2, y2, px, py);
    let w1 = edge_spec(x2, y2, x0, y0, px, py);
    let w2 = edge_spec(x0, y0, x1, y1, px, py);
    lemma_edge_from_point(x1, y1, x2, y2, px, py);
    lemma_edge_from_point(x2, y2, x0, y0, px, py);
    lemma_edge_from_point(x0, y0, x1, y1, px, py);
    lemma_cross_sum(u0x, u0y, u1x, u1y, u2x, u2y);
    assert(u1x - u0x == x1 - x0 && u1y - u0y == y1 - y0 && u2x - u0x == x2 - x0 && u2y - u0y == y2
        - y0);
    assert(w0 + w1 + w2 == a);
    lemma_cross_triple(u0x, u0y, u1x, u1y, u2x, u2y);
    assert(w0 * x0 == w0 * (u0x + px));
    assert(w1 * x1 == w1 * (u1x + px));
    assert(w2 * x2 == w2 * (u2x + px));
    assert(w0 * y0 == w0 * (u0y + py));
    assert(w1 * y1 == w1 * (u1y + py));
    assert(w2 * y2 == w2 * (u2y + py));
    assert((w0 + w1 + w2) * px == w0 * px + w1 * px + w2 * px);
    assert((w0 + w1 + w2) * py == w0 * py + w1 * py + w2 * py);
}

/// With weights that balance the three vectors around the origin, the total
/// weight times `u1 × u2` is `a0` times twice the signed area.
proof fn lemma_balanced_cross(
    a0: int,
    a1: int,
    a2: int,
    u0x: int,
    u0y: int,
    u1x: int,
    u1y: int,
    u2x: int,
    u2y: int,
)
    requires
        a0 * u0x + a1 * u1x + a2 * u2x == 0,
        a0 * u0y + a1 * u1y + a2 * u2y == 0,
    ensures
        (a0 + a1 + a2) * cross(u1x, u1y, u2x, u2y) == a0 * (cross(u1x, u1y, u2x, u2y) + cross(
            u2x,
            u2y,
            u0x,
            u0y,
        ) + cross(u0x, u0y, u1x, u1y)),
{
    let p = a0 * u0x;
    let q = a0 * u0y;
    let c = cross(u1x, u1y, u2x, u2y);
    assert(a0 * cross(u0x, u0y, u1x, u1y) == p * u1y - q * u1x) by (nonlinear_arith)
        requires
            p == a0 * u0x,
            q == a0 * u0y,
    ;
    assert(p * u1y - q * u1x == a2 * c) by (nonlinear_arith)
        requires
            p == -(a1 * u1x + a2 * u2x),
            q == -(a1 * u1y + a2 * u2y),
            c == u1x * u2y - u1y * u2x,
    ;
    assert(a0 * cross(u2x, u2y, u0x, u0y) == u2x * q - u2y * p) by (nonlinear_arith)
        requires
            p == a0 * u0x,
            q == a0 * u0y,
    ;
    assert(u2x * q - u2y * p == a1 * c) by (nonlinear_arith)
        requires
            p == -(a1 * u1x + a2 * u2x),
            q == -(a1 * u1y + a2 * u2y),
            c == u1x * u2y - u1y * u2x,
    ;
    assert((a0 + a1 + a2) * c == a0 * c + a1 * c + a2 * c) by (nonlinear_arith);
    assert(a0 * (c + cross(u2x, u2y, u0x, u0y) + cross(u0x, u0y, u1x, u1y)) == a0 * c + a0 * cross(
        u2x,
        u2y,
        u0x,
        u0y,
    ) + a0 * cross(u0x, u0y, u1x, u1y)) by (nonlinear_arith);
}

/// A convex combination scales each edge value by its weight: the edge
/// value opposite vertex `i`, times the total weight, is `a_i` times twice
/// the signed area.
proof fn lemma_weighted_edges(
    a0: int,
    a1: int,
    a2: int,
    x0: int,
    y0: int,
    x1: int,
    y1: int,
    x2: int,
    y2: int,
    px: int,
    py: int,
)
    requires
        convex_weights(a0, a1, a2, x0, y0, x1, y1, x2, y2, px, py),
    ensures
        ({
            let s = a0 + a1 + a2;
            let a = edge_spec(x0, y0, x1, y1, x2, y2);
            &&& s * edge_spec(x1, y1, x2, y2, px, py) == a0 * a
            &&& s * edge_spec(x2, y2, x0, y0, px, py) == a1 * a
            &&& s * edge_spec(x0, y0, x1, y1, px, py) == a2 * a
        }),
{
    broadcast use vstd::arithmetic::mul::group_mul_is_commutative_and_distributive;

    let (u0x, u0y, u1x, u1y, u2x, u2y) = (x0 - px, y0 - py, x1 - px, y1 - py, x2 - px, y2 - py);
    assert(a0 * u0x + a1 * u1x + a2 * u2x == (a0 * x0 + a1 * x1 + a2 * x2) - (a0 + a1 + a2) * px);
    assert(a0 * u0y + a1 * u1y + a2 * u2y == (a0 * y0 + a1 * y1 + a2 * y2) - (a0 + a1 + a2) * py);
    lemma_edge_from_point(x1, y1, x2, y2, px, py);
    lemma_edge_from_point(x2, y2, x0, y0, px, py);
    lemma_edge_from_point(x0, y0, x1, y1, px, py);
    lemma_cross_sum(u0x, u0y, u1x, u1y, u2x, u2y);
    assert(u1x - u0x == x1 - x0 && u1y - u0y == y1 - y0 && u2x - u0x == x2 - x0 && u2y - u0y == y2
        - y0);
    lemma_balanced_cross(a0, a1, a2, u0x, u0y, u1x, u1y, u2x, u2y);
    lemma_balanced_cross(a1, a2, a0, u1x, u1y, u2x, u2y, u0x, u0y);
    lemma_balanced_cross(a2, a0, a1, u2x, u2y, u0x, u0y, u1x, u1y);
}

/// Twice the signed area keeps its value when the vertices rotate, and
/// changes sign when two of them swap.
proof fn lemma_area_symmetry(ax: int, ay: int, bx: int, by: int, px: int, py: int)
    ensures
        edge_spec(ax, ay, bx, by, px, py) == edge_spec(bx, by, px, py, ax, ay),
        edge_spec(ax, ay, bx, by, px, py) == -edge_spec(bx, by, ax, ay, px, py),
{
    assert(edge_spec(ax, ay, bx, by, px, py) == edge_spec(bx, by, px, py, ax, ay))
        by (nonlinear_arith);
    assert(edge_spec(ax, ay, bx, by, px, py) == -edge_spec(bx, by, ax, ay, px, py))
        by (nonlinear_arith);
}

/// A weighted mean of values within `[lo, hi]` stays within `[lo, hi]`.
proof fn lemma_weighted_mean_bounds(
    a0: int,
    a1: int,
    a2: int,
    v0: int,
    v1: int,
    v2: int,
    m: int,
    lo: int,
    hi: int,
)
    requires
        a0 >= 0 && a1 >= 0 && a2 >= 0,
        a0 + a1 + a2 > 0,
        (a0 + a1 + a2) * m == a0 * v0 + a1 * v1 + a2 * v2,
        lo <= v0 <= hi && lo <= v1 <= hi && lo <= v2 <= hi,
    ensures
        lo <= m <= hi,
{
    assert(lo <= m <= hi) by (nonlinear_arith)
        requires
            a0 >= 0 && a1 >= 0 && a2 >= 0,
            a0 + a1 + a2 > 0,
            (a0 + a1 + a2) * m == a0 * v0 + a1 * v1 + a2 * v2,
            lo <= v0 <= hi && lo <= v1 <= hi && lo <= v2 <= hi,
    ;
}

/// In a triangle that is not flat, the filled points are exactly the
/// integer points of the closed triangle: its inside, edges and corners.
pub proof fn law_triangle_fill_is_the_closed_triangle(
    x0: int,
    y0: int,
    x1: int,
    y1: int,
    x2: int,
    y2: int,
    p: (i32, i32),
)
    requires
        edge_spec(x0, y0, x1, y1, x2, y2) != 0,
    ensures
        triangle_fill_spec(x0, y0, x1, y1, x2, y2).contains(p) <==> in_closed_triangle(
            x0,
            y0,
            x1,
            y1,
            x2,
            y2,
            p.0 as int,
            p.1 as int,
        ),
{
    let px = p.0 as int;
    let py = p.1 as int;
    let a = edge_spec(x0, y0, x1, y1, x2, y2);
    let w0 = edge_spec(x1, y1, x2, y2, px, py);
    let w1 = edge_spec(x2, y2, x0, y0, px, py);
    let w2 = edge_spec(x0, y0, x1, y1, px, py);
    let pred = in_triangle(x0, y0, x1, y1, x2, y2);
    let l = min(min(x0, x1), x2);
    let r = max(max(x0, x1), x2);
    let t = min(min(y0, y1), y2);
    let b = max(max(y0, y1), y2);
    let g = grid(l, t, r - l + 1, b - t + 1);
    lemma_barycentric(x0, y0, x1, y1, x2, y2, px, py);
    if triangle_fill_spec(x0, y0, x1, y1, x2, y2).contains(p) {
        let i = choose|i: int| 0 <= i < g.filter(pred).len() && g.filter(pred)[i] == p;
        g.lemma_filter_pred(pred, i);
        assert(pred(p));
        if w0 >= 0 && w1 >= 0 && w2 >= 0 {
            assert(convex_weights(w0, w1, w2, x0, y0, x1, y1, x2, y2, px, py));
        } else {
            assert((-w0) * x0 + (-w1) * x1 + (-w2) * x2 == -(w0 * x0 + w1 * x1 + w2 * x2))
                by (nonlinear_arith);
            assert((-w0) * y0 + (-w1) * y1 + (-w2) * y2 == -(w0 * y0 + w1 * y1 + w2 * y2))
                by (nonlinear_arith);
            assert((-a) * px == -(a * px)) by (nonlinear_arith);
            assert((-a) * py == -(a * py)) by (nonlinear_arith);
            assert(convex_weights(-w0, -w1, -w2, x0, y0, x1, y1, x2, y2, px, py));
        }
    }
    if in_closed_triangle(x0, y0, x1, y1, x2, y2, px, py) {
        let (a0, a1, a2) = choose|a0: int, a1: int, a2: int|
            #[trigger] convex_weights(a0, a1, a2, x0, y0, x1, y1, x2, y2, px, py);
        let s = a0 + a1 + a2;
        lemma_weighted_edges(a0, a1, a2, x0, y0, x1, y1, x2, y2, px, py);
        assert(pred(p)) by {
            if a > 0 {
                assert(w0 >= 0 && w1 >= 0 && w2 >= 0) by (nonlinear_arith)
                    requires
                        s > 0,
                        a > 0,
                        a0 >= 0 && a1 >= 0 && a2 >= 0,
                        s * w0 == a0 * a,
                        s * w1 == a1 * a,
                        s * w2 == a2 * a,
                ;
            } else {
                assert(w0 <= 0 && w1 <= 0 && w2 <= 0) by (nonlinear_arith)
                    requires
                        s > 0,
                        a < 0,
                        a0 >= 0 && a1 >= 0 && a2 >= 0,
                        s * w0 == a0 * a,
                        s * w1 == a1 * a,
                        s * w2 == a2 * a,
                ;
            }
        }
        lemma_weighted_mean_bounds(a0, a1, a2, x0, x1, x2, px, l, r);
        lemma_weighted_mean_bounds(a0, a1, a2, y0, y1, y2, py, t, b);
        let w = r - l + 1;
        let h = b - t + 1;
        lemma_grid_index(w, h, py - t, px - l);
        let k = (py - t) * w + (px - l);
        assert(g[k] == p);
        g.lemma_filter_contains(pred, k);
    }
}

/// A triangle that is not flat fills the same points, in the same order,
/// whichever order its corners are given in: rotating the corners or
/// swapping two of them changes nothing.
pub proof fn law_triangle_fill_ignores_vertex_order(
    x0: int,
    y0: int,
    x1: int,
    y1: int,
    x2: int,
    y2: int,
)
    requires
        edge_spec(x0, y0, x1, y1, x2, y2) != 0,
    ensures
        triangle_fill_spec(x1, y1, x2, y2, x0, y0) == triangle_fill_spec(x0, y0, x1, y1, x2, y2),
        triangle_fill_spec(x1, y1, x0, y0, x2, y2) == triangle_fill_spec(x0, y0, x1, y1, x2, y2),
{
    lemma_area_symmetry(x0, y0, x1, y1, x2, y2);
    assert(in_triangle(x1, y1, x2, y2, x0, y0) =~= in_triangle(x0, y0, x1, y1, x2, y2));
    assert(in_triangle(x1, y1, x0, y0, x2, y2) =~= in_triangle(x0, y0, x1, y1, x2, y2)) by {
        assert forall|p: (i32, i32)| #[trigger] in_triangle(x1, y1, x0, y0, x2, y2)(p)
            == in_triangle(x0, y0, x1, y1, x2, y2)(p) by {
            lemma_area_symmetry(x0, y0, x2, y2, p.0 as int, p.1 as int);
            lemma_area_symmetry(x2, y2, x1, y1, p.0 as int, p.1 as int);
            lemma_area_symmetry(x1, y1, x0, y0, p.0 as int, p.1 as int);
        }
    }
}

/// `p` comes strictly before `q` in row-major order: an earlier row, or the
/// same row further left.
pub open spec fn row_major_before(p: (i32, i32), q: (i32, i32)) -> bool {
    p.1 < q.1 || (p.1 == q.1 && p.0 < q.0)
}

/// Every point comes strictly before every later one in row-major order, so
/// the points are sorted by row, then column, and none occurs twice.
pub open spec fn row_major_sorted(s: Seq<(i32, i32)>) -> bool {
    forall|i: int, j: int| 0 <= i < j < s.len() ==> row_major_before(#[trigger] s[i], #[trigger] s[j])
}

/// What a filter keeps is taken from the sequence, in the sequence's order.
proof fn lemma_filter_keeps_order<A>(s: Seq<A>, pred: spec_fn(A) -> bool, before: spec_fn(A, A) -> bool)
    requires
        forall|i: int, j: int| 0 <= i < j < s.len() ==> #[trigger] before(s[i], s[j]),
    ensures
        forall|i: int, j: int|
            0 <= i < j < s.filter(pred).len() ==> #[trigger] before(
                s.filter(pred)[i],
                s.filter(pred)[j],
            ),
        forall|i: int|
            #![trigger s.filter(pred)[i]]
            0 <= i < s.filter(pred).len() ==> exists|m: int|
                0 <= m < s.len() && #[trigger] s[m] == s.filter(pred)[i],
    decreases s.len(),
{
    reveal(Seq::filter);
    if s.len() > 0 {
        let d = s.drop_last();
        assert forall|i: int, j: int| 0 <= i < j < d.len() implies #[trigger] before(d[i], d[j]) by {
            assert(before(s[i], s[j]));
        }
        lemma_filter_keeps_order(d, pred, before);
        let f = d.filter(pred);
        assert forall|i: int| #![trigger f[i]] 0 <= i < f.len() implies exists|m: int|
            0 <= m < s.len() && #[trigger] s[m] == f[i] by {
            let m = choose|m: int| 0 <= m < d.len() && #[trigger] d[m] == f[i];
            assert(s[m] == f[i]);
        }
        if pred(s.last()) {
            let g = f.push(s.last());
            assert(s.filter(pred) == g);
            assert forall|i: int, j: int| 0 <= i < j < g.len() implies #[trigger] before(g[i], g[j]) by {
                if j == g.len() - 1 {
                    let m = choose|m: int| 0 <= m < s.len() && #[trigger] s[m] == f[i];
                    let m2 = choose|m2: int| 0 <= m2 < d.len() && #[trigger] d[m2] == f[i];
                    assert(s[m2] == f[i]);
                    assert(before(s[m2], s[s.len() - 1]));
                } else {
                    assert(g[i] == f[i] && g[j] == f[j]);
                }
            }
            assert forall|i: int| #![trigger g[i]] 0 <= i < g.len() implies exists|m: int|
                0 <= m < s.len() && #[trigger] s[m] == g[i] by {
                if i == g.len() - 1 {
                    assert(s[s.len() - 1] == g[i]);
                } else {
                    let m = choose|m: int| 0 <= m < s.len() && #[trigger] s[m] == f[i];
                    assert(s[m] == g[i]);
                }
            }
        }
    }
}

/// A block of points that fits in `i32` is listed in row-major order.
proof fn lemma_grid_row_major(l: int, t: int, w: int, h: int)
    requires
        w > 0,
        h >= 0,
        i32::MIN <= l && l + w - 1 <= i32::MAX,
        i32::MIN <= t && t + h - 1 <= i32::MAX,
    ensures
        row_major_sorted(grid(l, t, w, h)),
{
    let g = grid(l, t, w, h);
    assert forall|i: int, j: int| 0 <= i < j < g.len() implies row_major_before(
        #[trigger] g[i],
        #[trigger] g[j],
    ) by {
        lemma_fundamental_div_mod(i, w);
        lemma_fundamental_div_mod(j, w);
        lemma_mod_pos_bound(i, w);
        lemma_mod_pos_bound(j, w);
        let (qi, ri, qj, rj) = (i / w, i % w, j / w, j % w);
        assert(qi < qj || (qi == qj && ri < rj)) by (nonlinear_arith)
            requires
                i < j,
                i == w * qi + ri,
                j == w * qj + rj,
                0 <= ri < w,
                0 <= rj < w,
        ;
        assert(0 <= qi && qj < h) by (nonlinear_arith)
            requires
                0 <= i < j < w * h,
                i == w * qi + ri,
                j == w * qj + rj,
                0 <= ri < w,
                0 <= rj < w,
        ;
    }
}

/// The filled points of a triangle that is not flat come in row-major order,
/// each once.
pub proof fn law_triangle_fill_is_row_major(x0: i32, y0: i32, x1: i32, y1: i32, x2: i32, y2: i32)
    requires
        edge_spec(x0 as int, y0 as int, x1 as int, y1 as int, x2 as int, y2 as int) != 0,
    ensures
        row_major_sorted(
            triangle_fill_spec(x0 as int, y0 as int, x1 as int, y1 as int, x2 as int, y2 as int),
        ),
{
    let (a0, b0, a1, b1, a2, b2) = (x0 as int, y0 as int, x1 as int, y1 as int, x2 as int, y2 as int);
    let l = min(min(a0, a1), a2);
    let r = max(max(a0, a1), a2);
    let t = min(min(b0, b1), b2);
    let b = max(max(b0, b1), b2);
    let g = grid(l, t, r - l + 1, b - t + 1);
    lemma_grid_row_major(l, t, r - l + 1, b - t + 1);
    let before = |p: (i32, i32), q: (i32, i32)| row_major_before(p, q);
    assert forall|i: int, j: int| 0 <= i < j < g.len() implies #[trigger] before(g[i], g[j]) by {
        assert(row_major_before(g[i], g[j]));
    }
    lemma_filter_keeps_order(g, in_triangle(a0, b0, a1, b1, a2, b2), before);
    let f = g.filter(in_triangle(a0, b0, a1, b1, a2, b2));
    assert forall|i: int, j: int| 0 <= i < j < f.len() implies row_major_before(
        #[trigger] f[i],
        #[trigger] f[j],
    ) by {
        assert(before(f[i], f[j]));
    }
}

/// An outlined triangle is its three sides and nothing more: every point of
/// the Bresenham line from `(x0, y0)` to `(x1, y1)`, from `(x1, y1)` to
/// `(x2, y2)` and from `(x2, y2)` back to `(x0, y0)` is on the outline, and
/// every point of the outline lies on one of those lines.
pub proof fn law_triangle_stroke_is_its_sides(x0: int, y0: int, x1: int, y1: int, x2: int, y2: int)
    ensures
        forall|k: int|
            0 <= k < line_spec(x0, y0, x1, y1).len() ==> triangle_stroke_spec(
                x0,
                y0,
                x1,
                y1,
                x2,
                y2,
            ).contains(#[trigger] line_spec(x0, y0, x1, y1)[k]),
        forall|k: int|
            0 <= k < line_spec(x1, y1, x2, y2).len() ==> triangle_stroke_spec(
                x0,
                y0,
                x1,
                y1,
                x2,
                y2,
            ).contains(#[trigger] line_spec(x1, y1, x2, y2)[k]),
        forall|k: int|
            0 <= k < line_spec(x2, y2, x0, y0).len() ==> triangle_stroke_spec(
                x0,
                y0,
                x1,
                y1,
                x2,
                y2,
            ).contains(#[trigger] line_spec(x2, y2, x0, y0)[k]),
        forall|p: (i32, i32)|
            #[trigger] triangle_stroke_spec(x0, y0, x1, y1, x2, y2).contains(p) ==> line_spec(
                x0,
                y0,
                x1,
                y1,
            ).contains(p) || line_spec(x1, y1, x2, y2).contains(p) || line_spec(
                x2,
                y2,
                x0,
                y0,
            ).contains(p),
{
    let a = line_spec(x0, y0, x1, y1);
    let b = line_spec(x1, y1, x2, y2);
    let c = line_spec(x2, y2, x0, y0);
    let st = triangle_stroke_spec(x0, y0, x1, y1, x2, y2);
    assert(st == a + b + c);
    assert forall|k: int| 0 <= k < a.len() implies st.contains(#[trigger] a[k]) by {
        assert(st[k] == a[k]);
    }
    assert forall|k: int| 0 <= k < b.len() implies st.contains(#[trigger] b[k]) by {
        assert(st[a.len() + k] == b[k]);
    }
    assert forall|k: int| 0 <= k < c.len() implies st.contains(#[trigger] c[k]) by {
        assert(st[a.len() + b.len() + k] == c[k]);
    }
    assert forall|p: (i32, i32)| #[trigger] st.contains(p) implies a.contains(p) || b.contains(p)
        || c.contains(p) by {
        let i = choose|i: int| 0 <= i < st.len() && st[i] == p;
        if i < a.len() {
            assert(a[i] == p);
        } else if i < a.len() + b.len() {
            assert(b[i - a.len()] == p);
        } else {
            assert(c[i - a.len() - b.len()] == p);
        }
    }
}

/// An outlined rectangle whose corners differ in both coordinates is exactly
/// the border of its box: a point is on the outline if and only if it lies in
/// the box spanned by the corners and on its first or last row or column.
pub proof fn law_rect_stroke_is_the_border(x0: i32, y0: i32, x1: i32, y1: i32, p: (i32, i32))
    requires
        x0 != x1,
        y0 != y1,
    ensures
        ({
            let (l, t, r, b) = (
                min(x0 as int, x1 as int),
                min(y0 as int, y1 as int),
                max(x0 as int, x1 as int),
                max(y0 as int, y1 as int),
            );
            rect_stroke_spec(x0 as int, y0 as int, x1 as int, y1 as int).contains(p) <==> (l <= p.0
                <= r && t <= p.1 <= b && (p.0 == l || p.0 == r || p.1 == t || p.1 == b))
        }),
{
    let (l, t, r, b) = (
        min(x0 as int, x1 as int),
        min(y0 as int, y1 as int),
        max(x0 as int, x1 as int),
        max(y0 as int, y1 as int),
    );
    let rows = border_rows(l, t, r, b);
    let cols = border_columns(l, t, r, b);
    let st = rect_stroke_spec(x0 as int, y0 as int, x1 as int, y1 as int);
    assert(st == rows + cols);
    let on_border = l <= p.0 <= r && t <= p.1 <= b && (p.0 == l || p.0 == r || p.1 == t || p.1 == b);
    if st.contains(p) {
        let i = choose|i: int| 0 <= i < st.len() && st[i] == p;
        if i < rows.len() {
            lemma_fundamental_div_mod(i, 2);
            lemma_mod_pos_bound(i, 2);
            assert(rows[i] == p);
            assert(l <= l + i / 2 <= r);
        } else {
            let k = i - rows.len();
            lemma_fundamental_div_mod(k, 2);
            lemma_mod_pos_bound(k, 2);
            assert(cols[k] == p);
            assert(t + 1 <= t + 1 + k / 2 <= b - 1);
        }
    }
    if on_border {
        let (px, py) = (p.0 as int, p.1 as int);
        if py == t || py == b {
            let k = 2 * (px - l) + (if py == t {
                0int
            } else {
                1int
            });
            lemma_fundamental_div_mod_converse(k, 2, px - l, k - 2 * (px - l));
            assert(st[k] == rows[k]);
            assert(rows[k] == p);
        } else {
            let k = 2 * (py - t - 1) + (if px == l {
                0int
            } else {
                1int
            });
            lemma_fundamental_div_mod_converse(k, 2, py - t - 1, k - 2 * (py - t - 1));
            assert(st[rows.len() + k] == cols[k]);
            assert(cols[k] == p);
        }
    }
}

} // verus!
