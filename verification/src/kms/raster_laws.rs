//! What holds of every line, polygon and clipped rectangle.

use vstd::prelude::*;

use crate::kms::drawing;
use crate::kms::raster;
use crate::kms::raster::Rectangle16;

verus! {

/// Whether the pixel is in an image of `iw` by `ih`.
pub open spec fn in_image(x: int, y: int, iw: int, ih: int) -> bool {
    0 <= x < iw && 0 <= y < ih
}

/// Clipping keeps exactly the pixels that lie in the image, and every
/// rectangle that is left lies in the image as a whole.
pub proof fn lemma_clipping_keeps_the_inside(
    rects: Seq<Rectangle16>,
    n: int,
    iw: int,
    ih: int,
    x: int,
    y: int,
)
    requires
        0 <= n <= rects.len(),
    ensures
        raster::any_covers(drawing::all_clipped(rects, n, iw, ih), x, y) <==> in_image(
            x,
            y,
            iw,
            ih,
        ) && raster::any_covers(rects.take(n), x, y),
    decreases n,
{
    let out = drawing::all_clipped(rects, n, iw, ih);
    if n == 0 {
    } else {
        lemma_clipping_keeps_the_inside(rects, n - 1, iw, ih, x, y);
        let before = drawing::all_clipped(rects, n - 1, iw, ih);
        let r = rects[n - 1];
        lemma_any_covers_push(rects.take(n - 1), r, x, y);
        assert(rects.take(n) =~= rects.take(n - 1).push(r));
        match drawing::clipped(r, iw, ih) {
            Some(c) => {
                lemma_any_covers_push(before, c, x, y);
                assert(c.covers(x, y) <==> in_image(x, y, iw, ih) && r.covers(x, y));
            },
            None => {
                assert(!(in_image(x, y, iw, ih) && r.covers(x, y)));
            },
        }
    }
}

proof fn lemma_any_covers_push(rects: Seq<Rectangle16>, r: Rectangle16, x: int, y: int)
    ensures
        raster::any_covers(rects.push(r), x, y) <==> raster::any_covers(rects, x, y) || r.covers(
            x,
            y,
        ),
{
    let all = rects.push(r);
    if raster::any_covers(rects, x, y) {
        let i = choose|i: int| 0 <= i < rects.len() && (#[trigger] rects[i]).covers(x, y);
        assert(all[i].covers(x, y));
    }
    if r.covers(x, y) {
        assert(all[rects.len() as int].covers(x, y));
    }
    if raster::any_covers(all, x, y) && !r.covers(x, y) {
        let i = choose|i: int| 0 <= i < all.len() && (#[trigger] all[i]).covers(x, y);
        assert(rects[i].covers(x, y));
    }
}

/// A line starts and ends at its ends, and each pixel touches the one before:
/// neither coordinate moves by more than one, and the longer side moves by
/// exactly one.
pub proof fn lemma_line_is_connected(x0: int, y0: int, x1: int, y1: int, k: int)
    requires
        0 <= k < raster::line_steps(x0, y0, x1, y1),
    ensures
        ({
            let n = raster::line_steps(x0, y0, x1, y1);
            let dx = raster::line_coord(x0, x1, n, k + 1) - raster::line_coord(x0, x1, n, k);
            let dy = raster::line_coord(y0, y1, n, k + 1) - raster::line_coord(y0, y1, n, k);
            &&& raster::line_coord(x0, x1, n, 0) == x0
            &&& raster::line_coord(y0, y1, n, 0) == y0
            &&& raster::line_coord(x0, x1, n, n) == x1
            &&& raster::line_coord(y0, y1, n, n) == y1
            &&& raster::max(raster::abs(dx), raster::abs(dy)) == 1
        }),
{
    let n = raster::line_steps(x0, y0, x1, y1);
    lemma_coord_ends(x0, x1, n);
    lemma_coord_ends(y0, y1, n);
    lemma_coord_step(x0, x1, n, k);
    lemma_coord_step(y0, y1, n, k);
}

proof fn lemma_coord_ends(a: int, b: int, n: int)
    requires
        n > 0,
        raster::abs(b - a) <= n,
    ensures
        raster::line_coord(a, b, n, 0) == a,
        raster::line_coord(a, b, n, n) == b,
{
    let d = raster::abs(b - a);
    assert(2 * 0 * d + n == n) by (nonlinear_arith);
    assert(n / (2 * n) == 0) by (nonlinear_arith)
        requires
            n > 0,
    ;
    assert(2 * n * d + n == d * (2 * n) + n) by (nonlinear_arith);
    vstd::arithmetic::div_mod::lemma_fundamental_div_mod_converse(2 * n * d + n, 2 * n, d, n);
}

proof fn lemma_coord_step(a: int, b: int, n: int, k: int)
    requires
        n > 0,
        raster::abs(b - a) <= n,
        0 <= k < n,
    ensures
        raster::abs(
            raster::line_coord(a, b, n, k + 1) - raster::line_coord(a, b, n, k),
        ) <= 1,
        raster::abs(b - a) == n ==> raster::abs(
            raster::line_coord(a, b, n, k + 1) - raster::line_coord(a, b, n, k),
        ) == 1,
{
    let d = raster::abs(b - a);
    let u = 2 * k * d + n;
    let w = 2 * (k + 1) * d + n;
    assert(w == u + 2 * d) by (nonlinear_arith)
        requires
            u == 2 * k * d + n,
            w == 2 * (k + 1) * d + n,
    ;
    assert(u / (2 * n) <= w / (2 * n) <= u / (2 * n) + 1) by (nonlinear_arith)
        requires
            w == u + 2 * d,
            0 <= d <= n,
            n > 0,
    ;
    if d == n {
        assert(w / (2 * n) == u / (2 * n) + 1) by (nonlinear_arith)
            requires
                w == u + 2 * n,
                n > 0,
        ;
    }
}

/// Every pixel of a line is within half a pixel of the exact line, measured
/// along the shorter side.
pub proof fn lemma_line_is_close(a: int, b: int, n: int, k: int)
    requires
        n > 0,
        raster::abs(b - a) <= n,
        0 <= k <= n,
    ensures
        raster::abs(2 * n * (raster::line_coord(a, b, n, k) - a) - 2 * k * (b - a)) <= n,
{
    let d = raster::abs(b - a);
    let u = 2 * k * d + n;
    let q = u / (2 * n);
    vstd::arithmetic::div_mod::lemma_fundamental_div_mod(u, 2 * n);
    assert(2 * k * d - n < 2 * n * q <= 2 * k * d + n) by (nonlinear_arith)
        requires
            u == 2 * k * d + n,
            u == 2 * n * q + u % (2 * n),
            0 <= u % (2 * n) < 2 * n,
    ;
    if a < b {
        assert(2 * n * (a + q - a) == 2 * n * q) by (nonlinear_arith);
        assert(2 * k * (b - a) == 2 * k * d);
    } else {
        assert(2 * n * (a - q - a) == -(2 * n * q)) by (nonlinear_arith);
        assert(2 * k * (b - a) == -(2 * k * d)) by (nonlinear_arith)
            requires
                b - a == -d,
        ;
    }
}

/// How many values of `s` are at most `x`.
pub open spec fn count_at_most(s: Seq<int>, x: int) -> nat
    decreases s.len(),
{
    if s.len() == 0 {
        0
    } else {
        count_at_most(s.drop_last(), x) + if s.last() <= x {
            1nat
        } else {
            0nat
        }
    }
}

/// How many of the first `n` edges cross scanline `y` at `x` or to the left.
pub open spec fn crossings_left_of(v: Seq<(i32, i32)>, y: int, x: int, n: int) -> nat
    decreases n,
{
    if n <= 0 {
        0
    } else {
        crossings_left_of(v, y, x, n - 1) + if raster::crosses(v, n - 1, y) && raster::crossing_x(
            v,
            n - 1,
            y,
        ) <= x {
            1nat
        } else {
            0nat
        }
    }
}

pub open spec fn ascending(s: Seq<int>) -> bool {
    forall|i: int, j: int| 0 <= i <= j < s.len() ==> s[i] <= s[j]
}

pub open spec fn at_most(s: Seq<int>, hi: int) -> bool {
    forall|i: int| 0 <= i < s.len() ==> s[i] <= hi
}

proof fn lemma_inserted(s: Seq<int>, x: int, at: int)
    requires
        ascending(s),
    ensures
        ascending(raster::inserted(s, x)),
        raster::inserted(s, x).len() == s.len() + 1,
        count_at_most(raster::inserted(s, x), at) == count_at_most(s, at) + if x <= at {
            1nat
        } else {
            0nat
        },
        forall|hi: int|
            x <= hi && #[trigger] at_most(s, hi) ==> at_most(raster::inserted(s, x), hi),
    decreases s.len(),
{
    let r = raster::inserted(s, x);
    if s.len() == 0 || s.last() <= x {
        assert(r.drop_last() =~= s);
        assert forall|i: int, j: int| 0 <= i <= j < r.len() implies r[i] <= r[j] by {
            if j == s.len() && i < j {
                assert(s[i] <= s[s.len() - 1]);
            }
        }
    } else {
        let t = s.drop_last();
        lemma_inserted(t, x, at);
        let q = raster::inserted(t, x);
        assert(r.drop_last() =~= q);
        assert(at_most(t, s.last())) by {
            assert forall|i: int| 0 <= i < t.len() implies t[i] <= s.last() by {
                assert(s[i] <= s[s.len() - 1]);
            }
        }
        assert(at_most(q, s.last()));
        assert forall|i: int, j: int| 0 <= i <= j < r.len() implies r[i] <= r[j] by {
            if i < q.len() {
                assert(r[i] == q[i]);
            }
            if j < q.len() {
                assert(r[j] == q[j]);
            }
        }
        assert forall|hi: int| x <= hi && #[trigger] at_most(s, hi) implies at_most(r, hi) by {
            assert(at_most(t, hi)) by {
                assert forall|i: int| 0 <= i < t.len() implies t[i] <= hi by {
                    assert(s[i] <= hi);
                }
            }
            assert forall|i: int| 0 <= i < r.len() implies r[i] <= hi by {
                if i < q.len() {
                    assert(r[i] == q[i]);
                } else {
                    assert(s[s.len() - 1] <= hi);
                }
            }
        }
    }
}

proof fn lemma_row_crossings(v: Seq<(i32, i32)>, y: int, x: int, n: int)
    ensures
        ascending(raster::row_crossings(v, y, n)),
        count_at_most(raster::row_crossings(v, y, n), x) == crossings_left_of(v, y, x, n),
    decreases n,
{
    if n > 0 {
        lemma_row_crossings(v, y, x, n - 1);
        if raster::crosses(v, n - 1, y) {
            lemma_inserted(
                raster::row_crossings(v, y, n - 1),
                raster::crossing_x(v, n - 1, y),
                x,
            );
        }
    }
}

/// A closed polygon crosses every scanline an even number of times.
pub proof fn lemma_crossings_come_in_pairs(v: Seq<(i32, i32)>, y: int)
    requires
        v.len() > 0,
    ensures
        raster::row_crossings(v, y, v.len() as int).len() % 2 == 0,
{
    let n = v.len() as int;
    lemma_crossing_parity(v, y, n);
    assert(raster::vertex(v, n) == v[0]);
}

/// Going along the first `n` edges, the side of the scanline changes with each
/// crossing.
proof fn lemma_crossing_parity(v: Seq<(i32, i32)>, y: int, n: int)
    requires
        0 <= n <= v.len(),
        v.len() > 0,
    ensures
        (raster::row_crossings(v, y, n).len() % 2 == 1) <==> ((raster::vertex(v, 0).1 <= y) != (
        raster::vertex(v, n).1 <= y)),
    decreases n,
{
    if n > 0 {
        lemma_crossing_parity(v, y, n - 1);
        lemma_row_crossings(v, y, 0, n - 1);
        if raster::crosses(v, n - 1, y) {
            lemma_inserted(
                raster::row_crossings(v, y, n - 1),
                raster::crossing_x(v, n - 1, y),
                0,
            );
        }
    }
}

/// Of an ascending sequence, the values at most `x` come first.
proof fn lemma_count_splits(s: Seq<int>, x: int)
    requires
        ascending(s),
    ensures
        count_at_most(s, x) <= s.len(),
        forall|i: int| 0 <= i < s.len() ==> (s[i] <= x <==> i < count_at_most(s, x)),
    decreases s.len(),
{
    if s.len() > 0 {
        let t = s.drop_last();
        assert(ascending(t)) by {
            assert forall|i: int, j: int| 0 <= i <= j < t.len() implies t[i] <= t[j] by {
                assert(s[i] <= s[j]);
            }
        }
        lemma_count_splits(t, x);
        assert forall|i: int| 0 <= i < s.len() implies (s[i] <= x <==> i < count_at_most(s, x)) by {
            assert(s[i] <= s[s.len() - 1]);
            if i < t.len() {
                assert(t[i] == s[i]);
            }
            if s.last() <= x && t.len() > 0 {
                assert(s[t.len() - 1] <= s[s.len() - 1]);
                assert(t[t.len() - 1] <= x);
            }
        }
    }
}

/// Whether some span between crossings `2i` and `2i + 1` holds `x`.
pub open spec fn between_a_pair(s: Seq<int>, x: int) -> bool {
    exists|i: int|
        #![trigger s[2 * i]]
        0 <= 2 * i && 2 * i + 1 < s.len() && s[2 * i] <= x < s[2 * i + 1]
}

/// The even-odd rule: a position on a scanline is inside the polygon, between
/// the two crossings of a pair, if and only if an odd number of edges cross at
/// it or to its left.
pub proof fn lemma_polygon_fill_is_even_odd(v: Seq<(i32, i32)>, y: int, x: int)
    requires
        v.len() > 0,
    ensures
        between_a_pair(raster::row_crossings(v, y, v.len() as int), x) <==> crossings_left_of(
            v,
            y,
            x,
            v.len() as int,
        ) % 2 == 1,
{
    let n = v.len() as int;
    let s = raster::row_crossings(v, y, n);
    lemma_row_crossings(v, y, x, n);
    lemma_crossings_come_in_pairs(v, y);
    lemma_count_splits(s, x);
    let m = count_at_most(s, x) as int;
    if m % 2 == 1 {
        let i = m / 2;
        assert(2 * i + 1 == m);
        assert(s[2 * i] <= x);
        assert(m < s.len());
        assert(s[2 * i + 1] > x);
    }
    if between_a_pair(s, x) {
        let i = choose|i: int|
            #![trigger s[2 * i]]
            0 <= 2 * i && 2 * i + 1 < s.len() && s[2 * i] <= x < s[2 * i + 1];
        assert(2 * i < m);
        assert(!(2 * i + 1 < m));
    }
}

/// What is filled on a scanline is what lies between the crossings of a pair,
/// as long as the coordinates have 16 bits.
pub proof fn lemma_row_spans_fill_between_pairs(s: Seq<int>, y: int, n: int, x: int)
    requires
        0 <= n,
        2 * n <= s.len(),
        forall|i: int| 0 <= i < s.len() ==> -32768 <= #[trigger] s[i] <= 32767,
        -32768 <= y <= 32767,
    ensures
        raster::any_covers(raster::row_spans(s, y, n), x, y) <==> exists|i: int|
            #![trigger s[2 * i]]
            0 <= i < n && s[2 * i] <= x < s[2 * i + 1],
    decreases n,
{
    let spans = raster::row_spans(s, y, n);
    if n > 0 {
        lemma_row_spans_fill_between_pairs(s, y, n - 1, x);
        let from = s[2 * n - 2];
        let to = s[2 * n - 1];
        assert(from == s[2 * (n - 1)]);
        if from < to {
            lemma_any_covers_push(
                raster::row_spans(s, y, n - 1),
                raster::span(y, from, to),
                x,
                y,
            );
            assert(raster::span(y, from, to).covers(x, y) <==> from <= x < to);
        }
        if exists|i: int|
            #![trigger s[2 * i]]
            0 <= i < n && s[2 * i] <= x < s[2 * i + 1] {
            let i = choose|i: int|
                #![trigger s[2 * i]]
                0 <= i < n && s[2 * i] <= x < s[2 * i + 1];
            if i < n - 1 {
                assert(0 <= i < n - 1 && s[2 * i] <= x < s[2 * i + 1]);
            }
        }
    }
}

/// How far apart two values are.
pub open spec fn distance(a: int, b: int) -> int {
    if a <= b {
        b - a
    } else {
        a - b
    }
}

/// The end of edge `i` of a closed polygon: the next vertex, and the first one
/// after the last.
pub open spec fn edge_end(v: Seq<(i32, i32)>, i: int) -> (i32, i32) {
    if i == v.len() - 1 {
        v[0]
    } else {
        v[i + 1]
    }
}

/// An edge crosses a scanline if exactly one of its ends is below it, and the
/// crossing lies on the edge: less than a pixel from where the line through both
/// ends meets the scanline, on the side of the edge's start, and between its ends.
pub proof fn lemma_crossing_lies_on_its_edge(v: Seq<(i32, i32)>, i: int, y: int)
    requires
        0 <= i < v.len(),
    ensures
        ({
            let (x0, y0) = v[i];
            let (x1, y1) = edge_end(v, i);
            let x = raster::crossing_x(v, i, y);
            &&& raster::crosses(v, i, y) <==> (y0 > y) != (y1 > y)
            &&& raster::crosses(v, i, y) ==> {
                &&& distance((x - x0) * (y1 - y0), (y - y0) * (x1 - x0)) < distance(
                    y0 as int,
                    y1 as int,
                )
                &&& distance(x0 as int, x) * distance(y0 as int, y1 as int) <= distance(
                    y0 as int,
                    y,
                ) * distance(x0 as int, x1 as int)
                &&& x0 <= x <= x1 || x1 <= x <= x0
            }
        }),
{
    let (x0, y0) = v[i];
    let (x1, y1) = edge_end(v, i);
    assert(raster::vertex(v, i) == v[i]);
    assert(raster::vertex(v, i + 1) == edge_end(v, i));
    if raster::crosses(v, i, y) {
        raster::lemma_crossing_between(v, i, y);
        let x = raster::crossing_x(v, i, y);
        let a = distance(y0 as int, y);
        let w = distance(x0 as int, x1 as int);
        let h = distance(y0 as int, y1 as int);
        let q = a * w / h;
        assert(a == raster::abs(y - y0) && w == raster::abs(x1 - x0) && h == raster::abs(
            y1 - y0,
        ));
        vstd::arithmetic::div_mod::lemma_fundamental_div_mod(a * w, h);
        assert(0 <= a * w - q * h < h) by (nonlinear_arith)
            requires
                a * w == h * q + (a * w) % h,
                0 <= (a * w) % h < h,
        ;
        assert(0 <= q) by (nonlinear_arith)
            requires
                a * w - q * h < h,
                0 <= a,
                0 <= w,
                0 < h,
        ;
        let sx: int = if x0 <= x1 {
            1
        } else {
            -1
        };
        let sy: int = if y0 <= y {
            1
        } else {
            -1
        };
        assert(x - x0 == sx * q && x1 - x0 == sx * w) by (nonlinear_arith)
            requires
                sx == 1 && x - x0 == q && x1 - x0 == w || sx == -1 && x - x0 == -q && x1 - x0
                    == -w,
        ;
        assert(y - y0 == sy * a && y1 - y0 == sy * h) by (nonlinear_arith)
            requires
                sy == 1 && y - y0 == a && y1 - y0 == h || sy == -1 && y - y0 == -a && y1 - y0
                    == -h,
        ;
        let s = sx * sy;
        assert(s == 1 || s == -1) by (nonlinear_arith)
            requires
                sx == 1 || sx == -1,
                sy == 1 || sy == -1,
                s == sx * sy,
        ;
        assert((x - x0) * (y1 - y0) == s * (q * h)) by (nonlinear_arith)
            requires
                x - x0 == sx * q,
                y1 - y0 == sy * h,
                s == sx * sy,
        ;
        assert((y - y0) * (x1 - x0) == s * (a * w)) by (nonlinear_arith)
            requires
                y - y0 == sy * a,
                x1 - x0 == sx * w,
                s == sx * sy,
        ;
        let (qh, aw) = (q * h, a * w);
        assert(s * qh == qh && s * aw == aw || s * qh == -qh && s * aw == -aw) by (nonlinear_arith)
            requires
                s == 1 || s == -1,
        ;
        assert(distance(x0 as int, x) == q);
    }
}

/// Whether the edge from `a` to `b` crosses scanline `y` in the columns up to
/// `x`. A crossing between two columns counts for the one towards `a`.
pub open spec fn edge_is_left_of(a: (i32, i32), b: (i32, i32), y: int, x: int) -> bool {
    let down = distance(a.1 as int, y);
    let height = distance(a.1 as int, b.1 as int);
    let width = distance(a.0 as int, b.0 as int);
    &&& (a.1 > y) != (b.1 > y)
    &&& if a.0 <= b.0 {
        down * width < (x + 1 - a.0) * height
    } else {
        down * width >= (a.0 - x) * height
    }
}

/// How many of the first `n` edges cross scanline `y` in the columns up to `x`.
pub open spec fn edges_left_of(v: Seq<(i32, i32)>, y: int, x: int, n: int) -> nat
    decreases n,
{
    if n <= 0 {
        0
    } else {
        edges_left_of(v, y, x, n - 1) + if edge_is_left_of(v[n - 1], edge_end(v, n - 1), y, x) {
            1nat
        } else {
            0nat
        }
    }
}

proof fn lemma_edges_left_of(v: Seq<(i32, i32)>, y: int, x: int, n: int)
    requires
        0 <= n <= v.len(),
    ensures
        edges_left_of(v, y, x, n) == crossings_left_of(v, y, x, n),
    decreases n,
{
    if n > 0 {
        lemma_edges_left_of(v, y, x, n - 1);
        let i = n - 1;
        lemma_crossing_lies_on_its_edge(v, i, y);
        let (x0, y0) = v[i];
        let (x1, y1) = edge_end(v, i);
        if raster::crosses(v, i, y) {
            let a = distance(y0 as int, y);
            let w = distance(x0 as int, x1 as int);
            let h = distance(y0 as int, y1 as int);
            let q = a * w / h;
            assert(raster::vertex(v, i) == v[i]);
            assert(raster::vertex(v, i + 1) == edge_end(v, i));
            assert(a == raster::abs(y - y0) && w == raster::abs(x1 - x0) && h == raster::abs(
                y1 - y0,
            ));
            vstd::arithmetic::div_mod::lemma_fundamental_div_mod(a * w, h);
            assert(0 <= a * w - q * h < h) by (nonlinear_arith)
                requires
                    a * w == h * q + (a * w) % h,
                    0 <= (a * w) % h < h,
            ;
            if x0 <= x1 {
                let m = x + 1 - x0;
                assert(q < m <==> a * w < m * h) by (nonlinear_arith)
                    requires
                        0 <= a * w - q * h < h,
                        h > 0,
                ;
            } else {
                let m = x0 - x;
                assert(q >= m <==> a * w >= m * h) by (nonlinear_arith)
                    requires
                        0 <= a * w - q * h < h,
                        h > 0,
                ;
            }
        }
    }
}

/// Where the vertices of a polygon have 16 bits, so do its crossings.
proof fn lemma_crossings_have_16_bits(v: Seq<(i32, i32)>, y: int, n: int)
    requires
        0 <= n <= v.len(),
        forall|i: int| 0 <= i < v.len() ==> -32768 <= (#[trigger] v[i]).0 <= 32767,
    ensures
        forall|i: int|
            0 <= i < raster::row_crossings(v, y, n).len() ==> -32768
                <= #[trigger] raster::row_crossings(v, y, n)[i] <= 32767,
    decreases n,
{
    if n > 0 {
        lemma_crossings_have_16_bits(v, y, n - 1);
        if raster::crosses(v, n - 1, y) {
            lemma_crossing_lies_on_its_edge(v, n - 1, y);
            assert(-32768 <= v[n - 1].0 <= 32767);
            assert(-32768 <= edge_end(v, n - 1).0 <= 32767);
            raster::lemma_inserted_range(
                raster::row_crossings(v, y, n - 1),
                raster::crossing_x(v, n - 1, y),
                -32768,
                32767,
            );
        }
    }
}

/// The spans of a scanline are on that scanline.
proof fn lemma_row_spans_stay_on_row(s: Seq<int>, y: int, n: int, x: int, other: int)
    requires
        -32768 <= y <= 32767,
        other != y,
    ensures
        !raster::any_covers(raster::row_spans(s, y, n), x, other),
    decreases n,
{
    if n > 0 {
        lemma_row_spans_stay_on_row(s, y, n - 1, x, other);
        let from = s[2 * n - 2];
        let to = s[2 * n - 1];
        if from < to {
            lemma_any_covers_push(
                raster::row_spans(s, y, n - 1),
                raster::span(y, from, to),
                x,
                other,
            );
        }
    }
}

pub proof fn lemma_any_covers_sum(a: Seq<Rectangle16>, b: Seq<Rectangle16>, x: int, y: int)
    ensures
        raster::any_covers(a + b, x, y) <==> raster::any_covers(a, x, y) || raster::any_covers(
            b,
            x,
            y,
        ),
{
    let all = a + b;
    if raster::any_covers(a, x, y) {
        let i = choose|i: int| 0 <= i < a.len() && (#[trigger] a[i]).covers(x, y);
        assert(all[i].covers(x, y));
    }
    if raster::any_covers(b, x, y) {
        let i = choose|i: int| 0 <= i < b.len() && (#[trigger] b[i]).covers(x, y);
        assert(all[a.len() + i].covers(x, y));
    }
    if raster::any_covers(all, x, y) {
        let i = choose|i: int| 0 <= i < all.len() && (#[trigger] all[i]).covers(x, y);
        if i < a.len() {
            assert(a[i].covers(x, y));
        } else {
            assert(b[i - a.len()].covers(x, y));
        }
    }
}

proof fn lemma_rows_cover(v: Seq<(i32, i32)>, from: int, to: int, x: int, y: int)
    requires
        -32768 <= from,
        to <= 32768,
    ensures
        raster::any_covers(raster::polygon_rows(v, from, to), x, y) <==> from <= y < to
            && raster::any_covers(raster::polygon_row(v, y), x, y),
    decreases to - from,
{
    if from < to {
        lemma_rows_cover(v, from, to - 1, x, y);
        lemma_any_covers_sum(
            raster::polygon_rows(v, from, to - 1),
            raster::polygon_row(v, to - 1),
            x,
            y,
        );
        if y != to - 1 {
            let s = raster::row_crossings(v, to - 1, v.len() as int);
            lemma_row_spans_stay_on_row(s, to - 1, s.len() as int / 2, x, y);
        }
    }
}

/// The rows of a polygon run from its topmost to its bottommost vertex.
proof fn lemma_row_limits(v: Seq<(i32, i32)>, n: int)
    requires
        1 <= n <= v.len(),
    ensures
        forall|i: int|
            0 <= i < n ==> raster::top_row(v, n) <= (#[trigger] v[i]).1 <= raster::bottom_row(v, n),
        exists|i: int| 0 <= i < n && (#[trigger] v[i]).1 == raster::top_row(v, n),
        exists|i: int| 0 <= i < n && (#[trigger] v[i]).1 == raster::bottom_row(v, n),
    decreases n,
{
    if n > 1 {
        lemma_row_limits(v, n - 1);
        let i = choose|i: int| 0 <= i < n - 1 && (#[trigger] v[i]).1 == raster::top_row(v, n - 1);
        let j = choose|j: int|
            0 <= j < n - 1 && (#[trigger] v[j]).1 == raster::bottom_row(v, n - 1);
        if v[n - 1].1 < raster::top_row(v, n - 1) {
            assert(v[n - 1].1 == raster::top_row(v, n));
        } else {
            assert(v[i].1 == raster::top_row(v, n));
        }
        if v[n - 1].1 > raster::bottom_row(v, n - 1) {
            assert(v[n - 1].1 == raster::bottom_row(v, n));
        } else {
            assert(v[j].1 == raster::bottom_row(v, n));
        }
    } else {
        assert(v[0].1 == raster::top_row(v, n));
        assert(v[0].1 == raster::bottom_row(v, n));
    }
}

proof fn lemma_no_edges_off_the_rows(v: Seq<(i32, i32)>, y: int, x: int, n: int)
    requires
        0 <= n <= v.len(),
        (forall|i: int| 0 <= i < v.len() ==> y < (#[trigger] v[i]).1) || (forall|i: int|
            0 <= i < v.len() ==> (#[trigger] v[i]).1 < y),
    ensures
        edges_left_of(v, y, x, n) == 0,
    decreases n,
{
    if n > 0 {
        lemma_no_edges_off_the_rows(v, y, x, n - 1);
        assert(v[n - 1].1 != y);
        assert(edge_end(v, n - 1).1 != y);
    }
}

/// A polygon of at least three vertices is filled by the even-odd rule, on every
/// scanline: a pixel is painted if and only if an odd number of edges cross its
/// scanline in the columns up to it.
pub proof fn lemma_polygon_fills_its_inside(v: Seq<(i32, i32)>, x: int, y: int)
    requires
        forall|i: int|
            0 <= i < v.len() ==> -32768 <= (#[trigger] v[i]).0 <= 32767 && -32768 <= v[i].1
                <= 32767,
    ensures
        raster::any_covers(raster::polygon_spans(v), x, y) <==> v.len() >= 3 && edges_left_of(
            v,
            y,
            x,
            v.len() as int,
        ) % 2 == 1,
{
    let n = v.len() as int;
    if n >= 3 {
        lemma_row_limits(v, n);
        let from = raster::top_row(v, n);
        let to = raster::bottom_row(v, n) + 1;
        lemma_rows_cover(v, from, to, x, y);
        lemma_edges_left_of(v, y, x, n);
        if from <= y < to {
            let s = raster::row_crossings(v, y, n);
            lemma_crossings_have_16_bits(v, y, n);
            lemma_polygon_fill_is_even_odd(v, y, x);
            lemma_crossings_come_in_pairs(v, y);
            lemma_row_spans_fill_between_pairs(s, y, s.len() as int / 2, x);
            if between_a_pair(s, x) {
                let i = choose|i: int|
                    #![trigger s[2 * i]]
                    0 <= 2 * i && 2 * i + 1 < s.len() && s[2 * i] <= x < s[2 * i + 1];
                assert(0 <= i < s.len() as int / 2 && s[2 * i] <= x);
            }
        } else {
            lemma_no_edges_off_the_rows(v, y, x, n);
        }
    }
}

/// Clamping keeps values that fit, and takes the nearest bound for others.
pub proof fn lemma_clamping_takes_the_nearest(v: int)
    ensures
        -32768 <= v <= 32767 ==> raster::clamped_i16(v) == v,
        v < -32768 ==> raster::clamped_i16(v) == -32768,
        v > 32767 ==> raster::clamped_i16(v) == 32767,
{
}

/// What is filled between two crossings of a pair, wherever they are: one row, from the
/// first one on and as wide as they are apart, in the nearest values that there are.
pub proof fn lemma_spans_reach_from_crossing_to_crossing(s: Seq<int>, y: int, n: int)
    requires
        0 < n,
        2 * n <= s.len(),
    ensures
        ({
            let from = s[2 * n - 2];
            let to = s[2 * n - 1];
            let before = raster::row_spans(s, y, n - 1);
            let after = raster::row_spans(s, y, n);
            &&& raster::row_spans(s, y, 0).len() == 0
            &&& from >= to ==> after == before
            &&& from < to ==> {
                &&& after.len() == before.len() + 1
                &&& after.drop_last() == before
                &&& after.last().x == raster::clamped_i16(from)
                &&& after.last().y == raster::clamped_i16(y)
                &&& to - from <= 0xffff ==> after.last().width == to - from
                &&& to - from > 0xffff ==> after.last().width == 0xffff
                &&& after.last().height == 1
            }
        }),
{
    let before = raster::row_spans(s, y, n - 1);
    assert(forall|r: Rectangle16| before.push(r).drop_last() =~= before);
}

/// Pixels of a line are one pixel each, at the nearest values that there are of their
/// coordinates; the steps are as many as the longer side has.
pub proof fn lemma_line_pixels_are_dots(x0: int, y0: int, x1: int, y1: int, k: int)
    requires
        0 <= k < raster::line_pixels(x0, y0, x1, y1).len(),
    ensures
        ({
            let w = distance(x0, x1);
            let h = distance(y0, y1);
            let n = if w >= h {
                w
            } else {
                h
            };
            let p = raster::line_pixels(x0, y0, x1, y1)[k];
            &&& raster::line_pixels(x0, y0, x1, y1).len() == n + 1
            &&& p.width == 1 && p.height == 1
            &&& p.x == raster::clamped_i16(raster::line_coord(x0, x1, n, k))
            &&& p.y == raster::clamped_i16(raster::line_coord(y0, y1, n, k))
        }),
{
}

} // verus!
