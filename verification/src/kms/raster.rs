//! Lines, polygons and rectangles as sets of pixels.

use vstd::prelude::*;

verus! {

/// A rectangle of pixels.
#[derive(Clone, Copy, Debug, PartialEq, Eq, Structural)]
pub struct Rectangle16 {
    pub x: i16,
    pub y: i16,
    pub width: u16,
    pub height: u16,
}

impl Rectangle16 {
    /// Whether the pixel at `(x, y)` is in the rectangle.
    pub open spec fn covers(self, x: int, y: int) -> bool {
        self.x <= x < self.x + self.width && self.y <= y < self.y + self.height
    }
}

/// Whether some rectangle of `rects` covers the pixel.
pub open spec fn any_covers(rects: Seq<Rectangle16>, x: int, y: int) -> bool {
    exists|i: int| 0 <= i < rects.len() && (#[trigger] rects[i]).covers(x, y)
}

/// `v`, or the nearest 16-bit value.
pub open spec fn clamped_i16(v: int) -> int {
    if v < -32768 {
        -32768
    } else if v > 32767 {
        32767
    } else {
        v
    }
}

pub fn clamp_i16(v: i64) -> (r: i16)
    ensures
        r == clamped_i16(v as int),
{
    if v < -32768 {
        -32768
    } else if v > 32767 {
        32767
    } else {
        v as i16
    }
}

pub open spec fn abs(v: int) -> int {
    if v < 0 {
        -v
    } else {
        v
    }
}

pub open spec fn max(a: int, b: int) -> int {
    if a < b {
        b
    } else {
        a
    }
}

/// One coordinate of pixel `k` of a line of `n` steps from `a` to `b`: the
/// exact coordinate, rounded to the nearest integer, and away from `a` halfway
/// between two.
pub open spec fn line_coord(a: int, b: int, n: int, k: int) -> int {
    if n == 0 {
        a
    } else if a < b {
        a + (2 * k * abs(b - a) + n) / (2 * n)
    } else {
        a - (2 * k * abs(b - a) + n) / (2 * n)
    }
}

/// How many steps a line takes: as many as its longer side.
pub open spec fn line_steps(x0: int, y0: int, x1: int, y1: int) -> int {
    max(abs(x1 - x0), abs(y1 - y0))
}

/// A rectangle of one pixel.
pub open spec fn dot(x: int, y: int) -> Rectangle16 {
    Rectangle16 {
        x: clamped_i16(x) as i16,
        y: clamped_i16(y) as i16,
        width: 1,
        height: 1,
    }
}

/// The pixels of the line from `(x0, y0)` to `(x1, y1)`.
pub open spec fn line_pixels(x0: int, y0: int, x1: int, y1: int) -> Seq<Rectangle16> {
    let n = line_steps(x0, y0, x1, y1);
    Seq::new(
        (n + 1) as nat,
        |k: int| dot(line_coord(x0, x1, n, k), line_coord(y0, y1, n, k)),
    )
}

/// The error term of the line after `i` steps along x and `j` along y, kept
/// within range of the two rounded quotients.
proof fn lemma_line_step(dx: int, dy: int, n: int, k: int, i: int, j: int, err: int)
    requires
        n == max(dx, dy),
        0 <= dx,
        0 <= dy,
        0 <= k < n,
        i == (2 * k * dx + n) / (2 * n),
        j == (2 * k * dy + n) / (2 * n),
        err == (j + 1) * dx - (i + 1) * dy,
    ensures
        (2 * (k + 1) * dx + n) / (2 * n) == i + if 2 * err >= -dy {
            1int
        } else {
            0int
        },
        (2 * (k + 1) * dy + n) / (2 * n) == j + if 2 * err <= dx {
            1int
        } else {
            0int
        },
{
    if dx >= dy {
        lemma_major(n, k);
        assert(i == k);
        lemma_minor(n, dy, k, j);
        assert(2 * err == 2 * (j + 1) * dx - 2 * (k + 1) * dy) by (nonlinear_arith)
            requires
                err == (j + 1) * dx - (i + 1) * dy,
                i == k,
        ;
        assert(2 * (j + 1) * dx - 2 * (k + 1) * dy <= dx <==> 2 * n * (j + 1) <= 2 * (k + 1) * dy
            + n) by (nonlinear_arith)
            requires
                n == dx,
        ;
        assert(2 * (j + 1) * dx - 2 * (k + 1) * dy >= -dy) by (nonlinear_arith)
            requires
                2 * k * dy + n < 2 * n * (j + 1),
                n == dx,
                dx >= dy,
        ;
        lemma_major(n, k + 1);
        assert(2 * (k + 1) * dx + n == 2 * (k + 1) * n + n) by (nonlinear_arith)
            requires
                n == dx,
        ;
        assert(2 * k * dx + n == 2 * k * n + n) by (nonlinear_arith)
            requires
                n == dx,
        ;
    } else {
        lemma_major(n, k);
        assert(j == k);
        lemma_minor(n, dx, k, i);
        assert(2 * err == 2 * (k + 1) * dx - 2 * (i + 1) * dy) by (nonlinear_arith)
            requires
                err == (j + 1) * dx - (i + 1) * dy,
                j == k,
        ;
        assert(2 * (k + 1) * dx - 2 * (i + 1) * dy >= -dy <==> 2 * n * (i + 1) <= 2 * (k + 1) * dx
            + n) by (nonlinear_arith)
            requires
                n == dy,
        ;
        assert(2 * (k + 1) * dx - 2 * (i + 1) * dy <= dx) by (nonlinear_arith)
            requires
                2 * k * dx + n < 2 * n * (i + 1),
                n == dy,
                dx < dy,
        ;
        lemma_major(n, k + 1);
    }
}

/// Along its longer side a line moves by one each step.
proof fn lemma_major(n: int, k: int)
    requires
        n > 0,
        k >= 0,
    ensures
        (2 * k * n + n) / (2 * n) == k,
{
    assert(2 * k * n + n == k * (2 * n) + n) by (nonlinear_arith);
    vstd::arithmetic::div_mod::lemma_fundamental_div_mod_converse(
        2 * k * n + n,
        2 * n,
        k,
        n,
    );
}

/// Along its shorter side it moves by one when the rounding says so.
proof fn lemma_minor(n: int, d: int, k: int, q: int)
    requires
        0 <= d <= n,
        n > 0,
        k >= 0,
        q == (2 * k * d + n) / (2 * n),
    ensures
        2 * n * q <= 2 * k * d + n < 2 * n * (q + 1),
        (2 * (k + 1) * d + n) / (2 * n) == q + if 2 * n * (q + 1) <= 2 * (k + 1) * d + n {
            1int
        } else {
            0int
        },
{
    let a = 2 * k * d + n;
    let b = 2 * (k + 1) * d + n;
    assert(b == a + 2 * d) by (nonlinear_arith)
        requires
            a == 2 * k * d + n,
            b == 2 * (k + 1) * d + n,
    ;
    vstd::arithmetic::div_mod::lemma_fundamental_div_mod(a, 2 * n);
    let r = a % (2 * n);
    assert(0 <= r < 2 * n);
    assert(2 * n * q <= a < 2 * n * (q + 1)) by (nonlinear_arith)
        requires
            a == 2 * n * q + r,
            0 <= r < 2 * n,
    ;
    if 2 * n * (q + 1) <= b {
        let s = b - 2 * n * (q + 1);
        assert(b == (q + 1) * (2 * n) + s) by (nonlinear_arith)
            requires
                s == b - 2 * n * (q + 1),
        ;
        assert(s < 2 * n) by (nonlinear_arith)
            requires
                s == b - 2 * n * (q + 1),
                b == a + 2 * d,
                a < 2 * n * (q + 1),
                d <= n,
        ;
        vstd::arithmetic::div_mod::lemma_fundamental_div_mod_converse(b, 2 * n, q + 1, s);
    } else {
        let s = b - 2 * n * q;
        assert(b == q * (2 * n) + s) by (nonlinear_arith)
            requires
                s == b - 2 * n * q,
        ;
        assert(0 <= s < 2 * n) by (nonlinear_arith)
            requires
                s == b - 2 * n * q,
                b == a + 2 * d,
                d >= 0,
                2 * n * q <= a,
                b < 2 * n * (q + 1),
        ;
        vstd::arithmetic::div_mod::lemma_fundamental_div_mod_converse(b, 2 * n, q, s);
    }
}

/// The error term stays within the lengths of the two sides.
proof fn lemma_error_range(dx: int, dy: int, n: int, k: int, i: int, j: int)
    requires
        n == max(dx, dy),
        n > 0,
        0 <= dx,
        0 <= dy,
        0 <= k <= n,
        i == (2 * k * dx + n) / (2 * n),
        j == (2 * k * dy + n) / (2 * n),
    ensures
        -2 * n <= (j + 1) * dx - (i + 1) * dy <= 2 * n,
{
    lemma_major(n, k);
    if dx >= dy {
        assert(2 * k * dx + n == 2 * k * n + n) by (nonlinear_arith)
            requires
                n == dx,
        ;
        lemma_minor(n, dy, k, j);
        assert(-2 * n <= (j + 1) * dx - (k + 1) * dy <= 2 * n) by (nonlinear_arith)
            requires
                2 * n * j <= 2 * k * dy + n < 2 * n * (j + 1),
                n == dx,
                0 <= dy <= dx,
        ;
    } else {
        lemma_minor(n, dx, k, i);
        assert(-2 * n <= (k + 1) * dx - (i + 1) * dy <= 2 * n) by (nonlinear_arith)
            requires
                2 * n * i <= 2 * k * dx + n < 2 * n * (i + 1),
                n == dy,
                0 <= dx < dy,
        ;
    }
}

/// A line ends where it should, and not before its last step.
proof fn lemma_line_end(a: int, b: int, n: int, k: int)
    requires
        abs(b - a) <= n,
        0 <= k <= n,
    ensures
        k == n ==> line_coord(a, b, n, k) == b,
        k < n && abs(b - a) == n ==> line_coord(a, b, n, k) != b,
{
    if n > 0 {
        let d = abs(b - a);
        lemma_major(n, d);
        assert(2 * n * d + n == 2 * d * n + n) by (nonlinear_arith);
        lemma_major(n, k);
    }
}

/// Appends the pixels of the line from `(x0, y0)` to `(x1, y1)`.
pub fn bresenham_segment(x0: i32, y0: i32, x1: i32, y1: i32, out: &mut Vec<Rectangle16>)
    ensures
        final(out)@ == old(out)@ + line_pixels(x0 as int, y0 as int, x1 as int, y1 as int),
{
    let dx: i64 = if x0 < x1 {
        x1 as i64 - x0 as i64
    } else {
        x0 as i64 - x1 as i64
    };
    let dy: i64 = if y0 < y1 {
        y1 as i64 - y0 as i64
    } else {
        y0 as i64 - y1 as i64
    };
    let sx: i64 = if x0 < x1 {
        1
    } else {
        -1
    };
    let sy: i64 = if y0 < y1 {
        1
    } else {
        -1
    };
    let mut err: i64 = dx - dy;
    let mut x: i64 = x0 as i64;
    let mut y: i64 = y0 as i64;
    let ghost n: int = line_steps(x0 as int, y0 as int, x1 as int, y1 as int);
    let ghost all = line_pixels(x0 as int, y0 as int, x1 as int, y1 as int);
    let ghost mut k: int = 0;
    proof {
        if n > 0 {
            assert(2 * k * dx + n == n && 2 * k * dy + n == n) by (nonlinear_arith)
                requires
                    k == 0,
            ;
            assert(n / (2 * n) == 0) by (nonlinear_arith)
                requires
                    n > 0,
            ;
            assert((0 + 1) * dx - (0 + 1) * dy == dx - dy) by (nonlinear_arith);
        }
        assert(out@ =~= old(out)@ + all.take(0));
    }
    loop
        invariant_except_break
            0 <= k <= n,
            n == max(dx as int, dy as int),
            n == line_steps(x0 as int, y0 as int, x1 as int, y1 as int),
            dx == abs(x1 - x0),
            dy == abs(y1 - y0),
            sx == (if x0 < x1 {
                1int
            } else {
                -1int
            }),
            sy == (if y0 < y1 {
                1int
            } else {
                -1int
            }),
            all == line_pixels(x0 as int, y0 as int, x1 as int, y1 as int),
            x == line_coord(x0 as int, x1 as int, n, k),
            y == line_coord(y0 as int, y1 as int, n, k),
            n > 0 ==> err == ((2 * k * dy + n) / (2 * n) + 1) * dx - ((2 * k * dx + n) / (2 * n)
                + 1) * dy,
            out@ == old(out)@ + all.take(k),
        ensures
            out@ == old(out)@ + all,
        decreases n - k,
    {
        out.push(Rectangle16 { x: clamp_i16(x), y: clamp_i16(y), width: 1, height: 1 });
        proof {
            lemma_line_end(x0 as int, x1 as int, n, k);
            lemma_line_end(y0 as int, y1 as int, n, k);
            assert(all.take(k + 1) =~= all.take(k).push(all[k]));
            assert(out@ =~= old(out)@ + all.take(k + 1));
        }
        if x == x1 as i64 && y == y1 as i64 {
            assert(k == n);
            assert(all.take(n + 1) =~= all);
            break;
        }
        let ghost i = (2 * k * dx + n) / (2 * n);
        let ghost j = (2 * k * dy + n) / (2 * n);
        proof {
            assert(k < n);
            lemma_error_range(dx as int, dy as int, n, k, i, j);
            lemma_line_step(dx as int, dy as int, n, k, i, j, err as int);
            lemma_error_range(
                dx as int,
                dy as int,
                n,
                k + 1,
                (2 * (k + 1) * dx + n) / (2 * n),
                (2 * (k + 1) * dy + n) / (2 * n),
            );
            lemma_coord_range(x0 as int, x1 as int, n, k + 1);
            lemma_coord_range(y0 as int, y1 as int, n, k + 1);
            lemma_coord_range(x0 as int, x1 as int, n, k);
            lemma_coord_range(y0 as int, y1 as int, n, k);
            assert((j + 1 + 1) * dx == (j + 1) * dx + dx) by (nonlinear_arith);
            assert((i + 1 + 1) * dy == (i + 1) * dy + dy) by (nonlinear_arith);
        }
        let e2: i64 = 2 * err;
        if e2 >= -dy {
            err = err - dy;
            x = x + sx;
        }
        if e2 <= dx {
            err = err + dx;
            y = y + sy;
        }
        proof {
            k = k + 1;
        }
    }
}

/// A line stays between its ends.
pub proof fn lemma_coord_range(a: int, b: int, n: int, k: int)
    requires
        abs(b - a) <= n,
        0 <= k <= n,
    ensures
        a <= b ==> a <= line_coord(a, b, n, k) <= b,
        b <= a ==> b <= line_coord(a, b, n, k) <= a,
{
    if n > 0 {
        let d = abs(b - a);
        let q = (2 * k * d + n) / (2 * n);
        assert(0 <= q <= d) by {
            lemma_major(n, d);
            assert(0 <= 2 * k * d) by (nonlinear_arith)
                requires
                    k >= 0,
                    d >= 0,
            ;
            assert(2 * k * d + n <= 2 * d * n + n) by (nonlinear_arith)
                requires
                    0 <= k <= n,
                    d >= 0,
            ;
            vstd::arithmetic::div_mod::lemma_div_is_ordered(
                2 * k * d + n,
                2 * d * n + n,
                2 * n,
            );
            vstd::arithmetic::div_mod::lemma_div_pos_is_pos(2 * k * d + n, 2 * n);
        }
    }
}

/// Vertex `i` of a closed polygon.
pub open spec fn vertex(v: Seq<(i32, i32)>, i: int) -> (i32, i32) {
    if i < v.len() {
        v[i]
    } else {
        v[0]
    }
}

/// Whether edge `i` of the polygon crosses scanline `y`: one end is at or above
/// it and the other below, so that a vertex shared by two edges counts once.
pub open spec fn crosses(v: Seq<(i32, i32)>, i: int, y: int) -> bool {
    (vertex(v, i).1 <= y) != (vertex(v, i + 1).1 <= y)
}

/// Where edge `i` crosses scanline `y`: from its first end, the share of the
/// way that the scanline is along it, rounded down.
pub open spec fn crossing_x(v: Seq<(i32, i32)>, i: int, y: int) -> int {
    let (x0, y0) = vertex(v, i);
    let (x1, y1) = vertex(v, i + 1);
    let way = abs(y - y0) * abs(x1 - x0) / abs(y1 - y0);
    if x0 <= x1 {
        x0 + way
    } else {
        x0 - way
    }
}

/// The ascending sequence `s` with `x` put in its place.
pub open spec fn inserted(s: Seq<int>, x: int) -> Seq<int>
    decreases s.len(),
{
    if s.len() == 0 || s.last() <= x {
        s.push(x)
    } else {
        inserted(s.drop_last(), x).push(s.last())
    }
}

/// Where the first `n` edges cross scanline `y`, in ascending order.
pub open spec fn row_crossings(v: Seq<(i32, i32)>, y: int, n: int) -> Seq<int>
    decreases n,
{
    if n <= 0 {
        Seq::empty()
    } else if crosses(v, n - 1, y) {
        inserted(row_crossings(v, y, n - 1), crossing_x(v, n - 1, y))
    } else {
        row_crossings(v, y, n - 1)
    }
}

/// The pixels of scanline `y` from `from` up to but without `to`.
pub open spec fn span(y: int, from: int, to: int) -> Rectangle16 {
    Rectangle16 {
        x: clamped_i16(from) as i16,
        y: clamped_i16(y) as i16,
        width: (if to - from > 0xffff {
            0xffff
        } else {
            to - from
        }) as u16,
        height: 1,
    }
}

/// The spans between the first and second crossing, the third and fourth, and
/// so on, of the first `n` pairs; empty ones left out.
pub open spec fn row_spans(crossings: Seq<int>, y: int, n: int) -> Seq<Rectangle16>
    decreases n,
{
    if n <= 0 {
        Seq::empty()
    } else {
        let from = crossings[2 * n - 2];
        let to = crossings[2 * n - 1];
        if from < to {
            row_spans(crossings, y, n - 1).push(span(y, from, to))
        } else {
            row_spans(crossings, y, n - 1)
        }
    }
}

/// The spans of the polygon on scanline `y`.
pub open spec fn polygon_row(v: Seq<(i32, i32)>, y: int) -> Seq<Rectangle16> {
    let crossings = row_crossings(v, y, v.len() as int);
    row_spans(crossings, y, crossings.len() as int / 2)
}

/// The spans of the polygon on scanlines from `from` up to but without `to`.
pub open spec fn polygon_rows(v: Seq<(i32, i32)>, from: int, to: int) -> Seq<Rectangle16>
    decreases to - from,
{
    if to <= from {
        Seq::empty()
    } else {
        polygon_rows(v, from, to - 1) + polygon_row(v, to - 1)
    }
}

/// The topmost scanline of the first `n` vertices.
pub open spec fn top_row(v: Seq<(i32, i32)>, n: int) -> int
    decreases n,
{
    if n <= 1 {
        v[0].1 as int
    } else if v[n - 1].1 < top_row(v, n - 1) {
        v[n - 1].1 as int
    } else {
        top_row(v, n - 1)
    }
}

/// The bottommost scanline of the first `n` vertices.
pub open spec fn bottom_row(v: Seq<(i32, i32)>, n: int) -> int
    decreases n,
{
    if n <= 1 {
        v[0].1 as int
    } else if v[n - 1].1 > bottom_row(v, n - 1) {
        v[n - 1].1 as int
    } else {
        bottom_row(v, n - 1)
    }
}

/// The pixels inside a polygon, as spans of one scanline each. Fewer than three
/// vertices have no inside.
pub open spec fn polygon_spans(v: Seq<(i32, i32)>) -> Seq<Rectangle16> {
    if v.len() < 3 {
        Seq::empty()
    } else {
        polygon_rows(v, top_row(v, v.len() as int), bottom_row(v, v.len() as int) + 1)
    }
}

pub open spec fn ints(s: Seq<i64>) -> Seq<int> {
    s.map_values(|a: i64| a as int)
}

/// Puts `x` in its place in an ascending list.
fn insert_ascending(list: &mut Vec<i64>, x: i64)
    ensures
        ints(final(list)@) == inserted(ints(old(list)@), x as int),
{
    let ghost s = ints(list@);
    let mut i: usize = list.len();
    assert(s.take(i as int) =~= s);
    assert(s.skip(i as int) =~= Seq::<int>::empty());
    assert(inserted(s, x as int) =~= inserted(s.take(i as int), x as int) + s.skip(i as int));
    while i > 0 && list[i - 1] > x
        invariant
            0 <= i <= list@.len(),
            *list == *old(list),
            s == ints(list@),
            inserted(s, x as int) == inserted(s.take(i as int), x as int) + s.skip(i as int),
        decreases i,
    {
        proof {
            assert(s.take(i as int).last() == list@[i - 1]);
            assert(s.take(i as int).drop_last() =~= s.take(i - 1));
            assert(s.skip(i - 1) =~= seq![s[i - 1]] + s.skip(i as int));
            let a = inserted(s.take(i - 1), x as int);
            assert(a.push(s[i - 1]) + s.skip(i as int) =~= a + s.skip(i - 1));
        }
        i -= 1;
    }
    assert(i > 0 ==> s.take(i as int).last() == list@[i - 1]);
    list.insert(i, x);
    assert(ints(list@) =~= s.take(i as int).push(x as int) + s.skip(i as int));
}

pub proof fn lemma_crossing_between(v: Seq<(i32, i32)>, i: int, y: int)
    requires
        crosses(v, i, y),
    ensures
        ({
            let x0 = vertex(v, i).0;
            let x1 = vertex(v, i + 1).0;
            &&& x0 <= x1 ==> x0 <= crossing_x(v, i, y) <= x1
            &&& x1 <= x0 ==> x1 <= crossing_x(v, i, y) <= x0
        }),
{
    let (x0, y0) = vertex(v, i);
    let (x1, y1) = vertex(v, i + 1);
    let a = abs(y - y0);
    let b = abs(x1 - x0);
    let c = abs(y1 - y0);
    assert(0 <= a * b / c <= b) by (nonlinear_arith)
        requires
            0 <= a <= c,
            0 <= b,
            c > 0,
    ;
}

/// Where edge `i` of the polygon crosses scanline `y`.
fn edge_crossing(verts: &Vec<(i32, i32)>, i: usize, y: i64) -> (r: Option<i64>)
    requires
        i < verts@.len(),
        i32::MIN <= y <= i32::MAX,
    ensures
        match r {
            Some(x) => crosses(verts@, i as int, y as int) && x == crossing_x(
                verts@,
                i as int,
                y as int,
            ),
            None => !crosses(verts@, i as int, y as int),
        },
{
    let (x0, y0): (i32, i32) = verts[i];
    let (x1, y1): (i32, i32) = if i < verts.len() - 1 {
        verts[i + 1]
    } else {
        verts[0]
    };
    let x0: i64 = x0 as i64;
    let y0: i64 = y0 as i64;
    let x1: i64 = x1 as i64;
    let y1: i64 = y1 as i64;
    if (y0 <= y) == (y1 <= y) {
        return None;
    }
    let down: u64 = if y < y0 {
        (y0 - y) as u64
    } else {
        (y - y0) as u64
    };
    let height: u64 = if y1 < y0 {
        (y0 - y1) as u64
    } else {
        (y1 - y0) as u64
    };
    let width: u64 = if x1 < x0 {
        (x0 - x1) as u64
    } else {
        (x1 - x0) as u64
    };
    assert(down * width <= 0xffff_ffff * 0xffff_ffff) by (nonlinear_arith)
        requires
            down <= 0xffff_ffff,
            width <= 0xffff_ffff,
    ;
    assert(down * width / (height as int) <= width) by (nonlinear_arith)
        requires
            down <= height,
            height > 0,
    ;
    let way: u64 = down * width / height;
    if x0 <= x1 {
        Some(x0 + way as i64)
    } else {
        Some(x0 - way as i64)
    }
}

/// Appends the spans of scanline `y`.
fn fill_row(verts: &Vec<(i32, i32)>, y: i64, out: &mut Vec<Rectangle16>)
    requires
        i32::MIN <= y <= i32::MAX,
    ensures
        final(out)@ == old(out)@ + polygon_row(verts@, y as int),
{
    let mut crossings: Vec<i64> = Vec::new();
    let n: usize = verts.len();
    assert(ints(crossings@) =~= row_crossings(verts@, y as int, 0));
    for i in 0..n
        invariant
            n == verts@.len(),
            i32::MIN <= y <= i32::MAX,
            ints(crossings@) == row_crossings(verts@, y as int, i as int),
            forall|j: int|
                0 <= j < crossings@.len() ==> i32::MIN <= #[trigger] crossings@[j] <= i32::MAX,
    {
        if let Some(x) = edge_crossing(verts, i, y) {
            proof {
                lemma_crossing_between(verts@, i as int, y as int);
                lemma_inserted_range(
                    ints(crossings@),
                    x as int,
                    i32::MIN as int,
                    i32::MAX as int,
                );
            }
            insert_ascending(&mut crossings, x);
            assert forall|j: int| 0 <= j < crossings@.len() implies i32::MIN
                <= #[trigger] crossings@[j] <= i32::MAX by {
                assert(ints(crossings@)[j] == crossings@[j]);
            }
        }
    }
    let ghost all = row_crossings(verts@, y as int, n as int);
    let len: usize = crossings.len();
    let pairs: usize = len / 2;
    assert(out@ =~= old(out)@ + row_spans(all, y as int, 0));
    for i in 0..pairs
        invariant
            len == crossings@.len(),
            pairs == len / 2,
            i32::MIN <= y <= i32::MAX,
            all == ints(crossings@),
            forall|j: int|
                0 <= j < crossings@.len() ==> i32::MIN <= #[trigger] crossings@[j] <= i32::MAX,
            out@ == old(out)@ + row_spans(all, y as int, i as int),
    {
        let from: i64 = crossings[2 * i];
        let to: i64 = crossings[2 * i + 1];
        assert(from == all[2 * (i + 1) - 2] && to == all[2 * (i + 1) - 1]);
        if from < to {
            let w: i64 = if to - from > 0xffff {
                0xffff
            } else {
                to - from
            };
            out.push(
                Rectangle16 { x: clamp_i16(from), y: clamp_i16(y), width: w as u16, height: 1 },
            );
            assert(out@ =~= old(out)@ + row_spans(all, y as int, i + 1));
        }
    }
}

pub proof fn lemma_inserted_range(s: Seq<int>, x: int, lo: int, hi: int)
    requires
        lo <= x <= hi,
        forall|j: int| 0 <= j < s.len() ==> lo <= #[trigger] s[j] <= hi,
    ensures
        forall|j: int|
            0 <= j < inserted(s, x).len() ==> lo <= #[trigger] inserted(s, x)[j] <= hi,
    decreases s.len(),
{
    if !(s.len() == 0 || s.last() <= x) {
        lemma_inserted_range(s.drop_last(), x, lo, hi);
        let t = inserted(s.drop_last(), x);
        assert(lo <= s[s.len() - 1] <= hi);
        assert forall|j: int| 0 <= j < inserted(s, x).len() implies lo <= #[trigger] inserted(
            s,
            x,
        )[j] <= hi by {
            if j < t.len() {
                assert(inserted(s, x)[j] == t[j]);
            }
        }
    }
}

proof fn lemma_rows_range(v: Seq<(i32, i32)>, n: int)
    requires
        1 <= n <= v.len(),
    ensures
        i32::MIN <= top_row(v, n) <= bottom_row(v, n) <= i32::MAX,
    decreases n,
{
    if n > 1 {
        lemma_rows_range(v, n - 1);
    }
}

/// Appends the pixels inside a polygon (even-odd rule), as spans of one
/// scanline each.
pub fn scanline_fill_polygon(verts: &Vec<(i32, i32)>, out: &mut Vec<Rectangle16>)
    ensures
        final(out)@ == old(out)@ + polygon_spans(verts@),
{
    let n: usize = verts.len();
    if n < 3 {
        assert(out@ =~= old(out)@ + polygon_spans(verts@));
        return ;
    }
    let mut y_min: i64 = verts[0].1 as i64;
    let mut y_max: i64 = verts[0].1 as i64;
    for i in 1..n
        invariant
            3 <= n == verts@.len(),
            y_min == top_row(verts@, i as int),
            y_max == bottom_row(verts@, i as int),
    {
        let y: i64 = verts[i].1 as i64;
        if y < y_min {
            y_min = y;
        }
        if y > y_max {
            y_max = y;
        }
    }
    proof {
        lemma_rows_range(verts@, n as int);
    }
    let mut y: i64 = y_min;
    assert(out@ =~= old(out)@ + polygon_rows(verts@, y_min as int, y as int));
    while y <= y_max
        invariant
            i32::MIN <= y_min <= y <= y_max + 1,
            y_max <= i32::MAX,
            out@ == old(out)@ + polygon_rows(verts@, y_min as int, y as int),
        decreases y_max + 1 - y,
    {
        let ghost before = out@;
        fill_row(verts, y, out);
        assert(out@ =~= old(out)@ + polygon_rows(verts@, y_min as int, y + 1));
        y += 1;
    }
}

} // verus!
