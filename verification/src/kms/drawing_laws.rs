//! What holds of reading shapes and pictures off the wire.

use vstd::prelude::*;

use crate::backend::GcFunction;
use crate::kms::arcs;
use crate::kms::drawing;
use crate::kms::image;
use crate::kms::image_laws;
use crate::kms::pictures;
use crate::kms::raster;
use crate::kms::raster::Rectangle16;
use crate::kms::raster_laws;
use crate::kms::state::{KmsView, PictureStateView};
use crate::wire;

verus! {

/// The unsigned value of two bytes of `s` from `at` on, the low one first.
pub open spec fn word(s: Seq<u8>, at: int) -> int {
    s[at] + 0x100 * s[at + 1]
}

/// The same two bytes as a signed value: the top bit counts for minus 2^15.
pub open spec fn short(s: Seq<u8>, at: int) -> int {
    if s[at + 1] < 0x80 {
        word(s, at)
    } else {
        word(s, at) - 0x1_0000
    }
}

/// The signed value of four bytes of `s` from `at` on, the low one first.
pub open spec fn long(s: Seq<u8>, at: int) -> int {
    let v = s[at] + 0x100 * s[at + 1] + 0x1_0000 * s[at + 2] + 0x100_0000 * s[at + 3];
    if s[at + 3] < 0x80 {
        v
    } else {
        v - 0x1_0000_0000
    }
}

/// Each trapezoid is read from forty bytes of its own: top and bottom, the two
/// points of the left line, and those of the right line.
pub proof fn lemma_trapezoids_have_their_own_bytes(s: Seq<u8>, i: int)
    requires
        0 <= i < s.len() / 40,
    ensures
        pictures::trapezoids(s).len() == s.len() / 40,
        ({
            let t = pictures::trapezoids(s)[i];
            &&& t.top == long(s, 40 * i)
            &&& t.bottom == long(s, 40 * i + 4)
            &&& t.left.p1.x == long(s, 40 * i + 8)
            &&& t.left.p1.y == long(s, 40 * i + 12)
            &&& t.left.p2.x == long(s, 40 * i + 16)
            &&& t.left.p2.y == long(s, 40 * i + 20)
            &&& t.right.p1.x == long(s, 40 * i + 24)
            &&& t.right.p1.y == long(s, 40 * i + 28)
            &&& t.right.p2.x == long(s, 40 * i + 32)
            &&& t.right.p2.y == long(s, 40 * i + 36)
        }),
{
}

/// Trapezoids of two lists one behind the other are those of the first, and then
/// those of the second.
pub proof fn lemma_trapezoids_of_two_lists(a: Seq<u8>, b: Seq<u8>)
    requires
        a.len() % 40 == 0,
    ensures
        pictures::trapezoids(a + b) == pictures::trapezoids(a) + pictures::trapezoids(b),
{
    let n = a.len() as int / 40;
    let sum = pictures::trapezoids(a) + pictures::trapezoids(b);
    assert(a.len() == 40 * n);
    assert((a + b).len() as int / 40 == n + b.len() as int / 40);
    assert forall|i: int| 0 <= i < sum.len() implies pictures::trapezoids(a + b)[i] == sum[i] by {
        if i < n {
            assert(forall|k: int| 0 <= k < a.len() ==> (a + b)[k] == a[k]);
        } else {
            assert(forall|k: int|
                0 <= k < b.len() ==> (a + b)[40 * n + k] == #[trigger] b[k]);
            let at = 40 * (i - n);
            assert(40 * i == 40 * n + at);
            lemma_trapezoid_shift(a + b, b, 40 * n, at);
        }
    }
    assert(pictures::trapezoids(a + b) =~= sum);
}

proof fn lemma_trapezoid_shift(s: Seq<u8>, b: Seq<u8>, n: int, at: int)
    requires
        0 <= at,
        at + 40 <= b.len(),
        forall|k: int| 0 <= k < b.len() ==> s[n + k] == #[trigger] b[k],
    ensures
        pictures::trapezoid_at(s, n + at) == pictures::trapezoid_at(b, at),
{
    assert forall|k: int| 0 <= k < 40 implies s[n + at + k] == #[trigger] b[at + k] by {
        assert(s[n + (at + k)] == b[at + k]);
    }
    lemma_i32_shift(s, b, n, at);
    lemma_i32_shift(s, b, n, at + 4);
    lemma_i32_shift(s, b, n, at + 8);
    lemma_i32_shift(s, b, n, at + 12);
    lemma_i32_shift(s, b, n, at + 16);
    lemma_i32_shift(s, b, n, at + 20);
    lemma_i32_shift(s, b, n, at + 24);
    lemma_i32_shift(s, b, n, at + 28);
    lemma_i32_shift(s, b, n, at + 32);
    lemma_i32_shift(s, b, n, at + 36);
}

proof fn lemma_i32_shift(s: Seq<u8>, b: Seq<u8>, n: int, at: int)
    requires
        0 <= at,
        at + 4 <= b.len(),
        forall|k: int| 0 <= k < b.len() ==> s[n + k] == #[trigger] b[k],
    ensures
        pictures::i32_at(s, n + at) == pictures::i32_at(b, at),
{
    assert(s[n + at] == b[at]);
    assert(s[n + (at + 1)] == b[at + 1]);
    assert(s[n + (at + 2)] == b[at + 2]);
    assert(s[n + (at + 3)] == b[at + 3]);
}

/// Trapezoids are composited if and only if there are some and no part of one,
/// the source is of one colour, and the destination draws on something that
/// exists. Then the plan has the source's colour, the destination's drawable and
/// clip, and the request's operator and offsets.
pub proof fn lemma_trapezoid_plan_joins_two_pictures(
    k: KmsView,
    op: u8,
    src: u32,
    dst: u32,
    src_x: i16,
    src_y: i16,
    traps: Seq<u8>,
    x_off: i16,
    y_off: i16,
)
    ensures
        ({
            let plan = k.trapezoid_plan(op, src, dst, src_x, src_y, traps, x_off, y_off);
            let drawable = k.pictures[dst]->host_xid;
            &&& plan is Some <==> {
                &&& traps.len() > 0
                &&& traps.len() % 40 == 0
                &&& k.pictures.contains_key(src) && k.pictures[src] is SolidFill
                &&& k.pictures.contains_key(dst) && k.pictures[dst] is Drawable
                &&& k.windows.contains_key(drawable) || k.pixmaps.contains_key(drawable)
            }
            &&& plan matches Some(p) ==> {
                &&& p.op == op
                &&& k.pictures[src] == PictureStateView::SolidFill { color: p.color }
                &&& k.pictures[dst] == (PictureStateView::Drawable {
                    host_xid: p.drawable,
                    clip: p.clip,
                })
                &&& (p.src_x, p.src_y, p.x_off, p.y_off) == (src_x, src_y, x_off, y_off)
                &&& p.traps.len() * 40 == traps.len()
            }
        }),
{
}

/// A solid fill has red, green, blue and alpha in this order, two bytes each.
pub proof fn lemma_solid_fill_has_four_channels(bytes: Seq<u8>)
    requires
        bytes.len() == 8,
    ensures
        pictures::fill_color(bytes).red == word(bytes, 0),
        pictures::fill_color(bytes).green == word(bytes, 2),
        pictures::fill_color(bytes).blue == word(bytes, 4),
        pictures::fill_color(bytes).alpha == word(bytes, 6),
{
}

/// A clip has one rectangle for each eight bytes behind the origin, and none at
/// all is no clip. Only pictures that draw on something are clipped, and they
/// keep drawing on it.
pub proof fn lemma_clip_is_read_behind_its_origin(
    picture: PictureStateView,
    body: Seq<u8>,
    i: int,
)
    requires
        body.len() >= 8,
    ensures
        picture is SolidFill ==> pictures::reclipped(picture, body) == picture,
        picture matches PictureStateView::Drawable { host_xid, .. } ==> {
            match pictures::reclipped(picture, body) {
                PictureStateView::Drawable { host_xid: after, clip } => {
                    &&& after == host_xid
                    &&& clip is None <==> body.len() < 16
                    &&& clip matches Some(rects) ==> {
                        &&& rects.len() == (body.len() - 8) / 8
                        &&& 0 <= i < rects.len() ==> {
                            &&& rects[i].x == short(body, 8 * i + 8)
                            &&& rects[i].y == short(body, 8 * i + 10)
                            &&& rects[i].width == word(body, 8 * i + 12)
                            &&& rects[i].height == word(body, 8 * i + 14)
                        }
                    }
                },
                _ => false,
            }
        },
{
    let rest = body.skip(8);
    if 0 <= i < rest.len() / 8 {
        lemma_rectangles_have_their_own_bytes(rest, i);
        assert(forall|k: int| 0 <= k < rest.len() ==> #[trigger] rest[k] == body[k + 8]);
    }
}

/// Each rectangle is read from eight bytes of its own: x, y, width and height.
pub proof fn lemma_rectangles_have_their_own_bytes(s: Seq<u8>, i: int)
    requires
        0 <= i < s.len() / 8,
    ensures
        drawing::packed_rects(s).len() == s.len() / 8,
        drawing::packed_rects(s)[i].x == short(s, 8 * i),
        drawing::packed_rects(s)[i].y == short(s, 8 * i + 2),
        drawing::packed_rects(s)[i].width == word(s, 8 * i + 4),
        drawing::packed_rects(s)[i].height == word(s, 8 * i + 6),
{
}

/// Each point is one pixel, at the coordinates in four bytes of its own.
pub proof fn lemma_points_have_their_own_bytes(s: Seq<u8>, i: int)
    requires
        0 <= i < s.len() / 4,
    ensures
        drawing::point_pixels(s).len() == s.len() / 4,
        drawing::point_pixels(s)[i].x == short(s, 4 * i),
        drawing::point_pixels(s)[i].y == short(s, 4 * i + 2),
        drawing::point_pixels(s)[i].width == 1,
        drawing::point_pixels(s)[i].height == 1,
{
}

/// Vertices of a path are as given, or in mode 1 as far from the one before as
/// given; the first is as given in either mode.
pub proof fn lemma_paths_are_absolute_or_relative(s: Seq<u8>, mode: u8, n: int, i: int)
    requires
        0 <= i < n,
        n <= s.len() / 4,
        drawing::path_fits(s, mode),
    ensures
        ({
            let v = drawing::path_vertices(s, mode, n);
            &&& v.len() == n
            &&& mode == 1 && i > 0 ==> {
                &&& v[i].0 - v[i - 1].0 == short(s, 4 * i)
                &&& v[i].1 - v[i - 1].1 == short(s, 4 * i + 2)
            }
            &&& !(mode == 1 && i > 0) ==> {
                &&& v[i].0 == short(s, 4 * i)
                &&& v[i].1 == short(s, 4 * i + 2)
            }
        }),
{
    lemma_short(s, 4 * i);
    lemma_short(s, 4 * i + 2);
    let p = drawing::path_vertex(s, mode, i);
    assert(i32::MIN <= p.0 <= i32::MAX && i32::MIN <= p.1 <= i32::MAX);
    if i > 0 {
        let q = drawing::path_vertex(s, mode, i - 1);
        assert(i32::MIN <= q.0 <= i32::MAX && i32::MIN <= q.1 <= i32::MAX);
    }
}

/// A line has one pixel for each step along its longer side and one more. The
/// first is at its start and the last at its end. Pixel `k` is the nearest to the
/// point that is `k` steps along it, and away from the start halfway between two.
pub proof fn lemma_line_runs_from_end_to_end(x0: int, y0: int, x1: int, y1: int, k: int)
    requires
        -32768 <= x0 <= 32767,
        -32768 <= y0 <= 32767,
        -32768 <= x1 <= 32767,
        -32768 <= y1 <= 32767,
        0 <= k < raster::line_pixels(x0, y0, x1, y1).len(),
    ensures
        ({
            let pixels = raster::line_pixels(x0, y0, x1, y1);
            let n = pixels.len() - 1;
            let p = pixels[k];
            let w = raster_laws::distance(x0, x1);
            let h = raster_laws::distance(y0, y1);
            &&& n == if w >= h {
                w
            } else {
                h
            }
            &&& p.width == 1 && p.height == 1
            &&& pixels[0].x == x0 && pixels[0].y == y0
            &&& pixels[n].x == x1 && pixels[n].y == y1
            &&& x0 <= p.x <= x1 || x1 <= p.x <= x0
            &&& y0 <= p.y <= y1 || y1 <= p.y <= y0
            &&& n > 0 ==> {
                &&& -n < 2 * n * raster_laws::distance(x0, p.x as int) - 2 * k * w <= n
                &&& -n < 2 * n * raster_laws::distance(y0, p.y as int) - 2 * k * h <= n
            }
        }),
{
    let n = raster::line_steps(x0, y0, x1, y1);
    let pixels = raster::line_pixels(x0, y0, x1, y1);
    assert(pixels.len() == n + 1);
    if n > 0 {
        raster_laws::lemma_line_is_connected(x0, y0, x1, y1, 0);
        lemma_nearest(x0, x1, n, k);
        lemma_nearest(y0, y1, n, k);
        raster::lemma_coord_range(x0, x1, n, k);
        raster::lemma_coord_range(y0, y1, n, k);
    } else {
        assert(x0 == x1 && y0 == y1);
        raster::lemma_coord_range(x0, x1, n, k);
        raster::lemma_coord_range(y0, y1, n, k);
    }
}

proof fn lemma_nearest(a: int, b: int, n: int, k: int)
    requires
        n > 0,
        0 <= k <= n,
        raster::abs(b - a) <= n,
    ensures
        ({
            let p = raster::line_coord(a, b, n, k);
            -n < 2 * n * raster_laws::distance(a, p) - 2 * k * raster_laws::distance(a, b) <= n
        }),
{
    let d = raster_laws::distance(a, b);
    let u = 2 * k * d + n;
    let q = u / (2 * n);
    raster::lemma_coord_range(a, b, n, k);
    vstd::arithmetic::div_mod::lemma_fundamental_div_mod(u, 2 * n);
    assert(-n < 2 * n * q - 2 * k * d <= n) by (nonlinear_arith)
        requires
            u == 2 * k * d + n,
            u == 2 * n * q + u % (2 * n),
            0 <= u % (2 * n) < 2 * n,
    ;
    assert(raster_laws::distance(a, raster::line_coord(a, b, n, k)) == q);
}

/// A polyline paints the lines from each vertex to the next, and nothing else.
pub proof fn lemma_polyline_joins_neighbours(v: Seq<(i32, i32)>, n: int, x: int, y: int)
    requires
        0 <= n <= v.len(),
    ensures
        raster::any_covers(drawing::joined(v, n), x, y) <==> exists|i: int|
            0 <= i < n - 1 && #[trigger] raster::any_covers(line_between(v, i), x, y),
    decreases n,
{
    if n > 1 {
        lemma_polyline_joins_neighbours(v, n - 1, x, y);
        let last = line_between(v, n - 2);
        raster_laws::lemma_any_covers_sum(drawing::joined(v, n - 1), last, x, y);
        if raster::any_covers(drawing::joined(v, n - 1), x, y) {
            let i = choose|i: int|
                0 <= i < n - 2 && #[trigger] raster::any_covers(line_between(v, i), x, y);
            assert(raster::any_covers(line_between(v, i), x, y));
        }
        if raster::any_covers(last, x, y) {
            assert(raster::any_covers(line_between(v, n - 2), x, y));
        }
    }
}

/// The line from vertex `i` to the next.
pub open spec fn line_between(v: Seq<(i32, i32)>, i: int) -> Seq<Rectangle16> {
    raster::line_pixels(
        v[i].0 as int,
        v[i].1 as int,
        v[i + 1].0 as int,
        v[i + 1].1 as int,
    )
}

/// The line of segment `i`, with both ends in eight bytes of its own.
pub open spec fn segment_line(s: Seq<u8>, i: int) -> Seq<Rectangle16> {
    raster::line_pixels(
        short(s, 8 * i),
        short(s, 8 * i + 2),
        short(s, 8 * i + 4),
        short(s, 8 * i + 6),
    )
}

proof fn lemma_segment_line(s: Seq<u8>, i: int)
    ensures
        segment_line(s, i) == raster::line_pixels(
            wire::i16_at(s, 8 * i),
            wire::i16_at(s, 8 * i + 2),
            wire::i16_at(s, 8 * i + 4),
            wire::i16_at(s, 8 * i + 6),
        ),
{
    lemma_short(s, 8 * i);
    lemma_short(s, 8 * i + 2);
    lemma_short(s, 8 * i + 4);
    lemma_short(s, 8 * i + 6);
}

proof fn lemma_short(s: Seq<u8>, at: int)
    ensures
        short(s, at) == wire::i16_at(s, at),
        -32768 <= short(s, at) <= 32767,
{
}

proof fn lemma_one_more_segment(s: Seq<u8>, n: int, x: int, y: int)
    requires
        0 < n,
    ensures
        raster::any_covers(drawing::segment_pixels(s, n), x, y) <==> raster::any_covers(
            drawing::segment_pixels(s, n - 1),
            x,
            y,
        ) || raster::any_covers(segment_line(s, n - 1), x, y),
{
    let before = drawing::segment_pixels(s, n - 1);
    let last = segment_line(s, n - 1);
    lemma_segment_line(s, n - 1);
    raster_laws::lemma_any_covers_sum(before, last, x, y);
    assert(drawing::segment_pixels(s, n) == before + last);
}

/// Segments paint a line each, and nothing else.
pub proof fn lemma_segments_are_separate_lines(s: Seq<u8>, n: int, x: int, y: int)
    requires
        0 <= n <= s.len() / 8,
    ensures
        raster::any_covers(drawing::segment_pixels(s, n), x, y) <==> exists|i: int|
            0 <= i < n && #[trigger] raster::any_covers(segment_line(s, i), x, y),
    decreases n,
{
    if n > 0 {
        lemma_segments_are_separate_lines(s, n - 1, x, y);
        lemma_one_more_segment(s, n, x, y);
        if raster::any_covers(drawing::segment_pixels(s, n - 1), x, y) {
            let i = choose|i: int|
                0 <= i < n - 1 && #[trigger] raster::any_covers(segment_line(s, i), x, y);
            assert(raster::any_covers(segment_line(s, i), x, y));
        }
        assert(raster::any_covers(segment_line(s, n - 1), x, y) ==> 0 <= n - 1 < n);
    }
}

/// Whether the pixel is in an outermost row or column of the rectangle.
pub open spec fn is_on_border(r: Rectangle16, x: int, y: int) -> bool {
    let right = r.x + r.width - 1;
    let bottom = r.y + r.height - 1;
    &&& r.x <= x <= right && r.y <= y <= bottom
    &&& x == r.x || x == right || y == r.y || y == bottom
}

/// Whether the rectangle ends within 16 bits.
pub open spec fn ends_in_range(r: Rectangle16) -> bool {
    r.x + r.width <= 32768 && r.y + r.height <= 32768
}

proof fn lemma_edges_are_the_border(r: Rectangle16, x: int, y: int)
    requires
        ends_in_range(r),
        r.width > 0,
        r.height > 0,
    ensures
        raster::any_covers(drawing::edges(r), x, y) <==> is_on_border(r, x, y),
{
    let e = drawing::edges(r);
    assert(e[1].y == r.y + r.height - 1);
    assert(e[3].x == r.x + r.width - 1);
    if is_on_border(r, x, y) {
        assert(e[0].covers(x, y) || e[1].covers(x, y) || e[2].covers(x, y) || e[3].covers(x, y));
    }
    if raster::any_covers(e, x, y) {
        let i = choose|i: int| 0 <= i < e.len() && (#[trigger] e[i]).covers(x, y);
        assert(i == 0 || i == 1 || i == 2 || i == 3);
    }
}

/// An outline paints the border of each rectangle, and nothing else.
pub proof fn lemma_outlines_are_borders(s: Seq<u8>, n: int, x: int, y: int)
    requires
        0 <= n <= s.len() / 8,
        forall|i: int| 0 <= i < n ==> ends_in_range(#[trigger] drawing::packed_rects(s)[i]),
    ensures
        raster::any_covers(drawing::outlines(s, n), x, y) <==> exists|i: int|
            0 <= i < n && is_on_border(#[trigger] drawing::packed_rects(s)[i], x, y),
    decreases n,
{
    let rects = drawing::packed_rects(s);
    if n > 0 {
        lemma_outlines_are_borders(s, n - 1, x, y);
        let r = rects[n - 1];
        let before = drawing::outlines(s, n - 1);
        if r.width > 0 && r.height > 0 {
            lemma_edges_are_the_border(r, x, y);
            raster_laws::lemma_any_covers_sum(before, drawing::edges(r), x, y);
        }
        if raster::any_covers(before, x, y) {
            let i = choose|i: int| 0 <= i < n - 1 && is_on_border(#[trigger] rects[i], x, y);
            assert(is_on_border(rects[i], x, y));
        }
        if is_on_border(r, x, y) {
            assert(is_on_border(rects[n - 1], x, y));
        }
    }
}

/// Arcs are read from twelve bytes each, x, y, width and height first; those
/// without an inside are left out and the others keep their order.
pub proof fn lemma_arcs_have_their_own_bytes(s: Seq<u8>, n: int)
    requires
        0 < n <= s.len() / 12,
    ensures
        ({
            let before = arcs::arc_boxes(s, n - 1);
            let after = arcs::arc_boxes(s, n);
            let at = 12 * (n - 1);
            if word(s, at + 4) == 0 || word(s, at + 6) == 0 {
                after == before
            } else {
                &&& after.len() == before.len() + 1
                &&& after.drop_last() == before
                &&& after.last().x == short(s, at)
                &&& after.last().y == short(s, at + 2)
                &&& after.last().width == word(s, at + 4)
                &&& after.last().height == word(s, at + 6)
            }
        }),
        arcs::arc_boxes(s, 0) == Seq::<arcs::ArcBox>::empty(),
{
    let before = arcs::arc_boxes(s, n - 1);
    assert(forall|b: arcs::ArcBox| before.push(b).drop_last() =~= before);
}

/// PolyLine paints the lines from each vertex of its path to the next, and nothing else:
/// it does not close the path.
pub proof fn lemma_polyline_paints_its_path(points: Seq<u8>, mode: u8, x: int, y: int)
    ensures
        ({
            let n = points.len() as int / 4;
            let v = drawing::path_vertices(points, mode, n);
            raster::any_covers(drawing::polyline_pixels(points, mode), x, y) <==> exists|i: int|
                0 <= i < n - 1 && #[trigger] raster::any_covers(line_between(v, i), x, y)
        }),
{
    let n = points.len() as int / 4;
    lemma_polyline_joins_neighbours(drawing::path_vertices(points, mode, n), n, x, y);
}

/// Clipping to an image changes no count: a pixel of the image is covered as often as
/// before.
pub proof fn lemma_clipping_keeps_counts(
    rects: Seq<Rectangle16>,
    n: int,
    iw: int,
    ih: int,
    x: int,
    y: int,
)
    requires
        0 <= n <= rects.len(),
        0 <= x < iw <= 0xffff,
        0 <= y < ih <= 0xffff,
    ensures
        drawing::all_clipped(rects, n, iw, ih).filter(|r: Rectangle16| r.covers(x, y)).len()
            == rects.take(n).filter(|r: Rectangle16| r.covers(x, y)).len(),
    decreases n,
{
    reveal(Seq::filter);
    let f = |r: Rectangle16| r.covers(x, y);
    if n > 0 {
        lemma_clipping_keeps_counts(rects, n - 1, iw, ih, x, y);
        let before = drawing::all_clipped(rects, n - 1, iw, ih);
        assert(rects.take(n).drop_last() =~= rects.take(n - 1));
        assert(rects.take(n).last() == rects[n - 1]);
        if let Some(c) = drawing::clipped(rects[n - 1], iw, ih) {
            assert(before.push(c).drop_last() =~= before);
            assert(f(c) == f(rects[n - 1]));
        } else {
            assert(!f(rects[n - 1]));
        }
    } else {
        assert(rects.take(0) =~= Seq::<Rectangle16>::empty());
    }
}

/// Drawing on a drawable fills its rectangles there, in the function and colour in force,
/// and changes no other drawable; without a drawable nothing is drawn. Where the
/// rectangles are clipped first, what is left to fill covers the pixels of the drawable
/// that they cover and no others.
pub proof fn lemma_drawing_fills_the_drawable(
    k: KmsView,
    xid: u32,
    foreground: u32,
    rects: Seq<Rectangle16>,
    x: int,
    y: int,
)
    ensures
        k.image_of(xid) is None ==> {
            &&& k.painted(xid, foreground, rects).state == k
            &&& k.painted(xid, foreground, rects).left is None
            &&& k.painted_inside(xid, foreground, rects).state == k
            &&& k.painted_inside(xid, foreground, rects).left is None
        },
        k.image_of(xid) is Some ==> {
            let img = k.image_of(xid)->0;
            let p = k.painted(xid, foreground, rects);
            let (after, left) = image::gc_filled(img, k.current_function, foreground, rects);
            &&& p.state.image_of(xid) == Some(after)
            &&& p.left == left
        },
        k.image_of(xid) is Some ==> {
            let img = k.image_of(xid)->0;
            let p = k.painted_inside(xid, foreground, rects);
            &&& p.left is Some <==> k.current_function != GcFunction::Xor
            &&& p.left is Some ==> {
                &&& p.left->0.color == image::pixel_color(foreground)
                &&& raster::any_covers(p.left->0.rects, x, y) <==> 0 <= x < img.width && 0 <= y
                    < img.height && raster::any_covers(rects, x, y)
                &&& p.state.image_of(xid) == Some(img)
            }
        },
{
    if k.image_of(xid) is Some {
        let img = k.image_of(xid)->0;
        let n = rects.len() as int;
        raster_laws::lemma_clipping_keeps_the_inside(
            rects,
            n,
            img.width as int,
            img.height as int,
            x,
            y,
        );
        assert(rects.take(n) =~= rects);
    }
}

/// With Xor, drawing flips a pixel of the drawable in the bits of the foreground if an odd
/// number of the rectangles cover it, whether they are clipped first or not.
pub proof fn lemma_xor_drawing_flips_pixels(
    k: KmsView,
    xid: u32,
    foreground: u32,
    rects: Seq<Rectangle16>,
    x: int,
    y: int,
)
    requires
        k.current_function == GcFunction::Xor,
        k.image_of(xid) is Some,
        k.image_of(xid)->0.stride_words == k.image_of(xid)->0.width,
        k.image_of(xid)->0.data.len() == k.image_of(xid)->0.width * k.image_of(xid)->0.height,
        0 <= x < k.image_of(xid)->0.width,
        0 <= y < k.image_of(xid)->0.height,
    ensures
        ({
            let img = k.image_of(xid)->0;
            let odd = rects.filter(|r: Rectangle16| r.covers(x, y)).len() % 2 == 1;
            let flipped = if odd {
                image_laws::word_at(img, x, y) ^ (foreground & 0x00ff_ffff)
            } else {
                image_laws::word_at(img, x, y)
            };
            let whole = k.painted(xid, foreground, rects).state.image_of(xid);
            let inside = k.painted_inside(xid, foreground, rects).state.image_of(xid);
            &&& whole is Some && image_laws::word_at(whole->0, x, y) == flipped
            &&& inside is Some && image_laws::word_at(inside->0, x, y) == flipped
        }),
{
    let img = k.image_of(xid)->0;
    let n = rects.len() as int;
    let clipped = drawing::all_clipped(rects, n, img.width as int, img.height as int);
    image_laws::lemma_fill_flips_or_is_left(img, GcFunction::Xor, foreground, rects, x, y);
    image_laws::lemma_fill_flips_or_is_left(img, GcFunction::Xor, foreground, clipped, x, y);
    lemma_clipping_keeps_counts(rects, n, img.width as int, img.height as int, x, y);
    assert(rects.take(n) =~= rects);
}

/// A new picture is filed under the next identifier, and no other picture changes.
pub proof fn lemma_new_picture_is_filed(k: KmsView, picture: PictureStateView, other: u32)
    requires
        k.next_host_xid < u32::MAX,
    ensures
        ({
            let after = k.with_picture(picture);
            let id = (k.next_host_xid + 1) as u32;
            &&& after.next_host_xid == id
            &&& after.pictures.contains_key(id) && after.pictures[id] == picture
            &&& other != id ==> after.pictures.contains_key(other) == k.pictures.contains_key(other)
                && after.pictures[other] == k.pictures[other]
            &&& after == (KmsView { next_host_xid: id, pictures: after.pictures, ..k })
        }),
{
}

/// The edges of a rectangle are its first row, its last row, its first column and its last
/// column, in this order. Where the last ones end beyond 16 bits they wrap.
pub proof fn lemma_edges_are_rows_and_columns(r: Rectangle16)
    ensures
        ({
            let e = drawing::edges(r);
            &&& e.len() == 4
            &&& e[0].x == r.x && e[0].y == r.y && e[0].width == r.width && e[0].height == 1
            &&& e[1].x == r.x && e[1].width == r.width && e[1].height == 1
            &&& (r.y + r.height - 1 - e[1].y) % 65536 == 0
            &&& e[2].x == r.x && e[2].y == r.y && e[2].width == 1 && e[2].height == r.height
            &&& e[3].y == r.y && e[3].width == 1 && e[3].height == r.height
            &&& (r.x + r.width - 1 - e[3].x) % 65536 == 0
        }),
{
    wire::lemma_wrapping_keeps_16_bits(r.y + r.height - 1);
    wire::lemma_wrapping_keeps_16_bits(r.x + r.width - 1);
}

/// A run of an ellipse is one row from its first pixel to its last; what ends beyond 16 bits
/// wraps.
pub proof fn lemma_runs_reach_from_end_to_end(y: int, from: int, to: int)
    ensures
        arcs::run(y, from, to).height == 1,
        (from - arcs::run(y, from, to).x) % 65536 == 0,
        (y - arcs::run(y, from, to).y) % 65536 == 0,
        (to - from + 1 - arcs::run(y, from, to).width) % 65536 == 0,
{
    wire::lemma_wrapping_keeps_16_bits(from);
    wire::lemma_wrapping_keeps_16_bits(y);
    wire::lemma_wrapping_keeps_16_bits(to - from + 1);
}

} // verus!
