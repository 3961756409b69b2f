//! Drawing requests, as they come over the wire, into rectangles to fill.

use vstd::prelude::*;

use crate::kms::raster;
use crate::kms::raster::{bresenham_segment, scanline_fill_polygon, Rectangle16};
use crate::wire;
use crate::wire::{read_i16, read_u16, wrap_i16};

verus! {

/// Coordinate mode in which each point is relative to the one before.
pub const COORD_MODE_PREVIOUS: u8 = 1;

/// The rectangle in the eight bytes at `i`.
pub open spec fn rect_at(data: Seq<u8>, i: int) -> Rectangle16 {
    Rectangle16 {
        x: wire::i16_at(data, i) as i16,
        y: wire::i16_at(data, i + 2) as i16,
        width: wire::u16_at(data, i + 4) as u16,
        height: wire::u16_at(data, i + 6) as u16,
    }
}

/// Reads two signed integers; `None` if the data ends before them.
pub fn read_i16_pair(data: &[u8], offset: usize) -> (r: Option<(i16, i16)>)
    ensures
        match r {
            Some((x, y)) => offset + 4 <= data@.len() && x == wire::i16_at(data@, offset as int)
                && y == wire::i16_at(data@, offset + 2),
            None => offset + 4 > data@.len(),
        },
{
    if offset > data.len() || data.len() - offset < 4 {
        return None;
    }
    Some((read_i16(data, offset), read_i16(data, offset + 2)))
}

/// Reads a rectangle; `None` if the data ends before it.
pub fn read_rect(data: &[u8], offset: usize) -> (r: Option<Rectangle16>)
    ensures
        match r {
            Some(rect) => offset + 8 <= data@.len() && rect == rect_at(data@, offset as int),
            None => offset + 8 > data@.len(),
        },
{
    if offset > data.len() || data.len() - offset < 8 {
        return None;
    }
    Some(
        Rectangle16 {
            x: read_i16(data, offset),
            y: read_i16(data, offset + 2),
            width: read_u16(data, offset + 4),
            height: read_u16(data, offset + 6),
        },
    )
}

/// Vertex `i` of a path. In mode `COORD_MODE_PREVIOUS` every point but the
/// first is relative to the vertex before.
pub open spec fn path_vertex(points: Seq<u8>, mode: u8, i: int) -> (int, int)
    decreases i,
{
    let x = wire::i16_at(points, 4 * i);
    let y = wire::i16_at(points, 4 * i + 2);
    if mode == COORD_MODE_PREVIOUS && i > 0 {
        let before = path_vertex(points, mode, i - 1);
        (before.0 + x, before.1 + y)
    } else {
        (x, y)
    }
}

/// Whether every vertex of a path has coordinates of 32 bits.
pub open spec fn path_fits(points: Seq<u8>, mode: u8) -> bool {
    forall|i: int|
        0 <= i < points.len() / 4 ==> {
            let v = #[trigger] path_vertex(points, mode, i);
            i32::MIN <= v.0 <= i32::MAX && i32::MIN <= v.1 <= i32::MAX
        }
}

/// The vertices of a path.
pub open spec fn path_vertices(points: Seq<u8>, mode: u8, n: int) -> Seq<(i32, i32)> {
    Seq::new(
        n as nat,
        |i: int|
            (path_vertex(points, mode, i).0 as i32, path_vertex(points, mode, i).1 as i32),
    )
}

/// A path of no more than 65536 points always fits.
pub proof fn lemma_short_path_fits(points: Seq<u8>, mode: u8)
    requires
        points.len() < 4 * 0x1_0001,
    ensures
        path_fits(points, mode),
{
    assert forall|i: int| 0 <= i < points.len() / 4 implies {
        let v = #[trigger] path_vertex(points, mode, i);
        i32::MIN <= v.0 <= i32::MAX && i32::MIN <= v.1 <= i32::MAX
    } by {
        lemma_path_vertex_range(points, mode, i);
    }
}

proof fn lemma_path_vertex_range(points: Seq<u8>, mode: u8, i: int)
    requires
        0 <= i,
    ensures
        -32768 * (i + 1) <= path_vertex(points, mode, i).0 <= 32767 * (i + 1),
        -32768 * (i + 1) <= path_vertex(points, mode, i).1 <= 32767 * (i + 1),
    decreases i,
{
    if i > 0 {
        lemma_path_vertex_range(points, mode, i - 1);
    }
}

/// Reads the vertices of a path; `None` if some coordinate does not fit.
pub fn read_path(points: &[u8], mode: u8) -> (r: Option<Vec<(i32, i32)>>)
    ensures
        match r {
            Some(v) => path_fits(points@, mode) && v@ == path_vertices(
                points@,
                mode,
                points@.len() as int / 4,
            ),
            None => !path_fits(points@, mode),
        },
{
    let mut verts: Vec<(i32, i32)> = Vec::new();
    let len: usize = points.len();
    let n: usize = len / 4;
    let mut last: (i32, i32) = (0, 0);
    for i in 0..n
        invariant
            len == points@.len(),
            n == len / 4,
            verts@.len() == i,
            forall|j: int|
                0 <= j < i ==> {
                    let v = #[trigger] path_vertex(points@, mode, j);
                    &&& i32::MIN <= v.0 <= i32::MAX
                    &&& i32::MIN <= v.1 <= i32::MAX
                    &&& verts@[j] == (v.0 as i32, v.1 as i32)
                },
            i > 0 ==> (last.0 as int, last.1 as int) == path_vertex(points@, mode, i - 1),
    {
        let x: i16 = read_i16(points, 4 * i);
        let y: i16 = read_i16(points, 4 * i + 2);
        let (vx, vy): (i64, i64) = if mode == COORD_MODE_PREVIOUS && i > 0 {
            (last.0 as i64 + x as i64, last.1 as i64 + y as i64)
        } else {
            (x as i64, y as i64)
        };
        assert((vx as int, vy as int) == path_vertex(points@, mode, i as int));
        if vx < i32::MIN as i64 || vx > i32::MAX as i64 || vy < i32::MIN as i64 || vy
            > i32::MAX as i64 {
            return None;
        }
        last = (vx as i32, vy as i32);
        verts.push(last);
    }
    assert(verts@ =~= path_vertices(points@, mode, n as int));
    Some(verts)
}

/// The pixels of the lines that join the first `n` vertices of `v`.
pub open spec fn joined(v: Seq<(i32, i32)>, n: int) -> Seq<Rectangle16>
    decreases n,
{
    if n <= 1 {
        Seq::empty()
    } else {
        joined(v, n - 1) + raster::line_pixels(
            v[n - 2].0 as int,
            v[n - 2].1 as int,
            v[n - 1].0 as int,
            v[n - 1].1 as int,
        )
    }
}

/// The pixels of PolyLine.
pub open spec fn polyline_pixels(points: Seq<u8>, mode: u8) -> Seq<Rectangle16> {
    let n = points.len() as int / 4;
    joined(path_vertices(points, mode, n), n)
}

/// The pixels of PolyLine; `None` if some coordinate does not fit.
pub fn polyline_rects(points: &[u8], mode: u8) -> (r: Option<Vec<Rectangle16>>)
    ensures
        match r {
            Some(rects) => path_fits(points@, mode) && rects@ == polyline_pixels(points@, mode),
            None => !path_fits(points@, mode),
        },
{
    let Some(verts) = read_path(points, mode) else {
        return None;
    };
    let mut rects: Vec<Rectangle16> = Vec::new();
    let n: usize = verts.len();
    let mut i: usize = 1;
    while i < n
        invariant
            1 <= i,
            n == verts@.len(),
            i <= n || i == 1,
            rects@ == joined(verts@, i as int),
        decreases n - i,
    {
        let (x0, y0): (i32, i32) = verts[i - 1];
        let (x1, y1): (i32, i32) = verts[i];
        bresenham_segment(x0, y0, x1, y1, &mut rects);
        i += 1;
    }
    Some(rects)
}

/// The pixels of the first `n` segments of PolySegment, each two points of
/// eight bytes in all.
pub open spec fn segment_pixels(segments: Seq<u8>, n: int) -> Seq<Rectangle16>
    decreases n,
{
    if n <= 0 {
        Seq::empty()
    } else {
        let at = 8 * (n - 1);
        segment_pixels(segments, n - 1) + raster::line_pixels(
            wire::i16_at(segments, at),
            wire::i16_at(segments, at + 2),
            wire::i16_at(segments, at + 4),
            wire::i16_at(segments, at + 6),
        )
    }
}

/// The pixels of PolySegment.
pub fn segment_rects(segments: &[u8]) -> (rects: Vec<Rectangle16>)
    ensures
        rects@ == segment_pixels(segments@, segments@.len() as int / 8),
{
    let mut rects: Vec<Rectangle16> = Vec::new();
    let len: usize = segments.len();
    let n: usize = len / 8;
    for i in 0..n
        invariant
            len == segments@.len(),
            n == len / 8,
            rects@ == segment_pixels(segments@, i as int),
    {
        let x1: i16 = read_i16(segments, 8 * i);
        let y1: i16 = read_i16(segments, 8 * i + 2);
        let x2: i16 = read_i16(segments, 8 * i + 4);
        let y2: i16 = read_i16(segments, 8 * i + 6);
        bresenham_segment(x1 as i32, y1 as i32, x2 as i32, y2 as i32, &mut rects);
    }
    rects
}

/// The four edges of `r`: top, bottom, left and right. Coordinates wrap.
pub open spec fn edges(r: Rectangle16) -> Seq<Rectangle16> {
    seq![
        Rectangle16 { height: 1, ..r },
        Rectangle16 {
            y: wire::wrapped_i16(r.y + r.height - 1) as i16,
            height: 1,
            ..r
        },
        Rectangle16 { width: 1, ..r },
        Rectangle16 {
            x: wire::wrapped_i16(r.x + r.width - 1) as i16,
            width: 1,
            ..r
        },
    ]
}

/// The edges of the first `n` rectangles; empty rectangles have none.
pub open spec fn outlines(rectangles: Seq<u8>, n: int) -> Seq<Rectangle16>
    decreases n,
{
    if n <= 0 {
        Seq::empty()
    } else {
        let r = rect_at(rectangles, 8 * (n - 1));
        if r.width == 0 || r.height == 0 {
            outlines(rectangles, n - 1)
        } else {
            outlines(rectangles, n - 1) + edges(r)
        }
    }
}

/// The rectangles of PolyRectangle: four thin ones for each outline.
pub fn outline_rects(rectangles: &[u8]) -> (rects: Vec<Rectangle16>)
    ensures
        rects@ == outlines(rectangles@, rectangles@.len() as int / 8),
{
    let mut rects: Vec<Rectangle16> = Vec::new();
    let len: usize = rectangles.len();
    let n: usize = len / 8;
    for i in 0..n
        invariant
            len == rectangles@.len(),
            n == len / 8,
            rects@ == outlines(rectangles@, i as int),
    {
        let Some(r) = read_rect(rectangles, 8 * i) else {
            return rects;
        };
        if r.width != 0 && r.height != 0 {
            let ghost before = rects@;
            let bottom: i16 = wrap_i16(r.y as i64 + r.height as i64 - 1);
            let right: i16 = wrap_i16(r.x as i64 + r.width as i64 - 1);
            rects.push(Rectangle16 { x: r.x, y: r.y, width: r.width, height: 1 });
            rects.push(Rectangle16 { x: r.x, y: bottom, width: r.width, height: 1 });
            rects.push(Rectangle16 { x: r.x, y: r.y, width: 1, height: r.height });
            rects.push(Rectangle16 { x: right, y: r.y, width: 1, height: r.height });
            assert(rects@ =~= before + edges(r));
        }
    }
    rects
}

/// The points of PolyPoint, one pixel each, whatever the coordinate mode.
pub open spec fn point_pixels(points: Seq<u8>) -> Seq<Rectangle16> {
    Seq::new(
        points.len() / 4,
        |i: int|
            Rectangle16 {
                x: wire::i16_at(points, 4 * i) as i16,
                y: wire::i16_at(points, 4 * i + 2) as i16,
                width: 1,
                height: 1,
            },
    )
}

pub fn point_rects(points: &[u8]) -> (rects: Vec<Rectangle16>)
    ensures
        rects@ == point_pixels(points@),
{
    let mut rects: Vec<Rectangle16> = Vec::new();
    let len: usize = points.len();
    let n: usize = len / 4;
    for i in 0..n
        invariant
            len == points@.len(),
            n == len / 4,
            rects@ == point_pixels(points@).take(i as int),
    {
        let x: i16 = read_i16(points, 4 * i);
        let y: i16 = read_i16(points, 4 * i + 2);
        rects.push(Rectangle16 { x, y, width: 1, height: 1 });
        assert(rects@ =~= point_pixels(points@).take(i + 1));
    }
    assert(rects@ =~= point_pixels(points@));
    rects
}

/// The rectangles packed in `data`, eight bytes each.
pub open spec fn packed_rects(data: Seq<u8>) -> Seq<Rectangle16> {
    Seq::new(data.len() / 8, |i: int| rect_at(data, 8 * i))
}

/// The rectangles of PolyFillRectangle.
pub fn read_rects(data: &[u8]) -> (rects: Vec<Rectangle16>)
    ensures
        rects@ == packed_rects(data@),
{
    let mut rects: Vec<Rectangle16> = Vec::new();
    let len: usize = data.len();
    let n: usize = len / 8;
    for i in 0..n
        invariant
            len == data@.len(),
            n == len / 8,
            rects@ == packed_rects(data@).take(i as int),
    {
        if let Some(r) = read_rect(data, 8 * i) {
            rects.push(r);
        }
        assert(rects@ =~= packed_rects(data@).take(i + 1));
    }
    assert(rects@ =~= packed_rects(data@));
    rects
}

/// The pixels of FillPoly; `None` if some coordinate does not fit.
pub fn polygon_rects(points: &[u8], mode: u8) -> (r: Option<Vec<Rectangle16>>)
    ensures
        match r {
            Some(rects) => path_fits(points@, mode) && rects@ == raster::polygon_spans(
                path_vertices(points@, mode, points@.len() as int / 4),
            ),
            None => !path_fits(points@, mode),
        },
{
    let Some(verts) = read_path(points, mode) else {
        return None;
    };
    let mut rects: Vec<Rectangle16> = Vec::new();
    scanline_fill_polygon(&verts, &mut rects);
    assert(rects@ =~= raster::polygon_spans(verts@));
    Some(rects)
}

/// The part of `r` that lies in an image of `iw` by `ih` pixels.
pub open spec fn clipped(r: Rectangle16, iw: int, ih: int) -> Option<Rectangle16> {
    let x1 = raster::max(r.x as int, 0);
    let y1 = raster::max(r.y as int, 0);
    let x2 = if r.x + r.width < iw {
        r.x + r.width
    } else {
        iw
    };
    let y2 = if r.y + r.height < ih {
        r.y + r.height
    } else {
        ih
    };
    if x2 <= x1 || y2 <= y1 {
        None
    } else {
        Some(
            Rectangle16 {
                x: x1 as i16,
                y: y1 as i16,
                width: (x2 - x1) as u16,
                height: (y2 - y1) as u16,
            },
        )
    }
}

/// The parts of the first `n` rectangles that lie in the image.
pub open spec fn all_clipped(rects: Seq<Rectangle16>, n: int, iw: int, ih: int) -> Seq<
    Rectangle16,
>
    decreases n,
{
    if n <= 0 {
        Seq::empty()
    } else {
        match clipped(rects[n - 1], iw, ih) {
            Some(r) => all_clipped(rects, n - 1, iw, ih).push(r),
            None => all_clipped(rects, n - 1, iw, ih),
        }
    }
}

/// Clips rectangles to an image, and drops those that lie outside.
pub fn clip_rects_to_image(rects: &Vec<Rectangle16>, iw: i32, ih: i32) -> (out: Vec<Rectangle16>)
    ensures
        out@ == all_clipped(rects@, rects@.len() as int, iw as int, ih as int),
{
    let mut out: Vec<Rectangle16> = Vec::new();
    let n: usize = rects.len();
    for i in 0..n
        invariant
            n == rects@.len(),
            out@ == all_clipped(rects@, i as int, iw as int, ih as int),
    {
        let r = rects[i];
        let x1: i32 = if r.x < 0 {
            0
        } else {
            r.x as i32
        };
        let y1: i32 = if r.y < 0 {
            0
        } else {
            r.y as i32
        };
        let right: i32 = r.x as i32 + r.width as i32;
        let bottom: i32 = r.y as i32 + r.height as i32;
        let x2: i32 = if right < iw {
            right
        } else {
            iw
        };
        let y2: i32 = if bottom < ih {
            bottom
        } else {
            ih
        };
        if x2 > x1 && y2 > y1 {
            out.push(
                Rectangle16 {
                    x: x1 as i16,
                    y: y1 as i16,
                    width: (x2 - x1) as u16,
                    height: (y2 - y1) as u16,
                },
            );
        }
    }
    out
}

} // verus!
