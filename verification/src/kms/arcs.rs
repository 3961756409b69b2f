//! Ellipses from the extents of their rows.
//!
//! Partial arcs are drawn as full ellipses. How far an ellipse reaches on each
//! scanline takes square roots and is worked out elsewhere; this module turns
//! the extents into rectangles.

use vstd::prelude::*;

use crate::kms::raster;
use crate::kms::raster_laws;
use crate::kms::raster::Rectangle16;
use crate::wire;
use crate::wire::{read_i16, read_u16, wrap_i16, wrap_u16};

verus! {

/// The box around an ellipse.
#[derive(Clone, Copy, Debug, PartialEq, Eq, Structural)]
pub struct ArcBox {
    pub x: i16,
    pub y: i16,
    pub width: u16,
    pub height: u16,
}

/// The box in the twelve bytes at `i`; the two angles behind it are not used.
pub open spec fn arc_at(data: Seq<u8>, i: int) -> ArcBox {
    ArcBox {
        x: wire::i16_at(data, i) as i16,
        y: wire::i16_at(data, i + 2) as i16,
        width: wire::u16_at(data, i + 4) as u16,
        height: wire::u16_at(data, i + 6) as u16,
    }
}

/// The boxes of the first `n` arcs; empty ones are left out.
pub open spec fn arc_boxes(data: Seq<u8>, n: int) -> Seq<ArcBox>
    decreases n,
{
    if n <= 0 {
        Seq::empty()
    } else {
        let arc = arc_at(data, 12 * (n - 1));
        if arc.width == 0 || arc.height == 0 {
            arc_boxes(data, n - 1)
        } else {
            arc_boxes(data, n - 1).push(arc)
        }
    }
}

/// Reads the arcs of PolyArc and PolyFillArc, twelve bytes each.
pub fn read_arcs(data: &[u8]) -> (arcs: Vec<ArcBox>)
    ensures
        arcs@ == arc_boxes(data@, data@.len() as int / 12),
{
    let mut arcs: Vec<ArcBox> = Vec::new();
    let len: usize = data.len();
    let n: usize = len / 12;
    for i in 0..n
        invariant
            len == data@.len(),
            n == len / 12,
            arcs@ == arc_boxes(data@, i as int),
    {
        let arc = ArcBox {
            x: read_i16(data, 12 * i),
            y: read_i16(data, 12 * i + 2),
            width: read_u16(data, 12 * i + 4),
            height: read_u16(data, 12 * i + 6),
        };
        if arc.width != 0 && arc.height != 0 {
            arcs.push(arc);
        }
    }
    arcs
}

/// How far an ellipse reaches: entry `i` is for scanline `i` of its box, the
/// last entry for the one below it; `None` where the scanline misses the
/// ellipse.
pub type Extents = Vec<Option<(i32, i32)>>;

/// The extents of ellipse `k`.
pub open spec fn extents_of(extents: Seq<Extents>, k: int) -> Seq<Option<(i32, i32)>> {
    if 0 <= k < extents.len() {
        extents[k]@
    } else {
        Seq::empty()
    }
}

/// The extent on scanline `i`, counted from the top of the box.
pub open spec fn extent(extents: Seq<Option<(i32, i32)>>, i: int) -> Option<(i32, i32)> {
    if 0 <= i < extents.len() {
        extents[i]
    } else {
        None
    }
}

fn extent_at(extents: &Vec<Extents>, k: usize, i: usize) -> (r: Option<(i32, i32)>)
    ensures
        r == extent(extents_of(extents@, k as int), i as int),
{
    if k < extents.len() && i < extents[k].len() {
        extents[k][i]
    } else {
        None
    }
}

/// One scanline's pixels from `from` to `to`, both included. Coordinates wrap.
pub open spec fn run(y: int, from: int, to: int) -> Rectangle16 {
    Rectangle16 {
        x: wire::wrapped_i16(from) as i16,
        y: wire::wrapped_i16(y) as i16,
        width: wire::wrapped_u16(to - from + 1) as u16,
        height: 1,
    }
}

fn make_run(y: i32, from: i32, to: i32) -> (r: Rectangle16)
    ensures
        r == run(y as int, from as int, to as int),
{
    Rectangle16 {
        x: wrap_i16(from as i64),
        y: wrap_i16(y as i64),
        width: wrap_u16(to as i64 - from as i64 + 1),
        height: 1,
    }
}

/// The run between two positions, whichever is smaller.
pub open spec fn bridge(y: int, a: int, b: int) -> Rectangle16 {
    if a <= b {
        run(y, a, b)
    } else {
        run(y, b, a)
    }
}

/// The outline on scanline `i` of the box: the whole extent at the top and the
/// bottom of the curve; elsewhere the two runs that join its edges to those of
/// the scanline above.
pub open spec fn outline_row(arc: ArcBox, extents: Seq<Option<(i32, i32)>>, i: int) -> Seq<
    Rectangle16,
> {
    let y = arc.y + i;
    match extent(extents, i) {
        None => Seq::empty(),
        Some((x0, x1)) => match (extent(extents, i - 1), extent(extents, i + 1)) {
            (Some((px0, px1)), Some(_)) => seq![
                bridge(y, px0 as int, x0 as int),
                bridge(y, px1 as int, x1 as int),
            ],
            _ => seq![run(y, x0 as int, x1 as int)],
        },
    }
}

/// The outline on the first `n` scanlines of the box.
pub open spec fn outline_rows(arc: ArcBox, extents: Seq<Option<(i32, i32)>>, n: int) -> Seq<
    Rectangle16,
>
    decreases n,
{
    if n <= 0 {
        Seq::empty()
    } else {
        outline_rows(arc, extents, n - 1) + outline_row(arc, extents, n - 1)
    }
}

/// The outlines of the first `n` ellipses.
pub open spec fn arc_outlines(arcs: Seq<ArcBox>, extents: Seq<Extents>, n: int) -> Seq<Rectangle16>
    decreases n,
{
    if n <= 0 {
        Seq::empty()
    } else {
        arc_outlines(arcs, extents, n - 1) + outline_rows(
            arcs[n - 1],
            extents_of(extents, n - 1),
            arcs[n - 1].height as int,
        )
    }
}

/// Closed outlines, one pixel wide.
pub fn arc_outline_rects(arcs: &Vec<ArcBox>, extents: &Vec<Extents>) -> (rects: Vec<Rectangle16>)
    ensures
        rects@ == arc_outlines(arcs@, extents@, arcs@.len() as int),
{
    let mut rects: Vec<Rectangle16> = Vec::new();
    let n: usize = arcs.len();
    for k in 0..n
        invariant
            n == arcs@.len(),
            rects@ == arc_outlines(arcs@, extents@, k as int),
    {
        let arc = arcs[k];
        let ghost before = rects@;
        let ghost rows = extents_of(extents@, k as int);
        let mut prev: Option<(i32, i32)> = None;
        let height: usize = arc.height as usize;
        assert(rects@ =~= before + outline_rows(arc, rows, 0));
        for i in 0..height
            invariant
                k < n,
                n == arcs@.len(),
                arc == arcs@[k as int],
                rows == extents_of(extents@, k as int),
                height == arc.height,
                prev == extent(rows, i - 1),
                rects@ == before + outline_rows(arc, rows, i as int),
        {
            let y: i32 = arc.y as i32 + i as i32;
            let ghost so_far = rects@;
            let here = extent_at(extents, k, i);
            let next = extent_at(extents, k, i + 1);
            if let Some((x0, x1)) = here {
                match (prev, next) {
                    (Some((px0, px1)), Some(_)) => {
                        rects.push(
                            if px0 <= x0 {
                                make_run(y, px0, x0)
                            } else {
                                make_run(y, x0, px0)
                            },
                        );
                        rects.push(
                            if px1 <= x1 {
                                make_run(y, px1, x1)
                            } else {
                                make_run(y, x1, px1)
                            },
                        );
                    },
                    _ => {
                        rects.push(make_run(y, x0, x1));
                    },
                }
            }
            assert(rects@ =~= so_far + outline_row(arc, rows, i as int));
            assert(rects@ =~= before + outline_rows(arc, rows, i + 1));
            prev = here;
        }
    }
    rects
}

/// The part of the ellipse on scanline `i` of the box that lies in an image of
/// `iw` by `ih`.
pub open spec fn fill_row(
    arc: ArcBox,
    extents: Seq<Option<(i32, i32)>>,
    i: int,
    iw: int,
    ih: int,
) -> Seq<Rectangle16> {
    let y = arc.y + i;
    match extent(extents, i) {
        Some((x0, x1)) => {
            let from = if x0 < 0 {
                0
            } else {
                x0 as int
            };
            let to = if x1 < iw {
                x1 as int
            } else {
                iw
            };
            if 0 <= y < ih && from < to {
                seq![run(y, from, to - 1)]
            } else {
                Seq::empty()
            }
        },
        None => Seq::empty(),
    }
}

pub open spec fn fill_rows(
    arc: ArcBox,
    extents: Seq<Option<(i32, i32)>>,
    n: int,
    iw: int,
    ih: int,
) -> Seq<Rectangle16>
    decreases n,
{
    if n <= 0 {
        Seq::empty()
    } else {
        fill_rows(arc, extents, n - 1, iw, ih) + fill_row(arc, extents, n - 1, iw, ih)
    }
}

/// The parts of the first `n` ellipses that lie in an image.
pub open spec fn arc_fills(
    arcs: Seq<ArcBox>,
    extents: Seq<Extents>,
    n: int,
    iw: int,
    ih: int,
) -> Seq<Rectangle16>
    decreases n,
{
    if n <= 0 {
        Seq::empty()
    } else {
        arc_fills(arcs, extents, n - 1, iw, ih) + fill_rows(
            arcs[n - 1],
            extents_of(extents, n - 1),
            arcs[n - 1].height as int,
            iw,
            ih,
        )
    }
}

/// Filled ellipses, as far as they lie in an image of `iw` by `ih`.
pub fn arc_fill_rects(arcs: &Vec<ArcBox>, extents: &Vec<Extents>, iw: u16, ih: u16) -> (rects: Vec<
    Rectangle16,
>)
    ensures
        rects@ == arc_fills(arcs@, extents@, arcs@.len() as int, iw as int, ih as int),
{
    let mut rects: Vec<Rectangle16> = Vec::new();
    let n: usize = arcs.len();
    for k in 0..n
        invariant
            n == arcs@.len(),
            rects@ == arc_fills(arcs@, extents@, k as int, iw as int, ih as int),
    {
        let arc = arcs[k];
        let ghost before = rects@;
        let ghost rows = extents_of(extents@, k as int);
        let height: usize = arc.height as usize;
        assert(rects@ =~= before + fill_rows(arc, rows, 0, iw as int, ih as int));
        for i in 0..height
            invariant
                k < n,
                n == arcs@.len(),
                arc == arcs@[k as int],
                rows == extents_of(extents@, k as int),
                height == arc.height,
                rects@ == before + fill_rows(arc, rows, i as int, iw as int, ih as int),
        {
            let y: i32 = arc.y as i32 + i as i32;
            let ghost so_far = rects@;
            if let Some((x0, x1)) = extent_at(extents, k, i) {
                let from: i32 = if x0 < 0 {
                    0
                } else {
                    x0
                };
                let to: i32 = if x1 < iw as i32 {
                    x1
                } else {
                    iw as i32
                };
                if 0 <= y && y < ih as i32 && from < to {
                    rects.push(make_run(y, from, to - 1));
                }
            }
            assert(rects@ =~= so_far + fill_row(arc, rows, i as int, iw as int, ih as int));
            assert(rects@ =~= before + fill_rows(arc, rows, i + 1, iw as int, ih as int));
        }
    }
    rects
}

/// Whether an extent is in order and has coordinates of 16 bits, with one to
/// spare.
pub open spec fn is_plain(e: Option<(i32, i32)>) -> bool {
    match e {
        Some((x0, x1)) => -32768 <= x0 <= x1 <= 32766,
        None => true,
    }
}

/// The outline goes through both ends of every scanline of the ellipse. Above
/// its last scanline it also goes through what is straight below the ends of the
/// scanline above, so that there is no gap between the two.
pub proof fn lemma_outline_joins_scanlines(
    arc: ArcBox,
    extents: Seq<Option<(i32, i32)>>,
    i: int,
)
    requires
        0 <= i < extents.len(),
        extents[i] is Some,
        is_plain(extents[i]),
        is_plain(extent(extents, i - 1)),
        arc.y + i <= 32767,
    ensures
        ({
            let rects = outline_row(arc, extents, i);
            let (x0, x1) = extents[i]->0;
            &&& raster::any_covers(rects, x0 as int, arc.y + i)
            &&& raster::any_covers(rects, x1 as int, arc.y + i)
            &&& extent(extents, i + 1) is Some ==> match extent(extents, i - 1) {
                Some((px0, px1)) => raster::any_covers(rects, px0 as int, arc.y + i) && raster::any_covers(
                    rects,
                    px1 as int,
                    arc.y + i,
                ),
                None => true,
            }
        }),
{
    let y = arc.y + i;
    let rects = outline_row(arc, extents, i);
    let (x0, x1) = extents[i]->0;
    match (extent(extents, i - 1), extent(extents, i + 1)) {
        (Some((px0, px1)), Some(_)) => {
            lemma_bridge_covers(y, px0 as int, x0 as int);
            lemma_bridge_covers(y, px1 as int, x1 as int);
            assert(rects[0] == bridge(y, px0 as int, x0 as int));
            assert(rects[1] == bridge(y, px1 as int, x1 as int));
        },
        _ => {
            lemma_bridge_covers(y, x0 as int, x1 as int);
            assert(rects[0] == bridge(y, x0 as int, x1 as int));
        },
    }
}

proof fn lemma_bridge_covers(y: int, a: int, b: int)
    requires
        -32768 <= y <= 32767,
        -32768 <= a <= 32766,
        -32768 <= b <= 32766,
    ensures
        bridge(y, a, b).covers(a, y),
        bridge(y, a, b).covers(b, y),
{
}

/// On each scanline exactly the pixels of the ellipse that lie in the image are
/// filled.
pub proof fn lemma_fill_is_the_inside(
    arc: ArcBox,
    extents: Seq<Option<(i32, i32)>>,
    i: int,
    iw: int,
    ih: int,
    x: int,
)
    requires
        0 <= i < extents.len(),
        0 <= iw <= 32767,
        0 <= ih <= 32767,
    ensures
        raster::any_covers(fill_row(arc, extents, i, iw, ih), x, arc.y + i) <==> {
            &&& 0 <= arc.y + i < ih
            &&& 0 <= x < iw
            &&& extents[i] matches Some((x0, x1)) && x0 <= x < x1
        },
{
    let rects = fill_row(arc, extents, i, iw, ih);
    if rects.len() > 0 {
        assert(raster::any_covers(rects, x, arc.y + i) <==> rects[0].covers(x, arc.y + i));
    }
}

/// Where an ellipse reaches on scanline `y`, if it is on that scanline.
pub open spec fn reach(arc: ArcBox, extents: Seq<Option<(i32, i32)>>, y: int) -> Option<(i32, i32)> {
    let i = y - arc.y;
    if 0 <= i < arc.height && i < extents.len() {
        extents[i]
    } else {
        None
    }
}

/// Whether the pixel is inside the ellipse: from its left end on each scanline up to but
/// without the right end.
pub open spec fn is_inside(arc: ArcBox, extents: Seq<Option<(i32, i32)>>, x: int, y: int) -> bool {
    match reach(arc, extents, y) {
        Some((x0, x1)) => x0 <= x < x1,
        None => false,
    }
}

proof fn lemma_fill_rows_cover(
    arc: ArcBox,
    extents: Seq<Option<(i32, i32)>>,
    n: int,
    iw: int,
    ih: int,
    x: int,
    y: int,
)
    requires
        0 <= n,
        0 <= iw <= 32767,
        0 <= ih <= 32767,
    ensures
        raster::any_covers(fill_rows(arc, extents, n, iw, ih), x, y) <==> {
            &&& 0 <= x < iw && 0 <= y < ih
            &&& 0 <= y - arc.y < n && y - arc.y < extents.len()
            &&& extents[y - arc.y] matches Some((x0, x1)) && x0 <= x < x1
        },
    decreases n,
{
    if n > 0 {
        let before = fill_rows(arc, extents, n - 1, iw, ih);
        let row = fill_row(arc, extents, n - 1, iw, ih);
        lemma_fill_rows_cover(arc, extents, n - 1, iw, ih, x, y);
        raster_laws::lemma_any_covers_sum(before, row, x, y);
        if row.len() > 0 {
            assert(raster::any_covers(row, x, y) <==> row[0].covers(x, y));
        }
    }
}

/// Filling paints the inside of each ellipse that lies in the image, and nothing else.
pub proof fn lemma_fills_are_the_insides(
    arcs: Seq<ArcBox>,
    extents: Seq<Extents>,
    n: int,
    iw: int,
    ih: int,
    x: int,
    y: int,
)
    requires
        0 <= n <= arcs.len(),
        n <= extents.len(),
        0 <= iw <= 32767,
        0 <= ih <= 32767,
    ensures
        raster::any_covers(arc_fills(arcs, extents, n, iw, ih), x, y) <==> 0 <= x < iw && 0 <= y < ih
            && exists|k: int| 0 <= k < n && is_inside(#[trigger] arcs[k], extents[k]@, x, y),
    decreases n,
{
    if n > 0 {
        let before = arc_fills(arcs, extents, n - 1, iw, ih);
        let arc = arcs[n - 1];
        let e = extents[n - 1]@;
        let rows = fill_rows(arc, e, arc.height as int, iw, ih);
        lemma_fills_are_the_insides(arcs, extents, n - 1, iw, ih, x, y);
        lemma_fill_rows_cover(arc, e, arc.height as int, iw, ih, x, y);
        raster_laws::lemma_any_covers_sum(before, rows, x, y);
        if raster::any_covers(before, x, y) {
            let k = choose|k: int|
                0 <= k < n - 1 && is_inside(#[trigger] arcs[k], extents[k]@, x, y);
            assert(is_inside(arcs[k], extents[k]@, x, y));
        }
        if is_inside(arc, e, x, y) {
            assert(is_inside(arcs[n - 1], extents[n - 1]@, x, y));
        }
    }
}

/// Whether `x` lies between `a` and `b`, both included, whichever is smaller.
pub open spec fn is_between(x: int, a: int, b: int) -> bool {
    a <= x <= b || b <= x <= a
}

/// Whether the pixel is on the outline of the ellipse: anywhere on the topmost and the
/// bottommost scanline that it has; elsewhere between an end of the scanline above and
/// the same end of this one.
pub open spec fn is_on_outline(
    arc: ArcBox,
    extents: Seq<Option<(i32, i32)>>,
    x: int,
    y: int,
) -> bool {
    match (reach(arc, extents, y), extent(extents, y - arc.y - 1), extent(extents, y - arc.y + 1)) {
        (Some((x0, x1)), Some((px0, px1)), Some(_)) => is_between(x, px0 as int, x0 as int)
            || is_between(x, px1 as int, x1 as int),
        (Some((x0, x1)), _, _) => x0 <= x <= x1,
        _ => false,
    }
}

/// Whether all of an ellipse lies within 16 bits.
pub open spec fn has_16_bits(arc: ArcBox, extents: Seq<Option<(i32, i32)>>) -> bool {
    &&& arc.y + arc.height <= 32768
    &&& forall|i: int| 0 <= i < extents.len() ==> is_plain(#[trigger] extents[i])
}

proof fn lemma_bridge_spans(row: int, a: int, b: int, x: int, y: int)
    requires
        -32768 <= row <= 32767,
        -32768 <= a <= 32766,
        -32768 <= b <= 32766,
    ensures
        bridge(row, a, b).covers(x, y) <==> y == row && is_between(x, a, b),
        a <= b ==> (run(row, a, b).covers(x, y) <==> y == row && a <= x <= b),
{
}

proof fn lemma_one_or_two_cover(rects: Seq<Rectangle16>, x: int, y: int)
    ensures
        rects.len() == 0 ==> !raster::any_covers(rects, x, y),
        rects.len() == 1 ==> (raster::any_covers(rects, x, y) <==> rects[0].covers(x, y)),
        rects.len() == 2 ==> (raster::any_covers(rects, x, y) <==> rects[0].covers(x, y)
            || rects[1].covers(x, y)),
{
    if raster::any_covers(rects, x, y) {
        let k = choose|k: int| 0 <= k < rects.len() && (#[trigger] rects[k]).covers(x, y);
        assert(rects[k].covers(x, y));
    }
}

proof fn lemma_outline_row_covers(
    arc: ArcBox,
    extents: Seq<Option<(i32, i32)>>,
    i: int,
    x: int,
    y: int,
)
    requires
        0 <= i < arc.height,
        has_16_bits(arc, extents),
    ensures
        raster::any_covers(outline_row(arc, extents, i), x, y) <==> y == arc.y + i && is_on_outline(
            arc,
            extents,
            x,
            y,
        ),
{
    let rects = outline_row(arc, extents, i);
    let row = arc.y + i;
    lemma_one_or_two_cover(rects, x, y);
    if i < extents.len() {
        assert(is_plain(extents[i]));
        if let Some((x0, x1)) = extents[i] {
            lemma_bridge_spans(row, x0 as int, x1 as int, x, y);
            if let Some((px0, px1)) = extent(extents, i - 1) {
                assert(is_plain(extents[i - 1]));
                lemma_bridge_spans(row, px0 as int, x0 as int, x, y);
                lemma_bridge_spans(row, px1 as int, x1 as int, x, y);
            }
        }
    }
}

proof fn lemma_outline_rows_cover(
    arc: ArcBox,
    extents: Seq<Option<(i32, i32)>>,
    n: int,
    x: int,
    y: int,
)
    requires
        0 <= n <= arc.height,
        has_16_bits(arc, extents),
    ensures
        raster::any_covers(outline_rows(arc, extents, n), x, y) <==> 0 <= y - arc.y < n
            && is_on_outline(arc, extents, x, y),
    decreases n,
{
    if n > 0 {
        lemma_outline_rows_cover(arc, extents, n - 1, x, y);
        lemma_outline_row_covers(arc, extents, n - 1, x, y);
        raster_laws::lemma_any_covers_sum(
            outline_rows(arc, extents, n - 1),
            outline_row(arc, extents, n - 1),
            x,
            y,
        );
    }
}

/// Outlines paint the outline of each ellipse, and nothing else.
pub proof fn lemma_outlines_are_painted(
    arcs: Seq<ArcBox>,
    extents: Seq<Extents>,
    n: int,
    x: int,
    y: int,
)
    requires
        0 <= n <= arcs.len(),
        n <= extents.len(),
        forall|k: int| 0 <= k < n ==> has_16_bits(#[trigger] arcs[k], extents[k]@),
    ensures
        raster::any_covers(arc_outlines(arcs, extents, n), x, y) <==> exists|k: int|
            0 <= k < n && is_on_outline(#[trigger] arcs[k], extents[k]@, x, y),
    decreases n,
{
    if n > 0 {
        let before = arc_outlines(arcs, extents, n - 1);
        let arc = arcs[n - 1];
        let e = extents[n - 1]@;
        let rows = outline_rows(arc, e, arc.height as int);
        lemma_outlines_are_painted(arcs, extents, n - 1, x, y);
        assert(has_16_bits(arcs[n - 1], extents[n - 1]@));
        lemma_outline_rows_cover(arc, e, arc.height as int, x, y);
        raster_laws::lemma_any_covers_sum(before, rows, x, y);
        if raster::any_covers(before, x, y) {
            let k = choose|k: int|
                0 <= k < n - 1 && is_on_outline(#[trigger] arcs[k], extents[k]@, x, y);
            assert(is_on_outline(arcs[k], extents[k]@, x, y));
        }
        if is_on_outline(arc, e, x, y) {
            assert(is_on_outline(arcs[n - 1], extents[n - 1]@, x, y));
        }
    }
}

} // verus!
