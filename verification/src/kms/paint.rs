//! Drawing on windows and pixmaps.

use vstd::prelude::*;

use crate::backend::{DrawState, GcFunction, PixmapHandle};
use crate::kms::arcs;
use crate::kms::arcs::{arc_fill_rects, arc_outline_rects, read_arcs, Extents};
use crate::kms::drawing;
use crate::kms::drawing::{
    clip_rects_to_image, outline_rects, point_rects, polygon_rects, polyline_rects, read_rects,
    segment_rects,
};
use crate::kms::image;
use crate::kms::image::{
    copy_pixels, fill_rects_with_gc_function, get_pixels, put_pixels, Area, ImageView, PixelFormat,
    PixmanImage, SolidFill, SolidFillView,
};
use crate::kms::raster;
use crate::kms::raster::Rectangle16;
use crate::kms::state::{KmsBackend, KmsView, PixmapState, PixmapStateView, WindowStateView};

verus! {

/// What drawing on a drawable leaves behind: the state, and what the
/// compositing library has to fill.
#[verifier::ext_equal]
pub struct Painted {
    pub state: KmsView,
    pub left: Option<SolidFillView>,
}

pub open spec fn fill_view(fill: Option<SolidFill>) -> Option<SolidFillView> {
    match fill {
        Some(fill) => Some(fill@),
        None => None,
    }
}

impl KmsView {
    /// Filling rectangles of a drawable in the current function. Nothing
    /// happens to a drawable that does not exist.
    pub open spec fn painted(self, xid: u32, foreground: u32, rects: Seq<Rectangle16>) -> Painted {
        match self.image_of(xid) {
            Some(img) => {
                let (after, left) = image::gc_filled(
                    img,
                    self.current_function,
                    foreground,
                    rects,
                );
                Painted { state: self.with_image(xid, after), left }
            },
            None => Painted { state: self, left: None },
        }
    }

    /// The same with the rectangles clipped to the drawable first.
    pub open spec fn painted_inside(
        self,
        xid: u32,
        foreground: u32,
        rects: Seq<Rectangle16>,
    ) -> Painted {
        match self.image_of(xid) {
            Some(img) => self.painted(
                xid,
                foreground,
                drawing::all_clipped(
                    rects,
                    rects.len() as int,
                    img.width as int,
                    img.height as int,
                ),
            ),
            None => Painted { state: self, left: None },
        }
    }

    /// The state with a new, blank pixmap, filed under a new identifier.
    pub open spec fn with_new_pixmap(self, depth: u8, width: u16, height: u16) -> KmsView {
        let xid = self.new_xid();
        KmsView {
            next_host_xid: xid,
            pixmaps: self.pixmaps.insert(
                xid,
                PixmapStateView {
                    handle: xid,
                    image: ImageView::blank(PixelFormat::for_depth(depth), width, height),
                    depth,
                },
            ),
            ..self
        }
    }

    pub open spec fn without_pixmap(self, xid: u32) -> KmsView {
        KmsView { pixmaps: self.pixmaps.remove(xid), ..self }
    }
}

impl KmsBackend {
    /// Takes the pixels out of a drawable, to be put back changed with
    /// [`KmsBackend::replace_image`].
    fn take_image(&mut self, xid: u32) -> (r: Option<PixmanImage>)
        ensures
            match r {
                Some(img) => old(self)@.image_of(xid) == Some(img@) && exists|held: ImageView|
                    final(self)@ == #[trigger] old(self)@.with_image(xid, held),
                None => old(self)@.image_of(xid) is None && final(self)@ == old(self)@,
            },
    {
        let empty = PixmanImage::new(PixelFormat::X8R8G8B8, 0, 0);
        let r = self.replace_image(xid, empty);
        assert(r is None ==> self@ =~= old(self)@);
        r
    }

    /// Fills rectangles of a drawable in the current function.
    fn fill_drawable(&mut self, xid: u32, foreground: u32, rects: Vec<Rectangle16>) -> (left:
        Option<SolidFill>)
        ensures
            final(self)@ == old(self)@.painted(xid, foreground, rects@).state,
            fill_view(left) == old(self)@.painted(xid, foreground, rects@).left,
    {
        let function = self.current_function;
        match self.take_image(xid) {
            Some(mut img) => {
                let ghost held = choose|held: ImageView|
                    self@ == #[trigger] old(self)@.with_image(xid, held);
                let left = fill_rects_with_gc_function(&mut img, function, foreground, rects);
                let _ = self.replace_image(xid, img);
                proof {
                    lemma_with_image_twice(old(self)@, xid, held, img@);
                }
                left
            },
            None => None,
        }
    }

    /// Fills rectangles of a drawable in the current function, clipped to it.
    fn fill_inside(&mut self, xid: u32, foreground: u32, rects: &Vec<Rectangle16>) -> (left: Option<
        SolidFill,
    >)
        ensures
            final(self)@ == old(self)@.painted_inside(xid, foreground, rects@).state,
            fill_view(left) == old(self)@.painted_inside(xid, foreground, rects@).left,
    {
        let (w, h): (i32, i32) = match self.image(xid) {
            Some(img) => (img.width as i32, img.height as i32),
            None => {
                return None;
            },
        };
        let clipped = clip_rects_to_image(rects, w, h);
        self.fill_drawable(xid, foreground, clipped)
    }

    /// PolyLine: joins points with lines, in coordinates of the drawable or, in
    /// mode 1, each relative to the one before.
    pub fn poly_line(
        &mut self,
        host_xid: u32,
        foreground: u32,
        coordinate_mode: u8,
        points: &[u8],
    ) -> (left: Option<SolidFill>)
        requires
            drawing::path_fits(points@, coordinate_mode),
        ensures
            ({
                let p = old(self)@.painted_inside(
                    host_xid,
                    foreground,
                    drawing::polyline_pixels(points@, coordinate_mode),
                );
                final(self)@ == p.state && fill_view(left) == p.left
            }),
    {
        match polyline_rects(points, coordinate_mode) {
            Some(rects) => self.fill_inside(host_xid, foreground, &rects),
            None => None,
        }
    }

    /// PolySegment: unconnected lines.
    pub fn poly_segment(&mut self, host_xid: u32, foreground: u32, segments: &[u8]) -> (left:
        Option<SolidFill>)
        ensures
            ({
                let p = old(self)@.painted_inside(
                    host_xid,
                    foreground,
                    drawing::segment_pixels(segments@, segments@.len() as int / 8),
                );
                final(self)@ == p.state && fill_view(left) == p.left
            }),
    {
        let rects = segment_rects(segments);
        self.fill_inside(host_xid, foreground, &rects)
    }

    /// PolyRectangle: outlines.
    pub fn poly_rectangle(&mut self, host_xid: u32, foreground: u32, rectangles: &[u8]) -> (left:
        Option<SolidFill>)
        ensures
            ({
                let p = old(self)@.painted(
                    host_xid,
                    foreground,
                    drawing::outlines(rectangles@, rectangles@.len() as int / 8),
                );
                final(self)@ == p.state && fill_view(left) == p.left
            }),
    {
        let rects = outline_rects(rectangles);
        self.fill_drawable(host_xid, foreground, rects)
    }

    /// PolyArc: outlines of ellipses. `extents` says how far each of them that is
    /// not empty reaches on its scanlines.
    pub fn poly_arc(
        &mut self,
        host_xid: u32,
        foreground: u32,
        arcs: &[u8],
        extents: &Vec<Extents>,
    ) -> (left: Option<SolidFill>)
        ensures
            ({
                let boxes = arcs::arc_boxes(arcs@, arcs@.len() as int / 12);
                let p = old(self)@.painted_inside(
                    host_xid,
                    foreground,
                    arcs::arc_outlines(boxes, extents@, boxes.len() as int),
                );
                final(self)@ == p.state && fill_view(left) == p.left
            }),
    {
        let boxes = read_arcs(arcs);
        let rects = arc_outline_rects(&boxes, extents);
        self.fill_inside(host_xid, foreground, &rects)
    }

    /// PolyPoint: single pixels.
    pub fn poly_point(&mut self, host_xid: u32, foreground: u32, points: &[u8]) -> (left: Option<
        SolidFill,
    >)
        ensures
            ({
                let p = old(self)@.painted(host_xid, foreground, drawing::point_pixels(points@));
                final(self)@ == p.state && fill_view(left) == p.left
            }),
    {
        let rects = point_rects(points);
        self.fill_drawable(host_xid, foreground, rects)
    }

    /// PolyFillRectangle.
    pub fn poly_fill_rectangle(&mut self, host_xid: u32, foreground: u32, rectangles: &[u8]) -> (
    left: Option<SolidFill>)
        ensures
            ({
                let p = old(self)@.painted(
                    host_xid,
                    foreground,
                    drawing::packed_rects(rectangles@),
                );
                final(self)@ == p.state && fill_view(left) == p.left
            }),
    {
        let rects = read_rects(rectangles);
        self.fill_drawable(host_xid, foreground, rects)
    }

    /// PolyFillArc: filled ellipses, by how far they reach. Nothing is filled if
    /// none lies in the drawable.
    pub fn poly_fill_arc(
        &mut self,
        host_xid: u32,
        foreground: u32,
        arcs: &[u8],
        extents: &Vec<Extents>,
    ) -> (left: Option<SolidFill>)
        ensures
            match old(self)@.image_of(host_xid) {
                Some(img) => {
                    let boxes = arcs::arc_boxes(arcs@, arcs@.len() as int / 12);
                    let rects = arcs::arc_fills(
                        boxes,
                        extents@,
                        boxes.len() as int,
                        img.width as int,
                        img.height as int,
                    );
                    if rects.len() > 0 {
                        let p = old(self)@.painted(host_xid, foreground, rects);
                        final(self)@ == p.state && fill_view(left) == p.left
                    } else {
                        final(self)@ == old(self)@ && left is None
                    }
                },
                None => final(self)@ == old(self)@ && left is None,
            },
    {
        let (w, h): (u16, u16) = match self.image(host_xid) {
            Some(img) => (img.width, img.height),
            None => {
                return None;
            },
        };
        let boxes = read_arcs(arcs);
        let rects = arc_fill_rects(&boxes, extents, w, h);
        if rects.len() == 0 {
            return None;
        }
        self.fill_drawable(host_xid, foreground, rects)
    }

    /// FillPoly: the inside of a polygon.
    pub fn fill_poly(&mut self, host_xid: u32, foreground: u32, coord_mode: u8, points: &[u8]) -> (
    left: Option<SolidFill>)
        requires
            drawing::path_fits(points@, coord_mode),
        ensures
            ({
                let p = old(self)@.painted_inside(
                    host_xid,
                    foreground,
                    raster::polygon_spans(
                        drawing::path_vertices(points@, coord_mode, points@.len() as int / 4),
                    ),
                );
                final(self)@ == p.state && fill_view(left) == p.left
            }),
    {
        match polygon_rects(points, coord_mode) {
            Some(rects) => self.fill_inside(host_xid, foreground, &rects),
            None => None,
        }
    }

    /// Fills one rectangle.
    pub fn fill_rectangle(
        &mut self,
        host_xid: u32,
        foreground: u32,
        x: i16,
        y: i16,
        width: u16,
        height: u16,
    ) -> (left: Option<SolidFill>)
        ensures
            ({
                let p = old(self)@.painted(
                    host_xid,
                    foreground,
                    seq![Rectangle16 { x, y, width, height }],
                );
                final(self)@ == p.state && fill_view(left) == p.left
            }),
    {
        let mut rects: Vec<Rectangle16> = Vec::new();
        rects.push(Rectangle16 { x, y, width, height });
        assert(rects@ =~= seq![Rectangle16 { x, y, width, height }]);
        self.fill_drawable(host_xid, foreground, rects)
    }

    /// CopyArea between two drawables, or within one. Pixels that the source does
    /// not have are not copied; what is copied is the source as it was before.
    pub fn copy_area(
        &mut self,
        src_host_xid: u32,
        dst_host_xid: u32,
        src_x: i16,
        src_y: i16,
        dst_x: i16,
        dst_y: i16,
        width: u16,
        height: u16,
    )
        ensures
            final(self)@ == (match (
                old(self)@.image_of(src_host_xid),
                old(self)@.image_of(dst_host_xid),
            ) {
                (Some(src), Some(dst)) => old(self)@.with_image(
                    dst_host_xid,
                    image::copied(
                        dst,
                        Area { x: dst_x, y: dst_y, width, height },
                        src,
                        src_x as int,
                        src_y as int,
                    ),
                ),
                _ => old(self)@,
            }),
    {
        let src = match self.image(src_host_xid) {
            Some(img) => img.snapshot(),
            None => {
                return ;
            },
        };
        if let Some(mut img) = self.take_image(dst_host_xid) {
            let ghost held = choose|held: ImageView|
                self@ == #[trigger] old(self)@.with_image(dst_host_xid, held);
            let area = Area { x: dst_x, y: dst_y, width, height };
            copy_pixels(&mut img, area, &src, src_x, src_y);
            let _ = self.replace_image(dst_host_xid, img);
            proof {
                lemma_with_image_twice(old(self)@, dst_host_xid, held, img@);
            }
        }
    }

    /// PutImage at depth 24 or 32, four bytes for each pixel. Other depths are
    /// ignored.
    pub fn put_image(
        &mut self,
        host_xid: u32,
        depth: u8,
        width: u16,
        height: u16,
        dst_x: i16,
        dst_y: i16,
        data: &[u8],
    )
        ensures
            final(self)@ == (match old(self)@.image_of(host_xid) {
                Some(img) => old(self)@.with_image(
                    host_xid,
                    image::uploaded(
                        img,
                        depth,
                        Area { x: dst_x, y: dst_y, width, height },
                        data@,
                    ),
                ),
                None => old(self)@,
            }),
    {
        if let Some(mut img) = self.take_image(host_xid) {
            let ghost held = choose|held: ImageView|
                self@ == #[trigger] old(self)@.with_image(host_xid, held);
            let area = Area { x: dst_x, y: dst_y, width, height };
            put_pixels(&mut img, depth, area, data);
            let _ = self.replace_image(host_xid, img);
            proof {
                lemma_with_image_twice(old(self)@, host_xid, held, img@);
            }
        }
    }

    /// GetImage, four bytes for each pixel; `None` without the drawable.
    pub fn get_image(&self, host_xid: u32, x: i16, y: i16, width: u16, height: u16) -> (r: Option<
        Vec<u8>,
    >)
        ensures
            match r {
                Some(bytes) => self@.image_of(host_xid) is Some && bytes@ == image::readback(
                    self@.image_of(host_xid)->0,
                    Area { x, y, width, height },
                ),
                None => self@.image_of(host_xid) is None,
            },
    {
        match self.image(host_xid) {
            Some(img) => Some(get_pixels(img, Area { x, y, width, height })),
            None => None,
        }
    }

    /// Takes over what a graphics context says: its function, and its font if it
    /// has one.
    pub fn apply_draw_state(&mut self, state: &DrawState)
        ensures
            final(self)@ == (KmsView {
                current_function: state.function,
                current_font: match state.font {
                    Some(font) => Some(font.raw),
                    None => old(self)@.current_font,
                },
                ..old(self)@
            }),
    {
        if let Some(font) = state.font {
            self.current_font = Some(font.as_raw());
        }
        self.current_function = state.function;
    }

    /// Creates a blank pixmap.
    pub fn create_pixmap(&mut self, depth: u8, width: u16, height: u16) -> (r: PixmapHandle)
        requires
            old(self)@.next_host_xid < u32::MAX,
        ensures
            r.raw == old(self)@.new_xid(),
            final(self)@ == old(self)@.with_new_pixmap(depth, width, height),
    {
        broadcast use vstd::std_specs::hash::group_hash_axioms;

        let host_xid: u32 = self.take_host_xid();
        let image = PixmanImage::new(PixelFormat::of_depth(depth), width, height);
        self.pixmaps.insert(host_xid, PixmapState { handle: host_xid, image, depth });
        assert(self@.pixmaps =~= old(self)@.pixmaps.insert(
            host_xid,
            PixmapStateView {
                handle: host_xid,
                image: ImageView::blank(PixelFormat::for_depth(depth), width, height),
                depth,
            },
        ));
        PixmapHandle { raw: host_xid }
    }

    pub fn free_pixmap(&mut self, host_xid: u32)
        ensures
            final(self)@ == old(self)@.without_pixmap(host_xid),
    {
        broadcast use vstd::std_specs::hash::group_hash_axioms;

        self.pixmaps.remove(&host_xid);
        assert(self@.pixmaps =~= old(self)@.pixmaps.remove(host_xid));
    }
}

/// Of two changes of the same pixels the second counts.
proof fn lemma_with_image_twice(k: KmsView, xid: u32, a: ImageView, b: ImageView)
    ensures
        k.with_image(xid, a).with_image(xid, b) == k.with_image(xid, b),
{
    let once = k.with_image(xid, a);
    if k.windows.contains_key(xid) {
        assert(once.with_image(xid, b).windows =~= k.with_image(xid, b).windows);
    } else if k.pixmaps.contains_key(xid) {
        assert(once.with_image(xid, b).pixmaps =~= k.with_image(xid, b).pixmaps);
    }
    assert(once.with_image(xid, b) =~= k.with_image(xid, b));
}

} // verus!
