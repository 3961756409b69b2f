//! RENDER pictures and trapezoids.

use vstd::prelude::*;

use crate::backend::{AnyHandle, PictureHandle};
use crate::kms::drawing;
use crate::kms::drawing::read_rects;
use crate::kms::image::Color;
use crate::kms::raster::Rectangle16;
use crate::kms::state;
use crate::kms::state::{KmsBackend, KmsView, PictureState, PictureStateView};
use crate::wire;
use crate::wire::{read_u16, read_u32};

verus! {

/// The major opcode under which RENDER is offered.
pub const RENDER_OPCODE: u8 = 133;

/// A point in 16.16 fixed point.
#[derive(Clone, Copy, Debug, PartialEq, Eq, Structural)]
pub struct FixedPoint {
    pub x: i32,
    pub y: i32,
}

/// A line through two points.
#[derive(Clone, Copy, Debug, PartialEq, Eq, Structural)]
pub struct FixedLine {
    pub p1: FixedPoint,
    pub p2: FixedPoint,
}

/// The area between two lines, from `top` to `bottom`.
#[derive(Clone, Copy, Debug, PartialEq, Eq, Structural)]
pub struct Trapezoid {
    pub top: i32,
    pub bottom: i32,
    pub left: FixedLine,
    pub right: FixedLine,
}

/// The signed integer in the four bytes at `i`.
pub open spec fn i32_at(s: Seq<u8>, i: int) -> i32 {
    let v = wire::u32_at(s, i);
    if v < 0x8000_0000 {
        v as i32
    } else {
        (v - 0x1_0000_0000) as i32
    }
}

fn read_i32(bytes: &[u8], at: usize) -> (r: i32)
    requires
        at + 4 <= bytes@.len(),
    ensures
        r == i32_at(bytes@, at as int),
{
    let v: u32 = read_u32(bytes, at);
    if v < 0x8000_0000 {
        v as i32
    } else {
        (v as i64 - 0x1_0000_0000) as i32
    }
}

pub open spec fn point_at(s: Seq<u8>, i: int) -> FixedPoint {
    FixedPoint { x: i32_at(s, i), y: i32_at(s, i + 4) }
}

pub open spec fn line_at(s: Seq<u8>, i: int) -> FixedLine {
    FixedLine { p1: point_at(s, i), p2: point_at(s, i + 8) }
}

/// The trapezoid in the forty bytes at `i`.
pub open spec fn trapezoid_at(s: Seq<u8>, i: int) -> Trapezoid {
    Trapezoid {
        top: i32_at(s, i),
        bottom: i32_at(s, i + 4),
        left: line_at(s, i + 8),
        right: line_at(s, i + 24),
    }
}

pub open spec fn trapezoids(s: Seq<u8>) -> Seq<Trapezoid> {
    Seq::new(s.len() / 40, |i: int| trapezoid_at(s, 40 * i))
}

fn read_line(bytes: &[u8], at: usize) -> (r: FixedLine)
    requires
        at + 16 <= bytes@.len(),
    ensures
        r == line_at(bytes@, at as int),
{
    let len: usize = bytes.len();
    assert(at + 16 <= len);
    FixedLine {
        p1: FixedPoint { x: read_i32(bytes, at), y: read_i32(bytes, at + 4) },
        p2: FixedPoint { x: read_i32(bytes, at + 8), y: read_i32(bytes, at + 12) },
    }
}

/// Reads trapezoids of forty bytes each.
pub fn read_trapezoids(bytes: &[u8]) -> (r: Vec<Trapezoid>)
    ensures
        r@ == trapezoids(bytes@),
{
    let mut traps: Vec<Trapezoid> = Vec::new();
    let len: usize = bytes.len();
    let n: usize = len / 40;
    for i in 0..n
        invariant
            len == bytes@.len(),
            n == len / 40,
            traps@ == trapezoids(bytes@).take(i as int),
    {
        let at: usize = 40 * i;
        traps.push(
            Trapezoid {
                top: read_i32(bytes, at),
                bottom: read_i32(bytes, at + 4),
                left: read_line(bytes, at + 8),
                right: read_line(bytes, at + 24),
            },
        );
        assert(traps@ =~= trapezoids(bytes@).take(i + 1));
    }
    assert(traps@ =~= trapezoids(bytes@));
    traps
}

/// Trapezoids to composite: a solid colour onto a drawable, within the clip if
/// there is one, with coverage of eight bits.
#[derive(Clone, Debug)]
pub struct TrapezoidPlan {
    pub op: u32,
    pub color: Color,
    pub drawable: u32,
    pub clip: Option<Vec<Rectangle16>>,
    pub src_x: i16,
    pub src_y: i16,
    pub x_off: i16,
    pub y_off: i16,
    pub traps: Vec<Trapezoid>,
}

/// [`TrapezoidPlan`] with its lists as sequences.
#[verifier::ext_equal]
pub struct TrapezoidPlanView {
    pub op: u32,
    pub color: Color,
    pub drawable: u32,
    pub clip: Option<Seq<Rectangle16>>,
    pub src_x: i16,
    pub src_y: i16,
    pub x_off: i16,
    pub y_off: i16,
    pub traps: Seq<Trapezoid>,
}

impl View for TrapezoidPlan {
    type V = TrapezoidPlanView;

    open spec fn view(&self) -> TrapezoidPlanView {
        TrapezoidPlanView {
            op: self.op,
            color: self.color,
            drawable: self.drawable,
            clip: state::clip_view(self.clip),
            src_x: self.src_x,
            src_y: self.src_y,
            x_off: self.x_off,
            y_off: self.y_off,
            traps: self.traps@,
        }
    }
}

/// The colour in eight bytes: red, green, blue and alpha of two bytes each.
pub open spec fn fill_color(color: Seq<u8>) -> Color {
    Color {
        red: wire::u16_at(color, 0) as u16,
        green: wire::u16_at(color, 2) as u16,
        blue: wire::u16_at(color, 4) as u16,
        alpha: wire::u16_at(color, 6) as u16,
    }
}

/// A picture with the clip of a SetPictureClipRectangles body: picture, origin
/// of the clip, and rectangles. The origin is not used. No rectangles mean no
/// clip. A solid fill has none.
pub open spec fn reclipped(picture: PictureStateView, body: Seq<u8>) -> PictureStateView {
    let rects = drawing::packed_rects(body.skip(8));
    match picture {
        PictureStateView::Drawable { host_xid, clip } => PictureStateView::Drawable {
            host_xid,
            clip: if rects.len() == 0 {
                None
            } else {
                Some(rects)
            },
        },
        PictureStateView::SolidFill { color } => picture,
    }
}

fn copy_clip(clip: &Option<Vec<Rectangle16>>) -> (r: Option<Vec<Rectangle16>>)
    ensures
        state::clip_view(r) == state::clip_view(*clip),
{
    match clip {
        Some(rects) => {
            let copy = rects.clone();
            assert(copy@ =~= rects@);
            Some(copy)
        },
        None => None,
    }
}

impl KmsView {
    pub open spec fn with_picture(self, picture: PictureStateView) -> KmsView {
        KmsView {
            next_host_xid: self.new_xid(),
            pictures: self.pictures.insert(self.new_xid(), picture),
            ..self
        }
    }
}

impl KmsBackend {
    fn file_picture(&mut self, picture: PictureState) -> (r: PictureHandle)
        requires
            old(self)@.next_host_xid < u32::MAX,
        ensures
            r.raw == old(self)@.new_xid(),
            final(self)@ == old(self)@.with_picture(picture@),
    {
        broadcast use vstd::std_specs::hash::group_hash_axioms;

        let xid: u32 = self.take_host_xid();
        self.pictures.insert(xid, picture);
        assert(self@.pictures =~= old(self)@.pictures.insert(xid, picture@));
        PictureHandle { raw: xid }
    }

    /// A picture that draws on a window or a pixmap.
    pub fn render_create_picture(&mut self, host_drawable: AnyHandle) -> (r: PictureHandle)
        requires
            old(self)@.next_host_xid < u32::MAX,
        ensures
            r.raw == old(self)@.new_xid(),
            final(self)@ == old(self)@.with_picture(
                PictureStateView::Drawable { host_xid: host_drawable.raw(), clip: None },
            ),
    {
        let host_xid: u32 = host_drawable.as_raw();
        self.file_picture(PictureState::Drawable { host_xid, clip: None })
    }

    /// A picture of one colour.
    pub fn render_create_solid_fill(&mut self, color: [u8; 8]) -> (r: PictureHandle)
        requires
            old(self)@.next_host_xid < u32::MAX,
        ensures
            r.raw == old(self)@.new_xid(),
            final(self)@ == old(self)@.with_picture(
                PictureStateView::SolidFill { color: fill_color(color@) },
            ),
    {
        let bytes = color.as_slice();
        let color = Color {
            red: read_u16(bytes, 0),
            green: read_u16(bytes, 2),
            blue: read_u16(bytes, 4),
            alpha: read_u16(bytes, 6),
        };
        self.file_picture(PictureState::SolidFill { color })
    }

    pub fn render_free_picture(&mut self, host_pic: u32)
        ensures
            final(self)@ == (KmsView {
                pictures: old(self)@.pictures.remove(host_pic),
                ..old(self)@
            }),
    {
        broadcast use vstd::std_specs::hash::group_hash_axioms;

        self.pictures.remove(&host_pic);
        assert(self@.pictures =~= old(self)@.pictures.remove(host_pic));
    }

    /// SetPictureClipRectangles. A body too short for the origin of the clip is
    /// ignored, and so is a picture that does not exist.
    pub fn render_set_picture_clip_rectangles(&mut self, host_pic: u32, body: &[u8])
        ensures
            final(self)@ == (if body@.len() >= 8 && old(self)@.pictures.contains_key(host_pic) {
                KmsView {
                    pictures: old(self)@.pictures.insert(
                        host_pic,
                        reclipped(old(self)@.pictures[host_pic], body@),
                    ),
                    ..old(self)@
                }
            } else {
                old(self)@
            }),
    {
        broadcast use vstd::std_specs::hash::group_hash_axioms;

        if body.len() < 8 {
            return ;
        }
        let rects = read_rects(vstd::slice::slice_subrange(body, 8, body.len()));
        assert(body@.subrange(8, body@.len() as int) =~= body@.skip(8));
        match self.pictures.remove(&host_pic) {
            Some(PictureState::Drawable { host_xid, clip: _ }) => {
                let clip = if rects.len() == 0 {
                    None
                } else {
                    Some(rects)
                };
                self.pictures.insert(host_pic, PictureState::Drawable { host_xid, clip });
                assert(self@.pictures =~= old(self)@.pictures.insert(
                    host_pic,
                    reclipped(old(self)@.pictures[host_pic], body@),
                ));
            },
            Some(PictureState::SolidFill { color }) => {
                self.pictures.insert(host_pic, PictureState::SolidFill { color });
                assert(self@.pictures =~= old(self)@.pictures.insert(
                    host_pic,
                    reclipped(old(self)@.pictures[host_pic], body@),
                ));
            },
            None => {
                assert(self@.pictures =~= old(self)@.pictures);
            },
        }
        assert(self@ =~= (if old(self)@.pictures.contains_key(host_pic) {
            KmsView {
                pictures: old(self)@.pictures.insert(
                    host_pic,
                    reclipped(old(self)@.pictures[host_pic], body@),
                ),
                ..old(self)@
            }
        } else {
            old(self)@
        }));
    }

    /// What compositing trapezoids comes to. Nothing unless there are
    /// trapezoids and no part of one, the source is a solid fill, and the
    /// destination is a drawable that exists.
    pub fn render_trapezoids(
        &self,
        op: u8,
        host_src: u32,
        host_dst: u32,
        src_x: i16,
        src_y: i16,
        traps: &[u8],
        x_off: i16,
        y_off: i16,
    ) -> (r: Option<TrapezoidPlan>)
        ensures
            ({
                let plan = self@.trapezoid_plan(
                    op,
                    host_src,
                    host_dst,
                    src_x,
                    src_y,
                    traps@,
                    x_off,
                    y_off,
                );
                match r {
                    Some(p) => plan == Some(p@),
                    None => plan is None,
                }
            }),
    {
        broadcast use vstd::std_specs::hash::group_hash_axioms;

        if traps.len() == 0 || traps.len() % 40 != 0 {
            return None;
        }
        let color = match self.pictures.get(&host_src) {
            Some(PictureState::SolidFill { color }) => *color,
            _ => {
                return None;
            },
        };
        match self.pictures.get(&host_dst) {
            Some(PictureState::Drawable { host_xid, clip }) => {
                if self.image(*host_xid).is_none() {
                    return None;
                }
                let r = TrapezoidPlan {
                    op: op as u32,
                    color,
                    drawable: *host_xid,
                    clip: copy_clip(clip),
                    src_x,
                    src_y,
                    x_off,
                    y_off,
                    traps: read_trapezoids(traps),
                };
                Some(r)
            },
            _ => None,
        }
    }

    pub fn render_opcode(&self) -> (r: Option<u8>)
        ensures
            r == Some(RENDER_OPCODE),
    {
        Some(RENDER_OPCODE)
    }

    /// Formats are passed through: their numbers are opaque here. 0 is none.
    pub fn render_format_for_ynest_id(&self, ynest_fmt: u32) -> (r: Option<u32>)
        ensures
            r == (if ynest_fmt == 0 {
                None
            } else {
                Some(ynest_fmt)
            }),
    {
        if ynest_fmt == 0 {
            None
        } else {
            Some(ynest_fmt)
        }
    }

    /// The version of RENDER that is offered.
    pub fn render_query_version(&self) -> (r: (u32, u32))
        ensures
            r == (1u32, 1u32),
    {
        (1, 1)
    }
}

impl KmsView {
    pub open spec fn trapezoid_plan(
        self,
        op: u8,
        host_src: u32,
        host_dst: u32,
        src_x: i16,
        src_y: i16,
        traps: Seq<u8>,
        x_off: i16,
        y_off: i16,
    ) -> Option<TrapezoidPlanView> {
        if traps.len() == 0 || traps.len() % 40 != 0 {
            None
        } else {
            match (self.pictures.get(host_src), self.pictures.get(host_dst)) {
                (
                    Some(PictureStateView::SolidFill { color }),
                    Some(PictureStateView::Drawable { host_xid, clip }),
                ) => if self.image_of(host_xid) is Some {
                    Some(
                        TrapezoidPlanView {
                            op: op as u32,
                            color,
                            drawable: host_xid,
                            clip,
                            src_x,
                            src_y,
                            x_off,
                            y_off,
                            traps: trapezoids(traps),
                        },
                    )
                } else {
                    None
                },
                _ => None,
            }
        }
    }
}

} // verus!
