//! Font faces, and what they render.

use vstd::prelude::*;

use crate::kms::raster;

verus! {

/// A font face of the outside crate `freetype`.
#[verifier::external_type_specification]
#[verifier::external_body]
#[verifier::reject_recursive_types(BYTES)]
pub struct ExFace<BYTES>(freetype::Face<BYTES>);

/// A size for a face: width and height in 64ths of a point, resolutions in dots
/// per inch.
#[derive(Clone, Copy, Debug, PartialEq, Eq, Structural)]
pub struct CharSize {
    pub width: i32,
    pub height: i32,
    pub hres: u32,
    pub vres: u32,
}

/// A size that a face was asked to take, and whether it did.
#[derive(Clone, Copy, Debug, PartialEq, Eq, Structural)]
pub struct SizeReply {
    pub asked: CharSize,
    pub granted: bool,
}

/// A face that was asked to take a size. There is no other way to get one, and
/// only such faces render.
pub struct SizedFace {
    face: freetype::Face,
    size: SizeReply,
}

impl SizedFace {
    /// The face itself.
    pub closed spec fn inner(&self) -> freetype::Face {
        self.face
    }

    /// The size it was asked to take.
    pub closed spec fn reply(&self) -> SizeReply {
        self.size
    }

    pub fn size(&self) -> (r: SizeReply)
        ensures
            r == self.reply(),
    {
        self.size
    }
}

/// `freetype::Face::set_char_size`. Whether it succeeds depends on the font. The
/// sized face holds the face that was handed in and the size that was asked for.
#[verifier::external_body]
pub(crate) fn set_char_size(face: freetype::Face, size: CharSize) -> (r: SizedFace)
    ensures
        r.inner() == face,
        r.reply().asked == size,
{
    let done = face.set_char_size(size.width as isize, size.height as isize, size.hres, size.vres);
    SizedFace { face, size: SizeReply { asked: size, granted: done.is_ok() } }
}

/// The face of an open font. Its glyphs carry the identifier of the font.
pub struct FontFace {
    pub handle: u32,
    pub face: SizedFace,
}

/// A glyph as the face rendered it, in plain values: metrics in 64ths of a
/// pixel, and the bitmap with `pitch` bytes from row to row, negative if the
/// bottom row comes first.
#[derive(Clone, Debug)]
pub struct LoadedGlyph {
    /// The font that was asked.
    pub font: u32,
    /// The character that was asked for.
    pub code: u32,
    pub hori_advance: i64,
    pub hori_bearing_x: i64,
    pub hori_bearing_y: i64,
    pub width: i32,
    pub rows: i32,
    pub pitch: i32,
    pub left: i32,
    pub top: i32,
    pub buffer: Vec<u8>,
}

/// [`LoadedGlyph`] with its bitmap as a sequence.
#[verifier::ext_equal]
pub struct GlyphView {
    pub font: u32,
    pub code: u32,
    pub hori_advance: i64,
    pub hori_bearing_x: i64,
    pub hori_bearing_y: i64,
    pub width: i32,
    pub rows: i32,
    pub pitch: i32,
    pub left: i32,
    pub top: i32,
    pub buffer: Seq<u8>,
}

impl View for LoadedGlyph {
    type V = GlyphView;

    open spec fn view(&self) -> GlyphView {
        GlyphView {
            font: self.font,
            code: self.code,
            hori_advance: self.hori_advance,
            hori_bearing_x: self.hori_bearing_x,
            hori_bearing_y: self.hori_bearing_y,
            width: self.width,
            rows: self.rows,
            pitch: self.pitch,
            left: self.left,
            top: self.top,
            buffer: self.buffer@,
        }
    }
}

impl GlyphView {
    /// What there is of a character that `font` did not render.
    pub open spec fn blank(font: u32, code: u32) -> GlyphView {
        GlyphView {
            font,
            code,
            hori_advance: 0,
            hori_bearing_x: 0,
            hori_bearing_y: 0,
            width: 0,
            rows: 0,
            pitch: 0,
            left: 0,
            top: 0,
            buffer: Seq::empty(),
        }
    }

    /// How many bytes the bitmap takes.
    pub open spec fn bitmap_len(self) -> int {
        raster::abs(self.pitch as int) * self.rows
    }
}

impl LoadedGlyph {
    pub fn blank(font: u32, code: u32) -> (r: Self)
        ensures
            r@ == GlyphView::blank(font, code),
    {
        let r = LoadedGlyph {
            font,
            code,
            hori_advance: 0,
            hori_bearing_x: 0,
            hori_bearing_y: 0,
            width: 0,
            rows: 0,
            pitch: 0,
            left: 0,
            top: 0,
            buffer: Vec::new(),
        };
        assert(r@ =~= GlyphView::blank(font, code));
        r
    }
}

pub open spec fn loaded_views(glyphs: Seq<LoadedGlyph>) -> Seq<GlyphView> {
    glyphs.map_values(|g: LoadedGlyph| g@)
}

/// `freetype::Face::load_char` with `RENDER`, and what the glyph slot holds
/// afterwards; `None` if it failed. The glyph carries the font and the code that
/// were asked for, and its bitmap has as many bytes as its rows and pitch ask
/// for, if that is a length of 31 bits. Metrics and bytes come from the font
/// file, the size of the face and the renderer, so nothing more is said of them,
/// nor of which characters fail.
#[verifier::external_body]
pub(crate) fn render_char(font: &FontFace, code: u32) -> (r: Option<LoadedGlyph>)
    ensures
        match r {
            Some(g) => {
                &&& g@.font == font.handle
                &&& g@.code == code
                &&& 0 <= g@.rows && g@.bitmap_len() <= i32::MAX ==> g@.buffer.len()
                    == g@.bitmap_len()
            },
            None => true,
        },
{
    let face = &font.face.face;
    face.load_char(code as usize, freetype::face::LoadFlag::RENDER).ok()?;
    let (slot, bitmap) = (face.glyph(), face.glyph().bitmap());
    let (metrics, buffer) = (slot.metrics(), bitmap.buffer().to_vec());
    Some(LoadedGlyph {
        font: font.handle, code, buffer,
        hori_advance: metrics.horiAdvance as i64,
        hori_bearing_x: metrics.horiBearingX as i64,
        hori_bearing_y: metrics.horiBearingY as i64,
        width: bitmap.width(), rows: bitmap.rows(), pitch: bitmap.pitch(),
        left: slot.bitmap_left(), top: slot.bitmap_top(),
    })
}

} // verus!
