//! Text: what to draw, and where each glyph goes.

use vstd::prelude::*;

use crate::kms::face;
use crate::kms::face::{FontFace, GlyphView, LoadedGlyph};
use crate::kms::fonts::{load_glyph, FIRST_CHAR};
use crate::kms::image::Color;
use crate::kms::raster;
use crate::kms::raster::{clamp_i16, Rectangle16};
use crate::protocol::CharInfo;
use crate::wire;
use crate::wire::{read_i16, read_u32};

verus! {

/// How far the pen moves for a character that the font does not have.
pub const MISSING_ADVANCE: i16 = 6;

/// The measures of a character, if the font has it.
pub open spec fn info_of(infos: Seq<CharInfo>, ch: u8) -> Option<CharInfo> {
    if FIRST_CHAR <= ch < FIRST_CHAR + infos.len() {
        Some(infos[ch - FIRST_CHAR])
    } else {
        None
    }
}

fn char_info(infos: &Vec<CharInfo>, ch: u8) -> (r: Option<CharInfo>)
    ensures
        r == info_of(infos@, ch),
{
    if ch >= FIRST_CHAR && ((ch - FIRST_CHAR) as usize) < infos.len() {
        Some(infos[(ch - FIRST_CHAR) as usize])
    } else {
        None
    }
}

/// How far the pen moves for a character.
pub open spec fn advance(infos: Seq<CharInfo>, ch: u8) -> int {
    match info_of(infos, ch) {
        Some(info) => info.character_width as int,
        None => MISSING_ADVANCE as int,
    }
}

/// How far the pen has moved after the first `n` characters of `text`.
pub open spec fn text_width(infos: Seq<CharInfo>, text: Seq<u8>, n: int) -> int
    decreases n,
{
    if n <= 0 {
        0
    } else {
        text_width(infos, text, n - 1) + advance(infos, text[n - 1])
    }
}

proof fn lemma_text_width_range(infos: Seq<CharInfo>, text: Seq<u8>, n: int)
    requires
        0 <= n,
    ensures
        -32768 * n <= text_width(infos, text, n) <= 32767 * n,
    decreases n,
{
    if n > 0 {
        lemma_text_width_range(infos, text, n - 1);
    }
}

/// A glyph in place: coverage, row by row, of `width` by `height` pixels whose
/// upper left corner is at `(x, y)`.
#[derive(Clone, Debug)]
pub struct RenderedGlyph {
    pub x: i64,
    pub y: i64,
    pub width: u32,
    pub height: u32,
    pub pixels: Vec<u8>,
}

/// [`RenderedGlyph`] with its pixels as a sequence.
#[verifier::ext_equal]
pub struct RenderedGlyphView {
    pub x: int,
    pub y: int,
    pub width: int,
    pub height: int,
    pub pixels: Seq<u8>,
}

impl View for RenderedGlyph {
    type V = RenderedGlyphView;

    open spec fn view(&self) -> RenderedGlyphView {
        RenderedGlyphView {
            x: self.x as int,
            y: self.y as int,
            width: self.width as int,
            height: self.height as int,
            pixels: self.pixels@,
        }
    }
}

pub open spec fn glyph_views(s: Seq<RenderedGlyph>) -> Seq<RenderedGlyphView> {
    s.map_values(|g: RenderedGlyph| g@)
}

/// Whether a glyph has a bitmap with a byte for each pixel.
pub open spec fn has_bitmap(g: GlyphView) -> bool {
    &&& g.width > 0
    &&& g.rows > 0
    &&& (g.rows - 1) * raster::abs(g.pitch as int) + g.width <= g.buffer.len()
}

/// Where row `row` of the bitmap starts, counted from the top: a negative pitch
/// means that the bottom row comes first.
pub open spec fn row_start(g: GlyphView, row: int) -> int {
    if g.pitch >= 0 {
        row * g.pitch
    } else {
        (g.rows - 1 - row) * raster::abs(g.pitch as int)
    }
}

/// The bitmap of a glyph, top row first and without gaps.
pub open spec fn bitmap_pixels(g: GlyphView) -> Seq<u8> {
    let w = g.width as int;
    Seq::new(
        (g.rows * g.width) as nat,
        |i: int| g.buffer[row_start(g, i / w) + i % w],
    )
}

/// The glyph with the pen at `(x, y)` on the baseline.
pub open spec fn placed(g: GlyphView, x: int, y: int) -> RenderedGlyphView {
    RenderedGlyphView {
        x: x + g.left,
        y: y - g.top,
        width: g.width as int,
        height: g.rows as int,
        pixels: bitmap_pixels(g),
    }
}

/// Copies the bitmap of a glyph, top row first and without gaps.
fn copy_bitmap(g: &LoadedGlyph) -> (pixels: Vec<u8>)
    requires
        has_bitmap(g@),
    ensures
        pixels@ == bitmap_pixels(g@),
{
    let w: usize = g.width as usize;
    let h: usize = g.rows as usize;
    let pitch: usize = if g.pitch >= 0 {
        g.pitch as usize
    } else {
        (-(g.pitch as i64)) as usize
    };
    let len: usize = g.buffer.len();
    let ghost all = bitmap_pixels(g@);
    let mut pixels: Vec<u8> = Vec::new();
    assert(0 * w == 0);
    assert(pixels@ =~= all.take(0));
    for row in 0..h
        invariant
            has_bitmap(g@),
            len == g@.buffer.len(),
            w == g.width,
            h == g.rows,
            pitch == raster::abs(g.pitch as int),
            all == bitmap_pixels(g@),
            pixels@ == all.take(row * w),
    {
        proof {
            assert(0 <= row * pitch <= (h - 1) * pitch) by (nonlinear_arith)
                requires
                    0 <= row <= h - 1,
                    pitch >= 0,
            ;
            assert(0 <= (h - 1 - row) * pitch <= (h - 1) * pitch) by (nonlinear_arith)
                requires
                    0 <= row <= h - 1,
                    pitch >= 0,
            ;
        }
        let start: usize = if g.pitch >= 0 {
            row * pitch
        } else {
            (h - 1 - row) * pitch
        };
        assert(start == row_start(g@, row as int));
        for col in 0..w
            invariant
                has_bitmap(g@),
                row < h,
                w == g.width,
                h == g.rows,
                start == row_start(g@, row as int),
                len == g@.buffer.len(),
                start + w <= len,
                all == bitmap_pixels(g@),
                pixels@ == all.take(row * w + col),
        {
            proof {
                crate::kms::image::lemma_word_of_pixel(w as int, h as int, col as int, row as int);
                assert(w * h == h * w) by (nonlinear_arith);
            }
            pixels.push(g.buffer[start + col]);
            assert(pixels@ =~= all.take(row * w + col + 1));
        }
        assert((row + 1) * w == row * w + w) by (nonlinear_arith);
    }
    assert(pixels@ =~= all);
    pixels
}

/// Whether a glyph has a bitmap with a byte for each pixel.
fn bitmap_fits(g: &LoadedGlyph) -> (r: bool)
    ensures
        r == has_bitmap(g@),
{
    if g.width <= 0 || g.rows <= 0 {
        return false;
    }
    let pitch: u64 = if g.pitch >= 0 {
        g.pitch as u64
    } else {
        (-(g.pitch as i64)) as u64
    };
    let rows: u64 = (g.rows - 1) as u64;
    assert(0 <= rows * pitch <= 0x8000_0000 * 0x8000_0000) by (nonlinear_arith)
        requires
            0 <= rows <= 0x8000_0000,
            0 <= pitch <= 0x8000_0000,
    ;
    rows * pitch + g.width as u64 <= g.buffer.len() as u64
}

/// Bytes from row to row of a mask: rows are padded to words of four bytes.
pub open spec fn mask_stride(width: int) -> int {
    (width + 3) / 4 * 4
}

/// The coverage of a glyph with its rows padded by zeros.
pub open spec fn mask_bytes(g: RenderedGlyphView) -> Seq<u8> {
    let stride = mask_stride(g.width);
    Seq::new(
        (stride * g.height) as nat,
        |i: int|
            if i % stride < g.width {
                g.pixels[i / stride * g.width + i % stride]
            } else {
                0u8
            },
    )
}

/// Coverage of eight bits a pixel, in the layout of the compositing library.
#[derive(Clone, Debug)]
pub struct CoverageMask {
    /// Bytes from row to row.
    pub stride: usize,
    pub bytes: Vec<u8>,
}

/// Lays the coverage of a glyph out as a mask to blend through.
pub fn coverage_mask(g: &RenderedGlyph) -> (r: CoverageMask)
    requires
        g@.pixels.len() == g.width * g.height,
        g.width <= i32::MAX,
    ensures
        r.stride == mask_stride(g.width as int),
        r.bytes@ == mask_bytes(g@),
{
    let w: usize = g.width as usize;
    let h: usize = g.height as usize;
    let stride: usize = (w + 3) / 4 * 4;
    let len: usize = g.pixels.len();
    let ghost all = mask_bytes(g@);
    let mut bytes: Vec<u8> = Vec::new();
    assert(0 * stride == 0);
    assert(bytes@ =~= all.take(0));
    for row in 0..h
        invariant
            w == g.width,
            h == g.height,
            len == g@.pixels.len(),
            len == w * h,
            stride == mask_stride(w as int),
            all == mask_bytes(g@),
            bytes@ == all.take(row * stride),
    {
        proof {
            assert(0 <= row * w && row * w + w <= w * h) by (nonlinear_arith)
                requires
                    0 <= row < h,
                    0 <= w,
            ;
        }
        let start: usize = row * w;
        for col in 0..stride
            invariant
                w == g.width,
                h == g.height,
                row < h,
                len == g@.pixels.len(),
                start == row * w,
                start + w <= len,
                stride == mask_stride(w as int),
                all == mask_bytes(g@),
                bytes@ == all.take(row * stride + col),
        {
            proof {
                crate::kms::image::lemma_word_of_pixel(
                    stride as int,
                    h as int,
                    col as int,
                    row as int,
                );
            }
            let byte: u8 = if col < w {
                g.pixels[start + col]
            } else {
                0
            };
            bytes.push(byte);
            assert(bytes@ =~= all.take(row * stride + col + 1));
        }
        assert((row + 1) * stride == row * stride + stride) by (nonlinear_arith);
    }
    assert(h * stride == stride * h) by (nonlinear_arith);
    assert(bytes@ =~= all);
    CoverageMask { stride, bytes }
}

/// Whether `loaded[i]` was asked of `font` for character `i` of `text`, or is
/// blank where the font does not have it.
pub open spec fn loads(
    font: u32,
    infos: Seq<CharInfo>,
    text: Seq<u8>,
    loaded: Seq<GlyphView>,
) -> bool {
    &&& loaded.len() == text.len()
    &&& forall|i: int| 0 <= i < text.len() ==> (#[trigger] loaded[i]).font == font
    &&& forall|i: int| 0 <= i < text.len() ==> (#[trigger] loaded[i]).code == text[i]
    &&& forall|i: int|
        0 <= i < text.len() && info_of(infos, text[i]) is None ==> #[trigger] loaded[i]
            == GlyphView::blank(font, text[i] as u32)
}

/// The glyphs for the first `n` characters of `text`, with the pen starting at
/// `(x, y)`; `loaded[i]` is the glyph for character `i`. Characters
/// that the font does not have, and glyphs without a bitmap, only move the pen.
pub open spec fn laid_out(
    infos: Seq<CharInfo>,
    text: Seq<u8>,
    loaded: Seq<GlyphView>,
    x: int,
    y: int,
    n: int,
) -> Seq<RenderedGlyphView>
    decreases n,
{
    if n <= 0 {
        Seq::empty()
    } else {
        let before = laid_out(infos, text, loaded, x, y, n - 1);
        if info_of(infos, text[n - 1]) is Some && has_bitmap(loaded[n - 1]) {
            before.push(placed(loaded[n - 1], x + text_width(infos, text, n - 1), y))
        } else {
            before
        }
    }
}

/// Puts one rendered glyph in place, if it has a bitmap.
pub fn place_glyph(g: &LoadedGlyph, x: i64, y: i64) -> (r: Option<RenderedGlyph>)
    requires
        -0x1_0000_0000_0000 <= x <= 0x1_0000_0000_0000,
        -0x1_0000_0000_0000 <= y <= 0x1_0000_0000_0000,
    ensures
        match r {
            Some(out) => has_bitmap(g@) && out@ == placed(g@, x as int, y as int)
                && out@.pixels.len() == out.width * out.height,
            None => !has_bitmap(g@),
        },
{
    if !bitmap_fits(g) {
        return None;
    }
    let pixels = copy_bitmap(g);
    assert(0 <= g.rows * g.width == g.width * g.rows) by (nonlinear_arith)
        requires
            g.width > 0,
            g.rows > 0,
    ;
    Some(
        RenderedGlyph {
            x: x + g.left as i64,
            y: y - g.top as i64,
            width: g.width as u32,
            height: g.rows as u32,
            pixels,
        },
    )
}

/// Has `font` render the characters of `text`, in order. Those that it does not
/// have are blank.
pub fn load_text(font: &FontFace, infos: &Vec<CharInfo>, text: &[u8]) -> (r: Vec<LoadedGlyph>)
    ensures
        loads(font.handle, infos@, text@, face::loaded_views(r@)),
{
    let mut glyphs: Vec<LoadedGlyph> = Vec::new();
    let ghost mut views = face::loaded_views(glyphs@);
    let n: usize = text.len();
    for i in 0..n
        invariant
            n == text@.len(),
            views == face::loaded_views(glyphs@),
            views.len() == i,
            forall|j: int| 0 <= j < i ==> (#[trigger] views[j]).font == font.handle,
            forall|j: int| 0 <= j < i ==> (#[trigger] views[j]).code == text@[j],
            forall|j: int|
                0 <= j < i && info_of(infos@, text@[j]) is None ==> #[trigger] views[j]
                    == GlyphView::blank(font.handle, text@[j] as u32),
    {
        let ch: u8 = text[i];
        let glyph = match char_info(infos, ch) {
            Some(_) => load_glyph(font, ch as u32),
            None => LoadedGlyph::blank(font.handle, ch as u32),
        };
        proof {
            views = views.push(glyph@);
        }
        glyphs.push(glyph);
        assert(views =~= face::loaded_views(glyphs@));
    }
    glyphs
}

/// Puts the glyphs of `text` in place, the pen starting at `(x, y)` on the
/// baseline; `glyphs[i]` is that of character `i`.
pub fn lay_out_text(
    infos: &Vec<CharInfo>,
    text: &[u8],
    glyphs: &Vec<LoadedGlyph>,
    x: i64,
    y: i16,
) -> (out: Vec<RenderedGlyph>)
    requires
        glyphs@.len() == text@.len(),
        -0x2_0000_0000 <= x <= 0x2_0000_0000,
        text@.len() <= 0xffff_ffff,
    ensures
        glyph_views(out@) == laid_out(
            infos@,
            text@,
            face::loaded_views(glyphs@),
            x as int,
            y as int,
            text@.len() as int,
        ),
{
    let mut out: Vec<RenderedGlyph> = Vec::new();
    let mut pen: i64 = x;
    let ghost loaded = face::loaded_views(glyphs@);
    let n: usize = text.len();
    assert(glyph_views(out@) =~= laid_out(infos@, text@, loaded, x as int, y as int, 0));
    for i in 0..n
        invariant
            n == text@.len(),
            n == glyphs@.len(),
            n <= 0xffff_ffff,
            -0x2_0000_0000 <= x <= 0x2_0000_0000,
            loaded == face::loaded_views(glyphs@),
            pen == x + text_width(infos@, text@, i as int),
            glyph_views(out@) == laid_out(infos@, text@, loaded, x as int, y as int, i as int),
    {
        proof {
            lemma_text_width_range(infos@, text@, i as int);
            assert(loaded[i as int] == glyphs@[i as int]@);
        }
        match char_info(infos, text[i]) {
            None => {
                pen = pen + MISSING_ADVANCE as i64;
            },
            Some(info) => {
                let ghost so_far = out@;
                if let Some(rendered) = place_glyph(&glyphs[i], pen, y as i64) {
                    out.push(rendered);
                    assert(glyph_views(out@) =~= glyph_views(so_far).push(rendered@));
                }
                pen = pen + info.character_width as i64;
            },
        }
    }
    out
}

/// A string that was rendered: the colour to blend it in, the glyphs for
/// its characters, and the glyphs in place.
#[derive(Debug)]
pub struct RenderedText {
    pub color: Color,
    pub loaded: Vec<LoadedGlyph>,
    pub glyphs: Vec<RenderedGlyph>,
}

/// [`RenderedText`] over sequences.
#[verifier::ext_equal]
pub struct RenderedTextView {
    pub color: Color,
    pub loaded: Seq<GlyphView>,
    pub glyphs: Seq<RenderedGlyphView>,
}

impl View for RenderedText {
    type V = RenderedTextView;

    open spec fn view(&self) -> RenderedTextView {
        RenderedTextView {
            color: self.color,
            loaded: face::loaded_views(self.loaded@),
            glyphs: glyph_views(self.glyphs@),
        }
    }
}

impl RenderedTextView {
    /// A string of which nothing is drawn.
    pub open spec fn empty(color: Color) -> RenderedTextView {
        RenderedTextView { color, loaded: Seq::empty(), glyphs: Seq::empty() }
    }
}

impl RenderedText {
    pub fn empty(color: Color) -> (r: Self)
        ensures
            r@ == RenderedTextView::empty(color),
    {
        let r = RenderedText { color, loaded: Vec::new(), glyphs: Vec::new() };
        assert(r@ =~= RenderedTextView::empty(color));
        r
    }
}

/// Whether some pixel of the glyph lies in an image of `iw` by `ih`.
pub open spec fn is_on_image(g: RenderedGlyphView, iw: int, ih: int) -> bool {
    g.x + g.width > 0 && g.y + g.height > 0 && g.x < iw && g.y < ih
}

/// Whether some pixel of the glyph lies in an image of `iw` by `ih`: others are
/// not worth compositing.
pub fn glyph_is_visible(g: &RenderedGlyph, iw: u16, ih: u16) -> (r: bool)
    ensures
        r == is_on_image(g@, iw as int, ih as int),
{
    let right: i128 = g.x as i128 + g.width as i128;
    let bottom: i128 = g.y as i128 + g.height as i128;
    right > 0 && bottom > 0 && g.x < iw as i64 && g.y < ih as i64
}

/// One item of PolyText8.
#[derive(Clone, Debug)]
pub enum TextItem {
    /// Change to the font with this identifier.
    Font { xid: u32 },
    /// Draw `text` with the pen at `x`.
    Run { x: i64, text: Vec<u8> },
}

/// [`TextItem`] with its text as a sequence.
#[verifier::ext_equal]
pub enum TextItemView {
    Font { xid: u32 },
    Run { x: int, text: Seq<u8> },
}

impl View for TextItem {
    type V = TextItemView;

    open spec fn view(&self) -> TextItemView {
        match self {
            TextItem::Font { xid } => TextItemView::Font { xid: *xid },
            TextItem::Run { x, text } => TextItemView::Run { x: *x as int, text: text@ },
        }
    }
}

pub open spec fn item_views(s: Seq<TextItem>) -> Seq<TextItemView> {
    s.map_values(|i: TextItem| i@)
}

/// The items of PolyText8 from byte `at` on, with the pen at `x`. An item starts
/// with a byte: 0 ends the list; 255 changes the font to the identifier in the
/// last four of seven bytes that follow; any other is the length of a string,
/// and moves the pen by as much. A truncated item ends the list.
pub open spec fn text_items(body: Seq<u8>, at: int, x: int) -> Seq<TextItemView>
    decreases body.len() - at,
{
    if at < 0 || at >= body.len() || body[at] == 0 {
        Seq::empty()
    } else if body[at] == 255 {
        if at + 8 <= body.len() {
            seq![TextItemView::Font { xid: wire::u32_at(body, at + 4) as u32 }] + text_items(
                body,
                at + 8,
                x,
            )
        } else {
            Seq::empty()
        }
    } else {
        let n = body[at] as int;
        if at + 1 + n <= body.len() {
            seq![TextItemView::Run { x, text: body.subrange(at + 1, at + 1 + n) }] + text_items(
                body,
                at + 1 + n,
                x + n,
            )
        } else {
            Seq::empty()
        }
    }
}

/// Where the text of a text request starts, behind drawable, context and
/// position.
pub const TEXT_START: usize = 12;

/// Reads the items of PolyText8. A body without a position has none.
pub fn read_text_items(body: &[u8]) -> (r: Vec<TextItem>)
    requires
        body@.len() <= 0xffff_ffff,
    ensures
        item_views(r@) == (if body@.len() < TEXT_START {
            Seq::empty()
        } else {
            text_items(body@, TEXT_START as int, wire::i16_at(body@, 8))
        }),
{
    let mut items: Vec<TextItem> = Vec::new();
    let len: usize = body.len();
    if len < TEXT_START {
        assert(item_views(items@) =~= Seq::<TextItemView>::empty());
        return items;
    }
    let mut x: i64 = read_i16(body, 8) as i64;
    let ghost x0: int = x as int;
    let ghost all = text_items(body@, TEXT_START as int, x0);
    let mut at: usize = TEXT_START;
    assert(all =~= item_views(items@) + text_items(body@, at as int, x as int));
    while at < len
        invariant_except_break
            len == body@.len(),
            len <= 0xffff_ffff,
            TEXT_START <= at <= len,
            -32768 <= x <= 32767 + at,
            all == item_views(items@) + text_items(body@, at as int, x as int),
        ensures
            item_views(items@) == all,
        decreases len - at,
    {
        let ghost before = items@;
        let lead: u8 = body[at];
        if lead == 0 {
            assert(all =~= item_views(items@));
            break;
        }
        if lead == 255 {
            if len - at < 8 {
                assert(all =~= item_views(items@));
                break;
            }
            let xid: u32 = read_u32(body, at + 4);
            items.push(TextItem::Font { xid });
            assert(item_views(items@) =~= item_views(before).push(TextItemView::Font { xid }));
            at += 8;
        } else {
            let n: usize = lead as usize;
            if len - at - 1 < n {
                assert(all =~= item_views(items@));
                break;
            }
            let text = vstd::slice::slice_to_vec(
                vstd::slice::slice_subrange(body, at + 1, at + 1 + n),
            );
            items.push(TextItem::Run { x, text });
            assert(item_views(items@) =~= item_views(before).push(
                TextItemView::Run { x: x as int, text: text@ },
            ));
            at += 1 + n;
            x += n as i64;
        }
        assert(all =~= item_views(items@) + text_items(body@, at as int, x as int));
        assert(at == len ==> text_items(body@, at as int, x as int) =~= Seq::empty());
        assert(at == len ==> all =~= item_views(items@));
    }
    items
}

/// `v`, or the nearest unsigned 16-bit value.
pub open spec fn clamped_u16(v: int) -> int {
    if v < 0 {
        0
    } else if v > 0xffff {
        0xffff
    } else {
        v
    }
}

/// The text of ImageText8: as many bytes as announced, or as there are.
pub open spec fn image_text(body: Seq<u8>, text_len: u8) -> Seq<u8> {
    let end = TEXT_START + text_len;
    body.subrange(
        TEXT_START as int,
        if end <= body.len() {
            end
        } else {
            body.len() as int
        },
    )
}

/// The background of a line of text: as wide as the text, from the ascent of
/// the font to its descent.
pub open spec fn text_background(
    infos: Seq<CharInfo>,
    ascent: int,
    descent: int,
    x: int,
    y: int,
    text: Seq<u8>,
) -> Rectangle16 {
    Rectangle16 {
        x: raster::clamped_i16(x) as i16,
        y: raster::clamped_i16(y - ascent) as i16,
        width: clamped_u16(text_width(infos, text, text.len() as int)) as u16,
        height: clamped_u16(ascent + descent) as u16,
    }
}

fn clamp_u16(v: i64) -> (r: u16)
    ensures
        r == clamped_u16(v as int),
{
    if v < 0 {
        0
    } else if v > 0xffff {
        0xffff
    } else {
        v as u16
    }
}

pub fn background_rect(
    infos: &Vec<CharInfo>,
    ascent: i16,
    descent: i16,
    x: i16,
    y: i16,
    text: &[u8],
) -> (r: Rectangle16)
    requires
        text@.len() <= 0xffff_ffff,
    ensures
        r == text_background(
            infos@,
            ascent as int,
            descent as int,
            x as int,
            y as int,
            text@,
        ),
{
    let mut total: i64 = 0;
    let n: usize = text.len();
    for i in 0..n
        invariant
            n == text@.len(),
            n <= 0xffff_ffff,
            total == text_width(infos@, text@, i as int),
    {
        proof {
            lemma_text_width_range(infos@, text@, i as int);
        }
        let step: i16 = match char_info(infos, text[i]) {
            Some(info) => info.character_width,
            None => MISSING_ADVANCE,
        };
        total = total + step as i64;
    }
    Rectangle16 {
        x,
        y: clamp_i16(y as i64 - ascent as i64),
        width: clamp_u16(total),
        height: clamp_u16(ascent as i64 + descent as i64),
    }
}

/// Pixels land on their rows: pixel `col` of row `row` of a bitmap is at the same
/// place of the mask that it is blended through.
pub proof fn lemma_pixels_land_on_their_rows(g: GlyphView, x: int, y: int, row: int, col: int)
    requires
        has_bitmap(g),
        0 <= row < g.rows,
        0 <= col < g.width,
    ensures
        ({
            let at = row * mask_stride(g.width as int) + col;
            &&& 0 <= at < mask_bytes(placed(g, x, y)).len()
            &&& mask_bytes(placed(g, x, y))[at] == g.buffer[row_start(g, row) + col]
        }),
{
    let w = g.width as int;
    let h = g.rows as int;
    crate::kms::image::lemma_word_of_pixel(mask_stride(w), h, col, row);
    crate::kms::image::lemma_word_of_pixel(w, h, col, row);
    assert(w * h == h * w) by (nonlinear_arith);
}

/// Each glyph lands in place: of the characters of a string, number `k` comes out
/// at the pen's start moved by the widths of those before it, behind the glyphs
/// of those before it. One without a glyph adds nothing.
pub proof fn lemma_each_glyph_lands_in_place(
    infos: Seq<CharInfo>,
    text: Seq<u8>,
    loaded: Seq<GlyphView>,
    x: int,
    y: int,
    k: int,
)
    requires
        loaded.len() == text.len(),
        0 <= k < text.len(),
    ensures
        ({
            let before = laid_out(infos, text, loaded, x, y, k);
            let all = laid_out(infos, text, loaded, x, y, text.len() as int);
            if info_of(infos, text[k]) is Some && has_bitmap(loaded[k]) {
                &&& before.len() < all.len()
                &&& all[before.len() as int] == placed(
                    loaded[k],
                    x + text_width(infos, text, k),
                    y,
                )
            } else {
                laid_out(infos, text, loaded, x, y, k + 1) == before
            }
        }),
{
    lemma_laid_out_grows(infos, text, loaded, x, y, k + 1, text.len() as int);
    let all = laid_out(infos, text, loaded, x, y, text.len() as int);
    let upto = laid_out(infos, text, loaded, x, y, k + 1);
    assert(upto.len() > 0 ==> upto.last() == all[upto.len() - 1]);
}

/// What is laid out of the first characters stays when more follow.
proof fn lemma_laid_out_grows(
    infos: Seq<CharInfo>,
    text: Seq<u8>,
    loaded: Seq<GlyphView>,
    x: int,
    y: int,
    k: int,
    n: int,
)
    requires
        k <= n,
    ensures
        laid_out(infos, text, loaded, x, y, k).len() <= laid_out(
            infos,
            text,
            loaded,
            x,
            y,
            n,
        ).len(),
        forall|j: int|
            0 <= j < laid_out(infos, text, loaded, x, y, k).len() ==> laid_out(
                infos,
                text,
                loaded,
                x,
                y,
                k,
            )[j] == #[trigger] laid_out(infos, text, loaded, x, y, n)[j],
    decreases n - k,
{
    if k < n {
        lemma_laid_out_grows(infos, text, loaded, x, y, k, n - 1);
    }
}

/// Text goes on where it stopped: two strings one behind the other come out as
/// the first, and then the second with the pen where the first left it.
pub proof fn lemma_text_goes_on(
    infos: Seq<CharInfo>,
    a: Seq<u8>,
    b: Seq<u8>,
    loaded_a: Seq<GlyphView>,
    loaded_b: Seq<GlyphView>,
    x: int,
    y: int,
)
    requires
        loaded_a.len() == a.len(),
        loaded_b.len() == b.len(),
    ensures
        text_width(infos, a + b, (a + b).len() as int) == text_width(infos, a, a.len() as int)
            + text_width(infos, b, b.len() as int),
        laid_out(infos, a + b, loaded_a + loaded_b, x, y, (a + b).len() as int) == laid_out(
            infos,
            a,
            loaded_a,
            x,
            y,
            a.len() as int,
        ) + laid_out(
            infos,
            b,
            loaded_b,
            x + text_width(infos, a, a.len() as int),
            y,
            b.len() as int,
        ),
{
    lemma_first_part(infos, a, b, loaded_a, loaded_b, x, y, a.len() as int);
    lemma_second_part(infos, a, b, loaded_a, loaded_b, x, y, b.len() as int);
}

proof fn lemma_first_part(
    infos: Seq<CharInfo>,
    a: Seq<u8>,
    b: Seq<u8>,
    loaded_a: Seq<GlyphView>,
    loaded_b: Seq<GlyphView>,
    x: int,
    y: int,
    n: int,
)
    requires
        loaded_a.len() == a.len(),
        0 <= n <= a.len(),
    ensures
        text_width(infos, a + b, n) == text_width(infos, a, n),
        laid_out(infos, a + b, loaded_a + loaded_b, x, y, n) == laid_out(
            infos,
            a,
            loaded_a,
            x,
            y,
            n,
        ),
    decreases n,
{
    if n > 0 {
        lemma_first_part(infos, a, b, loaded_a, loaded_b, x, y, n - 1);
        assert((a + b)[n - 1] == a[n - 1]);
        assert((loaded_a + loaded_b)[n - 1] == loaded_a[n - 1]);
    }
}

proof fn lemma_second_part(
    infos: Seq<CharInfo>,
    a: Seq<u8>,
    b: Seq<u8>,
    loaded_a: Seq<GlyphView>,
    loaded_b: Seq<GlyphView>,
    x: int,
    y: int,
    n: int,
)
    requires
        loaded_a.len() == a.len(),
        loaded_b.len() == b.len(),
        0 <= n <= b.len(),
    ensures
        text_width(infos, a + b, a.len() + n) == text_width(infos, a, a.len() as int)
            + text_width(infos, b, n),
        laid_out(infos, a + b, loaded_a + loaded_b, x, y, a.len() + n) == laid_out(
            infos,
            a,
            loaded_a,
            x,
            y,
            a.len() as int,
        ) + laid_out(infos, b, loaded_b, x + text_width(infos, a, a.len() as int), y, n),
    decreases n,
{
    let pen = x + text_width(infos, a, a.len() as int);
    let first = laid_out(infos, a, loaded_a, x, y, a.len() as int);
    if n > 0 {
        lemma_second_part(infos, a, b, loaded_a, loaded_b, x, y, n - 1);
        assert((a + b)[a.len() + n - 1] == b[n - 1]);
        assert((loaded_a + loaded_b)[a.len() + n - 1] == loaded_b[n - 1]);
        assert(laid_out(infos, a + b, loaded_a + loaded_b, x, y, a.len() + n) =~= first + laid_out(
            infos,
            b,
            loaded_b,
            pen,
            y,
            n,
        ));
    } else {
        lemma_first_part(infos, a, b, loaded_a, loaded_b, x, y, a.len() as int);
        assert(first + laid_out(infos, b, loaded_b, pen, y, 0) =~= first);
    }
}

} // verus!
