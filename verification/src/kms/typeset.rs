//! Text on windows and pixmaps.

use vstd::prelude::*;

use crate::backend::FontHandle;
use crate::filters;
use crate::kms::face::SizeReply;
use crate::kms::fonts::{prepare_face, MeasuredFace};
use crate::kms::image;
use crate::kms::image::{color_from_u32, SolidFill};
use crate::kms::paint;
use crate::kms::raster::Rectangle16;
use crate::kms::state::{FontState, FontStateView, KmsBackend, KmsView};
use crate::kms::text;
use crate::kms::text::{
    background_rect, glyph_is_visible, lay_out_text, load_text, read_text_items, RenderedGlyph,
    RenderedGlyphView, RenderedText, RenderedTextView, TextItem, TextItemView, TEXT_START,
};
use crate::protocol::{FontMetrics, FontMetricsView};
use crate::wire;
use crate::wire::read_i16;

verus! {

/// Holds of glyphs that have a pixel in an image of `iw` by `ih`.
pub open spec fn on_image(iw: int, ih: int) -> spec_fn(RenderedGlyphView) -> bool {
    |g: RenderedGlyphView| text::is_on_image(g, iw, ih)
}

impl KmsView {
    /// Whether `out` is what drawing `text` on a drawable comes to, with the pen
    /// at `(x, y)` and in the font `font`: the glyphs that were asked of it,
    /// in place, without those that miss the drawable. Nothing without a font or a
    /// drawable.
    pub open spec fn is_rendering(
        self,
        xid: u32,
        foreground: u32,
        font: Option<u32>,
        x: int,
        y: int,
        text: Seq<u8>,
        out: RenderedTextView,
    ) -> bool {
        let color = image::pixel_color(foreground);
        match (font, self.image_of(xid)) {
            (Some(font), Some(img)) => if self.fonts.contains_key(font) {
                let FontStateView { handle, metrics, .. } = self.fonts[font];
                let infos = metrics.char_infos;
                &&& out.color == color
                &&& text::loads(handle, infos, text, out.loaded)
                &&& out.glyphs == text::laid_out(
                    infos,
                    text,
                    out.loaded,
                    x,
                    y,
                    text.len() as int,
                ).filter(on_image(img.width as int, img.height as int))
            } else {
                out == RenderedTextView::empty(color)
            },
            _ => out == RenderedTextView::empty(color),
        }
    }

    /// The state with another open font, filed under a new identifier.
    pub open spec fn with_new_font(
        self,
        face: freetype::Face,
        size: SizeReply,
        metrics: FontMetricsView,
    ) -> KmsView {
        KmsView {
            next_host_xid: self.new_xid(),
            fonts: self.fonts.insert(
                self.new_xid(),
                FontStateView { handle: self.new_xid(), face, size, metrics },
            ),
            ..self
        }
    }
}

/// The font in force after the first `n` items.
pub open spec fn font_after(items: Seq<TextItemView>, font: Option<u32>, n: int) -> Option<u32>
    decreases n,
{
    if n <= 0 {
        font
    } else {
        match items[n - 1] {
            TextItemView::Font { xid } => Some(xid),
            TextItemView::Run { .. } => font_after(items, font, n - 1),
        }
    }
}

/// Whether `out[i]` is the rendering of item `i`, in the font in force there.
pub open spec fn are_renderings(
    state: KmsView,
    xid: u32,
    foreground: u32,
    items: Seq<TextItemView>,
    y: int,
    out: Seq<RenderedTextView>,
) -> bool {
    &&& out.len() == items.len()
    &&& forall|i: int|
        0 <= i < items.len() ==> match #[trigger] items[i] {
            TextItemView::Font { .. } => out[i] == RenderedTextView::empty(
                image::pixel_color(foreground),
            ),
            TextItemView::Run { x, text } => state.is_rendering(
                xid,
                foreground,
                font_after(items, state.current_font, i),
                x,
                y,
                text,
                out[i],
            ),
        }
}

/// The items of a PolyText8 body.
pub open spec fn body_items(body: Seq<u8>) -> Seq<TextItemView> {
    if body.len() < TEXT_START {
        Seq::empty()
    } else {
        text::text_items(body, TEXT_START as int, wire::i16_at(body, 8))
    }
}

pub open spec fn rendering_views(out: Seq<RenderedText>) -> Seq<RenderedTextView> {
    out.map_values(|t: RenderedText| t@)
}

/// Keeps the glyphs that have a pixel in an image of `iw` by `ih`.
fn keep_visible(glyphs: Vec<RenderedGlyph>, iw: u16, ih: u16) -> (r: Vec<RenderedGlyph>)
    ensures
        text::glyph_views(r@) == text::glyph_views(glyphs@).filter(
            on_image(iw as int, ih as int),
        ),
{
    let ghost all = text::glyph_views(glyphs@);
    let ghost keep = on_image(iw as int, ih as int);
    let ghost total = glyphs@.len();
    let mut rest = glyphs;
    let mut kept: Vec<RenderedGlyph> = Vec::new();
    proof {
        reveal(Seq::filter);
        assert(all.skip(total as int) =~= Seq::empty());
        assert(text::glyph_views(rest@) =~= all.take(total as int));
        assert(text::glyph_views(kept@).reverse() =~= Seq::empty());
    }
    while rest.len() > 0
        invariant
            keep == on_image(iw as int, ih as int),
            all.len() == total,
            rest@.len() <= total,
            text::glyph_views(rest@) == all.take(rest@.len() as int),
            text::glyph_views(kept@).reverse() == all.skip(rest@.len() as int).filter(keep),
        decreases rest@.len(),
    {
        let ghost before = rest@;
        let ghost so_far = kept@;
        let n: usize = rest.len();
        if let Some(g) = rest.pop() {
            proof {
                assert(text::glyph_views(rest@) =~= all.take(n - 1));
                assert(text::glyph_views(before)[n - 1] == g@);
                assert(all.take(n as int)[n - 1] == all[n - 1]);
                assert(all.skip(n - 1) =~= seq![g@] + all.skip(n as int));
                filters::lemma_filter_first(g@, all.skip(n as int), keep);
            }
            if glyph_is_visible(&g, iw, ih) {
                kept.push(g);
                assert(text::glyph_views(kept@) =~= text::glyph_views(so_far).push(g@));
                assert(text::glyph_views(kept@).reverse() =~= seq![g@] + text::glyph_views(
                    so_far,
                ).reverse());
            }
        }
    }
    assert(all.skip(0) =~= all);
    let ghost backwards = text::glyph_views(kept@);
    let mut out: Vec<RenderedGlyph> = Vec::new();
    let ghost count = kept@.len();
    assert(text::glyph_views(out@) =~= backwards.skip(count as int).reverse());
    while kept.len() > 0
        invariant
            backwards.len() == count,
            kept@.len() <= count,
            text::glyph_views(kept@) == backwards.take(kept@.len() as int),
            text::glyph_views(out@) == backwards.skip(kept@.len() as int).reverse(),
        decreases kept@.len(),
    {
        let ghost before = kept@;
        let ghost so_far = out@;
        let n: usize = kept.len();
        if let Some(g) = kept.pop() {
            proof {
                assert(text::glyph_views(before)[n - 1] == g@);
                assert(backwards.take(n as int)[n - 1] == backwards[n - 1]);
                assert(text::glyph_views(kept@) =~= backwards.take(n - 1));
                assert(backwards.skip(n - 1) =~= seq![g@] + backwards.skip(n as int));
                assert(backwards.skip(n - 1).reverse() =~= backwards.skip(n as int).reverse().push(
                    g@,
                ));
            }
            out.push(g);
            assert(text::glyph_views(out@) =~= text::glyph_views(so_far).push(g@));
        }
    }
    assert(backwards.skip(0) =~= backwards);
    out
}

impl KmsBackend {
    /// Takes over a face that was loaded for a client: sizes it, measures it and
    /// files it under a new identifier.
    pub fn open_font(&mut self, face: freetype::Face) -> (r: (FontHandle, MeasuredFace))
        requires
            old(self)@.next_host_xid < u32::MAX,
        ensures
            r.0.raw == old(self)@.new_xid(),
            r.1.wf(old(self)@.new_xid()),
            final(self)@ == old(self)@.with_new_font(face, r.1.size, r.1.metrics@),
    {
        broadcast use vstd::std_specs::hash::group_hash_axioms;

        let host_xid: u32 = self.take_host_xid();
        let (face, measured) = prepare_face(face, host_xid);
        let metrics = copy_metrics(&measured.metrics);
        let state = FontState { face, metrics };
        self.fonts.insert(host_xid, state);
        assert(self@.fonts =~= old(self)@.fonts.insert(host_xid, state@));
        (FontHandle { raw: host_xid }, measured)
    }

    pub fn close_font(&mut self, host_xid: u32)
        ensures
            final(self)@ == (KmsView {
                fonts: old(self)@.fonts.remove(host_xid),
                ..old(self)@
            }),
    {
        broadcast use vstd::std_specs::hash::group_hash_axioms;

        self.fonts.remove(&host_xid);
        assert(self@.fonts =~= old(self)@.fonts.remove(host_xid));
    }

    /// Renders `text` for a drawable in the current font, with the pen at
    /// `(x, y)`. The glyphs are left for the compositing library to blend in.
    pub fn render_text_string(
        &self,
        host_xid: u32,
        foreground: u32,
        x: i64,
        y: i16,
        text: &[u8],
    ) -> (out: RenderedText)
        requires
            -0x2_0000_0000 <= x <= 0x2_0000_0000,
            text@.len() <= 0xffff_ffff,
        ensures
            self@.is_rendering(
                host_xid,
                foreground,
                self@.current_font,
                x as int,
                y as int,
                text@,
                out@,
            ),
    {
        broadcast use vstd::std_specs::hash::group_hash_axioms;

        let color = color_from_u32(foreground);
        let Some(font_xid) = self.current_font else {
            return RenderedText::empty(color);
        };
        let (w, h): (u16, u16) = match self.image(host_xid) {
            Some(img) => (img.width, img.height),
            None => {
                return RenderedText::empty(color);
            },
        };
        match self.fonts.get(&font_xid) {
            Some(font) => {
                let infos = &font.metrics.char_infos;
                assert(self@.fonts[font_xid].metrics.char_infos == infos@);
                let loaded = load_text(&font.face, infos, text);
                let placed = lay_out_text(infos, text, &loaded, x, y);
                let glyphs = keep_visible(placed, w, h);
                RenderedText { color, loaded, glyphs }
            },
            None => RenderedText::empty(color),
        }
    }

    /// PolyText8: strings and font changes. Returns, for each item, the glyphs
    /// to blend in.
    pub fn poly_text8(&mut self, host_xid: u32, foreground: u32, body: &[u8]) -> (out: Vec<
        RenderedText,
    >)
        requires
            body@.len() <= 0xffff_ff00,
        ensures
            final(self)@ == (KmsView {
                current_font: font_after(
                    body_items(body@),
                    old(self)@.current_font,
                    body_items(body@).len() as int,
                ),
                ..old(self)@
            }),
            are_renderings(
                old(self)@,
                host_xid,
                foreground,
                body_items(body@),
                wire::i16_at(body@, 10),
                rendering_views(out@),
            ),
    {
        let mut out: Vec<RenderedText> = Vec::new();
        let items = read_text_items(body);
        let ghost views = body_items(body@);
        let n: usize = items.len();
        if body.len() < TEXT_START {
            assert(rendering_views(out@).len() == 0);
            assert(views.len() == 0);
            return out;
        }
        let y: i16 = read_i16(body, 10);
        for i in 0..n
            invariant
                n == items@.len(),
                views == text::item_views(items@),
                views == body_items(body@),
                body@.len() <= 0xffff_ff00,
                body@.len() >= TEXT_START,
                y == wire::i16_at(body@, 10),
                self@ == (KmsView {
                    current_font: font_after(views, old(self)@.current_font, i as int),
                    ..old(self)@
                }),
                out@.len() == i,
                forall|j: int|
                    0 <= j < i ==> match #[trigger] views[j] {
                        TextItemView::Font { .. } => rendering_views(out@)[j]
                            == RenderedTextView::empty(image::pixel_color(foreground)),
                        TextItemView::Run { x, text } => old(self)@.is_rendering(
                            host_xid,
                            foreground,
                            font_after(views, old(self)@.current_font, j),
                            x,
                            y as int,
                            text,
                            rendering_views(out@)[j],
                        ),
                    },
        {
            let ghost before = out@;
            assert(views[i as int] == items@[i as int]@);
            match &items[i] {
                TextItem::Font { xid } => {
                    self.current_font = Some(*xid);
                    out.push(RenderedText::empty(color_from_u32(foreground)));
                },
                TextItem::Run { x, text } => {
                    proof {
                        let start = wire::i16_at(body@, 8);
                        assert(-32768 <= start <= 32767);
                        lemma_item_range(body@, TEXT_START as int, start, i as int);
                        assert(views[i as int] == (TextItemView::Run {
                            x: *x as int,
                            text: text@,
                        }));
                    }
                    let rendered = self.render_text_string(
                        host_xid,
                        foreground,
                        *x,
                        y,
                        text.as_slice(),
                    );
                    proof {
                        assert(self@.image_of(host_xid) == old(self)@.image_of(host_xid));
                        assert(self@.fonts == old(self)@.fonts);
                    }
                    out.push(rendered);
                },
            }
            assert(rendering_views(out@) =~= rendering_views(before).push(out@[i as int]@));
        }
        assert(self@ =~= KmsView {
            current_font: font_after(views, old(self)@.current_font, views.len() as int),
            ..old(self)@
        });
        out
    }

    /// ImageText8: fills the background of a line of text, and renders it. What
    /// is left to fill comes before the glyphs.
    pub fn image_text8(
        &mut self,
        host_xid: u32,
        foreground: u32,
        background: u32,
        text_len: u8,
        body: &[u8],
    ) -> (r: (Option<SolidFill>, RenderedText))
        requires
            body@.len() <= 0xffff_ff00,
        ensures
            if body@.len() < TEXT_START {
                &&& final(self)@ == old(self)@
                &&& r.0 is None
                &&& r.1@ == RenderedTextView::empty(image::pixel_color(foreground))
            } else {
                let x = wire::i16_at(body@, 8);
                let y = wire::i16_at(body@, 10);
                let text = text::image_text(body@, text_len);
                let backed = match old(self)@.current_font {
                    Some(font) => if old(self)@.fonts.contains_key(font) {
                        let m = old(self)@.fonts[font].metrics;
                        old(self)@.painted(
                            host_xid,
                            background,
                            seq![
                                text::text_background(
                                    m.char_infos,
                                    m.font_ascent as int,
                                    m.font_descent as int,
                                    x,
                                    y,
                                    text,
                                ),
                            ],
                        )
                    } else {
                        paint::Painted { state: old(self)@, left: None }
                    },
                    None => paint::Painted { state: old(self)@, left: None },
                };
                &&& final(self)@ == backed.state
                &&& paint::fill_view(r.0) == backed.left
                &&& old(self)@.is_rendering(
                    host_xid,
                    foreground,
                    old(self)@.current_font,
                    x,
                    y,
                    text,
                    r.1@,
                )
            },
    {
        broadcast use vstd::std_specs::hash::group_hash_axioms;

        let len: usize = body.len();
        if len < TEXT_START {
            return (None, RenderedText::empty(color_from_u32(foreground)));
        }
        let x: i16 = read_i16(body, 8);
        let y: i16 = read_i16(body, 10);
        let announced: usize = TEXT_START + text_len as usize;
        let end: usize = if announced <= len {
            announced
        } else {
            len
        };
        let string = vstd::slice::slice_subrange(body, TEXT_START, end);
        assert(string@ =~= text::image_text(body@, text_len));
        let rendered = self.render_text_string(host_xid, foreground, x as i64, y, string);
        let mut backdrop: Option<Rectangle16> = None;
        if let Some(font_xid) = self.current_font {
            if let Some(font) = self.fonts.get(&font_xid) {
                backdrop = Some(
                    background_rect(
                        &font.metrics.char_infos,
                        font.metrics.font_ascent,
                        font.metrics.font_descent,
                        x,
                        y,
                        string,
                    ),
                );
            }
        }
        match backdrop {
            Some(rect) => {
                let left = self.fill_rectangle(
                    host_xid,
                    background,
                    rect.x,
                    rect.y,
                    rect.width,
                    rect.height,
                );
                (left, rendered)
            },
            None => (None, rendered),
        }
    }
}

/// The pen stays in range throughout a body.
proof fn lemma_item_range(body: Seq<u8>, at: int, x: int, i: int)
    requires
        0 <= at <= body.len(),
        0 <= i < text::text_items(body, at, x).len(),
    ensures
        match text::text_items(body, at, x)[i] {
            TextItemView::Run { x: rx, text } => x <= rx <= x + body.len() - at && text.len()
                <= 255,
            TextItemView::Font { .. } => true,
        },
    decreases body.len() - at,
{
    let items = text::text_items(body, at, x);
    if at < body.len() && body[at] != 0 && i > 0 {
        if body[at] == 255 {
            let rest = text::text_items(body, at + 8, x);
            assert(items[i] == rest[i - 1]);
            lemma_item_range(body, at + 8, x, i - 1);
        } else {
            let n = body[at] as int;
            let rest = text::text_items(body, at + 1 + n, x + n);
            assert(items[i] == rest[i - 1]);
            lemma_item_range(body, at + 1 + n, x + n, i - 1);
        }
    }
}

/// Copies metrics.
fn copy_metrics(m: &FontMetrics) -> (r: FontMetrics)
    ensures
        r@ == m@,
{
    let properties = m.properties.clone();
    let char_infos = m.char_infos.clone();
    assert(properties@ =~= m.properties@);
    assert(char_infos@ =~= m.char_infos@);
    FontMetrics {
        min_bounds: m.min_bounds,
        max_bounds: m.max_bounds,
        min_char_or_byte2: m.min_char_or_byte2,
        max_char_or_byte2: m.max_char_or_byte2,
        default_char: m.default_char,
        draw_direction: m.draw_direction,
        min_byte1: m.min_byte1,
        max_byte1: m.max_byte1,
        all_chars_exist: m.all_chars_exist,
        font_ascent: m.font_ascent,
        font_descent: m.font_descent,
        properties,
        char_infos,
    }
}

} // verus!
