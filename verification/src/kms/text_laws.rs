//! What holds of text, whatever a face renders.

use vstd::prelude::*;

use crate::filters;
use crate::kms::drawing_laws;
use crate::kms::face;
use crate::kms::face::{GlyphView, SizeReply};
use crate::kms::fonts;
use crate::kms::fonts::MeasuredFace;
use crate::kms::laws;
use crate::kms::raster;
use crate::kms::state::KmsView;
use crate::kms::text;
use crate::kms::text::{RenderedGlyphView, RenderedTextView, TextItemView};
use crate::kms::typeset;
use crate::protocol::{CharInfo, FontMetricsView};
use crate::wire;

verus! {

/// The pen moves by the width of each character in turn; the measures of a font start
/// with those of the space, and a character it has none for moves the pen by six.
pub proof fn lemma_pen_moves_by_each_width(infos: Seq<CharInfo>, s: Seq<u8>, n: int)
    requires
        0 <= n < s.len(),
    ensures
        text::text_width(infos, s, 0) == 0,
        text::text_width(infos, s, n + 1) - text::text_width(infos, s, n) == (if 32 <= s[n] && s[n]
            - 32 < infos.len() {
            infos[s[n] - 32].character_width as int
        } else {
            6
        }),
{
}

/// A glyph hangs from the pen: its left side as far to the right of it as the glyph
/// says, and its top as far above. Its pixels are those of the bitmap, top row first:
/// rows are `pitch` bytes apart, and stand last row first if `pitch` is negative.
pub proof fn lemma_glyph_hangs_from_the_pen(g: GlyphView, x: int, y: int, row: int, col: int)
    requires
        text::has_bitmap(g),
        0 <= row < g.rows,
        0 <= col < g.width,
    ensures
        ({
            let p = text::placed(g, x, y);
            let at = row * g.width + col;
            &&& p.x - x == g.left
            &&& y - p.y == g.top
            &&& p.width == g.width && p.height == g.rows
            &&& p.pixels.len() == g.width * g.rows
            &&& 0 <= at < p.pixels.len()
            &&& g.pitch >= 0 ==> p.pixels[at] == g.buffer[row * g.pitch + col]
            &&& g.pitch < 0 ==> p.pixels[at] == g.buffer[(g.rows - 1 - row) * (-g.pitch) + col]
        }),
{
    let w = g.width as int;
    let h = g.rows as int;
    crate::kms::image::lemma_word_of_pixel(w, h, col, row);
    assert(w * h == h * w) by (nonlinear_arith);
}

/// A glyph is drawn if it has a row and a column and the last row of its bitmap ends
/// within the bytes that came with it.
pub proof fn lemma_drawn_glyphs_have_their_bytes(g: GlyphView)
    ensures
        g.pitch >= 0 ==> (text::has_bitmap(g) <==> g.width > 0 && g.rows > 0 && (g.rows - 1)
            * g.pitch + g.width <= g.buffer.len()),
        g.pitch < 0 ==> (text::has_bitmap(g) <==> g.width > 0 && g.rows > 0 && (g.rows - 1) * (
        -g.pitch) + g.width <= g.buffer.len()),
{
}

/// Glyphs are kept if and only if one of their pixels is one of the image.
pub proof fn lemma_kept_glyphs_touch_the_image(g: RenderedGlyphView, iw: int, ih: int)
    requires
        g.width > 0,
        g.height > 0,
    ensures
        text::is_on_image(g, iw, ih) && iw > 0 && ih > 0 <==> exists|x: int, y: int|
            #![trigger is_pixel_of(g, x, y)]
            is_pixel_of(g, x, y) && 0 <= x < iw && 0 <= y < ih,
{
    if text::is_on_image(g, iw, ih) && iw > 0 && ih > 0 {
        let x: int = if g.x < 0 {
            0
        } else {
            g.x
        };
        let y: int = if g.y < 0 {
            0
        } else {
            g.y
        };
        assert(is_pixel_of(g, x, y));
    }
}

/// Whether the glyph has a pixel at `(x, y)`.
pub open spec fn is_pixel_of(g: RenderedGlyphView, x: int, y: int) -> bool {
    g.x <= x < g.x + g.width && g.y <= y < g.y + g.height
}

/// An item list ends with its bytes or at a zero. A byte of 255 changes the font to the
/// one in the last four of the seven bytes that follow. Any other byte is the length of
/// a string, which is drawn at the pen; the pen then moves on by the length. An item that
/// the bytes do not hold in full ends the list.
pub proof fn lemma_items_are_read_one_by_one(body: Seq<u8>, at: int, x: int)
    requires
        0 <= at < body.len(),
    ensures
        ({
            let items = text::text_items(body, at, x);
            let n = body[at] as int;
            &&& n == 0 ==> items.len() == 0
            &&& n == 255 && at + 8 > body.len() ==> items.len() == 0
            &&& n == 255 && at + 8 <= body.len() ==> {
                &&& items.len() > 0 && items[0] is Font
                &&& items[0]->xid == body[at + 4] + 0x100 * body[at + 5] + 0x1_0000 * body[at + 6]
                    + 0x100_0000 * body[at + 7]
                &&& items.drop_first() == text::text_items(body, at + 8, x)
            }
            &&& 0 < n < 255 && at + 1 + n > body.len() ==> items.len() == 0
            &&& 0 < n < 255 && at + 1 + n <= body.len() ==> {
                &&& items.len() > 0
                &&& items[0] == (TextItemView::Run { x, text: body.subrange(at + 1, at + 1 + n) })
                &&& items.drop_first() == text::text_items(body, at + 1 + n, x + n)
            }
        }),
        text::text_items(body, body.len() as int, x).len() == 0,
{
    let items = text::text_items(body, at, x);
    let n = body[at] as int;
    if n == 255 && at + 8 <= body.len() {
        assert(items.drop_first() =~= text::text_items(body, at + 8, x));
    } else if 0 < n < 255 && at + 1 + n <= body.len() {
        assert(items.drop_first() =~= text::text_items(body, at + 1 + n, x + n));
    }
}

/// Text starts behind the position, which stands in bytes 8 to 11, the baseline last.
pub proof fn lemma_text_starts_behind_its_position(body: Seq<u8>, text_len: u8)
    requires
        body.len() >= 12,
    ensures
        typeset::body_items(body) == text::text_items(body, 12, drawing_laws::short(body, 8)),
        text::image_text(body, text_len) == body.subrange(
            12,
            if 12 + text_len <= body.len() {
                12 + text_len
            } else {
                body.len() as int
            },
        ),
{
}

/// The font in force is that of the last change before, and the one from before the list
/// if there is none.
pub proof fn lemma_last_font_is_in_force(
    items: Seq<TextItemView>,
    font: Option<u32>,
    n: int,
    i: int,
)
    requires
        0 <= n <= items.len(),
    ensures
        0 <= i < n && items[i] is Font && (forall|j: int|
            i < j < n ==> !((#[trigger] items[j]) is Font)) ==> typeset::font_after(items, font, n)
            == Some(items[i]->xid),
        (forall|j: int| 0 <= j < n ==> !((#[trigger] items[j]) is Font)) ==> typeset::font_after(
            items,
            font,
            n,
        ) == font,
    decreases n,
{
    if n > 0 {
        lemma_last_font_is_in_force(items, font, n - 1, i);
        if 0 <= i < n && items[i] is Font && (forall|j: int|
            i < j < n ==> !((#[trigger] items[j]) is Font)) {
            if i < n - 1 {
                assert(!(items[n - 1] is Font));
            }
        }
        if forall|j: int| 0 <= j < n ==> !((#[trigger] items[j]) is Font) {
            assert(!(items[n - 1] is Font));
        }
    }
}

/// The background of a line reaches from the ascent of the font above the baseline to
/// its descent below, and from the pen as far as the text moves it.
pub proof fn lemma_background_backs_the_line(
    infos: Seq<CharInfo>,
    ascent: int,
    descent: int,
    x: int,
    y: int,
    s: Seq<u8>,
)
    requires
        -32768 <= x <= 32767,
        -32768 <= y - ascent <= 32767,
        0 <= ascent + descent <= 0xffff,
        0 <= text::text_width(infos, s, s.len() as int) <= 0xffff,
    ensures
        ({
            let r = text::text_background(infos, ascent, descent, x, y, s);
            &&& r.x == x
            &&& r.y == y - ascent
            &&& r.y + r.height == y + descent
            &&& r.width == text::text_width(infos, s, s.len() as int)
        }),
{
}

/// The measures of a character are those of its glyph in whole pixels, rounded down: the
/// bearing, and from there the width of the bitmap; the advance; the height above the
/// baseline, and what is left of the rows below.
pub proof fn lemma_measures_are_whole_pixels(g: GlyphView)
    requires
        -0x1f_ffff <= g.hori_advance <= 0x1f_ffff,
        -0xf_ffff <= g.hori_bearing_x <= 0xf_ffff,
        -0xf_ffff <= g.hori_bearing_y <= 0xf_ffff,
        0 <= g.width <= 0x3fff,
        0 <= g.rows <= 0x3fff,
    ensures
        ({
            let c = fonts::glyph_char_info(g);
            &&& 64 * c.character_width <= g.hori_advance < 64 * c.character_width + 64
            &&& 64 * c.left_side_bearing <= g.hori_bearing_x < 64 * c.left_side_bearing + 64
            &&& 64 * c.ascent <= g.hori_bearing_y < 64 * c.ascent + 64
            &&& c.right_side_bearing - c.left_side_bearing == g.width
            &&& c.ascent + c.descent == g.rows
            &&& c.attributes == 0
        }),
{
    vstd::arithmetic::div_mod::lemma_fundamental_div_mod(g.hori_advance as int, 64);
    vstd::arithmetic::div_mod::lemma_fundamental_div_mod(g.hori_bearing_x as int, 64);
    vstd::arithmetic::div_mod::lemma_fundamental_div_mod(g.hori_bearing_y as int, 64);
}

/// A font is measured for the characters from space to tilde, reads from left to right,
/// and stands for a character it does not have with a space. Its measures are listed in
/// the order of the characters.
pub proof fn lemma_font_speaks_of_printable_characters(infos: Seq<CharInfo>)
    ensures
        ({
            let m = fonts::metrics_of(infos);
            &&& m.min_char_or_byte2 == 32 && m.max_char_or_byte2 == 126 && m.default_char == 32
            &&& m.draw_direction == 0 && m.min_byte1 == 0 && m.max_byte1 == 0
            &&& m.all_chars_exist
            &&& m.properties.len() == 0
            &&& m.char_infos == infos
        }),
{
}

/// The measures of a font are those of its glyphs, one for each and in their order.
pub proof fn lemma_each_glyph_is_measured(glyphs: Seq<GlyphView>, i: int)
    requires
        0 <= i < glyphs.len(),
    ensures
        fonts::glyph_metrics(glyphs).char_infos.len() == glyphs.len(),
        fonts::glyph_metrics(glyphs).char_infos[i] == fonts::glyph_char_info(glyphs[i]),
{
}

/// A file that is named is tried before the stand-ins; a logical description, which
/// starts with a hyphen, is no file.
pub proof fn lemma_named_file_comes_first(name: Seq<char>, description: Seq<char>)
    requires
        name.len() == 0 || name[0] != '-',
        description.len() > 0,
        description[0] == '-',
    ensures
        fonts::font_files(name).first() == name,
        fonts::font_files(name).drop_first() == fonts::font_files(description),
        fonts::font_files(description).len() == 8,
{
    assert(fonts::font_files(name).drop_first() =~= fonts::font_files(description));
}

/// What comes of drawing a string in an open font on a drawable: its colour has red, green
/// and blue from the low bytes of the foreground, and of its glyphs in place exactly those
/// are left, in their order, that reach into the drawable. Without a font or a drawable
/// nothing is drawn.
pub proof fn lemma_rendering_keeps_what_shows(
    k: KmsView,
    xid: u32,
    foreground: u32,
    font: Option<u32>,
    x: int,
    y: int,
    s: Seq<u8>,
    out: RenderedTextView,
)
    requires
        k.is_rendering(xid, foreground, font, x, y, s, out),
    ensures
        out.color.red == foreground / 0x1_0000 % 0x100 * 0x100,
        out.color.green == foreground / 0x100 % 0x100 * 0x100,
        out.color.blue == foreground % 0x100 * 0x100,
        out.color.alpha == 0xffff,
        font is None || !k.fonts.contains_key(font->0) || k.image_of(xid) is None
            ==> out.loaded.len() == 0 && out.glyphs.len() == 0,
        font is Some && k.fonts.contains_key(font->0) && k.image_of(xid) is Some ==> {
            let img = k.image_of(xid)->0;
            &&& out.loaded.len() == s.len()
            &&& out.glyphs == text::laid_out(
                k.fonts[font->0].metrics.char_infos,
                s,
                out.loaded,
                x,
                y,
                s.len() as int,
            ).filter(
                |g: RenderedGlyphView|
                    -g.width < g.x < img.width && -g.height < g.y < img.height,
            )
        },
{
    if font is Some && k.fonts.contains_key(font->0) && k.image_of(xid) is Some {
        let img = k.image_of(xid)->0;
        filters::lemma_filter_agree(
            text::laid_out(
                k.fonts[font->0].metrics.char_infos,
                s,
                out.loaded,
                x,
                y,
                s.len() as int,
            ),
            typeset::on_image(img.width as int, img.height as int),
            |g: RenderedGlyphView| -g.width < g.x < img.width && -g.height < g.y < img.height,
        );
    }
}

/// Every string of a list is drawn in the font of the last change before it, if that is
/// open: each of its glyphs was asked of that font.
pub proof fn lemma_each_run_is_drawn_in_its_font(
    k: KmsView,
    xid: u32,
    foreground: u32,
    items: Seq<TextItemView>,
    y: int,
    out: Seq<RenderedTextView>,
    change: int,
    i: int,
    c: int,
)
    requires
        laws::fonts_are_labelled(k),
        typeset::are_renderings(k, xid, foreground, items, y, out),
        0 <= change < i < items.len(),
        items[change] is Font,
        forall|j: int| change < j < i ==> !((#[trigger] items[j]) is Font),
        items[i] is Run,
        k.fonts.contains_key(items[change]->xid),
        k.image_of(xid) is Some,
        0 <= c < items[i]->text.len(),
    ensures
        out.len() == items.len(),
        out[i].loaded.len() == items[i]->text.len(),
        out[i].loaded[c].font == items[change]->xid,
        out[i].loaded[c].code == items[i]->text[c],
{
    lemma_last_font_is_in_force(items, k.current_font, i, change);
    let font = items[change]->xid;
    assert(items[i] == (TextItemView::Run { x: items[i]->x, text: items[i]->text }));
    laws::lemma_text_is_drawn_in_its_font(
        k,
        xid,
        foreground,
        font,
        items[i]->x,
        y,
        items[i]->text,
        out[i],
        c,
    );
}

/// A font that is opened is filed under the next identifier, with the face that was loaded.
pub proof fn lemma_opened_font_is_filed(
    k: KmsView,
    face: freetype::Face,
    size: SizeReply,
    metrics: FontMetricsView,
    other: u32,
)
    requires
        k.next_host_xid < u32::MAX,
    ensures
        ({
            let after = k.with_new_font(face, size, metrics);
            let id = (k.next_host_xid + 1) as u32;
            let f = after.fonts[id];
            &&& after.next_host_xid == id && after.fonts.contains_key(id)
            &&& f.handle == id && f.face == face && f.size == size && f.metrics == metrics
            &&& other != id ==> after.fonts.contains_key(other) == k.fonts.contains_key(other)
                && after.fonts[other] == k.fonts[other]
            &&& after == (KmsView { next_host_xid: id, fonts: after.fonts, ..k })
        }),
{
}

/// Fonts are measured at twelve points of 64ths and 96 dots per inch, from space on.
pub proof fn lemma_fonts_are_measured_at_twelve_points(m: MeasuredFace, font: u32, i: int)
    requires
        m.wf(font),
        0 <= i < 95,
    ensures
        m.size.asked.width == 12 * 64 && m.size.asked.height == 12 * 64,
        m.size.asked.hres == 96 && m.size.asked.vres == 96,
        m.glyphs@.len() == 95,
        m.glyphs@[i]@.code == 32 + i,
        m.glyphs@[i]@.font == font,
        m.metrics@.char_infos[i] == fonts::glyph_char_info(m.glyphs@[i]@),
{
    let views = face::loaded_views(m.glyphs@);
    assert(views[i] == m.glyphs@[i]@);
    lemma_each_glyph_is_measured(views, i);
}

/// Clamping to 16 bits without sign keeps values that fit, and takes the nearest bound for
/// others.
pub proof fn lemma_clamping_takes_the_nearest(v: int)
    ensures
        0 <= v <= 0xffff ==> text::clamped_u16(v) == v,
        v < 0 ==> text::clamped_u16(v) == 0,
        v > 0xffff ==> text::clamped_u16(v) == 0xffff,
{
}

/// A glyph that could not be rendered has the font and the character that were asked for,
/// and nothing else: no advance, no rows and no bytes.
pub proof fn lemma_blank_glyphs_are_blank(font: u32, code: u32)
    ensures
        ({
            let g = GlyphView::blank(font, code);
            &&& g.font == font && g.code == code
            &&& g.hori_advance == 0 && g.hori_bearing_x == 0 && g.hori_bearing_y == 0
            &&& g.width == 0 && g.rows == 0 && g.pitch == 0 && g.left == 0 && g.top == 0
            &&& g.buffer.len() == 0
        }),
{
}

/// Characters that a font does not have are left blank; what is loaded for the others has
/// the font and the character that were asked for.
pub proof fn lemma_unknown_characters_are_blank(
    font: u32,
    infos: Seq<CharInfo>,
    s: Seq<u8>,
    loaded: Seq<GlyphView>,
    i: int,
)
    requires
        text::loads(font, infos, s, loaded),
        0 <= i < s.len(),
    ensures
        loaded.len() == s.len(),
        loaded[i].font == font && loaded[i].code == s[i],
        s[i] < 32 || s[i] - 32 >= infos.len() ==> loaded[i] == GlyphView::blank(font, s[i] as u32),
{
}

/// The background of a line is where it should be wherever that is, in the nearest values
/// that there are.
pub proof fn lemma_background_is_clamped(
    infos: Seq<CharInfo>,
    ascent: int,
    descent: int,
    x: int,
    y: int,
    s: Seq<u8>,
)
    ensures
        ({
            let r = text::text_background(infos, ascent, descent, x, y, s);
            &&& r.x == raster::clamped_i16(x)
            &&& r.y == raster::clamped_i16(y - ascent)
            &&& r.width == text::clamped_u16(text::text_width(infos, s, s.len() as int))
            &&& r.height == text::clamped_u16(ascent + descent)
        }),
{
}

/// Measures that have more than 16 bits wrap.
pub proof fn lemma_measures_wrap(g: GlyphView)
    ensures
        ({
            let c = fonts::glyph_char_info(g);
            &&& (g.hori_advance as int / 64 - c.character_width) % 65536 == 0
            &&& (g.hori_bearing_x as int / 64 - c.left_side_bearing) % 65536 == 0
            &&& (g.hori_bearing_y as int / 64 - c.ascent) % 65536 == 0
            &&& (c.left_side_bearing + g.width - c.right_side_bearing) % 65536 == 0
            &&& (g.rows - c.ascent - c.descent) % 65536 == 0
        }),
{
    wire::lemma_wrapping_keeps_16_bits(g.hori_advance as int / 64);
    wire::lemma_wrapping_keeps_16_bits(g.hori_bearing_x as int / 64);
    wire::lemma_wrapping_keeps_16_bits(g.hori_bearing_y as int / 64);
    let c = fonts::glyph_char_info(g);
    wire::lemma_wrapping_keeps_16_bits(c.left_side_bearing + g.width);
    wire::lemma_wrapping_keeps_16_bits(g.rows - c.ascent);
}

/// The stand-ins for a font are tried in this order: DejaVu Sans Mono, FreeMono and
/// Liberation Mono where distributions put them, and then DejaVu Sans.
pub proof fn lemma_stand_ins_come_in_order(name: Seq<char>)
    requires
        name.len() > 0,
        name[0] == '-',
    ensures
        fonts::font_files(name) == seq![
            "/usr/share/fonts/TTF/DejaVuSansMono.ttf"@,
            "/usr/share/fonts/truetype/dejavu/DejaVuSansMono.ttf"@,
            "/usr/share/fonts/dejavu/DejaVuSansMono.ttf"@,
            "/usr/share/fonts/gnu-free/FreeMono.ttf"@,
            "/usr/share/fonts/freefonts/FreeMono.ttf"@,
            "/usr/share/fonts/liberation/LiberationMono-Regular.ttf"@,
            "/usr/share/fonts/TTF/DejaVuSans.ttf"@,
            "/usr/share/fonts/truetype/dejavu/DejaVuSans.ttf"@,
        ],
{
}

} // verus!
