//! Fonts: where to look for them, and what they measure.

use vstd::prelude::*;

use crate::kms::face;
use crate::kms::face::{
    render_char, set_char_size, CharSize, FontFace, GlyphView, LoadedGlyph, SizeReply,
};
use crate::protocol::{CharInfo, FontMetrics, FontMetricsView};
use crate::wire;
use crate::wire::wrap_i16;

verus! {

/// First character that fonts are measured for: space.
pub const FIRST_CHAR: u8 = 0x20;

/// Last character that fonts are measured for: tilde.
pub const LAST_CHAR: u8 = 0x7e;

/// How many characters fonts are measured for.
pub const CHAR_COUNT: usize = 95;

/// What stands for a character, given what came of rendering it: one that could
/// not be rendered is blank.
pub fn glyph_or_blank(rendered: Option<LoadedGlyph>, font: u32, code: u32) -> (r: LoadedGlyph)
    ensures
        r@ == (match rendered {
            Some(g) => g@,
            None => GlyphView::blank(font, code),
        }),
{
    match rendered {
        Some(g) => g,
        None => LoadedGlyph::blank(font, code),
    }
}

/// Has a font render a character. One that cannot be rendered is blank.
pub fn load_glyph(font: &FontFace, code: u32) -> (r: LoadedGlyph)
    ensures
        r@.font == font.handle,
        r@.code == code,
        0 <= r@.rows && r@.bitmap_len() <= i32::MAX ==> r@.buffer.len() == r@.bitmap_len(),
{
    let rendered = render_char(font, code);
    assert(GlyphView::blank(font.handle, code).bitmap_len() == 0);
    glyph_or_blank(rendered, font.handle, code)
}

/// Whether `glyphs` were asked of `font` for the characters that fonts are
/// measured for, in order.
pub open spec fn are_measured_chars(font: u32, glyphs: Seq<GlyphView>) -> bool {
    &&& glyphs.len() == CHAR_COUNT
    &&& forall|i: int| 0 <= i < glyphs.len() ==> (#[trigger] glyphs[i]).font == font
    &&& forall|i: int| 0 <= i < glyphs.len() ==> (#[trigger] glyphs[i]).code == FIRST_CHAR + i
}

/// Has a font render the characters from space to tilde, in this order.
pub fn load_chars(font: &FontFace) -> (r: Vec<LoadedGlyph>)
    ensures
        are_measured_chars(font.handle, face::loaded_views(r@)),
{
    let mut glyphs: Vec<LoadedGlyph> = Vec::new();
    for i in 0..CHAR_COUNT
        invariant
            glyphs@.len() == i,
            forall|j: int| 0 <= j < i ==> (#[trigger] glyphs@[j])@.font == font.handle,
            forall|j: int| 0 <= j < i ==> (#[trigger] glyphs@[j])@.code == FIRST_CHAR + j,
    {
        let glyph = load_glyph(font, FIRST_CHAR as u32 + i as u32);
        glyphs.push(glyph);
    }
    let ghost views = face::loaded_views(glyphs@);
    assert forall|i: int| 0 <= i < CHAR_COUNT implies (#[trigger] views[i]).font == font.handle
        && views[i].code == FIRST_CHAR + i by {
        assert(views[i] == glyphs@[i]@);
    }
    glyphs
}

/// Twelve points at 96 dots per inch.
pub open spec fn twelve_points() -> CharSize {
    CharSize { width: 768, height: 768, hres: 96, vres: 96 }
}

/// The size that all fonts are used in: twelve points at 96 dots per inch.
pub fn font_size() -> (r: CharSize)
    ensures
        r == twelve_points(),
{
    CharSize { width: 12 * 64, height: 12 * 64, hres: 96, vres: 96 }
}

/// Whole pixels of a length in 64ths, rounded down, in 16 bits.
pub open spec fn whole_pixels(v: int) -> int {
    wire::wrapped_i16(v / 64)
}

fn to_pixels(v: i64) -> (r: i16)
    ensures
        r == whole_pixels(v as int),
{
    proof {
        vstd::arithmetic::div_mod::lemma_fundamental_div_mod(v as int, 64);
        vstd::arithmetic::div_mod::lemma_hoist_over_denominator(
            v as int,
            0x200_0000_0000_0000,
            64,
        );
    }
    let shifted: i128 = (v as i128 + 64 * 0x200_0000_0000_0000) / 64;
    let floor: i128 = shifted - 0x200_0000_0000_0000;
    assert(floor == v as int / 64);
    // 2^57 is a multiple of 2^16, and so is what is cut off here.
    let low: i128 = (floor + 0x200_0000_0000_0000) % 0x1_0000;
    proof {
        vstd::arithmetic::div_mod::lemma_mod_multiples_vanish(
            0x200_0000_0000,
            floor as int,
            0x1_0000,
        );
        vstd::arithmetic::div_mod::lemma_fundamental_div_mod(floor as int, 0x1_0000);
        vstd::arithmetic::div_mod::lemma_mod_multiples_vanish(
            floor as int / 0x1_0000,
            floor as int % 0x1_0000 + 32768,
            0x1_0000,
        );
    }
    wrap_i16(low as i64)
}

/// What a glyph says of its character.
pub open spec fn glyph_char_info(g: GlyphView) -> CharInfo {
    let left = whole_pixels(g.hori_bearing_x as int);
    let ascent = whole_pixels(g.hori_bearing_y as int);
    CharInfo {
        left_side_bearing: left as i16,
        right_side_bearing: wire::wrapped_i16(left + g.width) as i16,
        character_width: whole_pixels(g.hori_advance as int) as i16,
        ascent: ascent as i16,
        descent: wire::wrapped_i16(g.rows - ascent) as i16,
        attributes: 0,
    }
}

/// Measures a character by its glyph.
pub fn char_info_from_glyph(g: &LoadedGlyph) -> (r: CharInfo)
    ensures
        r == glyph_char_info(g@),
{
    let left: i16 = to_pixels(g.hori_bearing_x);
    let ascent: i16 = to_pixels(g.hori_bearing_y);
    CharInfo {
        left_side_bearing: left,
        right_side_bearing: wrap_i16(left as i64 + g.width as i64),
        character_width: to_pixels(g.hori_advance),
        ascent,
        descent: wrap_i16(g.rows as i64 - ascent as i64),
        attributes: 0,
    }
}

pub open spec fn glyph_infos(glyphs: Seq<GlyphView>) -> Seq<CharInfo> {
    glyphs.map_values(|g: GlyphView| glyph_char_info(g))
}

pub open spec fn smaller(a: i16, b: i16) -> i16 {
    if b < a {
        b
    } else {
        a
    }
}

pub open spec fn larger(a: i16, b: i16) -> i16 {
    if b > a {
        b
    } else {
        a
    }
}

/// The least of each measure of the first `n` characters, and the greatest
/// possible value if there is none.
pub open spec fn min_bounds(infos: Seq<CharInfo>, n: int) -> CharInfo
    decreases n,
{
    if n <= 0 {
        CharInfo {
            left_side_bearing: i16::MAX,
            right_side_bearing: i16::MAX,
            character_width: i16::MAX,
            ascent: i16::MAX,
            descent: i16::MAX,
            attributes: 0,
        }
    } else {
        let b = min_bounds(infos, n - 1);
        let c = infos[n - 1];
        CharInfo {
            left_side_bearing: smaller(b.left_side_bearing, c.left_side_bearing),
            right_side_bearing: smaller(b.right_side_bearing, c.right_side_bearing),
            character_width: smaller(b.character_width, c.character_width),
            ascent: smaller(b.ascent, c.ascent),
            descent: smaller(b.descent, c.descent),
            attributes: 0,
        }
    }
}

/// The greatest of each measure of the first `n` characters, and the least
/// possible value if there is none.
pub open spec fn max_bounds(infos: Seq<CharInfo>, n: int) -> CharInfo
    decreases n,
{
    if n <= 0 {
        CharInfo {
            left_side_bearing: i16::MIN,
            right_side_bearing: i16::MIN,
            character_width: i16::MIN,
            ascent: i16::MIN,
            descent: i16::MIN,
            attributes: 0,
        }
    } else {
        let b = max_bounds(infos, n - 1);
        let c = infos[n - 1];
        CharInfo {
            left_side_bearing: larger(b.left_side_bearing, c.left_side_bearing),
            right_side_bearing: larger(b.right_side_bearing, c.right_side_bearing),
            character_width: larger(b.character_width, c.character_width),
            ascent: larger(b.ascent, c.ascent),
            descent: larger(b.descent, c.descent),
            attributes: 0,
        }
    }
}

fn pick_smaller(a: i16, b: i16) -> (r: i16)
    ensures
        r == smaller(a, b),
{
    if b < a {
        b
    } else {
        a
    }
}

fn pick_larger(a: i16, b: i16) -> (r: i16)
    ensures
        r == larger(a, b),
{
    if b > a {
        b
    } else {
        a
    }
}

/// The metrics of a font whose characters measure `infos`.
pub open spec fn metrics_of(infos: Seq<CharInfo>) -> FontMetricsView {
    let n = infos.len() as int;
    FontMetricsView {
        min_bounds: min_bounds(infos, n),
        max_bounds: max_bounds(infos, n),
        min_char_or_byte2: FIRST_CHAR as u16,
        max_char_or_byte2: LAST_CHAR as u16,
        default_char: FIRST_CHAR as u16,
        draw_direction: 0,
        min_byte1: 0,
        max_byte1: 0,
        all_chars_exist: true,
        font_ascent: max_bounds(infos, n).ascent,
        font_descent: max_bounds(infos, n).descent,
        properties: Seq::empty(),
        char_infos: infos,
    }
}

/// Sums up the measures of a font's characters.
pub fn metrics_from_infos(infos: Vec<CharInfo>) -> (r: FontMetrics)
    ensures
        r@ == metrics_of(infos@),
{
    let mut min = CharInfo {
        left_side_bearing: i16::MAX,
        right_side_bearing: i16::MAX,
        character_width: i16::MAX,
        ascent: i16::MAX,
        descent: i16::MAX,
        attributes: 0,
    };
    let mut max = CharInfo {
        left_side_bearing: i16::MIN,
        right_side_bearing: i16::MIN,
        character_width: i16::MIN,
        ascent: i16::MIN,
        descent: i16::MIN,
        attributes: 0,
    };
    let n: usize = infos.len();
    for i in 0..n
        invariant
            n == infos@.len(),
            min == min_bounds(infos@, i as int),
            max == max_bounds(infos@, i as int),
    {
        let ci = infos[i];
        min = CharInfo {
            left_side_bearing: pick_smaller(min.left_side_bearing, ci.left_side_bearing),
            right_side_bearing: pick_smaller(min.right_side_bearing, ci.right_side_bearing),
            character_width: pick_smaller(min.character_width, ci.character_width),
            ascent: pick_smaller(min.ascent, ci.ascent),
            descent: pick_smaller(min.descent, ci.descent),
            attributes: 0,
        };
        max = CharInfo {
            left_side_bearing: pick_larger(max.left_side_bearing, ci.left_side_bearing),
            right_side_bearing: pick_larger(max.right_side_bearing, ci.right_side_bearing),
            character_width: pick_larger(max.character_width, ci.character_width),
            ascent: pick_larger(max.ascent, ci.ascent),
            descent: pick_larger(max.descent, ci.descent),
            attributes: 0,
        };
    }
    let r = FontMetrics {
        min_bounds: min,
        max_bounds: max,
        min_char_or_byte2: FIRST_CHAR as u16,
        max_char_or_byte2: LAST_CHAR as u16,
        default_char: FIRST_CHAR as u16,
        draw_direction: 0,
        min_byte1: 0,
        max_byte1: 0,
        all_chars_exist: true,
        font_ascent: max.ascent,
        font_descent: max.descent,
        properties: Vec::new(),
        char_infos: infos,
    };
    assert(r@ =~= metrics_of(infos@));
    r
}

/// The metrics of a font whose characters were rendered as `glyphs`.
pub open spec fn glyph_metrics(glyphs: Seq<GlyphView>) -> FontMetricsView {
    metrics_of(glyph_infos(glyphs))
}

/// Measures the glyphs of a font.
pub fn metrics_from_glyphs(glyphs: &Vec<LoadedGlyph>) -> (r: FontMetrics)
    ensures
        r@ == glyph_metrics(face::loaded_views(glyphs@)),
{
    let mut infos: Vec<CharInfo> = Vec::new();
    let ghost goal = glyph_infos(face::loaded_views(glyphs@));
    let n: usize = glyphs.len();
    for i in 0..n
        invariant
            n == glyphs@.len(),
            goal == glyph_infos(face::loaded_views(glyphs@)),
            infos@ == goal.take(i as int),
    {
        infos.push(char_info_from_glyph(&glyphs[i]));
        assert(infos@ =~= goal.take(i + 1));
    }
    assert(infos@ =~= goal);
    metrics_from_infos(infos)
}

/// Measures the characters from space to tilde of a font, in this order. What
/// it rendered for them comes with the metrics.
pub fn compute_font_metrics(font: &FontFace) -> (r: (FontMetrics, Vec<LoadedGlyph>))
    ensures
        are_measured_chars(font.handle, face::loaded_views(r.1@)),
        r.0@ == glyph_metrics(face::loaded_views(r.1@)),
{
    let glyphs = load_chars(font);
    let metrics = metrics_from_glyphs(&glyphs);
    (metrics, glyphs)
}

/// What came of preparing a face: the size that it was asked to take, what it
/// then rendered for the measured characters, and their metrics.
#[derive(Debug)]
pub struct MeasuredFace {
    pub size: SizeReply,
    pub glyphs: Vec<LoadedGlyph>,
    pub metrics: FontMetrics,
}

impl MeasuredFace {
    /// Whether the metrics are those of the measured characters of `font`, at the
    /// size of all fonts.
    pub open spec fn wf(self, font: u32) -> bool {
        &&& self.size.asked == twelve_points()
        &&& are_measured_chars(font, face::loaded_views(self.glyphs@))
        &&& self.metrics@ == glyph_metrics(face::loaded_views(self.glyphs@))
    }
}

/// Sets a freshly loaded face to twelve points at 96 dots per inch for the font
/// `handle`, and measures it.
pub fn prepare_face(face: freetype::Face, handle: u32) -> (r: (FontFace, MeasuredFace))
    ensures
        r.0.handle == handle,
        r.0.face.inner() == face,
        r.0.face.reply() == r.1.size,
        r.1.wf(handle),
{
    let font = FontFace { handle, face: set_char_size(face, font_size()) };
    let size = font.face.size();
    let (metrics, glyphs) = compute_font_metrics(&font);
    (font, MeasuredFace { size, glyphs, metrics })
}

/// Whether a font name is a logical font description, not the path of a file.
pub fn is_xlfd_pattern(name: &str) -> (r: bool)
    ensures
        r == (name@.len() > 0 && name@[0] == '-'),
{
    name.unicode_len() > 0 && name.get_char(0) == '-'
}

/// Fonts that stand in for every name that is not a font file, in order.
pub open spec fn fallback_fonts() -> Seq<Seq<char>> {
    seq![
        "/usr/share/fonts/TTF/DejaVuSansMono.ttf"@,
        "/usr/share/fonts/truetype/dejavu/DejaVuSansMono.ttf"@,
        "/usr/share/fonts/dejavu/DejaVuSansMono.ttf"@,
        "/usr/share/fonts/gnu-free/FreeMono.ttf"@,
        "/usr/share/fonts/freefonts/FreeMono.ttf"@,
        "/usr/share/fonts/liberation/LiberationMono-Regular.ttf"@,
        "/usr/share/fonts/TTF/DejaVuSans.ttf"@,
        "/usr/share/fonts/truetype/dejavu/DejaVuSans.ttf"@,
    ]
}

/// The files to try for a font name: the name itself, unless it is a logical
/// font description, and then the stand-ins. The first that loads is the font.
pub open spec fn font_files(name: Seq<char>) -> Seq<Seq<char>> {
    if name.len() > 0 && name[0] == '-' {
        fallback_fonts()
    } else {
        seq![name] + fallback_fonts()
    }
}

pub open spec fn string_views(s: Seq<String>) -> Seq<Seq<char>> {
    s.map_values(|a: String| a@)
}

pub fn font_candidates(name: &str) -> (r: Vec<String>)
    ensures
        string_views(r@) == font_files(name@),
{
    let mut r: Vec<String> = Vec::new();
    if !is_xlfd_pattern(name) {
        r.push(name.to_string());
    }
    r.push("/usr/share/fonts/TTF/DejaVuSansMono.ttf".to_string());
    r.push("/usr/share/fonts/truetype/dejavu/DejaVuSansMono.ttf".to_string());
    r.push("/usr/share/fonts/dejavu/DejaVuSansMono.ttf".to_string());
    r.push("/usr/share/fonts/gnu-free/FreeMono.ttf".to_string());
    r.push("/usr/share/fonts/freefonts/FreeMono.ttf".to_string());
    r.push("/usr/share/fonts/liberation/LiberationMono-Regular.ttf".to_string());
    r.push("/usr/share/fonts/TTF/DejaVuSans.ttf".to_string());
    r.push("/usr/share/fonts/truetype/dejavu/DejaVuSans.ttf".to_string());
    assert(string_views(r@) =~= font_files(name@));
    r
}

/// Whether every measure of `b` is at most that of `c`.
pub open spec fn at_most(b: CharInfo, c: CharInfo) -> bool {
    &&& b.left_side_bearing <= c.left_side_bearing
    &&& b.right_side_bearing <= c.right_side_bearing
    &&& b.character_width <= c.character_width
    &&& b.ascent <= c.ascent
    &&& b.descent <= c.descent
}

/// Whether every measure of `b` is that of one of the first `n` characters.
pub open spec fn is_met(infos: Seq<CharInfo>, n: int, b: CharInfo) -> bool {
    &&& exists|j: int|
        0 <= j < n && (#[trigger] infos[j]).left_side_bearing == b.left_side_bearing
    &&& exists|j: int|
        0 <= j < n && (#[trigger] infos[j]).right_side_bearing == b.right_side_bearing
    &&& exists|j: int| 0 <= j < n && (#[trigger] infos[j]).character_width == b.character_width
    &&& exists|j: int| 0 <= j < n && (#[trigger] infos[j]).ascent == b.ascent
    &&& exists|j: int| 0 <= j < n && (#[trigger] infos[j]).descent == b.descent
}

/// The bounds of a font are the least and the greatest of each measure of its
/// characters: they hold of every character, and each is met by one. Ascent and
/// descent of the font are the greatest.
pub proof fn lemma_bounds_are_tight(infos: Seq<CharInfo>, i: int)
    requires
        0 <= i < infos.len(),
    ensures
        ({
            let m = metrics_of(infos);
            &&& at_most(m.min_bounds, infos[i])
            &&& at_most(infos[i], m.max_bounds)
            &&& is_met(infos, infos.len() as int, m.min_bounds)
            &&& is_met(infos, infos.len() as int, m.max_bounds)
            &&& m.font_ascent == m.max_bounds.ascent
            &&& m.font_descent == m.max_bounds.descent
        }),
{
    lemma_bounds_of_first(infos, infos.len() as int, i);
}

proof fn lemma_bounds_of_first(infos: Seq<CharInfo>, n: int, i: int)
    requires
        0 <= i < n <= infos.len(),
    ensures
        at_most(min_bounds(infos, n), infos[i]),
        at_most(infos[i], max_bounds(infos, n)),
        is_met(infos, n, min_bounds(infos, n)),
        is_met(infos, n, max_bounds(infos, n)),
    decreases n,
{
    reveal_with_fuel(min_bounds, 2);
    reveal_with_fuel(max_bounds, 2);
    if n == 1 {
        assert(infos[0] == infos[n - 1]);
    } else {
        lemma_bounds_of_first(
            infos,
            n - 1,
            if i < n - 1 {
                i
            } else {
                0
            },
        );
        lemma_met_by_one_more(infos, n, min_bounds(infos, n - 1), min_bounds(infos, n));
        lemma_met_by_one_more(infos, n, max_bounds(infos, n - 1), max_bounds(infos, n));
    }
}

/// Measures that are those of `b` or of the next character are met.
proof fn lemma_met_by_one_more(infos: Seq<CharInfo>, n: int, b: CharInfo, next: CharInfo)
    requires
        1 <= n <= infos.len(),
        is_met(infos, n - 1, b),
        next.left_side_bearing == b.left_side_bearing || next.left_side_bearing == infos[n
            - 1].left_side_bearing,
        next.right_side_bearing == b.right_side_bearing || next.right_side_bearing == infos[n
            - 1].right_side_bearing,
        next.character_width == b.character_width || next.character_width == infos[n
            - 1].character_width,
        next.ascent == b.ascent || next.ascent == infos[n - 1].ascent,
        next.descent == b.descent || next.descent == infos[n - 1].descent,
    ensures
        is_met(infos, n, next),
{
    let last = infos[n - 1];
    if next.left_side_bearing != last.left_side_bearing {
        let j = choose|j: int|
            0 <= j < n - 1 && (#[trigger] infos[j]).left_side_bearing == b.left_side_bearing;
        assert(infos[j].left_side_bearing == next.left_side_bearing);
    }
    if next.right_side_bearing != last.right_side_bearing {
        let j = choose|j: int|
            0 <= j < n - 1 && (#[trigger] infos[j]).right_side_bearing == b.right_side_bearing;
        assert(infos[j].right_side_bearing == next.right_side_bearing);
    }
    if next.character_width != last.character_width {
        let j = choose|j: int|
            0 <= j < n - 1 && (#[trigger] infos[j]).character_width == b.character_width;
        assert(infos[j].character_width == next.character_width);
    }
    if next.ascent != last.ascent {
        let j = choose|j: int| 0 <= j < n - 1 && (#[trigger] infos[j]).ascent == b.ascent;
        assert(infos[j].ascent == next.ascent);
    }
    if next.descent != last.descent {
        let j = choose|j: int| 0 <= j < n - 1 && (#[trigger] infos[j]).descent == b.descent;
        assert(infos[j].descent == next.descent);
    }
}

} // verus!
