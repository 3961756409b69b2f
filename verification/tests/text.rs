use yserver::backend::{DrawState, FontHandle, GcFunction};
use yserver::kms::face::{CharSize, LoadedGlyph};
use yserver::kms::fonts::{
    char_info_from_glyph, compute_font_metrics, font_candidates, font_size, glyph_or_blank,
    is_xlfd_pattern, load_glyph, metrics_from_glyphs, metrics_from_infos, prepare_face,
};
use yserver::kms::image::{color_from_u32, Color, PixelFormat, PixmanImage};
use yserver::kms::raster::Rectangle16;
use yserver::kms::state::KmsBackend;
use yserver::kms::text::{
    background_rect, coverage_mask, glyph_is_visible, lay_out_text, load_text, place_glyph,
    read_text_items, RenderedGlyph, TextItem,
};
use yserver::protocol::CharInfo;

fn glyph() -> LoadedGlyph {
    LoadedGlyph {
        font: 7,
        code: 65,
        hori_advance: 10 * 64,
        hori_bearing_x: -65,
        hori_bearing_y: 8 * 64 + 63,
        width: 2,
        rows: 3,
        pitch: 4,
        left: -2,
        top: 8,
        buffer: vec![1, 2, 0, 0, 3, 4, 0, 0, 5, 6, 0, 0],
    }
}

fn info(left: i16, right: i16, width: i16, ascent: i16, descent: i16) -> CharInfo {
    CharInfo {
        left_side_bearing: left,
        right_side_bearing: right,
        character_width: width,
        ascent,
        descent,
        attributes: 0,
    }
}

fn face() -> freetype::Face {
    let library = freetype::Library::init().expect("freetype init");
    font_candidates("-misc-fixed-medium-r-*")
        .iter()
        .find_map(|path| library.new_face(path, 0).ok())
        .expect("a fallback font")
}

#[test]
fn glyphs_measure_in_whole_pixels() {
    let c = char_info_from_glyph(&glyph());
    assert_eq!(c, info(-2, 0, 10, 8, -5));
    let far = LoadedGlyph { hori_advance: 0x1_0000 * 64 + 64, ..glyph() };
    assert_eq!(char_info_from_glyph(&far).character_width, 1);
}

#[test]
fn bounds_of_a_font() {
    let m = metrics_from_infos(vec![info(1, 5, 7, 9, 2), info(-1, 8, 6, 3, 4)]);
    assert_eq!(m.min_bounds, info(-1, 5, 6, 3, 2));
    assert_eq!(m.max_bounds, info(1, 8, 7, 9, 4));
    assert_eq!((m.font_ascent, m.font_descent), (9, 4));
    assert_eq!((m.min_char_or_byte2, m.max_char_or_byte2, m.default_char), (0x20, 0x7e, 0x20));
    assert_eq!((m.draw_direction, m.min_byte1, m.max_byte1, m.all_chars_exist), (0, 0, 0, true));
    assert!(m.properties.is_empty());
    assert_eq!(m.char_infos.len(), 2);
}

#[test]
fn font_files_to_try() {
    assert!(is_xlfd_pattern("-misc-fixed"));
    assert!(!is_xlfd_pattern("fixed") && !is_xlfd_pattern(""));
    let by_name = font_candidates("fixed");
    assert_eq!(by_name.len(), 9);
    assert_eq!(by_name[0], "fixed");
    assert_eq!(by_name[1], "/usr/share/fonts/TTF/DejaVuSansMono.ttf");
    assert_eq!(font_candidates("-x")[..], by_name[1..]);
    assert_eq!(by_name[8], "/usr/share/fonts/truetype/dejavu/DejaVuSans.ttf");
}

#[test]
fn glyphs_hang_from_the_baseline() {
    let g = place_glyph(&glyph(), 100, 50).unwrap();
    assert_eq!((g.x, g.y, g.width, g.height), (98, 42, 2, 3));
    assert_eq!(g.pixels, [1, 2, 3, 4, 5, 6]);
}

#[test]
fn negative_pitch_is_bottom_row_first() {
    let g = place_glyph(&LoadedGlyph { pitch: -4, ..glyph() }, 0, 0).unwrap();
    assert_eq!(g.pixels, [5, 6, 3, 4, 1, 2]);
}

#[test]
fn blank_glyphs_draw_nothing() {
    assert!(place_glyph(&LoadedGlyph { width: 0, ..glyph() }, 0, 0).is_none());
    assert!(place_glyph(&LoadedGlyph { rows: 0, ..glyph() }, 0, 0).is_none());
    // A bit for each pixel is not a byte for each.
    let mono = LoadedGlyph { width: 9, pitch: 2, buffer: vec![0xff; 6], ..glyph() };
    assert!(place_glyph(&mono, 0, 0).is_none());
}

#[test]
fn glyphs_off_the_image_are_not_visible() {
    let at = |x: i64, y: i64| RenderedGlyph { x, y, width: 3, height: 4, pixels: vec![0; 12] };
    assert!(glyph_is_visible(&at(0, 0), 10, 10));
    assert!(glyph_is_visible(&at(-2, -3), 10, 10));
    assert!(!glyph_is_visible(&at(-3, 0), 10, 10));
    assert!(!glyph_is_visible(&at(0, -4), 10, 10));
    assert!(glyph_is_visible(&at(9, 9), 10, 10));
    assert!(!glyph_is_visible(&at(10, 0), 10, 10));
    assert!(!glyph_is_visible(&at(0, 10), 10, 10));
}

fn body(x: i16, y: i16, rest: &[u8]) -> Vec<u8> {
    let mut out = vec![0u8; 8];
    out.extend_from_slice(&x.to_le_bytes());
    out.extend_from_slice(&y.to_le_bytes());
    out.extend_from_slice(rest);
    out
}

#[test]
fn text_items_are_read() {
    let mut rest = vec![2, b'a', b'b', 255, 0, 0, 0];
    rest.extend_from_slice(&0x0040_0009u32.to_le_bytes());
    rest.extend_from_slice(&[1, b'c', 0, 3, b'd']);
    let items = read_text_items(&body(-5, 7, &rest));
    assert_eq!(items.len(), 3);
    assert!(matches!(&items[0], TextItem::Run { x: -5, text } if text == b"ab"));
    assert!(matches!(items[1], TextItem::Font { xid: 0x0040_0009 }));
    assert!(matches!(&items[2], TextItem::Run { x: -3, text } if text == b"c"));
}

#[test]
fn truncated_items_end_the_list() {
    assert!(read_text_items(&body(0, 0, &[])).is_empty());
    assert!(read_text_items(&body(0, 0, &[3, b'a', b'b'])).is_empty());
    assert!(read_text_items(&body(0, 0, &[255, 0, 0, 0, 1, 2, 3])).is_empty());
    assert!(read_text_items(&[0; 11]).is_empty());
}

#[test]
fn background_is_as_wide_as_the_text() {
    let infos = vec![info(0, 0, 7, 0, 0), info(0, 0, -3, 0, 0)];
    // Space, '!', and a character the font does not have.
    let r = background_rect(&infos, 12, 4, 5, 6, b" !\x7f");
    assert_eq!(r, Rectangle16 { x: 5, y: -6, width: 10, height: 16 });
    let clamped = background_rect(&infos, 32767, 32767, 5, -32768, b"!!");
    assert_eq!(clamped, Rectangle16 { x: 5, y: -32768, width: 0, height: 65534 });
}

#[test]
fn opening_a_font_measures_it() {
    let mut k = KmsBackend::new(100, 100);
    let (handle, measured) = k.open_font(face());
    let metrics = measured.metrics;
    assert_eq!(handle.as_raw(), 0x0040_0001);
    assert_eq!(metrics.char_infos.len(), 95);
    assert!(metrics.font_ascent > 0 && metrics.font_descent > 0);
    let space = metrics.char_infos[0];
    assert!(space.character_width > 0);
    let letter = metrics.char_infos[(b'A' - 0x20) as usize];
    assert!(letter.ascent > 0 && letter.right_side_bearing > letter.left_side_bearing);
    // A letter without descender stands on the baseline.
    assert!(letter.descent.abs() <= 1);
    assert!(metrics.char_infos[(b'g' - 0x20) as usize].descent > letter.descent);
    for c in &metrics.char_infos {
        assert!(c.ascent <= metrics.font_ascent && c.descent <= metrics.font_descent);
        let (min, max) = (metrics.min_bounds, metrics.max_bounds);
        assert!(min.character_width <= c.character_width);
        assert!(c.character_width <= max.character_width);
        assert!(min.left_side_bearing <= c.left_side_bearing);
        assert!(c.left_side_bearing <= max.left_side_bearing);
        assert!(min.right_side_bearing <= c.right_side_bearing);
        assert!(c.right_side_bearing <= max.right_side_bearing);
    }
    // The metrics are those of the glyphs that were rendered, space first.
    assert!(measured.size.granted);
    assert_eq!(measured.size.asked, CharSize { width: 768, height: 768, hres: 96, vres: 96 });
    assert_eq!(measured.glyphs.len(), 95);
    for (i, (g, c)) in measured.glyphs.iter().zip(&metrics.char_infos).enumerate() {
        assert_eq!(g.code, 0x20 + i as u32);
        assert_eq!(char_info_from_glyph(g), *c);
    }
    assert_eq!(k.fonts[&handle.as_raw()].face.handle, handle.as_raw());
    k.close_font(handle.as_raw());
    assert!(k.fonts.is_empty());
}

#[test]
fn text_is_rendered_glyph_by_glyph() {
    let mut k = KmsBackend::new(100, 100);
    let p = k.create_pixmap(24, 200, 60).as_raw();
    // No font yet.
    let nothing = k.render_text_string(p, 0x0012_3456, 10, 30, b"AB");
    assert!(nothing.glyphs.is_empty() && nothing.loaded.is_empty());
    assert_eq!(
        nothing.color,
        Color { red: 0x1200, green: 0x3400, blue: 0x5600, alpha: 0xffff }
    );
    let (font, measured) = k.open_font(face());
    let metrics = measured.metrics;
    k.apply_draw_state(&DrawState { function: GcFunction::Copy, font: Some(font) });
    let text = k.render_text_string(p, 0x0012_3456, 10, 30, b"A AB");
    assert_eq!(text.color, color_from_u32(0x0012_3456));
    assert_eq!(text.loaded.iter().map(|g| g.code).collect::<Vec<u32>>(), [65, 32, 65, 66]);
    let glyphs = text.glyphs;
    assert_eq!(glyphs.len(), 3);
    assert!(glyphs[0].pixels.iter().any(|&b| b > 0));
    assert_eq!(glyphs[0].pixels.len(), (glyphs[0].width * glyphs[0].height) as usize);
    // The same letter looks the same, two advances on.
    let step = |ch: u8| i64::from(metrics.char_infos[(ch - 0x20) as usize].character_width);
    assert_eq!(glyphs[1].pixels, glyphs[0].pixels);
    assert_eq!(glyphs[1].x - glyphs[0].x, step(b'A') + step(b' '));
    assert!(glyphs[2].pixels != glyphs[0].pixels);
    // A character the font does not have moves the pen by six.
    let moved = k.render_text_string(p, 0, 10, 30, b"\x01A").glyphs;
    assert_eq!(moved.len(), 1);
    assert_eq!(moved[0].x, glyphs[0].x + 6);
    assert!(k.render_text_string(p, 0, -5000, 30, b"A").glyphs.is_empty());
    assert!(k.render_text_string(9, 0, 10, 30, b"A").glyphs.is_empty());
}

#[test]
fn text_goes_on_where_it_stopped() {
    let mut k = KmsBackend::new(100, 100);
    let p = k.create_pixmap(24, 300, 60).as_raw();
    let (font, measured) = k.open_font(face());
    let metrics = measured.metrics;
    k.apply_draw_state(&DrawState { function: GcFunction::Copy, font: Some(font) });
    let width: i64 = b"Hello"
        .iter()
        .map(|ch| i64::from(metrics.char_infos[(ch - 0x20) as usize].character_width))
        .sum();
    let whole = k.render_text_string(p, 0, 5, 30, b"HelloWorld").glyphs;
    let first = k.render_text_string(p, 0, 5, 30, b"Hello").glyphs;
    let second = k.render_text_string(p, 0, 5 + width, 30, b"World").glyphs;
    let at = |g: &RenderedGlyph| (g.x, g.y, g.pixels.clone());
    let parts: Vec<(i64, i64, Vec<u8>)> = first.iter().chain(&second).map(at).collect();
    assert_eq!(whole.iter().map(at).collect::<Vec<(i64, i64, Vec<u8>)>>(), parts);
}

#[test]
fn poly_text_changes_fonts() {
    let mut k = KmsBackend::new(100, 100);
    let p = k.create_pixmap(24, 200, 60).as_raw();
    let (font, _) = k.open_font(face());
    let mut rest = vec![1, b'A', 255, 0, 0, 0];
    rest.extend_from_slice(&font.as_raw().to_le_bytes());
    rest.extend_from_slice(&[1, b'B']);
    let out = k.poly_text8(p, 0x00ff_0000, &body(4, 40, &rest));
    assert_eq!(out.len(), 3);
    // Without a font nothing is drawn; after the change something is.
    assert!(out[0].glyphs.is_empty() && out[1].glyphs.is_empty());
    assert_eq!(out[2].glyphs.len(), 1);
    assert!(out.iter().all(|t| t.color == color_from_u32(0x00ff_0000)));
    assert_eq!(k.current_font, FontHandle::from_raw(font.as_raw()).map(|f| f.as_raw()));
    assert!(k.poly_text8(p, 0, &[0; 11]).is_empty());
}

#[test]
fn image_text_fills_its_background() {
    let mut k = KmsBackend::new(100, 100);
    let p = k.create_pixmap(24, 200, 60).as_raw();
    let (font, measured) = k.open_font(face());
    let metrics = measured.metrics;
    let (left, text) = k.image_text8(p, 0, 0x00ff_0000, 2, &body(4, 40, b"AB"));
    assert!(left.is_none() && text.glyphs.is_empty());
    k.apply_draw_state(&DrawState { function: GcFunction::Copy, font: Some(font) });
    // More announced than there is.
    let (left, text) = k.image_text8(p, 0, 0x00ff_0000, 9, &body(4, 40, b"AB"));
    assert_eq!(text.glyphs.len(), 2);
    let width: u16 = b"AB"
        .iter()
        .map(|ch| metrics.char_infos[(ch - 0x20) as usize].character_width as u16)
        .sum();
    let left = left.unwrap();
    assert_eq!(
        left.rects,
        [Rectangle16 {
            x: 4,
            y: 40 - metrics.font_ascent,
            width,
            height: (metrics.font_ascent + metrics.font_descent) as u16,
        }]
    );
    let (left, text) = k.image_text8(p, 0, 0, 1, &[0; 11]);
    assert!(left.is_none() && text.glyphs.is_empty());
    let (_, one) = k.image_text8(p, 0, 0, 1, &body(4, 40, b"AB"));
    assert_eq!(one.glyphs.len(), 1);
}

#[test]
fn each_glyph_lands_in_place() {
    let infos = vec![info(0, 0, 7, 0, 0), info(0, 0, -3, 0, 0), info(0, 0, 9, 0, 0)];
    let blank = LoadedGlyph { width: 0, ..glyph() };
    // '"', a character the font does not have, space without a bitmap, '!', '"'.
    let loaded = vec![glyph(), glyph(), blank, glyph(), glyph()];
    let out = lay_out_text(&infos, b"\"\x7f !\"", &loaded, 100, 50);
    let at: Vec<(i64, i64)> = out.iter().map(|g| (g.x, g.y)).collect();
    assert_eq!(at, [(98, 42), (98 + 9 + 6 + 7, 42), (98 + 9 + 6 + 7 - 3, 42)]);
    assert!(out.iter().all(|g| g.pixels == [1, 2, 3, 4, 5, 6]));
}

#[test]
fn glyphs_are_loaded_for_known_characters() {
    let (font, measured) = prepare_face(face(), 5);
    assert!(font.handle == 5 && measured.size.granted);
    let (metrics, glyphs) = compute_font_metrics(&font);
    assert_eq!(metrics.char_infos, measured.metrics.char_infos);
    assert!(glyphs.iter().chain(&measured.glyphs).all(|g| g.font == 5));
    let loaded = load_text(&font, &metrics.char_infos, b"A\x01 ");
    assert!(loaded.iter().all(|g| g.font == 5));
    assert_eq!(loaded.iter().map(|g| g.code).collect::<Vec<u32>>(), [65, 1, 32]);
    assert_eq!(loaded[0].buffer, glyphs[65 - 0x20].buffer);
    assert_eq!(loaded[0].buffer.len(), (loaded[0].pitch * loaded[0].rows) as usize);
    assert!(loaded[1].buffer.is_empty() && loaded[1].hori_advance == 0);
    assert_eq!(metrics_from_glyphs(&glyphs).char_infos, metrics.char_infos);
}

#[test]
fn glyphs_that_fail_are_blank() {
    let kept = glyph_or_blank(Some(glyph()), 8, 66);
    assert_eq!((kept.font, kept.code, kept.width, kept.buffer.len()), (7, 65, 2, 12));
    let blank = glyph_or_blank(None, 8, 66);
    assert_eq!((blank.font, blank.code), (8, 66));
    assert_eq!((blank.hori_advance, blank.width, blank.rows), (0, 0, 0));
    assert!(blank.buffer.is_empty());
    assert_eq!(char_info_from_glyph(&blank), info(0, 0, 0, 0, 0));
    assert!(place_glyph(&blank, 0, 0).is_none());
}

#[test]
fn masks_are_padded_to_words() {
    let g = RenderedGlyph { x: 0, y: 0, width: 5, height: 2, pixels: (1..=10).collect() };
    let mask = coverage_mask(&g);
    assert_eq!(mask.stride, 8);
    assert_eq!(mask.bytes, [1, 2, 3, 4, 5, 0, 0, 0, 6, 7, 8, 9, 10, 0, 0, 0]);
    let whole = RenderedGlyph { width: 4, height: 1, pixels: vec![9; 4], ..g };
    assert_eq!(coverage_mask(&whole).bytes, [9; 4]);
}

#[test]
fn fonts_are_used_at_twelve_points() {
    assert_eq!(font_size(), CharSize { width: 12 << 6, height: 12 << 6, hres: 96, vres: 96 });
}

/// Black over white, through coverage of eight bits.
fn black_over_white(coverage: u8) -> u32 {
    let level = u32::from(255 - coverage);
    level << 16 | level << 8 | level
}

#[test]
fn glyph_render_gray_pixels_land_on_correct_rows() {
    let lib = freetype::Library::init().expect("freetype init");
    let candidates = [
        "/usr/share/fonts/TTF/DejaVuSansMono.ttf",
        "/usr/share/fonts/truetype/dejavu/DejaVuSansMono.ttf",
        "/usr/share/fonts/dejavu/DejaVuSansMono.ttf",
    ];
    let face = candidates
        .iter()
        .find_map(|p| lib.new_face(p, 0).ok())
        .expect("DejaVuSansMono.ttf not found: install dejavu fonts");
    // At twelve points and 96 dots per inch.
    let (font, _) = prepare_face(face.clone(), 1);
    let loaded = load_glyph(&font, 'A' as u32);
    let pm = face.glyph().bitmap().pixel_mode().expect("pixel_mode");
    assert_eq!(
        pm,
        freetype::bitmap::PixelMode::Gray,
        "expected GRAY pixel mode, got {:?}",
        pm
    );
    let w = loaded.width as usize;
    let h = loaded.rows as usize;
    assert!(w > 0 && h > 0, "glyph 'A' should have non-empty bitmap");
    assert!(loaded.pitch >= 0, "expected positive (downward) pitch");
    assert!(loaded.pitch as usize >= w, "pitch should be >= width for GRAY");

    // The pen on the baseline, so that the top of the glyph lands on row 0.
    let baseline_y = loaded.top;
    let glyph = place_glyph(&loaded, 0, i64::from(baseline_y)).expect("a bitmap");
    assert_eq!(glyph.y, 0);
    assert!(glyph.pixels.iter().any(|&b| b > 0), "glyph pixels should contain non-zero values");
    for row in 0..h {
        let src = row * loaded.pitch as usize;
        assert_eq!(glyph.pixels[row * w..row * w + w], loaded.buffer[src..src + w]);
    }

    let mask = coverage_mask(&glyph);
    assert!(mask.stride >= w, "stride must be >= width");
    assert_eq!(mask.stride, PixmanImage::new(PixelFormat::A8, w as u16, h as u16).stride());
    assert!(mask.bytes[..w].iter().any(|&b| b > 0), "first row should have non-zero alpha");

    let img_h = (baseline_y + 4).max(h as i32 + 4) as u16;
    let img_w = (w + 4) as u16;
    let mut dst = PixmanImage::new(PixelFormat::X8R8G8B8, img_w, img_h);
    dst.data.fill(0x00ff_ffff);
    for row in 0..h {
        for col in 0..w {
            let at = row * dst.stride() / 4 + col;
            dst.data[at] = black_over_white(mask.bytes[row * mask.stride + col]);
        }
    }
    assert!(dst.data.iter().any(|p| p & 0x00ff_ffff != 0x00ff_ffff));
}

#[test]
fn text_is_drawn_in_the_current_font() {
    let library = freetype::Library::init().expect("freetype init");
    let mut faces = font_candidates("-misc-fixed-medium-r-*")
        .into_iter()
        .filter_map(|path| library.new_face(&path, 0).ok());
    let one = faces.next().expect("a font");
    let other = faces.last().expect("a second font");
    let mut k = KmsBackend::new(100, 100);
    let p = k.create_pixmap(24, 200, 60).as_raw();
    let (first, first_measured) = k.open_font(one);
    let (second, second_measured) = k.open_font(other);
    assert!(first.as_raw() != second.as_raw());
    let letter = (b'A' - 0x20) as usize;
    let shapes = [&first_measured.glyphs[letter].buffer, &second_measured.glyphs[letter].buffer];
    assert!(shapes[0] != shapes[1]);
    for (font, shape) in [(first, shapes[0]), (second, shapes[1]), (first, shapes[0])] {
        k.apply_draw_state(&DrawState { function: GcFunction::Copy, font: Some(font) });
        let text = k.render_text_string(p, 0, 10, 40, b"A\x01");
        assert!(text.loaded.iter().all(|g| g.font == font.as_raw()));
        assert_eq!(text.loaded[0].buffer, *shape);
    }
}
