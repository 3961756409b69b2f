//! What the views of types show.

use vstd::prelude::*;

use crate::cli;
use crate::host_x11::{HostAction, HostResponse, HostX11Backend};
use crate::kms::cursor_plane::CursorPlane;
use crate::kms::face::LoadedGlyph;
use crate::kms::fonts;
use crate::kms::image::{PixmanImage, SolidFill};
use crate::kms::input;
use crate::kms::pictures::TrapezoidPlan;
use crate::kms::raster;
use crate::kms::render_node;
use crate::kms::state::{FontState, KmsBackend, PictureState, PixmapState, WindowState};
use crate::kms::text;
use crate::kms::text::{RenderedGlyph, RenderedText, TextItem};
use crate::kms::typeset;
use crate::protocol::{FontMetrics, PropertyValue};
use crate::resources::{Font, ResourceTable, Window};

verus! {

/// The view of metrics shows its fields under their names.
pub proof fn lemma_font_metrics_is_shown(v: FontMetrics)
    ensures
        v@.min_bounds == v.min_bounds,
        v@.max_bounds == v.max_bounds,
        v@.min_char_or_byte2 == v.min_char_or_byte2,
        v@.max_char_or_byte2 == v.max_char_or_byte2,
        v@.default_char == v.default_char,
        v@.draw_direction == v.draw_direction,
        v@.min_byte1 == v.min_byte1,
        v@.max_byte1 == v.max_byte1,
        v@.all_chars_exist == v.all_chars_exist,
        v@.font_ascent == v.font_ascent,
        v@.font_descent == v.font_descent,
        v@.properties == v.properties@,
        v@.char_infos == v.char_infos@,
{
}

/// The view of a property shows its fields under their names.
pub proof fn lemma_property_value_is_shown(v: PropertyValue)
    ensures
        v@.type_atom == v.type_atom,
        v@.format == v.format,
        v@.data == v.data@,
{
}

/// The view of a response shows its fields under their names.
pub proof fn lemma_host_response_is_shown(v: HostResponse)
    ensures
        v@.sequence == v.sequence,
        v@.bytes == v.bytes@,
{
}

/// The view of the books of a connection shows its fields under their names.
pub proof fn lemma_host_x11_backend_is_shown(v: HostX11Backend)
    ensures
        v@.window_id == v.window_id,
        v@.gc_id == v.gc_id,
        v@.gc == v.gc,
        v@.sequence == v.sequence,
        v@.next_xid_counter == v.next_xid_counter,
        v@.render == v.render,
        v@.xkb == v.xkb,
        v@.shape_opcode == v.shape_opcode,
        v@.xfixes_opcode == v.xfixes_opcode,
        v@.composite_opcode == v.composite_opcode,
        v@.root == v.root,
        v@.root_visual_xid == v.root_visual_xid,
        v@.argb_visual_xid == v.argb_visual_xid,
        v@.argb_colormap_xid == v.argb_colormap_xid,
        v@.reply_buffer.len() == v.reply_buffer@.len(),
        forall|i: int| 0 <= i < v.reply_buffer@.len() ==> #[trigger] v@.reply_buffer[i] == v.reply_buffer@[i]@,
        v@.depth_gcs == v.depth_gcs@,
        v@.probe == v.probe,
        v@.awaited == v.awaited,
{
}

/// The view of a window shows its fields under their names.
pub proof fn lemma_window_is_shown(v: Window)
    ensures
        v@.id == v.id,
        v@.parent == v.parent,
        v@.children == v.children@,
        v@.x == v.x,
        v@.y == v.y,
        v@.width == v.width,
        v@.height == v.height,
        v@.border_width == v.border_width,
        v@.depth == v.depth,
        v@.visual == v.visual,
        v@.class == v.class,
        v@.map_state == v.map_state,
        v@.background_pixel == v.background_pixel,
        v@.override_redirect == v.override_redirect,
        v@.cursor == v.cursor,
        v@.owner == v.owner,
        v@.properties.dom() == v.properties@.dom(),
        forall|k: u32| #[trigger] v@.properties.contains_key(k) ==> v@.properties[k] == v.properties@[k]@,
{
    assert(v@.properties.dom() =~= v.properties@.dom());
}

/// The view of a font shows its fields under their names.
pub proof fn lemma_font_is_shown(v: Font)
    ensures
        v@.id == v.id,
        v@.name == v.name@,
        v@.host_xid == v.host_xid,
        v@.metrics == v.metrics@,
        v@.owner == v.owner,
{
}

/// The view of a window of the screen shows its fields under their names.
pub proof fn lemma_window_state_is_shown(v: WindowState)
    ensures
        v@.nested_id == v.nested_id,
        v@.x == v.x,
        v@.y == v.y,
        v@.width == v.width,
        v@.height == v.height,
        v@.border_width == v.border_width,
        v@.mapped == v.mapped,
        v@.override_redirect == v.override_redirect,
        v@.parent == v.parent,
        v@.children == v.children@,
        v@.bg_pixel == v.bg_pixel,
        v@.bg_pixmap == v.bg_pixmap,
        v@.image == v.image@,
        v@.depth == v.depth,
        v@.visual == v.visual,
{
}

/// The view of an open font shows its fields under their names.
pub proof fn lemma_font_state_is_shown(v: FontState)
    ensures
        v@.handle == v.face.handle,
        v@.face == v.face.face.inner(),
        v@.size == v.face.face.reply(),
        v@.metrics == v.metrics@,
{
}

/// The view of a pixmap shows its fields under their names.
pub proof fn lemma_pixmap_state_is_shown(v: PixmapState)
    ensures
        v@.handle == v.handle,
        v@.image == v.image@,
        v@.depth == v.depth,
{
}

/// The view of the screen shows its fields under their names.
pub proof fn lemma_kms_backend_is_shown(v: KmsBackend)
    ensures
        v@.fb_w == v.fb_w,
        v@.fb_h == v.fb_h,
        v@.windows.dom() == v.windows@.dom(),
        forall|k: u32| #[trigger] v@.windows.contains_key(k) ==> v@.windows[k] == v.windows@[k]@,
        v@.next_host_xid == v.next_host_xid,
        v@.window_id == v.window_id,
        v@.root_visual_xid == v.root_visual_xid,
        v@.xid_map == v.xid_map@,
        v@.fonts.dom() == v.fonts@.dom(),
        forall|k: u32| #[trigger] v@.fonts.contains_key(k) ==> v@.fonts[k] == v.fonts@[k]@,
        v@.pixmaps.dom() == v.pixmaps@.dom(),
        forall|k: u32| #[trigger] v@.pixmaps.contains_key(k) ==> v@.pixmaps[k] == v.pixmaps@[k]@,
        v@.bg_pixel == v.bg_pixel,
        v@.bg_pixmap == v.bg_pixmap,
        v@.cursor_x == v.cursor_x,
        v@.cursor_y == v.cursor_y,
        v@.current_font == v.current_font,
        v@.current_function == v.current_function,
        v@.pictures.dom() == v.pictures@.dom(),
        forall|k: u32| #[trigger] v@.pictures.contains_key(k) ==> v@.pictures[k] == v.pictures@[k]@,
{
    assert(v@.windows.dom() =~= v.windows@.dom());
    assert(v@.fonts.dom() =~= v.fonts@.dom());
    assert(v@.pixmaps.dom() =~= v.pixmaps@.dom());
    assert(v@.pictures.dom() =~= v.pictures@.dom());
}

/// The view of the cursor plane shows its fields under their names.
pub proof fn lemma_cursor_plane_is_shown(v: CursorPlane)
    ensures
        v@.stride == v.stride,
        v@.visible == v.visible@,
        v@.uploaded_version == v.uploaded_version,
{
}

/// The view of a glyph in place shows its fields under their names.
pub proof fn lemma_rendered_glyph_is_shown(v: RenderedGlyph)
    ensures
        v@.x == v.x,
        v@.y == v.y,
        v@.width == v.width,
        v@.height == v.height,
        v@.pixels == v.pixels@,
{
}

/// The view of an image shows its fields under their names.
pub proof fn lemma_pixman_image_is_shown(v: PixmanImage)
    ensures
        v@.format == v.format,
        v@.width == v.width,
        v@.height == v.height,
        v@.stride_words == v.stride_words,
        v@.data == v.data@,
{
}

/// The view of a fill shows its fields under their names.
pub proof fn lemma_solid_fill_is_shown(v: SolidFill)
    ensures
        v@.color == v.color,
        v@.rects == v.rects@,
{
}

/// The view of a rendered glyph shows its fields under their names.
pub proof fn lemma_loaded_glyph_is_shown(v: LoadedGlyph)
    ensures
        v@.font == v.font,
        v@.code == v.code,
        v@.hori_advance == v.hori_advance,
        v@.hori_bearing_x == v.hori_bearing_x,
        v@.hori_bearing_y == v.hori_bearing_y,
        v@.width == v.width,
        v@.rows == v.rows,
        v@.pitch == v.pitch,
        v@.left == v.left,
        v@.top == v.top,
        v@.buffer == v.buffer@,
{
}

/// The view of a plan shows its fields under their names.
pub proof fn lemma_trapezoid_plan_is_shown(v: TrapezoidPlan)
    ensures
        v@.op == v.op,
        v@.color == v.color,
        v@.drawable == v.drawable,
        v@.clip is Some <==> v.clip is Some,
        v.clip is Some ==> v@.clip->0 == v.clip->0@,
        v@.src_x == v.src_x,
        v@.src_y == v.src_y,
        v@.x_off == v.x_off,
        v@.y_off == v.y_off,
        v@.traps == v.traps@,
{
}

/// The view of the table shows everything under its identifier.
pub proof fn lemma_resource_table_is_shown(v: ResourceTable)
    ensures
        v@.windows.dom() == v.windows@.dom(),
        forall|k: u32| #[trigger] v@.windows.contains_key(k) ==> v@.windows[k] == v.windows@[k]@,
        v@.fonts.dom() == v.fonts@.dom(),
        forall|k: u32| #[trigger] v@.fonts.contains_key(k) ==> v@.fonts[k] == v.fonts@[k]@,
        v@.pixmaps == v.pixmaps@,
        v@.gcs == v.gcs@,
        v@.cursors == v.cursors@,
{
    assert(v@.windows.dom() =~= v.windows@.dom());
    assert(v@.fonts.dom() =~= v.fonts@.dom());
}

/// The view of a picture shows what it draws on and its clip, or its colour.
pub proof fn lemma_picture_is_shown(v: PictureState)
    ensures
        match v {
            PictureState::Drawable { host_xid, clip } => {
                &&& v@ is Drawable
                &&& v@->host_xid == host_xid
                &&& v@->clip is Some <==> clip is Some
                &&& clip is Some ==> v@->clip->0 == clip->0@
            },
            PictureState::SolidFill { color } => v@ is SolidFill && v@->color == color,
        },
{
}

/// The view of a text item shows its font, or its place and its characters.
pub proof fn lemma_text_item_is_shown(v: TextItem)
    ensures
        match v {
            TextItem::Font { xid } => v@ is Font && v@->xid == xid,
            TextItem::Run { x, text } => v@ is Run && v@->x == x && v@->text == text@,
        },
{
}

/// The view of a step of startup shows what to send.
pub proof fn lemma_host_action_is_shown(v: HostAction)
    ensures
        match v {
            HostAction::Send { request } => v@ is Send && v@->request == request@,
            HostAction::Read => v@ is Read,
            HostAction::Finish => v@ is Finish,
        },
{
}

/// The view of a rendered string shows its glyphs one by one.
pub proof fn lemma_rendered_text_is_shown(v: RenderedText, i: int)
    ensures
        v@.color == v.color,
        v@.loaded.len() == v.loaded@.len(),
        0 <= i < v.loaded@.len() ==> v@.loaded[i] == v.loaded@[i]@,
        v@.glyphs.len() == v.glyphs@.len(),
        0 <= i < v.glyphs@.len() ==> v@.glyphs[i] == v.glyphs@[i]@,
{
}

/// Lists are shown entry by entry.
pub proof fn lemma_lists_are_shown(
    items: Seq<TextItem>,
    texts: Seq<RenderedText>,
    rows: Seq<Vec<u32>>,
    args: Seq<String>,
    values: Seq<i64>,
    i: int,
)
    ensures
        text::item_views(items).len() == items.len(),
        0 <= i < items.len() ==> text::item_views(items)[i] == items[i]@,
        typeset::rendering_views(texts).len() == texts.len(),
        0 <= i < texts.len() ==> typeset::rendering_views(texts)[i] == texts[i]@,
        input::row_views(rows).len() == rows.len(),
        0 <= i < rows.len() ==> input::row_views(rows)[i] == rows[i]@,
        cli::arg_views(args).len() == args.len(),
        0 <= i < args.len() ==> cli::arg_views(args)[i] == args[i]@,
        render_node::name_views(args).len() == args.len(),
        0 <= i < args.len() ==> render_node::name_views(args)[i] == args[i]@,
        fonts::string_views(args).len() == args.len(),
        0 <= i < args.len() ==> fonts::string_views(args)[i] == args[i]@,
        raster::ints(values).len() == values.len(),
        0 <= i < values.len() ==> raster::ints(values)[i] == values[i],
{
}

} // verus!
