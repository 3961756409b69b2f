//! What request dispatch and a backend hand each other.

use vstd::prelude::*;

use crate::host_x11::HostSubwindowVisual;
use crate::protocol::FontMetrics;

verus! {

/// Why a backend turned a request down.
#[derive(Clone, Copy, Debug, PartialEq, Eq, Structural)]
pub enum BackendError {
    /// The backend lacks what the request needs.
    Unsupported,
    /// An argument is out of range.
    InvalidInput,
    /// No such resource could be found.
    NotFound,
    /// The outside world failed.
    Other,
}

/// A window of the backend. Never 0, which stands for none.
#[derive(Clone, Copy, Debug, PartialEq, Eq, Structural)]
pub struct WindowHandle {
    pub raw: u32,
}

impl WindowHandle {
    pub open spec fn of(raw: u32) -> Option<WindowHandle> {
        if raw == 0 {
            None
        } else {
            Some(WindowHandle { raw })
        }
    }

    pub fn from_raw(raw: u32) -> (r: Option<Self>)
        ensures
            r == WindowHandle::of(raw),
    {
        if raw == 0 {
            None
        } else {
            Some(WindowHandle { raw })
        }
    }

    pub fn as_raw(self) -> (r: u32)
        ensures
            r == self.raw,
    {
        self.raw
    }
}

/// A pixmap of the backend. Never 0, which stands for none.
#[derive(Clone, Copy, Debug, PartialEq, Eq, Structural)]
pub struct PixmapHandle {
    pub raw: u32,
}

impl PixmapHandle {
    pub open spec fn of(raw: u32) -> Option<PixmapHandle> {
        if raw == 0 {
            None
        } else {
            Some(PixmapHandle { raw })
        }
    }

    pub fn from_raw(raw: u32) -> (r: Option<Self>)
        ensures
            r == PixmapHandle::of(raw),
    {
        if raw == 0 {
            None
        } else {
            Some(PixmapHandle { raw })
        }
    }

    pub fn as_raw(self) -> (r: u32)
        ensures
            r == self.raw,
    {
        self.raw
    }
}

/// A font that the backend opened. Never 0, which stands for none.
#[derive(Clone, Copy, Debug, PartialEq, Eq, Structural)]
pub struct FontHandle {
    pub raw: u32,
}

impl FontHandle {
    pub open spec fn of(raw: u32) -> Option<FontHandle> {
        if raw == 0 {
            None
        } else {
            Some(FontHandle { raw })
        }
    }

    pub fn from_raw(raw: u32) -> (r: Option<Self>)
        ensures
            r == FontHandle::of(raw),
    {
        if raw == 0 {
            None
        } else {
            Some(FontHandle { raw })
        }
    }

    pub fn as_raw(self) -> (r: u32)
        ensures
            r == self.raw,
    {
        self.raw
    }
}

/// A cursor of the backend. Never 0, which stands for none.
#[derive(Clone, Copy, Debug, PartialEq, Eq, Structural)]
pub struct CursorHandle {
    pub raw: u32,
}

impl CursorHandle {
    pub open spec fn of(raw: u32) -> Option<CursorHandle> {
        if raw == 0 {
            None
        } else {
            Some(CursorHandle { raw })
        }
    }

    pub fn from_raw(raw: u32) -> (r: Option<Self>)
        ensures
            r == CursorHandle::of(raw),
    {
        if raw == 0 {
            None
        } else {
            Some(CursorHandle { raw })
        }
    }

    pub fn as_raw(self) -> (r: u32)
        ensures
            r == self.raw,
    {
        self.raw
    }
}

/// A RENDER picture of the backend. Never 0, which stands for none.
#[derive(Clone, Copy, Debug, PartialEq, Eq, Structural)]
pub struct PictureHandle {
    pub raw: u32,
}

impl PictureHandle {
    pub open spec fn of(raw: u32) -> Option<PictureHandle> {
        if raw == 0 {
            None
        } else {
            Some(PictureHandle { raw })
        }
    }

    pub fn from_raw(raw: u32) -> (r: Option<Self>)
        ensures
            r == PictureHandle::of(raw),
    {
        if raw == 0 {
            None
        } else {
            Some(PictureHandle { raw })
        }
    }

    pub fn as_raw(self) -> (r: u32)
        ensures
            r == self.raw,
    {
        self.raw
    }
}

/// A RENDER glyph set of the backend. Never 0, which stands for none.
#[derive(Clone, Copy, Debug, PartialEq, Eq, Structural)]
pub struct GlyphSetHandle {
    pub raw: u32,
}

impl GlyphSetHandle {
    pub open spec fn of(raw: u32) -> Option<GlyphSetHandle> {
        if raw == 0 {
            None
        } else {
            Some(GlyphSetHandle { raw })
        }
    }

    pub fn from_raw(raw: u32) -> (r: Option<Self>)
        ensures
            r == GlyphSetHandle::of(raw),
    {
        if raw == 0 {
            None
        } else {
            Some(GlyphSetHandle { raw })
        }
    }

    pub fn as_raw(self) -> (r: u32)
        ensures
            r == self.raw,
    {
        self.raw
    }
}

/// Anything that can be drawn on.
#[derive(Clone, Copy, Debug, PartialEq, Eq, Structural)]
pub enum AnyHandle {
    Window(WindowHandle),
    Pixmap(PixmapHandle),
}

impl AnyHandle {
    pub open spec fn raw(self) -> u32 {
        match self {
            AnyHandle::Window(handle) => handle.raw,
            AnyHandle::Pixmap(handle) => handle.raw,
        }
    }

    pub fn as_raw(self) -> (r: u32)
        ensures
            r == self.raw(),
    {
        match self {
            AnyHandle::Window(handle) => handle.raw,
            AnyHandle::Pixmap(handle) => handle.raw,
        }
    }
}

/// The sixteen ways in which a graphics context can combine source and
/// destination.
#[derive(Clone, Copy, Debug, PartialEq, Eq, Structural)]
pub enum GcFunction {
    Clear,
    And,
    AndReverse,
    Copy,
    AndInverted,
    NoOp,
    Xor,
    Or,
    Nor,
    Equiv,
    Invert,
    OrReverse,
    CopyInverted,
    OrInverted,
    Nand,
    SetAll,
}

/// Clip rectangles as they came over the wire, eight bytes each.
#[derive(Clone, Debug)]
pub struct ClipRectangles {
    pub ordering: u8,
    pub x_origin: i16,
    pub y_origin: i16,
    pub rectangles: Vec<u8>,
}

/// The clip of a graphics context.
#[derive(Clone, Debug)]
pub enum ClipState {
    Unclipped,
    Rectangles(ClipRectangles),
    Pixmap { host_pixmap: u32, x_origin: i16, y_origin: i16 },
}

/// The fill of a graphics context.
#[derive(Clone, Copy, Debug, PartialEq, Eq, Structural)]
pub enum FillState {
    Solid,
    Tiled { host_pixmap: u32, x_origin: i16, y_origin: i16 },
}

/// What a graphics context tells a backend before it draws.
#[derive(Clone, Copy, Debug, PartialEq, Eq, Structural)]
pub struct DrawState {
    pub function: GcFunction,
    pub font: Option<FontHandle>,
}

/// A change of a window's geometry; what is `None` stays.
#[derive(Clone, Copy, Debug, PartialEq, Eq, Structural)]
pub struct HostSubwindowConfig {
    pub x: Option<i16>,
    pub y: Option<i16>,
    pub width: Option<u16>,
    pub height: Option<u16>,
    pub border_width: Option<u16>,
}

/// Where the pointer is, and which buttons and modifiers are down.
#[derive(Clone, Copy, Debug, PartialEq, Eq, Structural)]
pub struct PointerPosition {
    pub same_screen: bool,
    pub win_x: i16,
    pub win_y: i16,
    pub mask: u16,
}

/// A rectangle of a region.
#[derive(Clone, Copy, Debug, PartialEq, Eq, Structural)]
pub struct RegionRect {
    pub x: i16,
    pub y: i16,
    pub width: u16,
    pub height: u16,
}

/// The surface that request dispatch calls on a backend. The methods take raw
/// backend identifiers where the resource table holds them raw.
pub trait Backend: Send {
    fn window_id(&self) -> u32;
    fn root_visual_xid(&self) -> u32;
    fn argb_visual_xid(&self) -> Option<u32>;
    fn argb_colormap_xid(&self) -> Option<u32>;
    fn render_opcode(&self) -> Option<u8>;
    fn xkb_opcode(&self) -> Option<u8>;
    fn xkb_info(&self) -> Option<(u8, u8, u8)>;
    fn composite_opcode(&self) -> Option<u8>;
    fn render_format_for_ynest_id(&self, ynest_fmt: u32) -> Option<u32>;
    fn ping(&mut self) -> Result<(), BackendError>;

    fn create_subwindow(
        &mut self,
        host_parent: WindowHandle,
        x: i16,
        y: i16,
        width: u16,
        height: u16,
        border_width: u16,
        visual: HostSubwindowVisual,
        background_pixel: Option<u32>,
        background_pixmap: Option<u32>,
    ) -> Result<WindowHandle, BackendError>;

    fn destroy_subwindow(&mut self, host_xid: u32) -> Result<(), BackendError>;

    fn map_subwindow(&mut self, host_xid: u32) -> Result<(), BackendError>;

    fn unmap_subwindow(&mut self, host_xid: u32) -> Result<(), BackendError>;

    fn configure_subwindow(&mut self, host_xid: u32, config: HostSubwindowConfig)
    -> Result<(), BackendError>;

    fn reparent_subwindow(
        &mut self,
        host_xid: u32,
        host_parent: u32,
        x: i16,
        y: i16,
    ) -> Result<(), BackendError>;

    fn change_subwindow_attributes(
        &mut self,
        host_xid: u32,
        value_mask: u32,
        values: &[u32],
    ) -> Result<(), BackendError>;

    fn name_window_pixmap(&mut self, host_window: WindowHandle) -> Result<PixmapHandle, BackendError>;

    fn create_pixmap(&mut self, depth: u8, width: u16, height: u16) -> Result<PixmapHandle, BackendError>;

    fn free_pixmap(&mut self, host_xid: u32) -> Result<(), BackendError>;

    fn open_font(&mut self, name: &str) -> Result<(FontHandle, FontMetrics), BackendError>;

    fn close_font(&mut self, host_xid: u32) -> Result<(), BackendError>;

    fn create_cursor(
        &mut self,
        source_pixmap: PixmapHandle,
        mask_pixmap: Option<PixmapHandle>,
        fore: (u16, u16, u16),
        back: (u16, u16, u16),
        hot_x: u16,
        hot_y: u16,
    ) -> Result<CursorHandle, BackendError>;

    fn define_cursor(&mut self, host_window_xid: u32, cursor_host_xid: u32) -> Result<(), BackendError>;

    fn set_container_background_pixel(&mut self, pixel: u32) -> Result<(), BackendError>;

    fn set_container_background_pixmap(&mut self, host_pixmap_xid: u32) -> Result<(), BackendError>;

    fn clear_clip_rectangles(&mut self) -> Result<(), BackendError>;

    fn set_clip_rectangles(&mut self, clip: Option<ClipRectangles>) -> Result<(), BackendError>;

    fn set_clip_pixmap(
        &mut self,
        host_pixmap: u32,
        clip_x_origin: i16,
        clip_y_origin: i16,
    ) -> Result<(), BackendError>;

    fn set_gc_fill_solid(&mut self) -> Result<(), BackendError>;

    fn set_gc_fill_tiled(
        &mut self,
        host_pixmap: u32,
        tile_x_origin: i16,
        tile_y_origin: i16,
    ) -> Result<(), BackendError>;

    fn apply_clip_state(&mut self, clip: &ClipState) -> Result<(), BackendError>;

    fn apply_fill_state(&mut self, fill: &FillState) -> Result<(), BackendError>;

    fn apply_draw_state(&mut self, state: &DrawState) -> Result<(), BackendError>;

    fn copy_area(
        &mut self,
        src_host_xid: u32,
        dst_host_xid: u32,
        src_x: i16,
        src_y: i16,
        dst_x: i16,
        dst_y: i16,
        width: u16,
        height: u16,
    ) -> Result<(), BackendError>;

    fn copy_plane(
        &mut self,
        src_host_xid: u32,
        dst_host_xid: u32,
        src_x: i16,
        src_y: i16,
        dst_x: i16,
        dst_y: i16,
        width: u16,
        height: u16,
        plane: u32,
    ) -> Result<(), BackendError>;

    fn put_image(
        &mut self,
        host_xid: u32,
        depth: u8,
        width: u16,
        height: u16,
        dst_x: i16,
        dst_y: i16,
        data: &[u8],
    ) -> Result<(), BackendError>;

    fn get_image(
        &mut self,
        host_xid: u32,
        format: u8,
        x: i16,
        y: i16,
        width: u16,
        height: u16,
        plane_mask: u32,
    ) -> Result<Option<Vec<u8>>, BackendError>;

    fn poly_line(
        &mut self,
        host_xid: u32,
        foreground: u32,
        coordinate_mode: u8,
        points: &[u8],
    ) -> Result<(), BackendError>;

    fn poly_segment(&mut self, host_xid: u32, foreground: u32, segments: &[u8]) -> Result<(), BackendError>;

    fn poly_rectangle(
        &mut self,
        host_xid: u32,
        foreground: u32,
        rectangles: &[u8],
    ) -> Result<(), BackendError>;

    fn poly_arc(&mut self, host_xid: u32, foreground: u32, arcs: &[u8]) -> Result<(), BackendError>;

    fn poly_point(
        &mut self,
        host_xid: u32,
        foreground: u32,
        coordinate_mode: u8,
        points: &[u8],
    ) -> Result<(), BackendError>;

    fn poly_fill_rectangle(
        &mut self,
        host_xid: u32,
        foreground: u32,
        rectangles: &[u8],
    ) -> Result<(), BackendError>;

    fn poly_fill_arc(&mut self, host_xid: u32, foreground: u32, arcs: &[u8]) -> Result<(), BackendError>;

    fn fill_poly(
        &mut self,
        host_xid: u32,
        foreground: u32,
        coord_mode: u8,
        points: &[u8],
    ) -> Result<(), BackendError>;

    fn fill_rectangle(
        &mut self,
        host_xid: u32,
        foreground: u32,
        x: i16,
        y: i16,
        width: u16,
        height: u16,
    ) -> Result<(), BackendError>;

    fn poly_text8(&mut self, host_xid: u32, foreground: u32, body: &[u8]) -> Result<(), BackendError>;

    fn poly_text16(&mut self, host_xid: u32, foreground: u32, body: &[u8]) -> Result<(), BackendError>;

    fn image_text8(
        &mut self,
        host_xid: u32,
        foreground: u32,
        background: u32,
        text_len: u8,
        body: &[u8],
    ) -> Result<(), BackendError>;

    fn image_text16(
        &mut self,
        host_xid: u32,
        foreground: u32,
        background: u32,
        text_len: u8,
        body: &[u8],
    ) -> Result<(), BackendError>;

    fn render_create_picture(
        &mut self,
        host_drawable: AnyHandle,
        ynest_format: u32,
        value_mask: u32,
        values: &[u8],
    ) -> Result<Option<PictureHandle>, BackendError>;

    fn render_change_picture(&mut self, host_pic: u32, body: &[u8]) -> Result<(), BackendError>;

    fn render_free_picture(&mut self, host_pic: u32) -> Result<(), BackendError>;

    fn render_create_glyphset(&mut self, ynest_format: u32) -> Result<Option<GlyphSetHandle>, BackendError>;

    fn render_free_glyphset(&mut self, host_gs: u32) -> Result<(), BackendError>;

    fn render_add_glyphs(&mut self, host_gs: u32, body_tail: &[u8]) -> Result<(), BackendError>;

    fn render_free_glyphs(&mut self, host_gs: u32, glyph_ids: &[u8]) -> Result<(), BackendError>;

    fn render_composite(
        &mut self,
        op: u8,
        host_src: u32,
        host_mask: u32,
        host_dst: u32,
        src_x: i16,
        src_y: i16,
        mask_x: i16,
        mask_y: i16,
        dst_x: i16,
        dst_y: i16,
        width: u16,
        height: u16,
    ) -> Result<(), BackendError>;

    fn render_composite_glyphs(
        &mut self,
        minor: u8,
        op: u8,
        host_src: u32,
        host_dst: u32,
        mask_fmt: u32,
        host_gs: u32,
        src_x: i16,
        src_y: i16,
        items: &[u8],
        x_off: i16,
        y_off: i16,
    ) -> Result<(), BackendError>;

    fn render_fill_rectangles(
        &mut self,
        host_dst: u32,
        op: u8,
        color: [u8; 8],
        rects: &[u8],
        x_off: i16,
        y_off: i16,
    ) -> Result<(), BackendError>;

    fn render_trapezoids(
        &mut self,
        op: u8,
        host_src: u32,
        host_dst: u32,
        host_mask_format: u32,
        src_x: i16,
        src_y: i16,
        traps: &[u8],
        x_off: i16,
        y_off: i16,
    ) -> Result<(), BackendError>;

    fn render_create_solid_fill(&mut self, color: [u8; 8]) -> Result<Option<PictureHandle>, BackendError>;

    fn render_create_linear_gradient(&mut self, body: &[u8]) -> Result<Option<PictureHandle>, BackendError>;

    fn render_create_radial_gradient(&mut self, body: &[u8]) -> Result<Option<PictureHandle>, BackendError>;

    fn render_create_cursor(
        &mut self,
        host_src_pic: PictureHandle,
        x: u16,
        y: u16,
    ) -> Result<Option<CursorHandle>, BackendError>;

    fn render_set_picture_clip_rectangles(&mut self, host_pic: u32, body: &[u8]) -> Result<(), BackendError>;

    fn render_set_picture_filter(&mut self, host_pic: u32, body: &[u8]) -> Result<(), BackendError>;

    fn render_set_picture_transform(&mut self, host_pic: u32, body: &[u8]) -> Result<(), BackendError>;

    fn render_query_version(&mut self) -> Result<(u32, u32), BackendError>;

    fn xkb_proxy(&mut self, minor: u8, body: &[u8]) -> Result<Option<Vec<u8>>, BackendError>;

    fn xfixes_change_cursor_by_name(
        &mut self,
        host_cursor_xid: u32,
        name_bytes: &[u8],
    ) -> Result<(), BackendError>;

    fn set_shape_rectangles(
        &mut self,
        host_xid: u32,
        kind: u8,
        rects: &[RegionRect],
    ) -> Result<(), BackendError>;

    fn warp_pointer(&mut self, dst_host_xid: u32, dst_x: i16, dst_y: i16) -> Result<(), BackendError>;

    fn query_pointer(&mut self) -> Result<PointerPosition, BackendError>;

    fn list_fonts_proxy(&mut self, max_names: u16, pattern: &str) -> Result<Vec<u8>, BackendError>;

    fn list_fonts_with_info_proxy(
        &mut self,
        max_names: u16,
        pattern: &str,
    ) -> Result<Vec<Vec<u8>>, BackendError>;

    fn get_atom_name(&mut self, atom: u32) -> Result<Option<String>, BackendError>;

    fn get_keyboard_mapping(&mut self, first_keycode: u8, count: u8) -> Result<(u8, Vec<u32>), BackendError>;

    fn get_modifier_mapping(&mut self) -> Result<(u8, Vec<u8>), BackendError>;
}

/// A handle is made of every number but 0, and keeps it.
pub proof fn lemma_handles_keep_their_numbers(raw: u32)
    ensures
        raw == 0 ==> WindowHandle::of(raw) is None && PixmapHandle::of(raw) is None
            && FontHandle::of(raw) is None && CursorHandle::of(raw) is None && PictureHandle::of(
            raw,
        ) is None && GlyphSetHandle::of(raw) is None,
        raw != 0 ==> {
            &&& WindowHandle::of(raw) is Some && WindowHandle::of(raw)->0.raw == raw
            &&& PixmapHandle::of(raw) is Some && PixmapHandle::of(raw)->0.raw == raw
            &&& FontHandle::of(raw) is Some && FontHandle::of(raw)->0.raw == raw
            &&& CursorHandle::of(raw) is Some && CursorHandle::of(raw)->0.raw == raw
            &&& PictureHandle::of(raw) is Some && PictureHandle::of(raw)->0.raw == raw
            &&& GlyphSetHandle::of(raw) is Some && GlyphSetHandle::of(raw)->0.raw == raw
        },
{
}

/// A drawable goes by the number of its window or pixmap.
pub proof fn lemma_drawables_keep_their_numbers(w: WindowHandle, p: PixmapHandle)
    ensures
        AnyHandle::Window(w).raw() == w.raw,
        AnyHandle::Pixmap(p).raw() == p.raw,
{
}

} // verus!
