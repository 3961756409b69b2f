//! Windows of the screen: creating, arranging and destroying them.

use vstd::prelude::*;

use crate::backend::{BackendError, HostSubwindowConfig, PixmapHandle, WindowHandle};
use crate::host_x11::HostSubwindowVisual;
use crate::kms::events::HostExposeEvent;
use crate::kms::image;
use crate::kms::image::{color_from_u32, ImageView, PixelFormat, PixmanImage, SolidFill,
    SolidFillView};
use crate::kms::raster::Rectangle16;
use crate::kms::state::{KmsBackend, KmsView, WindowState, WindowStateView};
use crate::protocol::ResourceId;
use crate::resources;

verus! {

/// The whole of a window has to be drawn again.
pub open spec fn full_exposure(xid: u32, w: WindowStateView) -> HostExposeEvent {
    HostExposeEvent { host_xid: xid, x: 0, y: 0, width: w.width, height: w.height, count: 0 }
}

/// Exposures of those of the first `n` windows of `ids` that exist and are
/// mapped, `but` excepted.
pub open spec fn exposures(
    ws: Map<u32, WindowStateView>,
    ids: Seq<u32>,
    but: Option<u32>,
    n: int,
) -> Seq<HostExposeEvent>
    decreases n,
{
    if n <= 0 {
        Seq::empty()
    } else {
        let id = ids[n - 1];
        let before = exposures(ws, ids, but, n - 1);
        if Some(id) != but && ws.contains_key(id) && ws[id].mapped {
            before.push(full_exposure(id, ws[id]))
        } else {
            before
        }
    }
}

/// A rectangle over a whole image.
pub open spec fn whole(width: u16, height: u16) -> Rectangle16 {
    Rectangle16 { x: 0, y: 0, width, height }
}

/// What is left to fill of a new image for a window: its background, if it has
/// one.
pub open spec fn background_fill(
    bg_pixel: Option<u32>,
    width: u16,
    height: u16,
) -> Option<SolidFillView> {
    match bg_pixel {
        Some(pixel) => Some(
            SolidFillView {
                color: image::pixel_color(pixel),
                rects: seq![whole(width, height)],
            },
        ),
        None => None,
    }
}

/// The children of the parent of a window.
pub open spec fn siblings(ws: Map<u32, WindowStateView>, xid: u32) -> Seq<u32> {
    if ws.contains_key(xid) {
        match ws[xid].parent {
            Some(parent) => if ws.contains_key(parent) {
                ws[parent].children
            } else {
                Seq::empty()
            },
            None => Seq::empty(),
        }
    } else {
        Seq::empty()
    }
}

/// `ws` with `child` no longer listed by `parent`.
pub open spec fn unlisted(ws: Map<u32, WindowStateView>, parent: Option<u32>, child: u32) -> Map<
    u32,
    WindowStateView,
> {
    match parent {
        Some(p) => if ws.contains_key(p) {
            ws.insert(p, ws[p].without_child(child))
        } else {
            ws
        },
        None => ws,
    }
}

/// `ws` with `child` listed last by `parent`.
pub open spec fn listed(ws: Map<u32, WindowStateView>, parent: u32, child: u32) -> Map<
    u32,
    WindowStateView,
> {
    if ws.contains_key(parent) {
        ws.insert(parent, ws[parent].with_child(child))
    } else {
        ws
    }
}

/// A window as first created: blank and not mapped.
pub open spec fn new_window(
    parent: u32,
    x: i16,
    y: i16,
    width: u16,
    height: u16,
    border_width: u16,
    visual: HostSubwindowVisual,
    background_pixel: Option<u32>,
) -> WindowStateView {
    WindowStateView {
        nested_id: ResourceId(resources::ROOT_WINDOW),
        x,
        y,
        width,
        height,
        border_width,
        mapped: false,
        override_redirect: false,
        parent: Some(parent),
        children: Seq::empty(),
        bg_pixel: background_pixel,
        bg_pixmap: None,
        image: ImageView::blank(PixelFormat::X8R8G8B8, width, height),
        depth: match visual {
            HostSubwindowVisual::CopyFromParent => 24,
            HostSubwindowVisual::Explicit { depth, .. } => depth,
        },
        visual: match visual {
            HostSubwindowVisual::CopyFromParent => 0,
            HostSubwindowVisual::Explicit { visual_xid, .. } => visual_xid,
        },
    }
}

/// A window with another geometry. A new size takes new, blank pixels.
pub open spec fn reconfigured(
    w: WindowStateView,
    config: HostSubwindowConfig,
) -> WindowStateView {
    let width = resources::or_default(config.width, w.width);
    let height = resources::or_default(config.height, w.height);
    WindowStateView {
        x: resources::or_default(config.x, w.x),
        y: resources::or_default(config.y, w.y),
        width,
        height,
        border_width: resources::or_default(config.border_width, w.border_width),
        image: if is_resize(config) {
            ImageView::blank(PixelFormat::X8R8G8B8, width, height)
        } else {
            w.image
        },
        ..w
    }
}

pub open spec fn is_resize(config: HostSubwindowConfig) -> bool {
    config.width is Some || config.height is Some
}

/// A window after ChangeWindowAttributes: the values for the bits of the mask
/// come in the order of the bits. Only background pixmap and background pixel
/// are kept; a pixmap of 0 is none.
pub open spec fn with_attributes(
    w: WindowStateView,
    value_mask: u32,
    values: Seq<u32>,
) -> WindowStateView {
    let pixmap = value_mask & 1 != 0 && values.len() > 0;
    let at: int = if pixmap {
        1
    } else {
        0
    };
    WindowStateView {
        bg_pixmap: if pixmap {
            PixmapHandle::of(values[0])
        } else {
            w.bg_pixmap
        },
        bg_pixel: if value_mask & 2 != 0 && values.len() > at {
            Some(values[at])
        } else {
            w.bg_pixel
        },
        ..w
    }
}

impl KmsView {
    /// The state with one window replaced.
    pub open spec fn with_window(self, xid: u32, w: WindowStateView) -> KmsView {
        self.with_windows(self.windows.insert(xid, w))
    }

    /// The state with a new window, filed under a new identifier and listed last
    /// by its parent.
    pub open spec fn with_new_window(self, w: WindowStateView) -> KmsView {
        let xid = self.new_xid();
        let filed = self.windows.insert(xid, w);
        KmsView {
            next_host_xid: xid,
            windows: match w.parent {
                Some(parent) => listed(filed, parent, xid),
                None => filed,
            },
            ..self
        }
    }

    /// The state without a window. Its children stay.
    pub open spec fn without_window(self, xid: u32) -> KmsView {
        KmsView {
            windows: if self.windows.contains_key(xid) {
                unlisted(self.windows.remove(xid), self.windows[xid].parent, xid)
            } else {
                self.windows
            },
            xid_map: self.xid_map.remove(xid),
            ..self
        }
    }

    /// The state with a window mapped or unmapped.
    pub open spec fn with_mapped(self, xid: u32, mapped: bool) -> KmsView {
        if self.windows.contains_key(xid) {
            self.with_window(xid, WindowStateView { mapped, ..self.windows[xid] })
        } else {
            self
        }
    }

    /// The state with a window moved below another parent, listed last there.
    pub open spec fn reparented(self, xid: u32, new_parent: u32, x: i16, y: i16) -> KmsView {
        if self.windows.contains_key(xid) {
            let moved = self.windows.insert(
                xid,
                WindowStateView { parent: Some(new_parent), x, y, ..self.windows[xid] },
            );
            self.with_windows(
                listed(unlisted(moved, self.windows[xid].parent, xid), new_parent, xid),
            )
        } else {
            self
        }
    }
}

/// Makes a blank image, and what is left to fill of it.
fn backdrop(bg_pixel: Option<u32>, width: u16, height: u16) -> (r: (
    PixmanImage,
    Option<SolidFill>,
))
    ensures
        r.0@ == ImageView::blank(PixelFormat::X8R8G8B8, width, height),
        match r.1 {
            Some(fill) => background_fill(bg_pixel, width, height) == Some(fill@),
            None => background_fill(bg_pixel, width, height) is None,
        },
{
    let img = PixmanImage::new(PixelFormat::X8R8G8B8, width, height);
    let fill = match bg_pixel {
        Some(pixel) => {
            let mut rects: Vec<Rectangle16> = Vec::new();
            rects.push(Rectangle16 { x: 0, y: 0, width, height });
            assert(rects@ =~= seq![whole(width, height)]);
            Some(SolidFill { color: color_from_u32(pixel), rects })
        },
        None => None,
    };
    (img, fill)
}

/// Copies a list of identifiers.
fn copy_ids(ids: &Vec<u32>) -> (r: Vec<u32>)
    ensures
        r@ == ids@,
{
    let r = ids.clone();
    assert(r@ =~= ids@);
    r
}

impl KmsBackend {
    /// Creates a window below `host_parent`, and what is left to fill of it: the
    /// background, so that clients see it before they draw.
    pub fn create_subwindow(
        &mut self,
        host_parent: WindowHandle,
        x: i16,
        y: i16,
        width: u16,
        height: u16,
        border_width: u16,
        visual: HostSubwindowVisual,
        background_pixel: Option<u32>,
    ) -> (r: (WindowHandle, Option<SolidFill>))
        requires
            old(self)@.next_host_xid < u32::MAX,
        ensures
            r.0.raw == old(self)@.new_xid(),
            match r.1 {
                Some(fill) => background_fill(background_pixel, width, height) == Some(fill@),
                None => background_fill(background_pixel, width, height) is None,
            },
            final(self)@ == old(self)@.with_new_window(
                new_window(
                    host_parent.raw,
                    x,
                    y,
                    width,
                    height,
                    border_width,
                    visual,
                    background_pixel,
                ),
            ),
    {
        let host_xid: u32 = self.take_host_xid();
        let (image, fill) = backdrop(background_pixel, width, height);
        let depth: u8 = match visual {
            HostSubwindowVisual::CopyFromParent => 24,
            HostSubwindowVisual::Explicit { depth, .. } => depth,
        };
        let visual_xid: u32 = match visual {
            HostSubwindowVisual::CopyFromParent => 0,
            HostSubwindowVisual::Explicit { visual_xid, .. } => visual_xid,
        };
        let window = WindowState {
            nested_id: ResourceId(resources::ROOT_WINDOW),
            x,
            y,
            width,
            height,
            border_width,
            mapped: false,
            override_redirect: false,
            parent: Some(host_parent.as_raw()),
            children: Vec::new(),
            bg_pixel: background_pixel,
            bg_pixmap: None,
            image,
            depth,
            visual: visual_xid,
        };
        assert(window@ =~= new_window(
            host_parent.raw,
            x,
            y,
            width,
            height,
            border_width,
            visual,
            background_pixel,
        ));
        self.put_window(host_xid, window);
        self.list_child(host_parent.as_raw(), host_xid);
        (WindowHandle { raw: host_xid }, fill)
    }

    /// Lists `child` last among the children of `parent`.
    fn list_child(&mut self, parent: u32, child: u32)
        ensures
            final(self)@ == old(self)@.with_windows(listed(old(self)@.windows, parent, child)),
    {
        if let Some(mut p) = self.take_window(parent) {
            let ghost before = p@;
            p.children.push(child);
            assert(p@ =~= before.with_child(child));
            self.put_window(parent, p);
            assert(self@.windows =~= listed(old(self)@.windows, parent, child));
        }
        assert(self@ =~= old(self)@.with_windows(listed(old(self)@.windows, parent, child)));
    }

    /// Drops `child` from the children of `parent`.
    fn unlist_child(&mut self, parent: Option<u32>, child: u32)
        ensures
            final(self)@ == old(self)@.with_windows(unlisted(old(self)@.windows, parent, child)),
    {
        if let Some(xid) = parent {
            if let Some(mut p) = self.take_window(xid) {
                p.remove_child(child);
                self.put_window(xid, p);
                assert(self@.windows =~= unlisted(old(self)@.windows, parent, child));
            }
        }
        assert(self@ =~= old(self)@.with_windows(unlisted(old(self)@.windows, parent, child)));
    }

    /// The children of the parent of a window.
    fn sibling_ids(&self, host_xid: u32) -> (r: Vec<u32>)
        ensures
            r@ == siblings(self@.windows, host_xid),
    {
        if let Some(w) = self.window(host_xid) {
            if let Some(parent) = w.parent {
                if let Some(p) = self.window(parent) {
                    return copy_ids(&p.children);
                }
            }
        }
        let none: Vec<u32> = Vec::new();
        assert(none@ =~= siblings(self@.windows, host_xid));
        none
    }

    /// Exposures of the mapped windows of `ids`, `but` excepted.
    fn expose_all(&self, ids: &Vec<u32>, but: Option<u32>) -> (r: Vec<HostExposeEvent>)
        ensures
            r@ == exposures(self@.windows, ids@, but, ids@.len() as int),
    {
        let mut events: Vec<HostExposeEvent> = Vec::new();
        let n: usize = ids.len();
        for i in 0..n
            invariant
                n == ids@.len(),
                events@ == exposures(self@.windows, ids@, but, i as int),
        {
            let id: u32 = ids[i];
            let skip = match but {
                Some(other) => other == id,
                None => false,
            };
            if !skip {
                if let Some(w) = self.window(id) {
                    if w.mapped {
                        events.push(
                            HostExposeEvent {
                                host_xid: id,
                                x: 0,
                                y: 0,
                                width: w.width,
                                height: w.height,
                                count: 0,
                            },
                        );
                    }
                }
            }
        }
        events
    }

    /// Destroys a window; its children stay. Every mapped sibling may have been
    /// uncovered and is exposed.
    pub fn destroy_subwindow(&mut self, host_xid: u32) -> (r: Vec<HostExposeEvent>)
        ensures
            final(self)@ == old(self)@.without_window(host_xid),
            ({
                let ids = siblings(old(self)@.windows, host_xid);
                r@ == exposures(final(self)@.windows, ids, None, ids.len() as int)
            }),
    {
        let siblings = self.sibling_ids(host_xid);
        match self.take_window(host_xid) {
            Some(w) => {
                self.unlist_child(w.parent, host_xid);
            },
            None => {
                assert(self@ =~= old(self)@);
            },
        }
        self.unregister_host_window(host_xid);
        self.expose_all(&siblings, None)
    }

    /// Maps a window and exposes it.
    pub fn map_subwindow(&mut self, host_xid: u32) -> (r: Option<HostExposeEvent>)
        ensures
            match r {
                Some(event) => {
                    &&& old(self)@.windows.contains_key(host_xid)
                    &&& event == full_exposure(host_xid, old(self)@.windows[host_xid])
                },
                None => !old(self)@.windows.contains_key(host_xid),
            },
            final(self)@ == old(self)@.with_mapped(host_xid, true),
    {
        match self.take_window(host_xid) {
            Some(mut w) => {
                w.mapped = true;
                let event = HostExposeEvent {
                    host_xid,
                    x: 0,
                    y: 0,
                    width: w.width,
                    height: w.height,
                    count: 0,
                };
                self.put_window(host_xid, w);
                assert(self@.windows =~= old(self)@.windows.insert(host_xid, w@));
                Some(event)
            },
            None => {
                assert(self@ =~= old(self)@);
                None
            },
        }
    }

    /// Unmaps a window and exposes every other mapped window of its parent.
    pub fn unmap_subwindow(&mut self, host_xid: u32) -> (r: Vec<HostExposeEvent>)
        ensures
            final(self)@ == old(self)@.with_mapped(host_xid, false),
            ({
                let ids = siblings(old(self)@.windows, host_xid);
                r@ == exposures(final(self)@.windows, ids, Some(host_xid), ids.len() as int)
            }),
    {
        let siblings = self.sibling_ids(host_xid);
        if let Some(mut w) = self.take_window(host_xid) {
            w.mapped = false;
            self.put_window(host_xid, w);
            assert(self@.windows =~= old(self)@.windows.insert(host_xid, w@));
        } else {
            assert(self@ =~= old(self)@);
        }
        self.expose_all(&siblings, Some(host_xid))
    }

    /// Changes the geometry of a window. A new size takes new pixels, which are
    /// to be filled with the background, and exposes the window.
    pub fn configure_subwindow(&mut self, host_xid: u32, config: HostSubwindowConfig) -> (r: (
        Option<SolidFill>,
        Option<HostExposeEvent>,
    ))
        ensures
            ({
                let before = old(self)@.windows;
                if before.contains_key(host_xid) {
                    let w = reconfigured(before[host_xid], config);
                    &&& final(self)@ == old(self)@.with_window(host_xid, w)
                    &&& r.1 == (if is_resize(config) {
                        Some(full_exposure(host_xid, w))
                    } else {
                        None
                    })
                    &&& match r.0 {
                        Some(fill) => is_resize(config) && background_fill(
                            w.bg_pixel,
                            w.width,
                            w.height,
                        ) == Some(fill@),
                        None => !is_resize(config) || background_fill(
                            w.bg_pixel,
                            w.width,
                            w.height,
                        ) is None,
                    }
                } else {
                    final(self)@ == old(self)@ && r == (None::<SolidFill>, None::<
                        HostExposeEvent,
                    >)
                }
            }),
    {
        match self.take_window(host_xid) {
            Some(mut w) => {
                if let Some(width) = config.width {
                    w.width = width;
                }
                if let Some(height) = config.height {
                    w.height = height;
                }
                if let Some(x) = config.x {
                    w.x = x;
                }
                if let Some(y) = config.y {
                    w.y = y;
                }
                if let Some(border_width) = config.border_width {
                    w.border_width = border_width;
                }
                let mut fill: Option<SolidFill> = None;
                let mut event: Option<HostExposeEvent> = None;
                if config.width.is_some() || config.height.is_some() {
                    let (image, left) = backdrop(w.bg_pixel, w.width, w.height);
                    w.image = image;
                    fill = left;
                    event = Some(
                        HostExposeEvent {
                            host_xid,
                            x: 0,
                            y: 0,
                            width: w.width,
                            height: w.height,
                            count: 0,
                        },
                    );
                }
                assert(w@ =~= reconfigured(old(self)@.windows[host_xid], config));
                self.put_window(host_xid, w);
                assert(self@.windows =~= old(self)@.windows.insert(host_xid, w@));
                (fill, event)
            },
            None => {
                assert(self@ =~= old(self)@);
                (None, None)
            },
        }
    }

    /// Moves a window below another parent.
    pub fn reparent_subwindow(&mut self, host_xid: u32, new_parent: u32, x: i16, y: i16)
        ensures
            final(self)@ == old(self)@.reparented(host_xid, new_parent, x, y),
    {
        match self.take_window(host_xid) {
            Some(mut w) => {
                let old_parent = w.parent;
                w.parent = Some(new_parent);
                w.x = x;
                w.y = y;
                self.put_window(host_xid, w);
                assert(self@.windows =~= old(self)@.windows.insert(host_xid, w@));
                self.unlist_child(old_parent, host_xid);
                self.list_child(new_parent, host_xid);
            },
            None => {
                assert(self@ =~= old(self)@);
            },
        }
    }

    /// Changes the background of a window.
    pub fn change_subwindow_attributes(&mut self, host_xid: u32, value_mask: u32, values: &[u32])
        ensures
            final(self)@ == (if old(self)@.windows.contains_key(host_xid) {
                old(self)@.with_window(
                    host_xid,
                    with_attributes(old(self)@.windows[host_xid], value_mask, values@),
                )
            } else {
                old(self)@
            }),
    {
        match self.take_window(host_xid) {
            Some(mut w) => {
                let mut at: usize = 0;
                if value_mask & 1 != 0 && values.len() > 0 {
                    w.bg_pixmap = PixmapHandle::from_raw(values[0]);
                    at = 1;
                }
                if value_mask & 2 != 0 && values.len() > at {
                    w.bg_pixel = Some(values[at]);
                }
                self.put_window(host_xid, w);
                assert(self@.windows =~= old(self)@.windows.insert(host_xid, w@));
            },
            None => {
                assert(self@ =~= old(self)@);
            },
        }
    }

    /// Ties a client's top-level window to a window of the screen.
    pub fn register_top_level(&mut self, nested_id: ResourceId, host_xid: u32)
        ensures
            final(self)@ == (KmsView {
                xid_map: old(self)@.xid_map.insert(host_xid, nested_id),
                ..old(self)@
            }),
    {
        broadcast use vstd::std_specs::hash::group_hash_axioms;

        self.xid_map.insert(host_xid, nested_id);
    }

    /// Ties any other window of a client to a window of the screen.
    pub fn register_subwindow(&mut self, nested_id: ResourceId, host_xid: u32)
        ensures
            final(self)@ == (KmsView {
                xid_map: old(self)@.xid_map.insert(host_xid, nested_id),
                ..old(self)@
            }),
    {
        broadcast use vstd::std_specs::hash::group_hash_axioms;

        self.xid_map.insert(host_xid, nested_id);
    }

    pub fn unregister_host_window(&mut self, host_xid: u32)
        ensures
            final(self)@ == (KmsView {
                xid_map: old(self)@.xid_map.remove(host_xid),
                ..old(self)@
            }),
    {
        broadcast use vstd::std_specs::hash::group_hash_axioms;

        self.xid_map.remove(&host_xid);
        assert(self@.xid_map =~= old(self)@.xid_map.remove(host_xid));
    }

    /// Not supported: windows have no pixmap of their own to name.
    pub fn name_window_pixmap(&mut self, host_window: WindowHandle) -> (r: Result<
        PixmapHandle,
        BackendError,
    >)
        ensures
            r == Err::<PixmapHandle, BackendError>(BackendError::Unsupported),
            final(self)@ == old(self)@,
    {
        Err(BackendError::Unsupported)
    }

    pub fn set_container_background_pixel(&mut self, pixel: u32)
        ensures
            final(self)@ == (KmsView { bg_pixel: Some(pixel), ..old(self)@ }),
    {
        self.bg_pixel = Some(pixel);
    }

    pub fn set_container_background_pixmap(&mut self, host_pixmap_xid: u32)
        ensures
            final(self)@ == (KmsView {
                bg_pixmap: PixmapHandle::of(host_pixmap_xid),
                ..old(self)@
            }),
    {
        self.bg_pixmap = PixmapHandle::from_raw(host_pixmap_xid);
    }
}

} // verus!
