//! What the backend keeps track of.

use std::collections::HashMap;

use vstd::prelude::*;

use crate::backend::{GcFunction, PixmapHandle};
use crate::kms::face::{FontFace, SizeReply};
use crate::kms::image::{Color, ImageView, PixmanImage};
use crate::kms::raster::Rectangle16;
use crate::protocol::{FontMetrics, FontMetricsView, ResourceId};

verus! {

/// The root container; it is not itself in the table of windows.
pub const ROOT_CONTAINER: u32 = 1;

/// The visual that the root advertises.
pub const KMS_ROOT_VISUAL: u32 = 0x21;

/// New identifiers come after this one.
pub const FIRST_HOST_XID: u32 = 0x0040_0000;

/// A window and its pixels.
pub struct WindowState {
    pub nested_id: ResourceId,
    pub x: i16,
    pub y: i16,
    pub width: u16,
    pub height: u16,
    pub border_width: u16,
    pub mapped: bool,
    pub override_redirect: bool,
    pub parent: Option<u32>,
    pub children: Vec<u32>,
    pub bg_pixel: Option<u32>,
    pub bg_pixmap: Option<PixmapHandle>,
    pub image: PixmanImage,
    pub depth: u8,
    pub visual: u32,
}

/// [`WindowState`] with its lists as sequences.
#[verifier::ext_equal]
pub struct WindowStateView {
    pub nested_id: ResourceId,
    pub x: i16,
    pub y: i16,
    pub width: u16,
    pub height: u16,
    pub border_width: u16,
    pub mapped: bool,
    pub override_redirect: bool,
    pub parent: Option<u32>,
    pub children: Seq<u32>,
    pub bg_pixel: Option<u32>,
    pub bg_pixmap: Option<PixmapHandle>,
    pub image: ImageView,
    pub depth: u8,
    pub visual: u32,
}

impl View for WindowState {
    type V = WindowStateView;

    open spec fn view(&self) -> WindowStateView {
        WindowStateView {
            nested_id: self.nested_id,
            x: self.x,
            y: self.y,
            width: self.width,
            height: self.height,
            border_width: self.border_width,
            mapped: self.mapped,
            override_redirect: self.override_redirect,
            parent: self.parent,
            children: self.children@,
            bg_pixel: self.bg_pixel,
            bg_pixmap: self.bg_pixmap,
            image: self.image@,
            depth: self.depth,
            visual: self.visual,
        }
    }
}

/// Holds of every identifier but `id`.
pub open spec fn other_xid(id: u32) -> spec_fn(u32) -> bool {
    |c: u32| c != id
}

impl WindowStateView {
    pub open spec fn with_child(self, child: u32) -> WindowStateView {
        WindowStateView { children: self.children.push(child), ..self }
    }

    pub open spec fn without_child(self, child: u32) -> WindowStateView {
        WindowStateView { children: self.children.filter(other_xid(child)), ..self }
    }
}

impl WindowState {
    pub(crate) fn remove_child(&mut self, child: u32)
        ensures
            final(self)@ == old(self)@.without_child(child),
    {
        let ghost keep = other_xid(child);
        let mut kept: Vec<u32> = Vec::new();
        let n: usize = self.children.len();
        reveal(Seq::filter);
        assert(self.children@.take(0) =~= Seq::<u32>::empty());
        for i in 0..n
            invariant
                n == self.children@.len(),
                *self == *old(self),
                keep == other_xid(child),
                kept@ == self.children@.take(i as int).filter(keep),
        {
            assert(self.children@.take(i + 1).drop_last() =~= self.children@.take(i as int));
            reveal(Seq::filter);
            let c: u32 = self.children[i];
            if c != child {
                kept.push(c);
            }
        }
        assert(self.children@.take(n as int) =~= self.children@);
        self.children = kept;
        assert(self@ =~= old(self)@.without_child(child));
    }
}

/// An open font. The face renders the glyphs; the metrics were taken once.
pub struct FontState {
    pub face: FontFace,
    pub metrics: FontMetrics,
}

/// [`FontState`] with the parts of its face, and its metrics over sequences.
#[verifier::ext_equal]
pub struct FontStateView {
    /// The identifier that the glyphs of the font carry.
    pub handle: u32,
    pub face: freetype::Face,
    pub size: SizeReply,
    pub metrics: FontMetricsView,
}

impl View for FontState {
    type V = FontStateView;

    open spec fn view(&self) -> FontStateView {
        FontStateView {
            handle: self.face.handle,
            face: self.face.face.inner(),
            size: self.face.face.reply(),
            metrics: self.metrics@,
        }
    }
}

/// A pixmap and its pixels.
#[derive(Debug)]
pub struct PixmapState {
    pub handle: u32,
    pub image: PixmanImage,
    pub depth: u8,
}

/// [`PixmapState`] with its pixels as a sequence.
#[verifier::ext_equal]
pub struct PixmapStateView {
    pub handle: u32,
    pub image: ImageView,
    pub depth: u8,
}

impl View for PixmapState {
    type V = PixmapStateView;

    open spec fn view(&self) -> PixmapStateView {
        PixmapStateView { handle: self.handle, image: self.image@, depth: self.depth }
    }
}

/// A RENDER picture.
#[derive(Clone, Debug)]
pub enum PictureState {
    /// Draws on a window or a pixmap, within the clip if there is one.
    Drawable { host_xid: u32, clip: Option<Vec<Rectangle16>> },
    /// One colour everywhere; only for a source.
    SolidFill { color: Color },
}

/// [`PictureState`] with its clip as a sequence.
#[verifier::ext_equal]
pub enum PictureStateView {
    Drawable { host_xid: u32, clip: Option<Seq<Rectangle16>> },
    SolidFill { color: Color },
}

pub open spec fn clip_view(clip: Option<Vec<Rectangle16>>) -> Option<Seq<Rectangle16>> {
    match clip {
        Some(rects) => Some(rects@),
        None => None,
    }
}

impl View for PictureState {
    type V = PictureStateView;

    open spec fn view(&self) -> PictureStateView {
        match self {
            PictureState::Drawable { host_xid, clip } => PictureStateView::Drawable {
                host_xid: *host_xid,
                clip: clip_view(*clip),
            },
            PictureState::SolidFill { color } => PictureStateView::SolidFill { color: *color },
        }
    }
}

/// The state of the screen: windows, pixmaps, fonts and pictures, and where the
/// pointer is.
pub struct KmsBackend {
    pub fb_w: u16,
    pub fb_h: u16,
    pub windows: HashMap<u32, WindowState>,
    pub next_host_xid: u32,
    pub window_id: u32,
    pub root_visual_xid: u32,
    pub xid_map: HashMap<u32, ResourceId>,
    pub fonts: HashMap<u32, FontState>,
    pub pixmaps: HashMap<u32, PixmapState>,
    pub bg_pixel: Option<u32>,
    pub bg_pixmap: Option<PixmapHandle>,
    /// The pixel that the pointer is on.
    pub cursor_x: u16,
    pub cursor_y: u16,
    pub current_font: Option<u32>,
    pub current_function: GcFunction,
    pub pictures: HashMap<u32, PictureState>,
}

/// [`KmsBackend`] as mathematical maps.
#[verifier::ext_equal]
pub struct KmsView {
    pub fb_w: u16,
    pub fb_h: u16,
    pub windows: Map<u32, WindowStateView>,
    pub next_host_xid: u32,
    pub window_id: u32,
    pub root_visual_xid: u32,
    pub xid_map: Map<u32, ResourceId>,
    pub fonts: Map<u32, FontStateView>,
    pub pixmaps: Map<u32, PixmapStateView>,
    pub bg_pixel: Option<u32>,
    pub bg_pixmap: Option<PixmapHandle>,
    pub cursor_x: u16,
    pub cursor_y: u16,
    pub current_font: Option<u32>,
    pub current_function: GcFunction,
    pub pictures: Map<u32, PictureStateView>,
}

pub open spec fn window_state_views(m: Map<u32, WindowState>) -> Map<u32, WindowStateView> {
    Map::new(|k: u32| m.contains_key(k), |k: u32| m[k]@)
}

pub open spec fn pixmap_state_views(m: Map<u32, PixmapState>) -> Map<u32, PixmapStateView> {
    Map::new(|k: u32| m.contains_key(k), |k: u32| m[k]@)
}

pub open spec fn font_state_views(m: Map<u32, FontState>) -> Map<u32, FontStateView> {
    Map::new(|k: u32| m.contains_key(k), |k: u32| m[k]@)
}

pub open spec fn picture_views(m: Map<u32, PictureState>) -> Map<u32, PictureStateView> {
    Map::new(|k: u32| m.contains_key(k), |k: u32| m[k]@)
}

impl View for KmsBackend {
    type V = KmsView;

    open spec fn view(&self) -> KmsView {
        KmsView {
            fb_w: self.fb_w,
            fb_h: self.fb_h,
            windows: window_state_views(self.windows@),
            next_host_xid: self.next_host_xid,
            window_id: self.window_id,
            root_visual_xid: self.root_visual_xid,
            xid_map: self.xid_map@,
            fonts: font_state_views(self.fonts@),
            pixmaps: pixmap_state_views(self.pixmaps@),
            bg_pixel: self.bg_pixel,
            bg_pixmap: self.bg_pixmap,
            cursor_x: self.cursor_x,
            cursor_y: self.cursor_y,
            current_font: self.current_font,
            current_function: self.current_function,
            pictures: picture_views(self.pictures@),
        }
    }
}

impl KmsView {
    /// A fresh screen.
    pub open spec fn initial(fb_w: u16, fb_h: u16) -> KmsView {
        KmsView {
            fb_w,
            fb_h,
            windows: Map::empty(),
            next_host_xid: FIRST_HOST_XID,
            window_id: ROOT_CONTAINER,
            root_visual_xid: KMS_ROOT_VISUAL,
            xid_map: Map::empty().insert(
                ROOT_CONTAINER,
                ResourceId(crate::resources::ROOT_WINDOW),
            ),
            fonts: Map::empty(),
            pixmaps: Map::empty(),
            bg_pixel: None,
            bg_pixmap: None,
            cursor_x: 0,
            cursor_y: 0,
            current_font: None,
            current_function: GcFunction::Copy,
            pictures: Map::empty(),
        }
    }

    /// The identifier that the next new resource gets.
    pub open spec fn new_xid(self) -> u32 {
        (self.next_host_xid + 1) as u32
    }

    pub open spec fn with_windows(self, windows: Map<u32, WindowStateView>) -> KmsView {
        KmsView { windows, ..self }
    }

    /// The pixels of a drawable: of the window, or else of the pixmap, with
    /// this identifier.
    pub open spec fn image_of(self, xid: u32) -> Option<ImageView> {
        if self.windows.contains_key(xid) {
            Some(self.windows[xid].image)
        } else if self.pixmaps.contains_key(xid) {
            Some(self.pixmaps[xid].image)
        } else {
            None
        }
    }

    /// The same state with other pixels in a drawable.
    pub open spec fn with_image(self, xid: u32, image: ImageView) -> KmsView {
        if self.windows.contains_key(xid) {
            KmsView {
                windows: self.windows.insert(
                    xid,
                    WindowStateView { image, ..self.windows[xid] },
                ),
                ..self
            }
        } else if self.pixmaps.contains_key(xid) {
            KmsView {
                pixmaps: self.pixmaps.insert(
                    xid,
                    PixmapStateView { image, ..self.pixmaps[xid] },
                ),
                ..self
            }
        } else {
            self
        }
    }
}

impl KmsBackend {
    /// A fresh screen of `fb_w` by `fb_h` pixels.
    pub fn new(fb_w: u16, fb_h: u16) -> (r: Self)
        ensures
            r@ == KmsView::initial(fb_w, fb_h),
    {
        broadcast use vstd::std_specs::hash::group_hash_axioms;

        let mut xid_map: HashMap<u32, ResourceId> = HashMap::new();
        xid_map.insert(ROOT_CONTAINER, ResourceId(crate::resources::ROOT_WINDOW));
        let r = KmsBackend {
            fb_w,
            fb_h,
            windows: HashMap::new(),
            next_host_xid: FIRST_HOST_XID,
            window_id: ROOT_CONTAINER,
            root_visual_xid: KMS_ROOT_VISUAL,
            xid_map,
            fonts: HashMap::new(),
            pixmaps: HashMap::new(),
            bg_pixel: None,
            bg_pixmap: None,
            cursor_x: 0,
            cursor_y: 0,
            current_font: None,
            current_function: GcFunction::Copy,
            pictures: HashMap::new(),
        };
        assert(r@ =~= KmsView::initial(fb_w, fb_h));
        r
    }

    /// Hands out a new identifier; identifiers are never handed out twice.
    pub(crate) fn take_host_xid(&mut self) -> (r: u32)
        requires
            old(self)@.next_host_xid < u32::MAX,
        ensures
            r == old(self)@.new_xid(),
            final(self)@ == (KmsView { next_host_xid: r, ..old(self)@ }),
    {
        self.next_host_xid = self.next_host_xid + 1;
        self.next_host_xid
    }

    /// Takes a window out of the table, to be put back changed.
    pub(crate) fn take_window(&mut self, xid: u32) -> (r: Option<WindowState>)
        ensures
            final(self)@ == old(self)@.with_windows(old(self)@.windows.remove(xid)),
            match r {
                Some(w) => old(self)@.windows.contains_key(xid) && w@ == old(self)@.windows[xid],
                None => !old(self)@.windows.contains_key(xid),
            },
    {
        broadcast use vstd::std_specs::hash::group_hash_axioms;

        let r = self.windows.remove(&xid);
        assert(self@.windows =~= old(self)@.windows.remove(xid));
        r
    }

    pub(crate) fn put_window(&mut self, xid: u32, window: WindowState)
        ensures
            final(self)@ == old(self)@.with_windows(old(self)@.windows.insert(xid, window@)),
    {
        broadcast use vstd::std_specs::hash::group_hash_axioms;

        self.windows.insert(xid, window);
        assert(self@.windows =~= old(self)@.windows.insert(xid, window@));
    }

    pub fn window(&self, xid: u32) -> (r: Option<&WindowState>)
        ensures
            match r {
                Some(w) => self@.windows.contains_key(xid) && w@ == self@.windows[xid],
                None => !self@.windows.contains_key(xid),
            },
    {
        broadcast use vstd::std_specs::hash::group_hash_axioms;

        self.windows.get(&xid)
    }

    /// The pixels of a drawable.
    pub fn image(&self, xid: u32) -> (r: Option<&PixmanImage>)
        ensures
            match r {
                Some(img) => self@.image_of(xid) == Some(img@),
                None => self@.image_of(xid) is None,
            },
    {
        broadcast use vstd::std_specs::hash::group_hash_axioms;

        match self.windows.get(&xid) {
            Some(w) => Some(&w.image),
            None => match self.pixmaps.get(&xid) {
                Some(p) => Some(&p.image),
                None => None,
            },
        }
    }

    /// Puts other pixels into a drawable, and hands out what it held.
    pub fn replace_image(&mut self, xid: u32, image: PixmanImage) -> (r: Option<PixmanImage>)
        ensures
            final(self)@ == old(self)@.with_image(xid, image@),
            match r {
                Some(img) => old(self)@.image_of(xid) == Some(img@),
                None => old(self)@.image_of(xid) is None,
            },
    {
        broadcast use vstd::std_specs::hash::group_hash_axioms;

        if let Some(mut w) = self.take_window(xid) {
            let mut image = image;
            std::mem::swap(&mut w.image, &mut image);
            self.put_window(xid, w);
            assert(self@ =~= old(self)@.with_image(xid, w.image@));
            return Some(image);
        }
        assert(self@ =~= old(self)@);
        if let Some(mut p) = self.pixmaps.remove(&xid) {
            let mut image = image;
            std::mem::swap(&mut p.image, &mut image);
            self.pixmaps.insert(xid, p);
            assert(self@.pixmaps =~= old(self)@.with_image(xid, p.image@).pixmaps);
            assert(self@ =~= old(self)@.with_image(xid, p.image@));
            return Some(image);
        }
        assert(self@ =~= old(self)@.with_image(xid, image@));
        None
    }
}

} // verus!
