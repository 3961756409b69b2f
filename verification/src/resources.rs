//! Server-side resources: windows, pixmaps, graphics contexts, fonts and
//! cursors, each filed under its protocol identifier.

use std::collections::HashMap;

use vstd::prelude::*;

use crate::maps::keys_where;
use crate::protocol::{
    AtomId, ChangeWindowAttributesRequest, ClientId, ConfigureWindowRequest, CreateGcRequest,
    CreatePixmapRequest, CreateWindowRequest, FontMetrics, FontMetricsView, GcChange,
    PropertyValue, PropertyValueView, ResourceId,
};

verus! {

/// Number of the owner of the resources that the server itself creates.
pub const SERVER_OWNER: u32 = 0;

/// Identifier of the root window.
pub const ROOT_WINDOW: u32 = 0x100;

/// Identifier of the colormap of the root window.
pub const ROOT_COLORMAP: u32 = 0x101;

/// Identifier of the visual of the root window.
pub const ROOT_VISUAL: u32 = 0x102;

/// Background of a window that asked for none: white.
pub const DEFAULT_BACKGROUND: u32 = 0x00ff_ffff;

#[derive(Clone, Copy, Debug, PartialEq, Eq, Structural)]
pub enum WindowClass {
    CopyFromParent,
    InputOutput,
    InputOnly,
    Other(u16),
}

impl WindowClass {
    /// The class that protocol value `value` stands for.
    pub open spec fn of_protocol(value: u16) -> WindowClass {
        if value == 0 {
            WindowClass::CopyFromParent
        } else if value == 1 {
            WindowClass::InputOutput
        } else if value == 2 {
            WindowClass::InputOnly
        } else {
            WindowClass::Other(value)
        }
    }

    /// The protocol value of this class.
    pub open spec fn as_protocol(self) -> u16 {
        match self {
            WindowClass::CopyFromParent => 0,
            WindowClass::InputOutput => 1,
            WindowClass::InputOnly => 2,
            WindowClass::Other(value) => value,
        }
    }

    pub fn from_protocol(value: u16) -> (r: Self)
        ensures
            r == WindowClass::of_protocol(value),
    {
        match value {
            0 => WindowClass::CopyFromParent,
            1 => WindowClass::InputOutput,
            2 => WindowClass::InputOnly,
            value => WindowClass::Other(value),
        }
    }

    pub fn protocol_value(self) -> (r: u16)
        ensures
            r == self.as_protocol(),
    {
        match self {
            WindowClass::CopyFromParent => 0,
            WindowClass::InputOutput => 1,
            WindowClass::InputOnly => 2,
            WindowClass::Other(value) => value,
        }
    }
}

/// A class read from the wire is written back as the same value.
pub proof fn lemma_window_class_round_trip(value: u16)
    ensures
        WindowClass::of_protocol(value).as_protocol() == value,
{
}

#[derive(Clone, Copy, Debug, PartialEq, Eq, Structural)]
pub enum MapState {
    Unmapped,
    Unviewable,
    Viewable,
}

impl MapState {
    pub open spec fn as_protocol(self) -> u8 {
        match self {
            MapState::Unmapped => 0,
            MapState::Unviewable => 1,
            MapState::Viewable => 2,
        }
    }

    pub fn protocol_value(self) -> (r: u8)
        ensures
            r == self.as_protocol(),
    {
        match self {
            MapState::Unmapped => 0,
            MapState::Unviewable => 1,
            MapState::Viewable => 2,
        }
    }
}

#[derive(Clone, Debug)]
pub struct Window {
    pub id: ResourceId,
    pub parent: ResourceId,
    pub children: Vec<ResourceId>,
    pub x: i16,
    pub y: i16,
    pub width: u16,
    pub height: u16,
    pub border_width: u16,
    pub depth: u8,
    pub visual: ResourceId,
    pub class: WindowClass,
    pub map_state: MapState,
    pub background_pixel: u32,
    pub override_redirect: bool,
    pub cursor: Option<ResourceId>,
    pub owner: ClientId,
    /// Properties by atom number.
    pub properties: HashMap<u32, PropertyValue>,
}

/// [`Window`] with its lists as mathematical collections.
#[verifier::ext_equal]
pub struct WindowView {
    pub id: ResourceId,
    pub parent: ResourceId,
    pub children: Seq<ResourceId>,
    pub x: i16,
    pub y: i16,
    pub width: u16,
    pub height: u16,
    pub border_width: u16,
    pub depth: u8,
    pub visual: ResourceId,
    pub class: WindowClass,
    pub map_state: MapState,
    pub background_pixel: u32,
    pub override_redirect: bool,
    pub cursor: Option<ResourceId>,
    pub owner: ClientId,
    pub properties: Map<u32, PropertyValueView>,
}

/// Property values by atom, each by its view.
pub open spec fn property_views(m: Map<u32, PropertyValue>) -> Map<u32, PropertyValueView> {
    Map::new(|k: u32| m.contains_key(k), |k: u32| m[k]@)
}

impl View for Window {
    type V = WindowView;

    open spec fn view(&self) -> WindowView {
        WindowView {
            id: self.id,
            parent: self.parent,
            children: self.children@,
            x: self.x,
            y: self.y,
            width: self.width,
            height: self.height,
            border_width: self.border_width,
            depth: self.depth,
            visual: self.visual,
            class: self.class,
            map_state: self.map_state,
            background_pixel: self.background_pixel,
            override_redirect: self.override_redirect,
            cursor: self.cursor,
            owner: self.owner,
            properties: property_views(self.properties@),
        }
    }
}

impl WindowView {
    /// The root window of a fresh server.
    pub open spec fn root() -> WindowView {
        WindowView {
            id: ResourceId(ROOT_WINDOW),
            parent: ResourceId(ROOT_WINDOW),
            children: Seq::empty(),
            x: 0,
            y: 0,
            width: 800,
            height: 600,
            border_width: 0,
            depth: 24,
            visual: ResourceId(ROOT_VISUAL),
            class: WindowClass::InputOutput,
            map_state: MapState::Viewable,
            background_pixel: DEFAULT_BACKGROUND,
            override_redirect: false,
            cursor: None,
            owner: ClientId(SERVER_OWNER),
            properties: Map::empty(),
        }
    }

    /// Stand-in for a parent that was named before it was created.
    pub open spec fn placeholder(id: ResourceId) -> WindowView {
        WindowView {
            id,
            width: 1,
            height: 1,
            map_state: MapState::Unmapped,
            ..WindowView::root()
        }
    }

    /// The window that `request` describes, as first created.
    pub open spec fn created(owner: ClientId, request: CreateWindowRequest) -> WindowView {
        WindowView {
            id: request.window,
            parent: request.parent,
            children: Seq::empty(),
            x: request.x,
            y: request.y,
            width: request.width,
            height: request.height,
            border_width: request.border_width,
            depth: request.depth,
            visual: if request.visual.0 == 0 {
                ResourceId(ROOT_VISUAL)
            } else {
                request.visual
            },
            class: WindowClass::of_protocol(request.class),
            map_state: MapState::Unmapped,
            background_pixel: or_default(request.background_pixel, DEFAULT_BACKGROUND),
            override_redirect: or_default(request.override_redirect, false),
            cursor: None,
            owner,
            properties: Map::empty(),
        }
    }

    pub open spec fn with_child(self, child: ResourceId) -> WindowView {
        WindowView { children: self.children.push(child), ..self }
    }

    pub open spec fn without_child(self, child: ResourceId) -> WindowView {
        WindowView { children: self.children.filter(other_than(child)), ..self }
    }

    pub open spec fn with_attributes(self, request: ChangeWindowAttributesRequest) -> WindowView {
        WindowView {
            background_pixel: or_default(request.background_pixel, self.background_pixel),
            cursor: if request.cursor is Some {
                request.cursor
            } else {
                self.cursor
            },
            ..self
        }
    }

    pub open spec fn configured(self, request: ConfigureWindowRequest) -> WindowView {
        WindowView {
            x: or_default(request.x, self.x),
            y: or_default(request.y, self.y),
            width: or_default(request.width, self.width),
            height: or_default(request.height, self.height),
            border_width: or_default(request.border_width, self.border_width),
            ..self
        }
    }
}

/// Holds of every identifier but `id`.
pub open spec fn other_than(id: ResourceId) -> spec_fn(ResourceId) -> bool {
    |c: ResourceId| c != id
}

/// The value of `o`, or `d` where there is none.
pub open spec fn or_default<T>(o: Option<T>, d: T) -> T {
    match o {
        Some(v) => v,
        None => d,
    }
}

impl Window {
    fn placeholder(id: ResourceId) -> (r: Self)
        ensures
            r@ == WindowView::placeholder(id),
    {
        let r = Window {
            id,
            parent: ResourceId(ROOT_WINDOW),
            children: Vec::new(),
            x: 0,
            y: 0,
            width: 1,
            height: 1,
            border_width: 0,
            depth: 24,
            visual: ResourceId(ROOT_VISUAL),
            class: WindowClass::InputOutput,
            map_state: MapState::Unmapped,
            background_pixel: DEFAULT_BACKGROUND,
            override_redirect: false,
            cursor: None,
            owner: ClientId(SERVER_OWNER),
            properties: HashMap::new(),
        };
        assert(r@ =~= WindowView::placeholder(id));
        r
    }

    /// Drops every occurrence of `child` from the list of children.
    fn remove_child(&mut self, child: ResourceId)
        ensures
            final(self)@ == old(self)@.without_child(child),
    {
        let ghost keep = other_than(child);
        let mut kept: Vec<ResourceId> = Vec::new();
        let n: usize = self.children.len();
        assert(self.children@.take(0) =~= Seq::<ResourceId>::empty());
        reveal(Seq::filter);
        for i in 0..n
            invariant
                n == self.children@.len(),
                *self == *old(self),
                keep == other_than(child),
                kept@ == self.children@.take(i as int).filter(keep),
        {
            assert(self.children@.take(i + 1).drop_last() =~= self.children@.take(i as int));
            reveal(Seq::filter);
            let c = self.children[i];
            if c != child {
                kept.push(c);
            }
        }
        assert(self.children@.take(n as int) =~= self.children@);
        self.children = kept;
        assert(self@ =~= old(self)@.without_child(child));
    }
}

#[derive(Clone, Copy, Debug, PartialEq, Eq, Structural)]
pub struct Pixmap {
    pub id: ResourceId,
    pub drawable: ResourceId,
    pub width: u16,
    pub height: u16,
    pub depth: u8,
    pub owner: ClientId,
}

#[derive(Clone, Copy, Debug, PartialEq, Eq, Structural)]
pub struct Gc {
    pub id: ResourceId,
    pub drawable: ResourceId,
    pub foreground: u32,
    pub background: u32,
    pub line_width: u16,
    pub font: Option<ResourceId>,
    pub owner: ClientId,
}

impl Gc {
    /// The context that `request` describes, as first created.
    pub open spec fn created(owner: ClientId, request: CreateGcRequest) -> Gc {
        Gc {
            id: request.gc,
            drawable: request.drawable,
            foreground: or_default(request.foreground, 0),
            background: or_default(request.background, DEFAULT_BACKGROUND),
            line_width: or_default(request.line_width, 0),
            font: request.font,
            owner,
        }
    }

    /// The context that a change of an unknown `id` starts from.
    pub open spec fn blank(id: ResourceId) -> Gc {
        Gc {
            id,
            drawable: ResourceId(0),
            foreground: 0,
            background: DEFAULT_BACKGROUND,
            line_width: 0,
            font: None,
            owner: ClientId(SERVER_OWNER),
        }
    }

    pub open spec fn changed(self, request: GcChange) -> Gc {
        Gc {
            foreground: or_default(request.foreground, self.foreground),
            background: or_default(request.background, self.background),
            line_width: or_default(request.line_width, self.line_width),
            font: if request.font is Some {
                request.font
            } else {
                self.font
            },
            ..self
        }
    }
}

#[derive(Clone, Debug)]
pub struct Font {
    pub id: ResourceId,
    pub name: String,
    pub host_xid: u32,
    pub metrics: FontMetrics,
    pub owner: ClientId,
}

/// [`Font`] with its name and metrics as mathematical values.
#[verifier::ext_equal]
pub struct FontView {
    pub id: ResourceId,
    pub name: Seq<char>,
    pub host_xid: u32,
    pub metrics: FontMetricsView,
    pub owner: ClientId,
}

impl View for Font {
    type V = FontView;

    open spec fn view(&self) -> FontView {
        FontView {
            id: self.id,
            name: self.name@,
            host_xid: self.host_xid,
            metrics: self.metrics@,
            owner: self.owner,
        }
    }
}

#[derive(Clone, Copy, Debug, PartialEq, Eq, Structural)]
pub struct Cursor {
    pub id: ResourceId,
    pub owner: ClientId,
}

/// A resource that belongs to one client.
pub trait Owned {
    spec fn spec_owner(&self) -> ClientId;

    fn owner(&self) -> (r: ClientId)
        ensures
            r == self.spec_owner(),
    ;
}

impl Owned for Pixmap {
    open spec fn spec_owner(&self) -> ClientId {
        self.owner
    }

    fn owner(&self) -> (r: ClientId) {
        self.owner
    }
}

impl Owned for Gc {
    open spec fn spec_owner(&self) -> ClientId {
        self.owner
    }

    fn owner(&self) -> (r: ClientId) {
        self.owner
    }
}

impl Owned for Font {
    open spec fn spec_owner(&self) -> ClientId {
        self.owner
    }

    fn owner(&self) -> (r: ClientId) {
        self.owner
    }
}

impl Owned for Cursor {
    open spec fn spec_owner(&self) -> ClientId {
        self.owner
    }

    fn owner(&self) -> (r: ClientId) {
        self.owner
    }
}

/// Everything the server knows, each kind of resource by raw identifier.
#[derive(Debug)]
pub struct ResourceTable {
    pub windows: HashMap<u32, Window>,
    pub pixmaps: HashMap<u32, Pixmap>,
    pub gcs: HashMap<u32, Gc>,
    pub fonts: HashMap<u32, Font>,
    pub cursors: HashMap<u32, Cursor>,
}

/// [`ResourceTable`] as mathematical maps.
#[verifier::ext_equal]
pub struct ResourceTableView {
    pub windows: Map<u32, WindowView>,
    pub pixmaps: Map<u32, Pixmap>,
    pub gcs: Map<u32, Gc>,
    pub fonts: Map<u32, FontView>,
    pub cursors: Map<u32, Cursor>,
}

pub open spec fn window_views(m: Map<u32, Window>) -> Map<u32, WindowView> {
    Map::new(|k: u32| m.contains_key(k), |k: u32| m[k]@)
}

pub open spec fn font_views(m: Map<u32, Font>) -> Map<u32, FontView> {
    Map::new(|k: u32| m.contains_key(k), |k: u32| m[k]@)
}

impl View for ResourceTable {
    type V = ResourceTableView;

    open spec fn view(&self) -> ResourceTableView {
        ResourceTableView {
            windows: window_views(self.windows@),
            pixmaps: self.pixmaps@,
            gcs: self.gcs@,
            fonts: font_views(self.fonts@),
            cursors: self.cursors@,
        }
    }
}

/// `m` without the entries whose value fails `keep`.
pub open spec fn retained<V>(m: Map<u32, V>, keep: spec_fn(V) -> bool) -> Map<u32, V> {
    Map::new(|k: u32| m.contains_key(k) && keep(m[k]), |k: u32| m[k])
}

/// `ws` with `w` removed and no longer listed by its parent.
pub open spec fn detached(ws: Map<u32, WindowView>, id: ResourceId) -> Map<u32, WindowView> {
    let rest = ws.remove(id.0);
    let parent = ws[id.0].parent.0;
    if rest.contains_key(parent) {
        rest.insert(parent, rest[parent].without_child(id))
    } else {
        rest
    }
}

/// The windows left, and those destroyed in order, when the windows of `work`
/// are destroyed one after the other: each window before its children, and its
/// children before what follows it in `work`.
pub open spec fn destroyed(
    ws: Map<u32, WindowView>,
    work: Seq<ResourceId>,
) -> (Map<u32, WindowView>, Seq<ResourceId>)
    decreases ws.dom().len(), work.len(),
    when ws.dom().finite()
{
    if work.len() == 0 {
        (ws, Seq::empty())
    } else {
        let id = work[0];
        let rest = work.drop_first();
        if ws.contains_key(id.0) {
            proof {
                lemma_detached_shrinks(ws, id);
            }
            let (left, gone) = destroyed(detached(ws, id), ws[id.0].children + rest);
            (left, seq![id] + gone)
        } else {
            destroyed(ws, rest)
        }
    }
}

pub proof fn lemma_detached_shrinks(ws: Map<u32, WindowView>, id: ResourceId)
    requires
        ws.dom().finite(),
        ws.contains_key(id.0),
    ensures
        detached(ws, id).dom() == ws.dom().remove(id.0),
        detached(ws, id).dom().finite(),
        detached(ws, id).dom().len() == ws.dom().len() - 1,
{
    assert(detached(ws, id).dom() =~= ws.dom().remove(id.0));
}

/// Destroying two lists of windows one after the other.
pub proof fn lemma_destroyed_append(
    ws: Map<u32, WindowView>,
    a: Seq<ResourceId>,
    b: Seq<ResourceId>,
)
    requires
        ws.dom().finite(),
    ensures
        destroyed(ws, a).0.dom().finite(),
        destroyed(ws, a).0.dom().len() <= ws.dom().len(),
        destroyed(ws, a + b).0 == destroyed(destroyed(ws, a).0, b).0,
        destroyed(ws, a + b).1 == destroyed(ws, a).1 + destroyed(destroyed(ws, a).0, b).1,
    decreases ws.dom().len(), a.len(),
{
    if a.len() == 0 {
        assert(a + b =~= b);
        assert(destroyed(ws, b).1 =~= Seq::empty() + destroyed(ws, b).1);
    } else {
        let id = a[0];
        assert((a + b).drop_first() =~= a.drop_first() + b);
        if ws.contains_key(id.0) {
            lemma_detached_shrinks(ws, id);
            let c = ws[id.0].children + a.drop_first();
            lemma_destroyed_append(detached(ws, id), c, b);
            assert(ws[id.0].children + (a.drop_first() + b) =~= c + b);
            assert(destroyed(ws, a + b).1 =~= destroyed(ws, a).1 + destroyed(
                destroyed(ws, a).0,
                b,
            ).1);
        } else {
            lemma_destroyed_append(ws, a.drop_first(), b);
        }
    }
}

impl ResourceTableView {
    /// The table of a fresh server: the root window alone.
    pub open spec fn initial() -> ResourceTableView {
        ResourceTableView {
            windows: Map::empty().insert(ROOT_WINDOW, WindowView::root()),
            pixmaps: Map::empty(),
            gcs: Map::empty(),
            fonts: Map::empty(),
            cursors: Map::empty(),
        }
    }

    /// The table after `CreateWindow`: the parent, or a stand-in for it, lists
    /// the new window last.
    pub open spec fn create_window(
        self,
        owner: ClientId,
        request: CreateWindowRequest,
    ) -> ResourceTableView {
        let parent = if self.windows.contains_key(request.parent.0) {
            self.windows[request.parent.0]
        } else {
            WindowView::placeholder(request.parent)
        };
        ResourceTableView {
            windows: self.windows.insert(
                request.parent.0,
                parent.with_child(request.window),
            ).insert(request.window.0, WindowView::created(owner, request)),
            ..self
        }
    }

    /// The table after destroying the tree below and including `id`.
    pub open spec fn destroy_window(self, id: ResourceId) -> ResourceTableView {
        ResourceTableView { windows: destroyed(self.windows, seq![id]).0, ..self }
    }

    /// The table with window `id`, if there is one, changed by `f`.
    pub open spec fn update_window(
        self,
        id: ResourceId,
        f: spec_fn(WindowView) -> WindowView,
    ) -> ResourceTableView {
        if self.windows.contains_key(id.0) {
            ResourceTableView {
                windows: self.windows.insert(id.0, f(self.windows[id.0])),
                ..self
            }
        } else {
            self
        }
    }

    /// Whether unmapping window `id` changes anything.
    pub open spec fn unmaps(self, id: ResourceId) -> bool {
        &&& id.0 != ROOT_WINDOW
        &&& self.windows.contains_key(id.0)
        &&& self.windows[id.0].map_state != MapState::Unmapped
    }

    pub open spec fn unmap_window(self, id: ResourceId) -> ResourceTableView {
        if id.0 == ROOT_WINDOW {
            self
        } else {
            self.update_window(id, |w: WindowView| WindowView { map_state: MapState::Unmapped, ..w })
        }
    }

    /// The property `atom` of window `w`.
    pub open spec fn property(self, w: ResourceId, atom: AtomId) -> Option<PropertyValueView> {
        if self.windows.contains_key(w.0) {
            self.windows[w.0].properties.get(atom.0)
        } else {
            None
        }
    }

    pub open spec fn set_property(
        self,
        w: ResourceId,
        atom: AtomId,
        value: PropertyValueView,
    ) -> ResourceTableView {
        self.update_window(
            w,
            |win: WindowView| WindowView {
                properties: win.properties.insert(atom.0, value),
                ..win
            },
        )
    }

    pub open spec fn delete_property(self, w: ResourceId, atom: AtomId) -> ResourceTableView {
        self.update_window(
            w,
            |win: WindowView| WindowView { properties: win.properties.remove(atom.0), ..win },
        )
    }

    pub open spec fn change_gc(self, request: GcChange) -> ResourceTableView {
        let gc = if self.gcs.contains_key(request.gc.0) {
            self.gcs[request.gc.0]
        } else {
            Gc::blank(request.gc)
        };
        ResourceTableView { gcs: self.gcs.insert(request.gc.0, gc.changed(request)), ..self }
    }

    /// The font that a FONTABLE names: a font, or that of a graphics context.
    pub open spec fn fontable(self, id: ResourceId) -> Option<FontView> {
        if self.fonts.contains_key(id.0) {
            Some(self.fonts[id.0])
        } else if self.gcs.contains_key(id.0) {
            match self.gcs[id.0].font {
                Some(font) => self.fonts.get(font.0),
                None => None,
            }
        } else {
            None
        }
    }

    /// The table without what `client` owns, its windows excepted.
    pub open spec fn without_resources_of(self, client: ClientId) -> ResourceTableView {
        ResourceTableView {
            windows: self.windows,
            pixmaps: retained(self.pixmaps, |p: Pixmap| p.owner != client),
            gcs: retained(self.gcs, |g: Gc| g.owner != client),
            fonts: retained(self.fonts, |f: FontView| f.owner != client),
            cursors: retained(self.cursors, |c: Cursor| c.owner != client),
        }
    }

    /// Whether `client` owns window `id` but not the parent of it.
    pub open spec fn is_owned_root(self, client: ClientId, id: ResourceId) -> bool {
        &&& self.windows.contains_key(id.0)
        &&& self.windows[id.0].owner == client
        &&& {
            let parent = self.windows[id.0].parent.0;
            !(self.windows.contains_key(parent) && self.windows[parent].owner == client)
        }
    }

    pub open spec fn any_resource_exists(self, id: ResourceId) -> bool {
        ||| self.windows.contains_key(id.0)
        ||| self.pixmaps.contains_key(id.0)
        ||| self.gcs.contains_key(id.0)
        ||| self.fonts.contains_key(id.0)
        ||| self.cursors.contains_key(id.0)
    }
}

/// Removes what `client` owns from `m` and hands it out.
fn remove_owned<V: Owned>(m: &mut HashMap<u32, V>, client: ClientId) -> (gone: (
    Vec<u32>,
    Vec<V>,
))
    ensures
        final(m)@ == retained(old(m)@, |v: V| v.spec_owner() != client),
        gone.0@.no_duplicates(),
        forall|k: u32| #[trigger]
            gone.0@.contains(k) <==> old(m)@.contains_key(k) && old(m)@[k].spec_owner() == client,
        gone.1@ == gone.0@.map_values(|k: u32| old(m)@[k]),
{
    broadcast use vstd::std_specs::hash::group_hash_axioms;

    let ghost m0 = m@;
    let table: &HashMap<u32, V> = m;
    let keep = |k: u32| -> (r: bool)
        ensures
            r == (table@.contains_key(k) && table@[k].spec_owner() == client),
        {
            match table.get(&k) {
                Some(v) => v.owner() == client,
                None => false,
            }
        };
    let gone = keys_where(
        table,
        keep,
        Ghost(|k: u32| m0.contains_key(k) && m0[k].spec_owner() == client),
    );
    let mut removed: Vec<V> = Vec::new();
    let n: usize = gone.len();
    assert(removed@ =~= gone@.take(0).map_values(|k: u32| m0[k]));
    assert(m@ =~= m0.remove_keys(gone@.take(0).to_set()));
    for i in 0..n
        invariant
            n == gone@.len(),
            gone@.no_duplicates(),
            forall|k: u32| #[trigger]
                gone@.contains(k) <==> m0.contains_key(k) && m0[k].spec_owner() == client,
            m@ == m0.remove_keys(gone@.take(i as int).to_set()),
            removed@ == gone@.take(i as int).map_values(|k: u32| m0[k]),
    {
        broadcast use vstd::std_specs::hash::group_hash_axioms;

        let k: u32 = gone[i];
        proof {
            assert(gone@.contains(k));
            assert(gone@.take(i + 1) =~= gone@.take(i as int).push(k));
            assert(gone@.take(i + 1).to_set() =~= gone@.take(i as int).to_set().insert(k)) by {
                gone@.take(i as int).lemma_push_to_set_commute(k);
            }
            assert(!gone@.take(i as int).contains(k)) by {
                if gone@.take(i as int).contains(k) {
                    let j = choose|j: int| 0 <= j < i && gone@.take(i as int)[j] == k;
                    assert(gone@[j] == gone@[i as int]);
                }
            }
        }
        if let Some(v) = m.remove(&k) {
            removed.push(v);
        }
        assert(removed@ =~= gone@.take(i + 1).map_values(|k: u32| m0[k]));
        assert(m@ =~= m0.remove_keys(gone@.take(i + 1).to_set()));
    }
    assert(gone@.take(n as int) =~= gone@);
    assert(m@ =~= retained(m0, |v: V| v.spec_owner() != client));
    (gone, removed)
}

impl ResourceTable {
    pub fn new() -> (r: Self)
        ensures
            r@ == ResourceTableView::initial(),
    {
        broadcast use vstd::std_specs::hash::group_hash_axioms;

        let mut windows: HashMap<u32, Window> = HashMap::new();
        let root = Window {
            id: ResourceId(ROOT_WINDOW),
            parent: ResourceId(ROOT_WINDOW),
            children: Vec::new(),
            x: 0,
            y: 0,
            width: 800,
            height: 600,
            border_width: 0,
            depth: 24,
            visual: ResourceId(ROOT_VISUAL),
            class: WindowClass::InputOutput,
            map_state: MapState::Viewable,
            background_pixel: DEFAULT_BACKGROUND,
            override_redirect: false,
            cursor: None,
            owner: ClientId(SERVER_OWNER),
            properties: HashMap::new(),
        };
        assert(root@ =~= WindowView::root());
        windows.insert(ROOT_WINDOW, root);
        let r = ResourceTable {
            windows,
            pixmaps: HashMap::new(),
            gcs: HashMap::new(),
            fonts: HashMap::new(),
            cursors: HashMap::new(),
        };
        assert(r@ =~= ResourceTableView::initial());
        r
    }

    /// Takes window `id` out of the table, to be put back changed.
    fn take_window(&mut self, id: u32) -> (r: Option<Window>)
        ensures
            final(self)@ == (ResourceTableView {
                windows: old(self)@.windows.remove(id),
                ..old(self)@
            }),
            match r {
                Some(w) => old(self)@.windows.contains_key(id) && w@ == old(self)@.windows[id],
                None => !old(self)@.windows.contains_key(id),
            },
    {
        broadcast use vstd::std_specs::hash::group_hash_axioms;

        let r = self.windows.remove(&id);
        assert(self@.windows =~= old(self)@.windows.remove(id));
        r
    }

    fn put_window(&mut self, id: u32, window: Window)
        ensures
            final(self)@ == (ResourceTableView {
                windows: old(self)@.windows.insert(id, window@),
                ..old(self)@
            }),
    {
        broadcast use vstd::std_specs::hash::group_hash_axioms;

        self.windows.insert(id, window);
        assert(self@.windows =~= old(self)@.windows.insert(id, window@));
    }

    pub fn create_window(&mut self, owner: ClientId, request: CreateWindowRequest)
        ensures
            final(self)@ == old(self)@.create_window(owner, request),
    {
        let window = Window {
            id: request.window,
            parent: request.parent,
            children: Vec::new(),
            x: request.x,
            y: request.y,
            width: request.width,
            height: request.height,
            border_width: request.border_width,
            depth: request.depth,
            visual: if request.visual.0 == 0 {
                ResourceId(ROOT_VISUAL)
            } else {
                request.visual
            },
            class: WindowClass::from_protocol(request.class),
            map_state: MapState::Unmapped,
            background_pixel: match request.background_pixel {
                Some(pixel) => pixel,
                None => DEFAULT_BACKGROUND,
            },
            override_redirect: match request.override_redirect {
                Some(redirect) => redirect,
                None => false,
            },
            cursor: None,
            owner,
            properties: HashMap::new(),
        };
        assert(window@ =~= WindowView::created(owner, request));
        let mut parent = match self.take_window(request.parent.0) {
            Some(parent) => parent,
            None => Window::placeholder(request.parent),
        };
        let ghost before = parent@;
        parent.children.push(request.window);
        assert(parent@ =~= before.with_child(request.window));
        self.put_window(request.parent.0, parent);
        self.put_window(request.window.0, window);
        assert(self@ =~= old(self)@.create_window(owner, request));
    }

    /// Destroys window `id` and everything below it; returns what was
    /// destroyed, each window before its children.
    pub fn destroy_window(&mut self, id: ResourceId) -> (r: Vec<ResourceId>)
        ensures
            final(self)@ == old(self)@.destroy_window(id),
            r@ == destroyed(old(self)@.windows, seq![id]).1,
    {
        let mut gone: Vec<ResourceId> = Vec::new();
        self.destroy_window_inner(id, &mut gone);
        assert(gone@ =~= destroyed(old(self)@.windows, seq![id]).1);
        gone
    }

    fn destroy_window_inner(&mut self, id: ResourceId, gone: &mut Vec<ResourceId>)
        ensures
            final(self)@ == old(self)@.destroy_window(id),
            final(gone)@ == old(gone)@ + destroyed(old(self)@.windows, seq![id]).1,
        decreases old(self)@.windows.dom().len(),
    {
        proof {
            lemma_windows_finite(*self);
        }
        let ghost ws = self@.windows;
        assert(seq![id].drop_first() =~= Seq::<ResourceId>::empty());
        let Some(window) = self.take_window(id.0) else {
            assert(self@ =~= old(self)@);
            assert(destroyed(ws, seq![id]) == destroyed(ws, Seq::empty()));
            assert(gone@ =~= old(gone)@ + destroyed(ws, seq![id]).1);
            return ;
        };
        match self.take_window(window.parent.0) {
            Some(mut parent) => {
                parent.remove_child(id);
                self.put_window(window.parent.0, parent);
            },
            None => {},
        }
        assert(self@.windows =~= detached(ws, id));
        gone.push(id);
        let ghost ws1 = self@.windows;
        let ghost kids = window.children@;
        proof {
            lemma_detached_shrinks(ws, id);
            assert(kids + Seq::<ResourceId>::empty() =~= kids);
            assert(kids.take(0) =~= Seq::<ResourceId>::empty());
            assert(gone@ =~= old(gone)@ + seq![id] + destroyed(ws1, kids.take(0)).1);
        }
        let n: usize = window.children.len();
        for i in 0..n
            invariant
                n == window.children@.len(),
                kids == window.children@,
                ws1.dom().finite(),
                ws1.dom().len() < ws.dom().len(),
                ws == old(self)@.windows,
                self@ == (ResourceTableView {
                    windows: destroyed(ws1, kids.take(i as int)).0,
                    ..old(self)@
                }),
                gone@ == old(gone)@ + seq![id] + destroyed(ws1, kids.take(i as int)).1,
        {
            let child = window.children[i];
            proof {
                lemma_destroyed_append(ws1, kids.take(i as int), seq![child]);
                assert(kids.take(i + 1) =~= kids.take(i as int) + seq![child]);
            }
            self.destroy_window_inner(child, gone);
            assert(gone@ =~= old(gone)@ + seq![id] + destroyed(ws1, kids.take(i + 1)).1);
        }
        assert(kids.take(n as int) =~= kids);
        assert(gone@ =~= old(gone)@ + destroyed(ws, seq![id]).1);
    }
}

pub proof fn lemma_windows_finite(table: ResourceTable)
    ensures
        table@.windows.dom().finite(),
{
    broadcast use vstd::std_specs::hash::group_hash_axioms;

    assert(table@.windows.dom() =~= table.windows@.dom());
}

impl ResourceTable {
    pub fn change_window_attributes(&mut self, request: ChangeWindowAttributesRequest)
        ensures
            final(self)@ == old(self)@.update_window(
                request.window,
                |w: WindowView| w.with_attributes(request),
            ),
    {
        if let Some(mut window) = self.take_window(request.window.0) {
            if let Some(background_pixel) = request.background_pixel {
                window.background_pixel = background_pixel;
            }
            if let Some(cursor) = request.cursor {
                window.cursor = Some(cursor);
            }
            self.put_window(request.window.0, window);
        }
        assert(self@ =~= old(self)@.update_window(
            request.window,
            |w: WindowView| w.with_attributes(request),
        ));
    }

    pub fn configure_window(&mut self, request: ConfigureWindowRequest) -> (r: Option<&Window>)
        ensures
            final(self)@ == old(self)@.update_window(
                request.window,
                |w: WindowView| w.configured(request),
            ),
            match r {
                Some(w) => old(self)@.windows.contains_key(request.window.0) && w@
                    == old(self)@.windows[request.window.0].configured(request),
                None => !old(self)@.windows.contains_key(request.window.0),
            },
    {
        match self.take_window(request.window.0) {
            Some(mut window) => {
                if let Some(x) = request.x {
                    window.x = x;
                }
                if let Some(y) = request.y {
                    window.y = y;
                }
                if let Some(width) = request.width {
                    window.width = width;
                }
                if let Some(height) = request.height {
                    window.height = height;
                }
                if let Some(border_width) = request.border_width {
                    window.border_width = border_width;
                }
                self.put_window(request.window.0, window);
            },
            None => {},
        }
        assert(self@ =~= old(self)@.update_window(
            request.window,
            |w: WindowView| w.configured(request),
        ));
        self.window(request.window)
    }

    pub fn map_window(&mut self, id: ResourceId)
        ensures
            final(self)@ == old(self)@.update_window(
                id,
                |w: WindowView| WindowView { map_state: MapState::Viewable, ..w },
            ),
    {
        if let Some(mut window) = self.take_window(id.0) {
            window.map_state = MapState::Viewable;
            self.put_window(id.0, window);
        }
        assert(self@ =~= old(self)@.update_window(
            id,
            |w: WindowView| WindowView { map_state: MapState::Viewable, ..w },
        ));
    }

    /// Unmaps window `id`; whether it was mapped before. The root stays mapped.
    #[must_use]
    pub fn unmap_window(&mut self, id: ResourceId) -> (r: bool)
        ensures
            final(self)@ == old(self)@.unmap_window(id),
            r == old(self)@.unmaps(id),
    {
        if id.0 == ROOT_WINDOW {
            return false;
        }
        let r = match self.take_window(id.0) {
            Some(mut window) => {
                let was_mapped = window.map_state != MapState::Unmapped;
                window.map_state = MapState::Unmapped;
                self.put_window(id.0, window);
                was_mapped
            },
            None => false,
        };
        assert(self@ =~= old(self)@.unmap_window(id));
        r
    }

    pub fn window(&self, id: ResourceId) -> (r: Option<&Window>)
        ensures
            match r {
                Some(w) => self@.windows.contains_key(id.0) && w@ == self@.windows[id.0],
                None => !self@.windows.contains_key(id.0),
            },
    {
        broadcast use vstd::std_specs::hash::group_hash_axioms;

        self.windows.get(&id.0)
    }

    /// The children of `parent`, the one created first in front.
    pub fn children(&self, parent: ResourceId) -> (r: &[ResourceId])
        ensures
            r@ == (if self@.windows.contains_key(parent.0) {
                self@.windows[parent.0].children
            } else {
                Seq::empty()
            }),
    {
        match self.window(parent) {
            Some(window) => window.children.as_slice(),
            None => &[],
        }
    }

    #[must_use]
    pub fn window_property(&self, w: ResourceId, atom: AtomId) -> (r: Option<&PropertyValue>)
        ensures
            match r {
                Some(v) => self@.property(w, atom) == Some(v@),
                None => self@.property(w, atom) is None,
            },
    {
        broadcast use vstd::std_specs::hash::group_hash_axioms;

        match self.window(w) {
            Some(window) => window.properties.get(&atom.0),
            None => None,
        }
    }

    pub fn set_window_property(&mut self, w: ResourceId, atom: AtomId, value: PropertyValue)
        ensures
            final(self)@ == old(self)@.set_property(w, atom, value@),
    {
        broadcast use vstd::std_specs::hash::group_hash_axioms;

        if let Some(mut window) = self.take_window(w.0) {
            let ghost before = window@;
            window.properties.insert(atom.0, value);
            assert(window@.properties =~= before.properties.insert(atom.0, value@));
            self.put_window(w.0, window);
        }
        assert(self@ =~= old(self)@.set_property(w, atom, value@));
    }

    pub fn delete_window_property(&mut self, w: ResourceId, atom: AtomId) -> (r: Option<
        PropertyValue,
    >)
        ensures
            final(self)@ == old(self)@.delete_property(w, atom),
            match r {
                Some(v) => old(self)@.property(w, atom) == Some(v@),
                None => old(self)@.property(w, atom) is None,
            },
    {
        broadcast use vstd::std_specs::hash::group_hash_axioms;

        let r = match self.take_window(w.0) {
            Some(mut window) => {
                let ghost before = window@;
                let value = window.properties.remove(&atom.0);
                assert(window@.properties =~= before.properties.remove(atom.0));
                self.put_window(w.0, window);
                value
            },
            None => None,
        };
        assert(self@ =~= old(self)@.delete_property(w, atom));
        r
    }

    pub fn create_pixmap(&mut self, owner: ClientId, request: CreatePixmapRequest)
        ensures
            final(self)@ == (ResourceTableView {
                pixmaps: old(self)@.pixmaps.insert(
                    request.pixmap.0,
                    Pixmap {
                        id: request.pixmap,
                        drawable: request.drawable,
                        width: request.width,
                        height: request.height,
                        depth: request.depth,
                        owner,
                    },
                ),
                ..old(self)@
            }),
    {
        broadcast use vstd::std_specs::hash::group_hash_axioms;

        self.pixmaps.insert(
            request.pixmap.0,
            Pixmap {
                id: request.pixmap,
                drawable: request.drawable,
                width: request.width,
                height: request.height,
                depth: request.depth,
                owner,
            },
        );
    }

    pub fn free_pixmap(&mut self, id: ResourceId)
        ensures
            final(self)@ == (ResourceTableView {
                pixmaps: old(self)@.pixmaps.remove(id.0),
                ..old(self)@
            }),
    {
        broadcast use vstd::std_specs::hash::group_hash_axioms;

        self.pixmaps.remove(&id.0);
        assert(self@.pixmaps =~= old(self)@.pixmaps.remove(id.0));
    }

    pub fn pixmap(&self, id: ResourceId) -> (r: Option<&Pixmap>)
        ensures
            match r {
                Some(p) => self@.pixmaps.contains_key(id.0) && *p == self@.pixmaps[id.0],
                None => !self@.pixmaps.contains_key(id.0),
            },
    {
        broadcast use vstd::std_specs::hash::group_hash_axioms;

        self.pixmaps.get(&id.0)
    }

    pub fn create_gc(&mut self, owner: ClientId, request: CreateGcRequest)
        ensures
            final(self)@ == (ResourceTableView {
                gcs: old(self)@.gcs.insert(request.gc.0, Gc::created(owner, request)),
                ..old(self)@
            }),
    {
        broadcast use vstd::std_specs::hash::group_hash_axioms;

        self.gcs.insert(
            request.gc.0,
            Gc {
                id: request.gc,
                drawable: request.drawable,
                foreground: match request.foreground {
                    Some(foreground) => foreground,
                    None => 0,
                },
                background: match request.background {
                    Some(background) => background,
                    None => DEFAULT_BACKGROUND,
                },
                line_width: match request.line_width {
                    Some(line_width) => line_width,
                    None => 0,
                },
                font: request.font,
                owner,
            },
        );
    }

    pub fn change_gc(&mut self, request: GcChange)
        ensures
            final(self)@ == old(self)@.change_gc(request),
    {
        broadcast use vstd::std_specs::hash::group_hash_axioms;

        let mut gc = match self.gcs.get(&request.gc.0) {
            Some(gc) => *gc,
            None => Gc {
                id: request.gc,
                drawable: ResourceId(0),
                foreground: 0,
                background: DEFAULT_BACKGROUND,
                line_width: 0,
                font: None,
                owner: ClientId(SERVER_OWNER),
            },
        };
        if let Some(foreground) = request.foreground {
            gc.foreground = foreground;
        }
        if let Some(background) = request.background {
            gc.background = background;
        }
        if let Some(line_width) = request.line_width {
            gc.line_width = line_width;
        }
        if let Some(font) = request.font {
            gc.font = Some(font);
        }
        self.gcs.insert(request.gc.0, gc);
    }

    pub fn free_gc(&mut self, id: ResourceId)
        ensures
            final(self)@ == (ResourceTableView {
                gcs: old(self)@.gcs.remove(id.0),
                ..old(self)@
            }),
    {
        broadcast use vstd::std_specs::hash::group_hash_axioms;

        self.gcs.remove(&id.0);
        assert(self@.gcs =~= old(self)@.gcs.remove(id.0));
    }

    pub fn gc(&self, id: ResourceId) -> (r: Option<&Gc>)
        ensures
            match r {
                Some(g) => self@.gcs.contains_key(id.0) && *g == self@.gcs[id.0],
                None => !self@.gcs.contains_key(id.0),
            },
    {
        broadcast use vstd::std_specs::hash::group_hash_axioms;

        self.gcs.get(&id.0)
    }

    /// Foreground of context `id`; black where there is none.
    pub fn gc_foreground(&self, id: ResourceId) -> (r: u32)
        ensures
            r == (if self@.gcs.contains_key(id.0) {
                self@.gcs[id.0].foreground
            } else {
                0
            }),
    {
        match self.gc(id) {
            Some(gc) => gc.foreground,
            None => 0,
        }
    }

    /// Background of context `id`; white where there is none.
    pub fn gc_background(&self, id: ResourceId) -> (r: u32)
        ensures
            r == (if self@.gcs.contains_key(id.0) {
                self@.gcs[id.0].background
            } else {
                DEFAULT_BACKGROUND
            }),
    {
        match self.gc(id) {
            Some(gc) => gc.background,
            None => DEFAULT_BACKGROUND,
        }
    }

    pub fn install_font(
        &mut self,
        owner: ClientId,
        id: ResourceId,
        name: String,
        host_xid: u32,
        metrics: FontMetrics,
    )
        ensures
            final(self)@ == (ResourceTableView {
                fonts: old(self)@.fonts.insert(
                    id.0,
                    FontView { id, name: name@, host_xid, metrics: metrics@, owner },
                ),
                ..old(self)@
            }),
    {
        broadcast use vstd::std_specs::hash::group_hash_axioms;

        self.fonts.insert(id.0, Font { id, name, host_xid, metrics, owner });
        assert(self@.fonts =~= old(self)@.fonts.insert(
            id.0,
            FontView { id, name: name@, host_xid, metrics: metrics@, owner },
        ));
    }

    pub fn close_font(&mut self, id: ResourceId) -> (r: Option<Font>)
        ensures
            final(self)@ == (ResourceTableView {
                fonts: old(self)@.fonts.remove(id.0),
                ..old(self)@
            }),
            match r {
                Some(f) => old(self)@.fonts.contains_key(id.0) && f@ == old(self)@.fonts[id.0],
                None => !old(self)@.fonts.contains_key(id.0),
            },
    {
        broadcast use vstd::std_specs::hash::group_hash_axioms;

        let r = self.fonts.remove(&id.0);
        assert(self@.fonts =~= old(self)@.fonts.remove(id.0));
        r
    }

    pub fn font(&self, id: ResourceId) -> (r: Option<&Font>)
        ensures
            match r {
                Some(f) => self@.fonts.contains_key(id.0) && f@ == self@.fonts[id.0],
                None => !self@.fonts.contains_key(id.0),
            },
    {
        broadcast use vstd::std_specs::hash::group_hash_axioms;

        self.fonts.get(&id.0)
    }

    /// Resolves a FONTABLE: a font, or a graphics context that carries one.
    pub fn fontable(&self, id: ResourceId) -> (r: Option<&Font>)
        ensures
            match r {
                Some(f) => self@.fontable(id) == Some(f@),
                None => self@.fontable(id) is None,
            },
    {
        if let Some(font) = self.font(id) {
            return Some(font);
        }
        match self.gc(id) {
            Some(gc) => match gc.font {
                Some(font) => self.font(font),
                None => None,
            },
            None => None,
        }
    }

    pub fn create_glyph_cursor(&mut self, owner: ClientId, id: ResourceId)
        ensures
            final(self)@ == (ResourceTableView {
                cursors: old(self)@.cursors.insert(id.0, Cursor { id, owner }),
                ..old(self)@
            }),
    {
        broadcast use vstd::std_specs::hash::group_hash_axioms;

        self.cursors.insert(id.0, Cursor { id, owner });
    }

    pub fn free_cursor(&mut self, id: ResourceId)
        ensures
            final(self)@ == (ResourceTableView {
                cursors: old(self)@.cursors.remove(id.0),
                ..old(self)@
            }),
    {
        broadcast use vstd::std_specs::hash::group_hash_axioms;

        self.cursors.remove(&id.0);
        assert(self@.cursors =~= old(self)@.cursors.remove(id.0));
    }

    /// Appends the top-level windows of `client` to `out`, in no particular
    /// order: the windows it owns whose parent it does not own.
    pub fn collect_owned_window_roots(&self, client: ClientId, out: &mut Vec<ResourceId>)
        ensures
            final(out)@.len() >= old(out)@.len(),
            final(out)@.take(old(out)@.len() as int) == old(out)@,
            final(out)@.skip(old(out)@.len() as int).no_duplicates(),
            forall|id: ResourceId| #[trigger]
                final(out)@.skip(old(out)@.len() as int).contains(id) <==> self@.is_owned_root(
                    client,
                    id,
                ),
    {
        broadcast use vstd::std_specs::hash::group_hash_axioms;

        let keep = |k: u32| -> (r: bool)
            ensures
                r == self@.is_owned_root(client, ResourceId(k)),
            {
                match self.windows.get(&k) {
                    Some(w) => w.owner == client && match self.windows.get(&w.parent.0) {
                        Some(p) => p.owner != client,
                        None => true,
                    },
                    None => false,
                }
            };
        let keys = keys_where(
            &self.windows,
            keep,
            Ghost(|k: u32| self@.is_owned_root(client, ResourceId(k))),
        );
        let ghost start = out@;
        let ghost found = keys@.map_values(|k: u32| ResourceId(k));
        let n: usize = keys.len();
        for i in 0..n
            invariant
                n == keys@.len(),
                found == keys@.map_values(|k: u32| ResourceId(k)),
                out@ == start + found.take(i as int),
        {
            out.push(ResourceId(keys[i]));
            assert(out@ =~= start + found.take(i + 1));
        }
        assert(out@.take(start.len() as int) =~= start);
        assert(out@.skip(start.len() as int) =~= found);
        assert forall|id: ResourceId| #[trigger] found.contains(id) <==> self@.is_owned_root(
            client,
            id,
        ) by {
            if found.contains(id) {
                let j = choose|j: int| 0 <= j < found.len() && found[j] == id;
                assert(keys@.contains(keys@[j]));
            }
            if self@.is_owned_root(client, id) {
                assert(keys@.contains(id.0));
                let j = choose|j: int| 0 <= j < n && keys@[j] == id.0;
                assert(found[j] == id);
            }
        }
    }

    /// Removes every resource of `client` but its windows. Returns the host
    /// identifiers of the fonts removed, in no particular order.
    pub fn remove_non_window_resources_owned_by(&mut self, client: ClientId) -> (r: Vec<u32>)
        ensures
            final(self)@ == old(self)@.without_resources_of(client),
            is_host_xids_of(r@, old(self)@.fonts, client),
    {
        remove_owned(&mut self.pixmaps, client);
        remove_owned(&mut self.gcs, client);
        remove_owned(&mut self.cursors, client);
        let ghost fonts = self.fonts@;
        let (keys, gone) = remove_owned(&mut self.fonts, client);
        let mut closed_fonts: Vec<u32> = Vec::new();
        let n: usize = gone.len();
        for i in 0..n
            invariant
                n == gone@.len(),
                n == keys@.len(),
                gone@ == keys@.map_values(|k: u32| fonts[k]),
                closed_fonts@.len() == i,
                forall|j: int| 0 <= j < i ==> closed_fonts@[j] == fonts[keys@[j]].host_xid,
        {
            closed_fonts.push(gone[i].host_xid);
        }
        assert(self@ =~= old(self)@.without_resources_of(client));
        proof {
            let views = old(self)@.fonts;
            assert forall|k: u32| #[trigger] keys@.contains(k) <==> views.contains_key(k)
                && views[k].owner == client by {}
            assert forall|j: int| 0 <= j < keys@.len() implies closed_fonts@[j]
                == views[keys@[j]].host_xid by {
                assert(keys@.contains(keys@[j]));
            }
            assert(closed_fonts@ =~= keys@.map_values(|k: u32| views[k].host_xid));
        }
        closed_fonts
    }

    #[must_use]
    pub fn any_resource_exists(&self, id: ResourceId) -> (r: bool)
        ensures
            r == self@.any_resource_exists(id),
    {
        broadcast use vstd::std_specs::hash::group_hash_axioms;

        self.windows.contains_key(&id.0) || self.pixmaps.contains_key(&id.0)
            || self.gcs.contains_key(&id.0) || self.fonts.contains_key(&id.0)
            || self.cursors.contains_key(&id.0)
    }
}

/// Whether `xids` lists the host identifier of each font of `client`, once for
/// each such font and in whatever order.
pub open spec fn is_host_xids_of(
    xids: Seq<u32>,
    fonts: Map<u32, FontView>,
    client: ClientId,
) -> bool {
    exists|keys: Seq<u32>|
        {
            &&& #[trigger] keys.no_duplicates()
            &&& forall|k: u32| #[trigger]
                keys.contains(k) <==> fonts.contains_key(k) && fonts[k].owner == client
            &&& xids == keys.map_values(|k: u32| fonts[k].host_xid)
        }
}

} // verus!
