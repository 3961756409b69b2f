//! What holds of the screen across its operations.

use vstd::prelude::*;

use crate::backend::{GcFunction, HostSubwindowConfig};
use crate::filters;
use crate::kms::face::SizeReply;
use crate::kms::image::ImageView;
use crate::kms::raster::Rectangle16;
use crate::kms::state;
use crate::kms::state::{KmsView, PictureStateView, PixmapStateView, WindowStateView};
use crate::kms::text::RenderedTextView;
use crate::kms::windows;
use crate::protocol::FontMetricsView;

verus! {

/// Whether every resource has an identifier that was handed out, and so does
/// every parent.
pub open spec fn identifiers_are_known(k: KmsView) -> bool {
    &&& forall|id: u32| #[trigger] k.windows.contains_key(id) ==> id <= k.next_host_xid
    &&& forall|id: u32| #[trigger] k.pixmaps.contains_key(id) ==> id <= k.next_host_xid
    &&& forall|id: u32| #[trigger] k.fonts.contains_key(id) ==> id <= k.next_host_xid
    &&& forall|id: u32| #[trigger] k.pictures.contains_key(id) ==> id <= k.next_host_xid
    &&& forall|id: u32|
        k.windows.contains_key(id) ==> match (#[trigger] k.windows[id]).parent {
            Some(parent) => parent <= k.next_host_xid,
            None => true,
        }
}

/// A new identifier is that of no window, pixmap, font or picture, and every
/// resource that is filed under one keeps it so.
pub proof fn lemma_new_identifiers_are_fresh(
    k: KmsView,
    w: WindowStateView,
    depth: u8,
    width: u16,
    height: u16,
    face: freetype::Face,
    size: SizeReply,
    metrics: FontMetricsView,
    picture: PictureStateView,
)
    requires
        identifiers_are_known(k),
        k.next_host_xid < u32::MAX,
        w.parent matches Some(parent) ==> parent <= k.next_host_xid,
    ensures
        k.new_xid() > k.next_host_xid,
        !k.windows.contains_key(k.new_xid()),
        !k.pixmaps.contains_key(k.new_xid()),
        !k.fonts.contains_key(k.new_xid()),
        !k.pictures.contains_key(k.new_xid()),
        identifiers_are_known(k.with_new_window(w)),
        identifiers_are_known(k.with_new_pixmap(depth, width, height)),
        identifiers_are_known(k.with_new_font(face, size, metrics)),
        identifiers_are_known(k.with_picture(picture)),
{
}

/// Whether each font labels its glyphs with its own identifier.
pub open spec fn fonts_are_labelled(k: KmsView) -> bool {
    forall|id: u32| #[trigger] k.fonts.contains_key(id) ==> k.fonts[id].handle == id
}

/// Opening and closing fonts keeps each labelled with its own identifier, and a
/// fresh screen has none.
pub proof fn lemma_fonts_stay_labelled(
    k: KmsView,
    face: freetype::Face,
    size: SizeReply,
    metrics: FontMetricsView,
    xid: u32,
    fb_w: u16,
    fb_h: u16,
)
    requires
        fonts_are_labelled(k),
    ensures
        fonts_are_labelled(KmsView::initial(fb_w, fb_h)),
        fonts_are_labelled(k.with_new_font(face, size, metrics)),
        fonts_are_labelled(KmsView { fonts: k.fonts.remove(xid), ..k }),
{
}

/// Text is drawn in the font that is in force: every glyph of a rendering was
/// asked of that font, and of no other.
pub proof fn lemma_text_is_drawn_in_its_font(
    k: KmsView,
    xid: u32,
    foreground: u32,
    font: u32,
    x: int,
    y: int,
    text: Seq<u8>,
    out: RenderedTextView,
    i: int,
)
    requires
        fonts_are_labelled(k),
        k.is_rendering(xid, foreground, Some(font), x, y, text, out),
        0 <= i < out.loaded.len(),
    ensures
        out.loaded[i].font == font,
        out.loaded[i].code == text[i],
{
}

/// What takes no new identifier keeps all in range, too.
pub proof fn lemma_identifiers_stay_known(
    k: KmsView,
    xid: u32,
    new_parent: u32,
    x: i16,
    y: i16,
    mapped: bool,
    image: ImageView,
)
    requires
        identifiers_are_known(k),
        new_parent <= k.next_host_xid,
    ensures
        identifiers_are_known(k.without_window(xid)),
        identifiers_are_known(k.without_pixmap(xid)),
        identifiers_are_known(k.reparented(xid, new_parent, x, y)),
        identifiers_are_known(k.with_mapped(xid, mapped)),
        identifiers_are_known(k.with_image(xid, image)),
{
}

/// Whether windows and their parents agree: a window lists, once each, exactly
/// the windows that have it for a parent.
pub open spec fn lists_agree(ws: Map<u32, WindowStateView>) -> bool {
    &&& forall|p: u32, c: u32| #[trigger]
        lists(ws, p, c) <==> ws.contains_key(p) && ws.contains_key(c) && ws[c].parent == Some(p)
    &&& forall|p: u32| ws.contains_key(p) ==> (#[trigger] ws[p]).children.no_duplicates()
}

/// On a fresh screen all identifiers are known, and windows and parents agree.
pub proof fn lemma_fresh_screen_is_in_order(fb_w: u16, fb_h: u16)
    ensures
        identifiers_are_known(KmsView::initial(fb_w, fb_h)),
        lists_agree(KmsView::initial(fb_w, fb_h).windows),
{
}

/// Whether window `p` lists `c` among its children.
pub open spec fn lists(ws: Map<u32, WindowStateView>, p: u32, c: u32) -> bool {
    ws.contains_key(p) && ws[p].children.contains(c)
}

proof fn lemma_push_contains<A>(s: Seq<A>, a: A, x: A)
    ensures
        s.push(a).contains(x) <==> s.contains(x) || x == a,
{
    assert(s.push(a)[s.len() as int] == a);
    if s.contains(x) {
        let j = choose|j: int| 0 <= j < s.len() && s[j] == x;
        assert(s.push(a)[j] == x);
    }
}

proof fn lemma_listed(ws: Map<u32, WindowStateView>, parent: u32, child: u32)
    ensures
        forall|p: u32, c: u32| #[trigger]
            lists(windows::listed(ws, parent, child), p, c) <==> lists(ws, p, c) || (p == parent
                && c == child && ws.contains_key(parent)),
{
    let after = windows::listed(ws, parent, child);
    assert forall|p: u32, c: u32| #[trigger]
        lists(after, p, c) <==> lists(ws, p, c) || (p == parent && c == child && ws.contains_key(
            parent,
        )) by {
        if ws.contains_key(parent) {
            lemma_push_contains(ws[parent].children, child, c);
        }
    }
}

proof fn lemma_unlisted(ws: Map<u32, WindowStateView>, parent: Option<u32>, child: u32)
    ensures
        forall|p: u32, c: u32| #[trigger]
            lists(windows::unlisted(ws, parent, child), p, c) <==> lists(ws, p, c) && !(Some(p)
                == parent && c == child),
{
    let after = windows::unlisted(ws, parent, child);
    assert forall|p: u32, c: u32| #[trigger]
        lists(after, p, c) <==> lists(ws, p, c) && !(Some(p) == parent && c == child) by {
        if let Some(q) = parent {
            if ws.contains_key(q) {
                filters::lemma_filter_keeps(ws[q].children, state::other_xid(child), c);
            }
        }
    }
}

/// Creating a window keeps windows and their parents in agreement, and lists the
/// new window last.
pub proof fn lemma_create_keeps_lists(k: KmsView, w: WindowStateView)
    requires
        identifiers_are_known(k),
        lists_agree(k.windows),
        k.next_host_xid < u32::MAX,
        w.parent matches Some(parent) && parent <= k.next_host_xid,
        w.children.len() == 0,
    ensures
        lists_agree(k.with_new_window(w).windows),
        k.windows.contains_key(w.parent->0) ==> k.with_new_window(w).windows[w.parent->0].children
            == k.windows[w.parent->0].children.push(k.new_xid()),
{
    let xid = k.new_xid();
    let parent = w.parent->0;
    let filed = k.windows.insert(xid, w);
    let after = windows::listed(filed, parent, xid);
    lemma_listed(filed, parent, xid);
    assert forall|p: u32, c: u32| #[trigger]
        lists(after, p, c) <==> after.contains_key(p) && after.contains_key(c) && after[c].parent
            == Some(p) by {
        assert(lists(filed, p, c) <==> lists(k.windows, p, c));
    }
    assert forall|p: u32| after.contains_key(p) implies (
    #[trigger] after[p]).children.no_duplicates() by {
        if p == parent && k.windows.contains_key(p) {
            let kids = k.windows[p].children;
            assert(!lists(k.windows, p, xid));
            assert(!kids.contains(xid));
            assert(after[p].children == kids.push(xid));
        }
    }
}

/// Destroying a window keeps windows and their parents in agreement, and no
/// window lists what was destroyed.
pub proof fn lemma_destroy_keeps_lists(k: KmsView, xid: u32)
    requires
        lists_agree(k.windows),
    ensures
        lists_agree(k.without_window(xid).windows),
        !k.without_window(xid).windows.contains_key(xid),
        forall|p: u32| !#[trigger] lists(k.without_window(xid).windows, p, xid),
{
    let ws = k.windows;
    let after = k.without_window(xid).windows;
    if ws.contains_key(xid) {
        let rest = ws.remove(xid);
        lemma_unlisted(rest, ws[xid].parent, xid);
        assert forall|p: u32, c: u32| #[trigger]
            lists(after, p, c) <==> after.contains_key(p) && after.contains_key(c)
                && after[c].parent == Some(p) by {
            assert(lists(rest, p, c) <==> lists(ws, p, c) && p != xid);
        }
        assert forall|p: u32| after.contains_key(p) implies (
        #[trigger] after[p]).children.no_duplicates() by {
            assert(ws[p].children.no_duplicates());
            filters::lemma_filter_no_duplicates(ws[p].children, state::other_xid(xid));
        }
    }
    assert forall|p: u32| !#[trigger] lists(after, p, xid) by {
        assert(lists(after, p, xid) ==> after.contains_key(xid));
    }
}

/// Moving a window below another parent keeps windows and their parents in
/// agreement, and lists the window with its new parent and no other.
pub proof fn lemma_reparent_keeps_lists(k: KmsView, xid: u32, new_parent: u32, x: i16, y: i16)
    requires
        lists_agree(k.windows),
    ensures
        lists_agree(k.reparented(xid, new_parent, x, y).windows),
        forall|p: u32|
            k.windows.contains_key(xid) ==> (#[trigger] lists(
                k.reparented(xid, new_parent, x, y).windows,
                p,
                xid,
            ) <==> p == new_parent && k.windows.contains_key(p)),
{
    let ws = k.windows;
    if ws.contains_key(xid) {
        let old_parent = ws[xid].parent;
        let moved = ws.insert(
            xid,
            WindowStateView { parent: Some(new_parent), x, y, ..ws[xid] },
        );
        let cut = windows::unlisted(moved, old_parent, xid);
        let after = windows::listed(cut, new_parent, xid);
        lemma_unlisted(moved, old_parent, xid);
        lemma_listed(cut, new_parent, xid);
        assert forall|p: u32, c: u32| #[trigger]
            lists(after, p, c) <==> after.contains_key(p) && after.contains_key(c)
                && after[c].parent == Some(p) by {
            assert(lists(moved, p, c) <==> lists(ws, p, c));
            assert(lists(cut, p, c) <==> lists(moved, p, c) && !(Some(p) == old_parent && c
                == xid));
        }
        assert forall|p: u32| after.contains_key(p) implies (
        #[trigger] after[p]).children.no_duplicates() by {
            assert(ws[p].children.no_duplicates());
            filters::lemma_filter_no_duplicates(ws[p].children, state::other_xid(xid));
            assert(cut[p].children.no_duplicates());
            if p == new_parent {
                assert(lists(moved, p, xid) <==> lists(ws, p, xid));
                assert(!lists(cut, p, xid));
                assert(after[p].children == cut[p].children.push(xid));
            }
        }
    }
}

/// Mapping, configuring and drawing touch neither parents nor children.
pub proof fn lemma_other_requests_keep_lists(
    k: KmsView,
    xid: u32,
    mapped: bool,
    config: HostSubwindowConfig,
    value_mask: u32,
    values: Seq<u32>,
    image: ImageView,
)
    requires
        lists_agree(k.windows),
    ensures
        lists_agree(k.with_mapped(xid, mapped).windows),
        lists_agree(k.with_image(xid, image).windows),
        k.windows.contains_key(xid) ==> lists_agree(
            k.with_window(xid, windows::reconfigured(k.windows[xid], config)).windows,
        ),
        k.windows.contains_key(xid) ==> lists_agree(
            k.with_window(
                xid,
                windows::with_attributes(k.windows[xid], value_mask, values),
            ).windows,
        ),
{
    lemma_same_lists(k.windows, k.with_mapped(xid, mapped).windows);
    lemma_same_lists(k.windows, k.with_image(xid, image).windows);
    if k.windows.contains_key(xid) {
        lemma_same_lists(
            k.windows,
            k.with_window(xid, windows::reconfigured(k.windows[xid], config)).windows,
        );
        lemma_same_lists(
            k.windows,
            k.with_window(
                xid,
                windows::with_attributes(k.windows[xid], value_mask, values),
            ).windows,
        );
    }
}

proof fn lemma_same_lists(a: Map<u32, WindowStateView>, b: Map<u32, WindowStateView>)
    requires
        lists_agree(a),
        a.dom() =~= b.dom(),
        forall|id: u32|
            a.contains_key(id) ==> (#[trigger] a[id]).parent == b[id].parent && a[id].children
                == b[id].children,
    ensures
        lists_agree(b),
{
    assert forall|id: u32| a.contains_key(id) <==> b.contains_key(id) by {
        assert(a.dom().contains(id) <==> b.dom().contains(id));
    }
    assert forall|p: u32, c: u32| #[trigger]
        lists(b, p, c) <==> b.contains_key(p) && b.contains_key(c) && b[c].parent == Some(p) by {
        assert(lists(a, p, c) <==> lists(b, p, c)) by {
            if a.contains_key(p) {
                assert(a[p].children == b[p].children);
            }
        }
        if a.contains_key(c) {
            assert(a[c].parent == b[c].parent);
        }
    }
    assert forall|p: u32| b.contains_key(p) implies (#[trigger] b[p]).children.no_duplicates() by {
        assert(a[p].children.no_duplicates());
    }
}

/// Destroying a window that was just created gives back the windows as they
/// were.
pub proof fn lemma_destroy_undoes_create(k: KmsView, w: WindowStateView)
    requires
        identifiers_are_known(k),
        lists_agree(k.windows),
        k.next_host_xid < u32::MAX,
        w.parent matches Some(parent) && parent <= k.next_host_xid,
    ensures
        k.with_new_window(w).without_window(k.new_xid()).windows == k.windows,
{
    let xid = k.new_xid();
    let parent = w.parent->0;
    let created = k.with_new_window(w);
    assert(created.windows[xid].parent == Some(parent));
    let back = created.without_window(xid).windows;
    assert forall|id: u32| k.windows.contains_key(id) implies #[trigger] back[id]
        == k.windows[id] by {
        if id == parent {
            let kids = k.windows[parent].children;
            assert(!lists(k.windows, parent, xid));
            assert forall|i: int| 0 <= i < kids.len() implies state::other_xid(xid)(
                #[trigger] kids[i],
            ) by {
                assert(kids.contains(kids[i]));
            }
            filters::lemma_filter_all(kids, state::other_xid(xid));
            reveal(Seq::filter);
            assert(kids.push(xid).drop_last() =~= kids);
            assert(kids.push(xid).filter(state::other_xid(xid)) == kids);
            assert(back[id] =~= k.windows[id]);
        }
    }
    assert(back =~= k.windows);
}

/// Drawing on one drawable leaves the pixels of all others alone, and all that
/// is no pixel too.
pub proof fn lemma_drawing_spares_other_drawables(
    k: KmsView,
    xid: u32,
    foreground: u32,
    rects: Seq<Rectangle16>,
    other: u32,
)
    requires
        other != xid,
    ensures
        k.painted(xid, foreground, rects).state.image_of(other) == k.image_of(other),
        k.painted_inside(xid, foreground, rects).state.image_of(other) == k.image_of(other),
        k.painted(xid, foreground, rects).state.fonts == k.fonts,
        k.painted(xid, foreground, rects).state.pictures == k.pictures,
        k.painted(xid, foreground, rects).state.windows.dom() == k.windows.dom(),
        k.painted(xid, foreground, rects).state.pixmaps.dom() == k.pixmaps.dom(),
{
    let after = k.painted(xid, foreground, rects).state;
    assert(after.windows.dom() =~= k.windows.dom());
    assert(after.pixmaps.dom() =~= k.pixmaps.dom());
}

/// What is put into a drawable is what it holds from then on.
pub proof fn lemma_drawable_holds_what_was_put(k: KmsView, xid: u32, image: ImageView)
    requires
        k.image_of(xid) is Some,
    ensures
        k.with_image(xid, image).image_of(xid) == Some(image),
{
}

/// A pixmap can be drawn on from its creation until it is freed.
pub proof fn lemma_pixmap_lives_until_freed(k: KmsView, depth: u8, width: u16, height: u16)
    requires
        identifiers_are_known(k),
        k.next_host_xid < u32::MAX,
    ensures
        ({
            let made = k.with_new_pixmap(depth, width, height);
            &&& made.image_of(k.new_xid()) is Some
            &&& made.without_pixmap(k.new_xid()).image_of(k.new_xid()) is None
            &&& made.without_pixmap(k.new_xid()).pixmaps == k.pixmaps
            &&& forall|id: u32|
                id != k.new_xid() ==> #[trigger] made.image_of(id) == k.image_of(id)
        }),
{
    let made = k.with_new_pixmap(depth, width, height);
    assert(made.without_pixmap(k.new_xid()).pixmaps =~= k.pixmaps);
}

/// A fresh screen has no windows, pixmaps, fonts or pictures. Its pointer is in the upper
/// left corner, and identifiers start behind 0x400000.
pub proof fn lemma_fresh_screen_is_empty(fb_w: u16, fb_h: u16, id: u32)
    ensures
        ({
            let k = KmsView::initial(fb_w, fb_h);
            &&& k.fb_w == fb_w && k.fb_h == fb_h
            &&& k.cursor_x == 0 && k.cursor_y == 0
            &&& !k.windows.contains_key(id) && !k.pixmaps.contains_key(id)
            &&& !k.fonts.contains_key(id) && !k.pictures.contains_key(id)
            &&& k.window_id == 1 && k.next_host_xid == 0x0040_0000
            &&& k.bg_pixel is None && k.bg_pixmap is None && k.current_font is None
            &&& k.current_function == GcFunction::Copy
            &&& k.new_xid() == 0x0040_0001
        }),
{
}

/// An identifier names the pixels of a window, or else those of a pixmap; what is put
/// there replaces those and nothing else.
pub proof fn lemma_drawables_are_windows_or_pixmaps(
    k: KmsView,
    xid: u32,
    image: ImageView,
    other: u32,
)
    requires
        other != xid,
    ensures
        k.windows.contains_key(xid) ==> {
            let after = k.with_image(xid, image);
            &&& k.image_of(xid) == Some(k.windows[xid].image)
            &&& after.windows[xid] == (WindowStateView { image, ..k.windows[xid] })
            &&& after.windows[other] == k.windows[other]
            &&& after == (KmsView { windows: after.windows, ..k })
        },
        !k.windows.contains_key(xid) && k.pixmaps.contains_key(xid) ==> {
            let after = k.with_image(xid, image);
            &&& k.image_of(xid) == Some(k.pixmaps[xid].image)
            &&& after.pixmaps[xid] == (PixmapStateView { image, ..k.pixmaps[xid] })
            &&& after.pixmaps[other] == k.pixmaps[other]
            &&& after == (KmsView { pixmaps: after.pixmaps, ..k })
        },
        !k.windows.contains_key(xid) && !k.pixmaps.contains_key(xid) ==> {
            &&& k.image_of(xid) is None
            &&& k.with_image(xid, image) == k
        },
{
}

/// A new pixmap is as large and as deep as asked for, and blank; it is filed under the
/// next identifier. Freeing it touches nothing else.
pub proof fn lemma_new_pixmap_is_as_requested(
    k: KmsView,
    depth: u8,
    width: u16,
    height: u16,
    other: u32,
)
    requires
        k.next_host_xid < u32::MAX,
    ensures
        ({
            let after = k.with_new_pixmap(depth, width, height);
            let id = (k.next_host_xid + 1) as u32;
            let p = after.pixmaps[id];
            &&& after.pixmaps.contains_key(id) && after.next_host_xid == id
            &&& p.handle == id && p.depth == depth
            &&& p.image.width == width && p.image.height == height
            &&& forall|i: int| 0 <= i < p.image.data.len() ==> #[trigger] p.image.data[i] == 0
            &&& other != id ==> after.pixmaps[other] == k.pixmaps[other]
            &&& after == (KmsView {
                next_host_xid: id,
                pixmaps: after.pixmaps,
                ..k
            })
            &&& !k.without_pixmap(id).pixmaps.contains_key(id)
            &&& other != id ==> k.without_pixmap(id).pixmaps.contains_key(other)
                == k.pixmaps.contains_key(other)
        }),
{
}

/// Moving a window below another parent makes it the last child there; all other
/// children stay in their order, with both parents.
pub proof fn lemma_reparenting_keeps_the_order(
    k: KmsView,
    xid: u32,
    old_parent: u32,
    new_parent: u32,
    x: i16,
    y: i16,
)
    requires
        k.windows.contains_key(xid),
        k.windows[xid].parent == Some(old_parent),
        k.windows.contains_key(old_parent),
        k.windows.contains_key(new_parent),
        new_parent != xid,
        old_parent != xid,
    ensures
        ({
            let after = k.reparented(xid, new_parent, x, y).windows;
            let others = |c: u32| c != xid;
            &&& old_parent != new_parent ==> {
                &&& after[old_parent].children == k.windows[old_parent].children.filter(others)
                &&& after[new_parent].children == k.windows[new_parent].children.push(xid)
            }
            &&& old_parent == new_parent ==> after[new_parent].children
                == k.windows[new_parent].children.filter(others).push(xid)
        }),
{
    let kids = k.windows[old_parent].children;
    filters::lemma_filter_agree(kids, state::other_xid(xid), |c: u32| c != xid);
}

} // verus!
