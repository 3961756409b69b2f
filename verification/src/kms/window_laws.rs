//! What holds of each request on a window of the screen.

use vstd::prelude::*;

use crate::backend::HostSubwindowConfig;
use crate::host_x11::HostSubwindowVisual;
use crate::kms::events::HostExposeEvent;
use crate::kms::image::{Color, ImageView, PixelFormat};
use crate::kms::raster::Rectangle16;
use crate::kms::state::{KmsView, WindowStateView};
use crate::kms::windows;
use crate::resource_laws;

verus! {

/// A new window lies where it was asked for, has the size, border and background
/// that were asked for, is not mapped, and has as many pixels as it is large, all
/// zero. It is the last child of its parent, and no other window changes.
pub proof fn lemma_new_window_is_as_requested(
    k: KmsView,
    parent: u32,
    x: i16,
    y: i16,
    width: u16,
    height: u16,
    border_width: u16,
    visual: HostSubwindowVisual,
    background: Option<u32>,
    other: u32,
)
    requires
        k.next_host_xid < u32::MAX,
        parent <= k.next_host_xid,
    ensures
        ({
            let k1 = k.with_new_window(
                windows::new_window(
                    parent,
                    x,
                    y,
                    width,
                    height,
                    border_width,
                    visual,
                    background,
                ),
            );
            let id = k.next_host_xid + 1;
            let w = k1.windows[id as u32];
            &&& k1.next_host_xid == id
            &&& k1.windows.contains_key(id as u32)
            &&& w.x == x && w.y == y && w.width == width && w.height == height
            &&& w.border_width == border_width
            &&& !w.mapped && !w.override_redirect
            &&& w.parent == Some(parent) && w.children.len() == 0
            &&& w.bg_pixel == background && w.bg_pixmap is None
            &&& w.image.format == PixelFormat::X8R8G8B8
            &&& w.image.width == width && w.image.height == height
            &&& w.image.stride_words == width
            &&& w.image.data.len() == width * height
            &&& forall|i: int| 0 <= i < w.image.data.len() ==> #[trigger] w.image.data[i] == 0
            &&& match visual {
                HostSubwindowVisual::CopyFromParent => w.depth == 24,
                HostSubwindowVisual::Explicit { depth, visual_xid, .. } => w.depth == depth
                    && w.visual == visual_xid,
            }
            &&& other != id && other != parent ==> {
                &&& k1.windows.contains_key(other) == k.windows.contains_key(other)
                &&& k1.windows[other] == k.windows[other]
            }
            &&& k.windows.contains_key(parent) ==> {
                let (before, after) = (k.windows[parent], k1.windows[parent]);
                &&& k1.windows.contains_key(parent)
                &&& after == (WindowStateView { children: after.children, ..before })
                &&& after.children.len() == before.children.len() + 1
                &&& after.children.drop_last() == before.children
                &&& after.children.last() == id
            }
            &&& k1 == (KmsView {
                next_host_xid: k1.next_host_xid,
                windows: k1.windows,
                ..k
            })
        }),
{
    let before = k.windows[parent];
    let id = (k.next_host_xid + 1) as u32;
    assert(before.children.push(id).drop_last() =~= before.children);
    assert(0 <= width * height) by (nonlinear_arith)
        requires
            width >= 0,
            height >= 0,
    ;
}

/// A background is filled all over, in the colour whose red, green and blue are the
/// three low bytes of the pixel value; without one nothing is filled.
pub proof fn lemma_background_is_filled_all_over(
    pixel: u32,
    red: u8,
    green: u8,
    blue: u8,
    top: u8,
    width: u16,
    height: u16,
)
    requires
        pixel == blue + 0x100 * green + 0x1_0000 * red + 0x100_0000 * top,
    ensures
        windows::background_fill(None, width, height) is None,
        ({
            let fill = windows::background_fill(Some(pixel), width, height);
            &&& fill is Some
            &&& fill->0.color == (Color {
                red: (256 * red) as u16,
                green: (256 * green) as u16,
                blue: (256 * blue) as u16,
                alpha: 0xffff,
            })
            &&& fill->0.rects == seq![Rectangle16 { x: 0, y: 0, width, height }]
        }),
{
    assert(pixel / 65536 % 256 == red);
    assert(pixel / 256 % 256 == green);
    assert(pixel % 256 == blue);
}

/// Configuring a window sets what is named and keeps the rest. Pixels are new and
/// blank if and only if a width or a height is named.
pub proof fn lemma_configuring_sets_what_is_named(w: WindowStateView, c: HostSubwindowConfig)
    ensures
        ({
            let after = windows::reconfigured(w, c);
            &&& resource_laws::is_asked_or_kept(c.x, w.x, after.x)
            &&& resource_laws::is_asked_or_kept(c.y, w.y, after.y)
            &&& resource_laws::is_asked_or_kept(c.width, w.width, after.width)
            &&& resource_laws::is_asked_or_kept(c.height, w.height, after.height)
            &&& resource_laws::is_asked_or_kept(c.border_width, w.border_width, after.border_width)
            &&& after == (WindowStateView {
                x: after.x,
                y: after.y,
                width: after.width,
                height: after.height,
                border_width: after.border_width,
                image: after.image,
                ..w
            })
            &&& c.width is None && c.height is None ==> after.image == w.image
            &&& !(c.width is None && c.height is None) ==> {
                &&& after.image.width == after.width && after.image.height == after.height
                &&& after.image.stride_words == after.width
                &&& after.image.format == PixelFormat::X8R8G8B8
                &&& after.image.data.len() == after.width * after.height
                &&& forall|i: int|
                    0 <= i < after.image.data.len() ==> #[trigger] after.image.data[i] == 0
            }
            &&& windows::is_resize(c) <==> !(c.width is None && c.height is None)
        }),
{
    let after = windows::reconfigured(w, c);
    assert(0 <= after.width * after.height) by (nonlinear_arith)
        requires
            after.width >= 0,
            after.height >= 0,
    ;
}

/// Of the attributes of a window the background pixmap, which is the lowest bit, and
/// the background pixel, which is the next, are kept. Values come in the order of the
/// bits that are set. A pixmap of 0 is none.
pub proof fn lemma_attributes_come_in_the_order_of_bits(
    w: WindowStateView,
    pixmap: bool,
    pixel: bool,
    others: u32,
    values: Seq<u32>,
)
    requires
        others <= u32::MAX / 4,
    ensures
        ({
            let mask = (4 * others + (if pixel {
                2int
            } else {
                0int
            }) + (if pixmap {
                1int
            } else {
                0int
            })) as u32;
            let after = windows::with_attributes(w, mask, values);
            &&& !pixmap ==> after.bg_pixmap == w.bg_pixmap
            &&& !pixel ==> after.bg_pixel == w.bg_pixel
            &&& pixmap && values.len() > 0 && values[0] == 0 ==> after.bg_pixmap is None
            &&& pixmap && values.len() > 0 && values[0] != 0 ==> after.bg_pixmap is Some
                && after.bg_pixmap->0.raw == values[0]
            &&& pixel && !pixmap && values.len() > 0 ==> after.bg_pixel == Some(values[0])
            &&& pixel && pixmap && values.len() > 1 ==> after.bg_pixel == Some(values[1])
            &&& pixel && pixmap && values.len() == 1 ==> after.bg_pixel == w.bg_pixel
            &&& values.len() == 0 ==> after == w
            &&& after == (WindowStateView {
                bg_pixmap: after.bg_pixmap,
                bg_pixel: after.bg_pixel,
                ..w
            })
        }),
{
    let two: u32 = if pixel {
        2
    } else {
        0
    };
    let one: u32 = if pixmap {
        1
    } else {
        0
    };
    let mask = (4 * others + two + one) as u32;
    lemma_low_bits(mask);
    assert(mask % 2 == one);
    assert(mask / 2 % 2 == if pixel {
        1int
    } else {
        0int
    });
}

proof fn lemma_low_bits(mask: u32)
    ensures
        mask & 1 != 0 <==> mask % 2 == 1,
        mask & 2 != 0 <==> mask / 2 % 2 == 1,
{
    assert(mask & 1 == mask % 2) by (bit_vector);
    assert((mask & 2 != 0) <==> (mask / 2 % 2 == 1)) by (bit_vector);
}

/// The event that exposes a window covers it as a whole.
pub proof fn lemma_exposure_covers_the_window(xid: u32, w: WindowStateView)
    ensures
        windows::full_exposure(xid, w).host_xid == xid,
        windows::full_exposure(xid, w).x == 0,
        windows::full_exposure(xid, w).y == 0,
        windows::full_exposure(xid, w).width == w.width,
        windows::full_exposure(xid, w).height == w.height,
        windows::full_exposure(xid, w).count == 0,
{
}

/// Holds of windows that are to be exposed: mapped ones, but for `but`.
pub open spec fn is_exposed(
    ws: Map<u32, WindowStateView>,
    but: Option<u32>,
) -> spec_fn(u32) -> bool {
    |id: u32| but != Some(id) && ws.contains_key(id) && ws[id].mapped
}

/// Of a list of windows, exactly those that are mapped and not left out are exposed,
/// once for each time they are listed and in the order of the list.
pub proof fn lemma_mapped_siblings_are_exposed_in_order(
    ws: Map<u32, WindowStateView>,
    ids: Seq<u32>,
    but: Option<u32>,
    n: int,
)
    requires
        0 <= n <= ids.len(),
    ensures
        windows::exposures(ws, ids, but, n).map_values(|e: HostExposeEvent| e.host_xid) == ids.take(
            n,
        ).filter(is_exposed(ws, but)),
        forall|i: int|
            0 <= i < windows::exposures(ws, ids, but, n).len() ==> {
                let e = #[trigger] windows::exposures(ws, ids, but, n)[i];
                &&& e.x == 0 && e.y == 0 && e.count == 0
                &&& e.width == ws[e.host_xid].width && e.height == ws[e.host_xid].height
            },
    decreases n,
{
    reveal(Seq::filter);
    let events = windows::exposures(ws, ids, but, n);
    let f = |e: HostExposeEvent| e.host_xid;
    if n > 0 {
        lemma_mapped_siblings_are_exposed_in_order(ws, ids, but, n - 1);
        let before = windows::exposures(ws, ids, but, n - 1);
        assert(ids.take(n).drop_last() =~= ids.take(n - 1));
        assert(ids.take(n).last() == ids[n - 1]);
        if is_exposed(ws, but)(ids[n - 1]) {
            assert(events.map_values(f) =~= before.map_values(f).push(ids[n - 1]));
        }
    } else {
        assert(ids.take(0) =~= Seq::<u32>::empty());
        assert(events.map_values(f) =~= Seq::<u32>::empty());
    }
}

/// Who is exposed when a window goes: the children of its parent, in their order, and
/// nobody if it has no parent in the table.
pub proof fn lemma_siblings_are_the_parents_children(ws: Map<u32, WindowStateView>, xid: u32, p: u32)
    ensures
        ws.contains_key(xid) && ws[xid].parent == Some(p) && ws.contains_key(p)
            ==> windows::siblings(ws, xid) == ws[p].children,
        ws.contains_key(xid) && ws[xid].parent == Some(p) && !ws.contains_key(p)
            ==> windows::siblings(ws, xid).len() == 0,
        !ws.contains_key(xid) || ws[xid].parent is None ==> windows::siblings(ws, xid).len() == 0,
{
}

/// Destroying, mapping and moving a window touch the window itself and the lists of
/// its parents, and nothing else of the screen.
pub proof fn lemma_requests_touch_what_they_name(
    k: KmsView,
    xid: u32,
    mapped: bool,
    new_parent: u32,
    x: i16,
    y: i16,
    other: u32,
)
    requires
        k.windows.contains_key(xid),
        other != xid,
    ensures
        ({
            let gone = k.without_window(xid);
            &&& !gone.windows.contains_key(xid)
            &&& !gone.xid_map.contains_key(xid)
            &&& gone.xid_map.contains_key(other) == k.xid_map.contains_key(other)
            &&& gone.windows.contains_key(other) == k.windows.contains_key(other)
            &&& k.windows[xid].parent != Some(other) ==> gone.windows[other] == k.windows[other]
            &&& k.windows.contains_key(other) ==> gone.windows[other] == (WindowStateView {
                children: gone.windows[other].children,
                ..k.windows[other]
            })
        }),
        ({
            let after = k.with_mapped(xid, mapped);
            &&& after.windows[xid] == (WindowStateView { mapped, ..k.windows[xid] })
            &&& after.windows.contains_key(other) == k.windows.contains_key(other)
            &&& after.windows[other] == k.windows[other]
            &&& after == (KmsView { windows: after.windows, ..k })
        }),
        ({
            let after = k.reparented(xid, new_parent, x, y);
            let w = after.windows[xid];
            &&& w.x == x && w.y == y && w.parent == Some(new_parent)
            &&& w == (WindowStateView {
                x,
                y,
                parent: Some(new_parent),
                children: w.children,
                ..k.windows[xid]
            })
            &&& after.windows.contains_key(other) == k.windows.contains_key(other)
            &&& other != new_parent && k.windows[xid].parent != Some(other) ==> after.windows[other]
                == k.windows[other]
            &&& k.windows.contains_key(other) ==> after.windows[other] == (WindowStateView {
                children: after.windows[other].children,
                ..k.windows[other]
            })
            &&& after == (KmsView { windows: after.windows, ..k })
        }),
{
}

} // verus!
