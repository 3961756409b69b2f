//! What holds of the resource table across its operations.

use vstd::prelude::*;

use crate::filters;
use crate::protocol::{
    AtomId, ChangeWindowAttributesRequest, ClientId, ConfigureWindowRequest, CreateGcRequest,
    CreateWindowRequest, GcChange, PropertyValueView, ResourceId,
};
use crate::resources;
use crate::resources::{FontView, Gc, MapState, ResourceTableView, WindowClass, WindowView};

verus! {

/// Whether each window of `p` exists and lists the next one as a child.
pub open spec fn is_path(ws: Map<u32, WindowView>, p: Seq<ResourceId>) -> bool {
    &&& p.len() > 0
    &&& forall|i: int| 0 <= i < p.len() ==> ws.contains_key((#[trigger] p[i]).0)
    &&& forall|i: int, j: int|
        0 <= i && i + 1 == j && j < p.len() ==> ws[(#[trigger] p[i]).0].children.contains(
            #[trigger] p[j],
        )
}

/// Whether children lead from a window of `work` to `id`.
pub open spec fn reachable(
    ws: Map<u32, WindowView>,
    work: Seq<ResourceId>,
    id: ResourceId,
) -> bool {
    exists|p: Seq<ResourceId>| #[trigger]
        is_path(ws, p) && work.contains(p[0]) && p.last() == id
}

/// The children of `k` that stay when the windows of `gone` are destroyed: a
/// window is dropped only from the list of the parent that it names.
pub open spec fn stays_listed(
    ws: Map<u32, WindowView>,
    gone: Seq<ResourceId>,
    k: u32,
) -> spec_fn(ResourceId) -> bool {
    |c: ResourceId| !(gone.contains(c) && ws[c.0].parent.0 == k)
}

/// A path of windows other than those gone with `id`.
proof fn lemma_path_without(ws: Map<u32, WindowView>, id: ResourceId, p: Seq<ResourceId>)
    requires
        ws.contains_key(id.0),
        is_path(ws, p),
    ensures
        p.last() == id || reachable(
            resources::detached(ws, id),
            ws[id.0].children,
            p.last(),
        ) || is_path(resources::detached(ws, id), p),
    decreases p.len(),
{
    let ws1 = resources::detached(ws, id);
    if p.len() == 1 {
        if p[0] != id {
            assert(is_path(ws1, p));
        }
    } else {
        let q = p.drop_first();
        assert(is_path(ws, q)) by {
            assert forall|i: int| 0 <= i < q.len() implies ws.contains_key(
                (#[trigger] q[i]).0,
            ) by {
                assert(q[i] == p[i + 1]);
            }
            assert forall|i: int, j: int|
                0 <= i && i + 1 == j && j < q.len() implies ws[(#[trigger] q[i]).0].children.contains(
                #[trigger] q[j],
            ) by {
                assert(q[i] == p[i + 1] && q[j] == p[j + 1]);
            }
        }
        lemma_path_without(ws, id, q);
        assert(q.last() == p.last());
        if p.last() != id && !reachable(ws1, ws[id.0].children, p.last()) {
            assert(is_path(ws1, q));
            assert(q[0] == p[1]);
            assert(ws[p[0].0].children.contains(p[1]));
            if p[0] == id {
                assert(is_path(ws1, q) && ws[id.0].children.contains(q[0]) && q.last()
                    == p.last());
                assert(false);
            }
            assert(ws1.contains_key(q[0].0));
            filters::lemma_filter_keeps(ws[p[0].0].children, resources::other_than(id), p[1]);
            assert(ws1[p[0].0].children.contains(p[1]));
            assert forall|i: int| 0 <= i < p.len() implies ws1.contains_key(
                (#[trigger] p[i]).0,
            ) by {
                if i > 0 {
                    assert(q[i - 1] == p[i]);
                }
            }
            assert forall|i: int, j: int|
                0 <= i && i + 1 == j && j < p.len() implies ws1[(
                #[trigger] p[i]).0].children.contains(#[trigger] p[j]) by {
                if i > 0 {
                    assert(q[i - 1] == p[i] && q[j - 1] == p[j]);
                }
            }
            assert(is_path(ws1, p));
        }
    }
}

/// Where children lead, before and after the first window of `work` is gone.
proof fn lemma_reachable_step(ws: Map<u32, WindowView>, work: Seq<ResourceId>, x: ResourceId)
    requires
        work.len() > 0,
        ws.contains_key(work[0].0),
    ensures
        reachable(ws, work, x) <==> x == work[0] || reachable(
            resources::detached(ws, work[0]),
            ws[work[0].0].children + work.drop_first(),
            x,
        ),
{
    let id = work[0];
    let rest = work.drop_first();
    let kids = ws[id.0].children;
    let ws1 = resources::detached(ws, id);
    let work1 = kids + rest;
    assert forall|c: ResourceId| #[trigger] work1.contains(c) <==> kids.contains(c)
        || rest.contains(c) by {
        if kids.contains(c) {
            let j = choose|j: int| 0 <= j < kids.len() && kids[j] == c;
            assert(work1[j] == c);
        }
        if rest.contains(c) {
            let j = choose|j: int| 0 <= j < rest.len() && rest[j] == c;
            assert(work1[kids.len() + j] == c);
        }
    }
    assert forall|c: ResourceId| #[trigger] work.contains(c) <==> c == id || rest.contains(c) by {
        if rest.contains(c) {
            let j = choose|j: int| 0 <= j < rest.len() && rest[j] == c;
            assert(work[j + 1] == c);
        }
        if work.contains(c) && c != id {
            let j = choose|j: int| 0 <= j < work.len() && work[j] == c;
            assert(rest[j - 1] == c);
        }
        assert(work.contains(work[0]));
    }
    if reachable(ws, work, x) && x != id {
        let p = choose|p: Seq<ResourceId>| #[trigger]
            is_path(ws, p) && work.contains(p[0]) && p.last() == x;
        lemma_path_without(ws, id, p);
        if reachable(ws1, kids, x) {
            let q = choose|q: Seq<ResourceId>| #[trigger]
                is_path(ws1, q) && kids.contains(q[0]) && q.last() == x;
            assert(is_path(ws1, q) && work1.contains(q[0]) && q.last() == x);
        } else {
            assert(is_path(ws1, p));
            assert(p[0] != id);
            assert(work1.contains(p[0]));
        }
    }
    if x == id {
        let p = seq![id];
        assert(is_path(ws, p) && work.contains(p[0]) && p.last() == x);
    }
    if reachable(ws1, work1, x) {
        let q = choose|q: Seq<ResourceId>| #[trigger]
            is_path(ws1, q) && work1.contains(q[0]) && q.last() == x;
        assert(is_path(ws, q)) by {
            assert forall|i: int, j: int|
                0 <= i && i + 1 == j && j < q.len() implies ws[(#[trigger] q[i]).0].children.contains(
                #[trigger] q[j],
            ) by {
                filters::lemma_filter_keeps(ws[q[i].0].children, resources::other_than(id), q[j]);
            }
        }
        if rest.contains(q[0]) {
            assert(is_path(ws, q) && work.contains(q[0]) && q.last() == x);
        } else {
            let p = seq![id] + q;
            assert(is_path(ws, p)) by {
                assert forall|i: int| 0 <= i < p.len() implies ws.contains_key(
                    (#[trigger] p[i]).0,
                ) by {
                    if i > 0 {
                        assert(p[i] == q[i - 1]);
                    }
                }
                assert forall|i: int, j: int|
                    0 <= i && i + 1 == j && j < p.len() implies ws[(
                    #[trigger] p[i]).0].children.contains(#[trigger] p[j]) by {
                    if i > 0 {
                        assert(p[i] == q[i - 1] && p[j] == q[j - 1]);
                    } else {
                        assert(p[j] == q[0]);
                    }
                }
            }
            assert(p.last() == q.last());
            assert(is_path(ws, p) && work.contains(p[0]) && p.last() == x);
        }
    }
}

/// Destroying the windows of `work` destroys exactly the windows that children
/// lead to from there, each once; every other window stays, and loses from its
/// children only the destroyed windows that name it as their parent.
pub proof fn lemma_destroyed_is_what_is_reachable(
    ws: Map<u32, WindowView>,
    work: Seq<ResourceId>,
)
    requires
        ws.dom().finite(),
    ensures
        resources::destroyed(ws, work).1.no_duplicates(),
        forall|x: ResourceId| #[trigger]
            resources::destroyed(ws, work).1.contains(x) <==> reachable(ws, work, x),
        forall|k: u32| #[trigger]
            resources::destroyed(ws, work).0.contains_key(k) <==> ws.contains_key(k)
                && !resources::destroyed(ws, work).1.contains(ResourceId(k)),
        forall|k: u32| #[trigger]
            resources::destroyed(ws, work).0.contains_key(k) ==> resources::destroyed(
                ws,
                work,
            ).0[k] == (WindowView {
                children: ws[k].children.filter(
                    stays_listed(ws, resources::destroyed(ws, work).1, k),
                ),
                ..ws[k]
            }),
    decreases ws.dom().len(), work.len(),
{
    let (left, gone) = resources::destroyed(ws, work);
    if work.len() == 0 {
        assert forall|k: u32| #[trigger] left.contains_key(k) implies left[k] == (WindowView {
            children: ws[k].children.filter(stays_listed(ws, gone, k)),
            ..ws[k]
        }) by {
            filters::lemma_filter_all(ws[k].children, stays_listed(ws, gone, k));
        }
    } else {
        let id = work[0];
        let rest = work.drop_first();
        if ws.contains_key(id.0) {
            let ws1 = resources::detached(ws, id);
            let work1 = ws[id.0].children + rest;
            resources::lemma_detached_shrinks(ws, id);
            lemma_destroyed_is_what_is_reachable(ws1, work1);
            let (left1, gone1) = resources::destroyed(ws1, work1);
            assert(gone == seq![id] + gone1);
            assert forall|x: ResourceId| #[trigger] gone.contains(x) <==> x == id
                || gone1.contains(x) by {
                if gone1.contains(x) {
                    let j = choose|j: int| 0 <= j < gone1.len() && gone1[j] == x;
                    assert(gone[j + 1] == x);
                }
                if gone.contains(x) && x != id {
                    let j = choose|j: int| 0 <= j < gone.len() && gone[j] == x;
                    assert(gone1[j - 1] == x);
                }
                assert(gone[0] == id);
            }
            assert forall|x: ResourceId| #[trigger] gone.contains(x) <==> reachable(
                ws,
                work,
                x,
            ) by {
                lemma_reachable_step(ws, work, x);
            }
            assert forall|x: ResourceId| #[trigger] gone1.contains(x) implies ws1.contains_key(
                x.0,
            ) by {
                let p = choose|p: Seq<ResourceId>| #[trigger]
                    is_path(ws1, p) && work1.contains(p[0]) && p.last() == x;
                assert(ws1.contains_key(p[p.len() - 1].0));
            }
            assert(!gone1.contains(id));
            assert forall|k: u32| #[trigger] left.contains_key(k) <==> ws.contains_key(k)
                && !gone.contains(ResourceId(k)) by {
                assert(left1.contains_key(k) <==> ws1.contains_key(k) && !gone1.contains(
                    ResourceId(k),
                ));
            }
            assert forall|k: u32| #[trigger] left.contains_key(k) implies left[k] == (
            WindowView {
                children: ws[k].children.filter(stays_listed(ws, gone, k)),
                ..ws[k]
            }) by {
                let kids = ws[k].children;
                let keep1 = stays_listed(ws1, gone1, k);
                let keep = stays_listed(ws, gone, k);
                if k == ws[id.0].parent.0 {
                    let both = |c: ResourceId| resources::other_than(id)(c) && keep1(c);
                    filters::lemma_filter_twice(kids, resources::other_than(id), keep1);
                    filters::lemma_filter_agree(kids, both, keep);
                } else {
                    filters::lemma_filter_agree(kids, keep1, keep);
                }
            }
        } else {
            lemma_destroyed_is_what_is_reachable(ws, rest);
            assert forall|x: ResourceId| reachable(ws, work, x) <==> reachable(ws, rest, x) by {
                if reachable(ws, work, x) {
                    let p = choose|p: Seq<ResourceId>| #[trigger]
                        is_path(ws, p) && work.contains(p[0]) && p.last() == x;
                    let j = choose|j: int| 0 <= j < work.len() && work[j] == p[0];
                    assert(rest[j - 1] == p[0]);
                    assert(is_path(ws, p) && rest.contains(p[0]) && p.last() == x);
                }
                if reachable(ws, rest, x) {
                    let p = choose|p: Seq<ResourceId>| #[trigger]
                        is_path(ws, p) && rest.contains(p[0]) && p.last() == x;
                    let j = choose|j: int| 0 <= j < rest.len() && rest[j] == p[0];
                    assert(work[j + 1] == p[0]);
                    assert(is_path(ws, p) && work.contains(p[0]) && p.last() == x);
                }
            }
        }
    }
}

/// Whether every resource is filed under its own identifier.
pub open spec fn ids_match(t: ResourceTableView) -> bool {
    &&& forall|k: u32| #[trigger] t.windows.contains_key(k) ==> t.windows[k].id.0 == k
    &&& forall|k: u32| #[trigger] t.pixmaps.contains_key(k) ==> t.pixmaps[k].id.0 == k
    &&& forall|k: u32| #[trigger] t.gcs.contains_key(k) ==> t.gcs[k].id.0 == k
    &&& forall|k: u32| #[trigger] t.fonts.contains_key(k) ==> t.fonts[k].id.0 == k
    &&& forall|k: u32| #[trigger] t.cursors.contains_key(k) ==> t.cursors[k].id.0 == k
}

/// Whether every listed child exists, once, and names the lister as its parent.
pub open spec fn children_match(t: ResourceTableView) -> bool {
    forall|k: u32| #[trigger]
        t.windows.contains_key(k) ==> {
            &&& t.windows[k].children.no_duplicates()
            &&& forall|c: ResourceId| #[trigger]
                t.windows[k].children.contains(c) ==> t.windows.contains_key(c.0)
                    && t.windows[c.0].parent.0 == k
        }
}

/// A fresh table files everything under its own identifier, and its children
/// and parents match.
pub proof fn lemma_initial_table_matches()
    ensures
        ids_match(ResourceTableView::initial()),
        children_match(ResourceTableView::initial()),
{
}

/// Creating a window keeps everything under its own identifier; with a new
/// identifier it also keeps children and parents matched.
pub proof fn lemma_create_window_keeps_matches(
    t: ResourceTableView,
    owner: ClientId,
    request: CreateWindowRequest,
)
    requires
        ids_match(t),
    ensures
        ids_match(t.create_window(owner, request)),
        children_match(t) && !t.windows.contains_key(request.window.0) && request.window
            != request.parent ==> children_match(t.create_window(owner, request)),
{
    let t1 = t.create_window(owner, request);
    if children_match(t) && !t.windows.contains_key(request.window.0) && request.window
        != request.parent {
        assert forall|k: u32| #[trigger] t1.windows.contains_key(k) implies {
            &&& t1.windows[k].children.no_duplicates()
            &&& forall|c: ResourceId| #[trigger]
                t1.windows[k].children.contains(c) ==> t1.windows.contains_key(c.0)
                    && t1.windows[c.0].parent.0 == k
        } by {
            let kids = t1.windows[k].children;
            let old_kids = if t.windows.contains_key(k) {
                t.windows[k].children
            } else {
                Seq::empty()
            };
            if k == request.parent.0 {
                assert(kids == old_kids.push(request.window));
                assert(!old_kids.contains(request.window));
                assert forall|i: int, j: int|
                    0 <= i < kids.len() && 0 <= j < kids.len() && i != j implies kids[i]
                    != kids[j] by {
                    if i < old_kids.len() {
                        assert(old_kids.contains(old_kids[i]));
                    }
                    if j < old_kids.len() {
                        assert(old_kids.contains(old_kids[j]));
                    }
                }
                assert forall|c: ResourceId| #[trigger] kids.contains(c) implies old_kids.contains(
                    c,
                ) || c == request.window by {
                    let j = choose|j: int| 0 <= j < kids.len() && kids[j] == c;
                    if j < old_kids.len() {
                        assert(old_kids[j] == c);
                    }
                }
            }
            assert forall|c: ResourceId| #[trigger] kids.contains(c) implies t1.windows.contains_key(
                c.0,
            ) && t1.windows[c.0].parent.0 == k by {
                if old_kids.contains(c) {
                    assert(t.windows[k].children.contains(c));
                    assert(t.windows.contains_key(c.0));
                }
            }
        }
    }
}

/// Destroying a window keeps everything under its own identifier, and children
/// and parents matched.
pub proof fn lemma_destroy_window_keeps_matches(t: ResourceTableView, id: ResourceId)
    requires
        t.windows.dom().finite(),
        ids_match(t),
    ensures
        ids_match(t.destroy_window(id)),
        children_match(t) ==> children_match(t.destroy_window(id)),
{
    let t1 = t.destroy_window(id);
    let gone = resources::destroyed(t.windows, seq![id]).1;
    lemma_destroyed_is_what_is_reachable(t.windows, seq![id]);
    assert(ids_match(t1)) by {
        assert forall|k: u32| #[trigger] t1.windows.contains_key(k) implies t1.windows[k].id.0
            == k by {
            assert(t.windows.contains_key(k));
        }
    }
    if children_match(t) {
        assert forall|k: u32| #[trigger] t1.windows.contains_key(k) implies {
            &&& t1.windows[k].children.no_duplicates()
            &&& forall|c: ResourceId| #[trigger]
                t1.windows[k].children.contains(c) ==> t1.windows.contains_key(c.0)
                    && t1.windows[c.0].parent.0 == k
        } by {
            assert(t.windows.contains_key(k));
            let kids = t.windows[k].children;
            let keep = stays_listed(t.windows, gone, k);
            filters::lemma_filter_no_duplicates(kids, keep);
            assert forall|c: ResourceId| #[trigger]
                t1.windows[k].children.contains(c) implies t1.windows.contains_key(c.0)
                && t1.windows[c.0].parent.0 == k by {
                filters::lemma_filter_keeps(kids, keep, c);
                assert(kids.contains(c));
                assert(t.windows[c.0].parent.0 == k);
                assert(!gone.contains(c));
                assert(ResourceId(c.0) == c);
                assert(t1.windows.contains_key(c.0));
            }
        }
    }
}

/// A change of a window that leaves its place in the tree alone.
proof fn lemma_update_window_keeps_matches(
    t: ResourceTableView,
    id: ResourceId,
    f: spec_fn(WindowView) -> WindowView,
)
    requires
        ids_match(t),
        forall|w: WindowView|
            (#[trigger] f(w)).id == w.id && f(w).parent == w.parent && f(w).children
                == w.children,
    ensures
        ids_match(t.update_window(id, f)),
        children_match(t) ==> children_match(t.update_window(id, f)),
{
    let t1 = t.update_window(id, f);
    if children_match(t) {
        assert forall|k: u32| #[trigger] t1.windows.contains_key(k) implies {
            &&& t1.windows[k].children.no_duplicates()
            &&& forall|c: ResourceId| #[trigger]
                t1.windows[k].children.contains(c) ==> t1.windows.contains_key(c.0)
                    && t1.windows[c.0].parent.0 == k
        } by {
            assert(t.windows.contains_key(k));
            assert forall|c: ResourceId| #[trigger]
                t1.windows[k].children.contains(c) implies t1.windows.contains_key(c.0)
                && t1.windows[c.0].parent.0 == k by {
                assert(t.windows[k].children.contains(c));
            }
        }
    }
}

/// Changing attributes, configuring, mapping, unmapping and changing properties
/// keep everything under its own identifier, and children and parents matched.
pub proof fn lemma_window_requests_keep_matches(
    t: ResourceTableView,
    attributes: ChangeWindowAttributesRequest,
    geometry: ConfigureWindowRequest,
    id: ResourceId,
    atom: AtomId,
    value: PropertyValueView,
)
    requires
        ids_match(t),
        children_match(t),
    ensures
        ids_match(t.update_window(id, |w: WindowView| w.with_attributes(attributes))),
        children_match(t.update_window(id, |w: WindowView| w.with_attributes(attributes))),
        ids_match(t.update_window(id, |w: WindowView| w.configured(geometry))),
        children_match(t.update_window(id, |w: WindowView| w.configured(geometry))),
        ids_match(
            t.update_window(
                id,
                |w: WindowView| WindowView { map_state: MapState::Viewable, ..w },
            ),
        ),
        children_match(
            t.update_window(
                id,
                |w: WindowView| WindowView { map_state: MapState::Viewable, ..w },
            ),
        ),
        ids_match(t.unmap_window(id)),
        children_match(t.unmap_window(id)),
        ids_match(t.set_property(id, atom, value)),
        children_match(t.set_property(id, atom, value)),
        ids_match(t.delete_property(id, atom)),
        children_match(t.delete_property(id, atom)),
{
    lemma_update_window_keeps_matches(t, id, |w: WindowView| w.with_attributes(attributes));
    lemma_update_window_keeps_matches(t, id, |w: WindowView| w.configured(geometry));
    lemma_update_window_keeps_matches(
        t,
        id,
        |w: WindowView| WindowView { map_state: MapState::Viewable, ..w },
    );
    lemma_update_window_keeps_matches(
        t,
        id,
        |w: WindowView| WindowView { map_state: MapState::Unmapped, ..w },
    );
    lemma_update_window_keeps_matches(
        t,
        id,
        |w: WindowView| WindowView { properties: w.properties.insert(atom.0, value), ..w },
    );
    lemma_update_window_keeps_matches(
        t,
        id,
        |w: WindowView| WindowView { properties: w.properties.remove(atom.0), ..w },
    );
    assert(t.unmap_window(id) == t || t.unmap_window(id) =~= t.update_window(
        id,
        |w: WindowView| WindowView { map_state: MapState::Unmapped, ..w },
    ));
    assert(t.set_property(id, atom, value) =~= t.update_window(
        id,
        |w: WindowView| WindowView { properties: w.properties.insert(atom.0, value), ..w },
    ));
    assert(t.delete_property(id, atom) =~= t.update_window(
        id,
        |w: WindowView| WindowView { properties: w.properties.remove(atom.0), ..w },
    ));
}

/// A window unmapped from any state reports the change once: unmapping it
/// again changes nothing and reports nothing.
pub proof fn lemma_unmap_reports_once(t: ResourceTableView, id: ResourceId)
    ensures
        !t.unmap_window(id).unmaps(id),
        t.unmap_window(id).unmap_window(id) == t.unmap_window(id),
        t.unmaps(id) ==> t.unmap_window(id).windows[id.0].map_state == MapState::Unmapped,
        !t.unmaps(id) ==> t.unmap_window(id) == t,
{
    let t1 = t.unmap_window(id);
    assert(t1.unmap_window(id) =~= t1);
    assert(!t.unmaps(id) ==> t1 =~= t);
}

/// A window reads back as created, and its parent lists it last.
pub proof fn lemma_created_window_is_found(
    t: ResourceTableView,
    owner: ClientId,
    request: CreateWindowRequest,
)
    ensures
        t.create_window(owner, request).windows.contains_key(request.window.0),
        t.create_window(owner, request).windows[request.window.0] == WindowView::created(
            owner,
            request,
        ),
        request.window != request.parent ==> t.create_window(
            owner,
            request,
        ).windows[request.parent.0].children.last() == request.window,
{
}

/// A window that is created below one that is there, and destroyed again, leaves
/// everything as it was.
pub proof fn lemma_destroy_undoes_create(
    t: ResourceTableView,
    owner: ClientId,
    request: CreateWindowRequest,
)
    requires
        t.windows.dom().finite(),
        !t.windows.contains_key(request.window.0),
        t.windows.contains_key(request.parent.0),
        !t.windows[request.parent.0].children.contains(request.window),
    ensures
        t.create_window(owner, request).destroy_window(request.window) == t,
        resources::destroyed(
            t.create_window(owner, request).windows,
            seq![request.window],
        ).1 == seq![request.window],
{
    let t1 = t.create_window(owner, request);
    let id = request.window;
    let p = request.parent.0;
    let none = Seq::<ResourceId>::empty();
    assert(seq![id].drop_first() =~= none);
    assert(t1.windows.dom() =~= t.windows.dom().insert(id.0));
    assert(t1.windows[id.0].children + none =~= none);
    resources::lemma_detached_shrinks(t1.windows, id);
    let ws1 = resources::detached(t1.windows, id);
    assert(resources::destroyed(ws1, none) == (ws1, none));
    let kids = t.windows[p].children;
    assert(kids.push(id).filter(resources::other_than(id)) == kids) by {
        reveal(Seq::filter);
        assert(kids.push(id).drop_last() =~= kids);
        assert forall|i: int| 0 <= i < kids.len() implies resources::other_than(id)(
            #[trigger] kids[i],
        ) by {
            assert(kids.contains(kids[i]));
        }
        filters::lemma_filter_all(kids, resources::other_than(id));
    }
    assert(ws1[p] =~= t.windows[p]);
    assert(ws1 =~= t.windows);
    assert(seq![id] + none =~= seq![id]);
}

/// A property reads back as set, once deleted it is gone, and neither touches
/// any other property.
pub proof fn lemma_property_read_back(
    t: ResourceTableView,
    w: ResourceId,
    atom: AtomId,
    value: PropertyValueView,
)
    ensures
        t.windows.contains_key(w.0) ==> t.set_property(w, atom, value).property(w, atom) == Some(
            value,
        ),
        t.delete_property(w, atom).property(w, atom) is None,
        forall|v: ResourceId, a: AtomId|
            (v, a) != (w, atom) ==> (#[trigger] t.set_property(w, atom, value).property(v, a))
                == t.property(v, a) && t.delete_property(w, atom).property(v, a) == t.property(
                v,
                a,
            ),
{
    assert forall|v: ResourceId, a: AtomId| (v, a) != (w, atom) implies (
    #[trigger] t.set_property(w, atom, value).property(v, a)) == t.property(v, a)
        && t.delete_property(w, atom).property(v, a) == t.property(v, a) by {
        if v.0 == w.0 {
            assert(v == w);
            assert(a.0 != atom.0) by {
                if a.0 == atom.0 {
                    assert(a == atom);
                }
            }
        }
    }
}

/// Once the resources of a client are removed, none is left that it owns, and
/// those of everyone else are as they were.
pub proof fn lemma_removal_spares_other_clients(t: ResourceTableView, client: ClientId)
    ensures
        t.without_resources_of(client).windows == t.windows,
        forall|k: u32| #[trigger]
            t.without_resources_of(client).pixmaps.contains_key(k) <==> t.pixmaps.contains_key(k)
                && t.pixmaps[k].owner != client,
        forall|k: u32| #[trigger]
            t.without_resources_of(client).gcs.contains_key(k) <==> t.gcs.contains_key(k)
                && t.gcs[k].owner != client,
        forall|k: u32| #[trigger]
            t.without_resources_of(client).fonts.contains_key(k) <==> t.fonts.contains_key(k)
                && t.fonts[k].owner != client,
        forall|k: u32| #[trigger]
            t.without_resources_of(client).cursors.contains_key(k) <==> t.cursors.contains_key(k)
                && t.cursors[k].owner != client,
        ids_match(t) ==> ids_match(t.without_resources_of(client)),
        t.without_resources_of(client).without_resources_of(client) == t.without_resources_of(
            client,
        ),
{
    let t1 = t.without_resources_of(client);
    assert(t1.without_resources_of(client) =~= t1);
}

/// Whether `depth` falls from each window of `client` to its parent, where the
/// client owns that too and the parent lists the window.
pub open spec fn owned_windows_are_listed(
    t: ResourceTableView,
    client: ClientId,
    depth: spec_fn(u32) -> nat,
) -> bool {
    forall|k: u32|
        {
            let p = (#[trigger] t.windows[k]).parent.0;
            t.windows.contains_key(k) && t.windows[k].owner == client && t.windows.contains_key(p)
                && t.windows[p].owner == client ==> depth(p) < depth(k)
                && t.windows[p].children.contains(ResourceId(k))
        }
}

/// Every window of a client hangs below one of its top-level windows, so that
/// destroying those destroys it too.
pub proof fn lemma_owned_windows_hang_below_roots(
    t: ResourceTableView,
    client: ClientId,
    depth: spec_fn(u32) -> nat,
    roots: Seq<ResourceId>,
    id: ResourceId,
)
    requires
        owned_windows_are_listed(t, client, depth),
        forall|r: ResourceId| #[trigger] roots.contains(r) <==> t.is_owned_root(client, r),
        t.windows.contains_key(id.0),
        t.windows[id.0].owner == client,
    ensures
        reachable(t.windows, roots, id),
        t.windows.dom().finite() ==> resources::destroyed(t.windows, roots).1.contains(id),
    decreases depth(id.0),
{
    let ws = t.windows;
    let w = ws[id.0];
    let parent = w.parent;
    if t.is_owned_root(client, id) {
        let p = seq![id];
        assert(roots.contains(id));
        assert(is_path(ws, p) && roots.contains(p[0]) && p.last() == id);
    } else {
        assert(ResourceId(id.0) == id);
        lemma_owned_windows_hang_below_roots(t, client, depth, roots, parent);
        let q = choose|q: Seq<ResourceId>| #[trigger]
            is_path(ws, q) && roots.contains(q[0]) && q.last() == parent;
        let p = q.push(id);
        assert(is_path(ws, p)) by {
            assert forall|i: int, j: int|
                0 <= i && i + 1 == j && j < p.len() implies ws[(#[trigger] p[i]).0].children.contains(
                #[trigger] p[j],
            ) by {
                if j < q.len() {
                    assert(p[i] == q[i] && p[j] == q[j]);
                } else {
                    assert(p[i] == q.last());
                }
            }
        }
        assert(p[0] == q[0] && p.last() == id);
    }
    if ws.dom().finite() {
        lemma_destroyed_is_what_is_reachable(ws, roots);
    }
}

/// What was asked for, or else what was there.
pub open spec fn is_asked_or_kept<T>(asked: Option<T>, before: T, after: T) -> bool {
    match asked {
        Some(v) => after == v,
        None => after == before,
    }
}

/// A new window is unmapped and has no children, properties or cursor. It lies
/// where the request says and has the size, border and depth that it says; its
/// background is white and it does not override redirection unless the request
/// says so. No other window but the parent is touched, and of the parent only
/// its list of children.
pub proof fn lemma_created_window_is_as_requested(
    t: ResourceTableView,
    owner: ClientId,
    r: CreateWindowRequest,
    other: u32,
)
    ensures
        ({
            let t1 = t.create_window(owner, r);
            let w = t1.windows[r.window.0];
            &&& t1.windows.contains_key(r.window.0)
            &&& w.id == r.window && w.parent == r.parent && w.owner == owner
            &&& w.x == r.x && w.y == r.y
            &&& w.width == r.width && w.height == r.height
            &&& w.border_width == r.border_width && w.depth == r.depth
            &&& w.visual.0 == if r.visual.0 != 0 {
                r.visual.0
            } else {
                0x102
            }
            &&& w.class.as_protocol() == r.class
            &&& w.map_state == MapState::Unmapped
            &&& is_asked_or_kept(r.background_pixel, 0x00ff_ffff, w.background_pixel)
            &&& is_asked_or_kept(r.override_redirect, false, w.override_redirect)
            &&& w.cursor is None
            &&& w.children.len() == 0
            &&& forall|a: u32| !#[trigger] w.properties.contains_key(a)
            &&& other != r.window.0 && other != r.parent.0 ==> {
                &&& t1.windows.contains_key(other) == t.windows.contains_key(other)
                &&& t1.windows[other] == t.windows[other]
            }
            &&& r.window != r.parent && t.windows.contains_key(r.parent.0) ==> {
                let (before, after) = (t.windows[r.parent.0], t1.windows[r.parent.0]);
                &&& t1.windows.contains_key(r.parent.0)
                &&& after == (WindowView { children: after.children, ..before })
                &&& after.children.len() == before.children.len() + 1
                &&& after.children.drop_last() == before.children
                &&& after.children.last() == r.window
            }
            &&& t1.pixmaps == t.pixmaps && t1.gcs == t.gcs && t1.fonts == t.fonts && t1.cursors
                == t.cursors
        }),
{
    let before = t.windows[r.parent.0];
    assert(before.children.push(r.window).drop_last() =~= before.children);
}

/// A parent that was not there when its first child was created is filed as a
/// window of one pixel below the root, unmapped, with that child alone.
pub proof fn lemma_missing_parent_is_filled_in(
    t: ResourceTableView,
    owner: ClientId,
    r: CreateWindowRequest,
)
    requires
        r.window != r.parent,
        !t.windows.contains_key(r.parent.0),
    ensures
        ({
            let p = t.create_window(owner, r).windows[r.parent.0];
            &&& t.create_window(owner, r).windows.contains_key(r.parent.0)
            &&& p.id == r.parent && p.parent.0 == 0x100 && p.owner.0 == 0
            &&& (p.x, p.y, p.width, p.height, p.border_width) == (0i16, 0i16, 1u16, 1u16, 0u16)
            &&& p.depth == 24 && p.visual.0 == 0x102
            &&& p.map_state == MapState::Unmapped
            &&& p.children == seq![r.window]
        }),
{
    let p = t.create_window(owner, r).windows[r.parent.0];
    assert(p.children =~= seq![r.window]);
}

/// Configuring a window sets what the request names and keeps everything else;
/// attributes likewise. Other windows are not touched.
pub proof fn lemma_requests_change_what_they_name(
    t: ResourceTableView,
    c: ConfigureWindowRequest,
    a: ChangeWindowAttributesRequest,
    other: u32,
)
    requires
        t.windows.contains_key(c.window.0),
        t.windows.contains_key(a.window.0),
    ensures
        ({
            let t1 = t.update_window(c.window, |w: WindowView| w.configured(c));
            let (before, after) = (t.windows[c.window.0], t1.windows[c.window.0]);
            &&& is_asked_or_kept(c.x, before.x, after.x)
            &&& is_asked_or_kept(c.y, before.y, after.y)
            &&& is_asked_or_kept(c.width, before.width, after.width)
            &&& is_asked_or_kept(c.height, before.height, after.height)
            &&& is_asked_or_kept(c.border_width, before.border_width, after.border_width)
            &&& after == (WindowView {
                x: after.x,
                y: after.y,
                width: after.width,
                height: after.height,
                border_width: after.border_width,
                ..before
            })
            &&& other != c.window.0 ==> t1.windows[other] == t.windows[other]
            &&& t1.windows.dom() == t.windows.dom()
        }),
        ({
            let t1 = t.update_window(a.window, |w: WindowView| w.with_attributes(a));
            let (before, after) = (t.windows[a.window.0], t1.windows[a.window.0]);
            &&& is_asked_or_kept(a.background_pixel, before.background_pixel, after.background_pixel)
            &&& a.cursor is Some ==> after.cursor == a.cursor
            &&& a.cursor is None ==> after.cursor == before.cursor
            &&& after == (WindowView {
                background_pixel: after.background_pixel,
                cursor: after.cursor,
                ..before
            })
            &&& other != a.window.0 ==> t1.windows[other] == t.windows[other]
            &&& t1.windows.dom() == t.windows.dom()
        }),
{
    let t1 = t.update_window(c.window, |w: WindowView| w.configured(c));
    assert(t1.windows.dom() =~= t.windows.dom());
    let t2 = t.update_window(a.window, |w: WindowView| w.with_attributes(a));
    assert(t2.windows.dom() =~= t.windows.dom());
}

/// A window is unmapped, unless it is the root, in its map state alone; the
/// change is reported if and only if it was mapped before.
pub proof fn lemma_unmapping_changes_the_map_state_alone(
    t: ResourceTableView,
    id: ResourceId,
    other: u32,
)
    ensures
        ({
            let t1 = t.unmap_window(id);
            let w = t.windows[id.0];
            &&& t1.windows.dom() == t.windows.dom()
            &&& t.windows.contains_key(id.0) && id.0 != 0x100 ==> t1.windows[id.0] == (WindowView {
                map_state: MapState::Unmapped,
                ..w
            })
            &&& other != id.0 || id.0 == 0x100 ==> t1.windows[other] == t.windows[other]
            &&& t.unmaps(id) <==> t.windows.contains_key(id.0) && id.0 != 0x100 && (w.map_state
                == MapState::Viewable || w.map_state == MapState::Unviewable)
        }),
{
    assert(t.unmap_window(id).windows.dom() =~= t.windows.dom());
}

/// A new graphics context has what the request names, black on white with thin
/// lines otherwise; a change sets what it names and keeps the rest.
pub proof fn lemma_contexts_are_as_requested(
    t: ResourceTableView,
    owner: ClientId,
    r: CreateGcRequest,
    c: GcChange,
    other: u32,
)
    ensures
        ({
            let g = Gc::created(owner, r);
            &&& g.id == r.gc && g.drawable == r.drawable && g.owner == owner
            &&& is_asked_or_kept(r.foreground, 0, g.foreground)
            &&& is_asked_or_kept(r.background, 0x00ff_ffff, g.background)
            &&& is_asked_or_kept(r.line_width, 0, g.line_width)
            &&& g.font == r.font
        }),
        ({
            let t1 = t.change_gc(c);
            let after = t1.gcs[c.gc.0];
            let before = t.gcs[c.gc.0];
            &&& t1.gcs.contains_key(c.gc.0)
            &&& t.gcs.contains_key(c.gc.0) ==> {
                &&& is_asked_or_kept(c.foreground, before.foreground, after.foreground)
                &&& is_asked_or_kept(c.background, before.background, after.background)
                &&& is_asked_or_kept(c.line_width, before.line_width, after.line_width)
                &&& c.font is Some ==> after.font == c.font
                &&& c.font is None ==> after.font == before.font
                &&& (after.id, after.drawable, after.owner) == (
                    before.id,
                    before.drawable,
                    before.owner,
                )
            }
            &&& !t.gcs.contains_key(c.gc.0) ==> {
                &&& is_asked_or_kept(c.foreground, 0, after.foreground)
                &&& is_asked_or_kept(c.background, 0x00ff_ffff, after.background)
                &&& is_asked_or_kept(c.line_width, 0, after.line_width)
                &&& after.font == c.font
                &&& after.id == c.gc && after.drawable.0 == 0 && after.owner.0 == 0
            }
            &&& other != c.gc.0 ==> {
                &&& t1.gcs.contains_key(other) == t.gcs.contains_key(other)
                &&& t1.gcs[other] == t.gcs[other]
            }
            &&& t1 == (ResourceTableView { gcs: t1.gcs, ..t })
        }),
{
}

/// A FONTABLE that is a font names that font; one that is a graphics context names
/// the font of the context, if that is still there. Nothing else names a font.
pub proof fn lemma_fontable_is_a_font_or_a_context(t: ResourceTableView, id: ResourceId)
    ensures
        t.fonts.contains_key(id.0) ==> t.fontable(id) == Some(t.fonts[id.0]),
        !t.fonts.contains_key(id.0) && !t.gcs.contains_key(id.0) ==> t.fontable(id) is None,
        !t.fonts.contains_key(id.0) && t.gcs.contains_key(id.0) ==> match t.gcs[id.0].font {
            Some(f) => t.fontable(id) == if t.fonts.contains_key(f.0) {
                Some(t.fonts[f.0])
            } else {
                None
            },
            None => t.fontable(id) is None,
        },
        t.any_resource_exists(id) <==> t.windows.dom().union(t.pixmaps.dom()).union(
            t.gcs.dom(),
        ).union(t.fonts.dom()).union(t.cursors.dom()).contains(id.0),
{
}

/// A fresh server has the root window alone: 800 by 600 pixels of depth 24, mapped,
/// white, its own parent and owned by the server.
pub proof fn lemma_fresh_server_has_the_root_alone()
    ensures
        ({
            let t = ResourceTableView::initial();
            let w = t.windows[0x100];
            &&& t.windows.dom() == set![0x100u32]
            &&& w.id.0 == 0x100 && w.parent.0 == 0x100 && w.owner.0 == 0
            &&& (w.x, w.y, w.width, w.height, w.border_width) == (0i16, 0i16, 800u16, 600u16, 0u16)
            &&& w.depth == 24 && w.visual.0 == 0x102 && w.class == WindowClass::InputOutput
            &&& w.map_state == MapState::Viewable
            &&& w.background_pixel == 0x00ff_ffff
            &&& w.children.len() == 0 && w.cursor is None && !w.override_redirect
            &&& t.pixmaps.dom() == Set::<u32>::empty() && t.gcs.dom() == Set::<u32>::empty()
            &&& t.fonts.dom() == Set::<u32>::empty() && t.cursors.dom() == Set::<u32>::empty()
        }),
{
    let t = ResourceTableView::initial();
    assert(t.windows.dom() =~= set![0x100u32]);
}

/// What others own stays as it was, to the last field, when the resources of a client go.
pub proof fn lemma_removal_keeps_the_rest(t: ResourceTableView, client: ClientId, k: u32)
    ensures
        ({
            let t1 = t.without_resources_of(client);
            &&& t1.pixmaps.contains_key(k) ==> t1.pixmaps[k] == t.pixmaps[k]
            &&& t1.gcs.contains_key(k) ==> t1.gcs[k] == t.gcs[k]
            &&& t1.fonts.contains_key(k) ==> t1.fonts[k] == t.fonts[k]
            &&& t1.cursors.contains_key(k) ==> t1.cursors[k] == t.cursors[k]
        }),
{
}

/// The list of fonts that go with a client has as many entries as the client has fonts,
/// and names each of them by its identifier on the host.
pub proof fn lemma_fonts_of_a_client_are_listed(
    xids: Seq<u32>,
    fonts: Map<u32, FontView>,
    client: ClientId,
    k: u32,
    i: int,
)
    requires
        resources::is_host_xids_of(xids, fonts, client),
    ensures
        fonts.contains_key(k) && fonts[k].owner == client ==> xids.contains(fonts[k].host_xid),
        0 <= i < xids.len() ==> exists|f: u32| #[trigger]
            fonts.contains_key(f) && fonts[f].owner == client && fonts[f].host_xid == xids[i],
        fonts.dom().finite() ==> xids.len() == fonts.dom().filter(
            |f: u32| fonts[f].owner == client,
        ).len(),
{
    let keys = choose|keys: Seq<u32>|
        {
            &&& #[trigger] keys.no_duplicates()
            &&& forall|k: u32| #[trigger]
                keys.contains(k) <==> fonts.contains_key(k) && fonts[k].owner == client
            &&& xids == keys.map_values(|k: u32| fonts[k].host_xid)
        };
    if fonts.contains_key(k) && fonts[k].owner == client {
        assert(keys.contains(k));
        let j = choose|j: int| 0 <= j < keys.len() && keys[j] == k;
        assert(xids[j] == fonts[k].host_xid);
    }
    if 0 <= i < xids.len() {
        assert(keys.contains(keys[i]));
        assert(fonts.contains_key(keys[i]));
    }
    if fonts.dom().finite() {
        let owned = fonts.dom().filter(|f: u32| fonts[f].owner == client);
        keys.unique_seq_to_set();
        assert(keys.to_set() =~= owned) by {
            assert forall|f: u32| keys.to_set().contains(f) <==> owned.contains(f) by {
                assert(keys.to_set().contains(f) <==> keys.contains(f));
            }
        }
    }
}

/// A window hangs below others of its client unless its parent is another's or gone.
pub proof fn lemma_owned_roots_hang_below_others(
    t: ResourceTableView,
    client: ClientId,
    id: ResourceId,
)
    requires
        t.windows.contains_key(id.0),
        t.windows[id.0].owner == client,
    ensures
        ({
            let parent = t.windows[id.0].parent.0;
            t.is_owned_root(client, id) <==> !t.windows.contains_key(parent)
                || t.windows[parent].owner != client
        }),
        forall|other: ClientId| other != client ==> !t.is_owned_root(other, id),
{
}

/// Window classes and map states have their values of the protocol.
pub proof fn lemma_protocol_values(value: u16)
    ensures
        WindowClass::of_protocol(0) == WindowClass::CopyFromParent,
        WindowClass::of_protocol(1) == WindowClass::InputOutput,
        WindowClass::of_protocol(2) == WindowClass::InputOnly,
        value > 2 ==> WindowClass::of_protocol(value) == WindowClass::Other(value),
        MapState::Unmapped.as_protocol() == 0,
        MapState::Unviewable.as_protocol() == 1,
        MapState::Viewable.as_protocol() == 2,
{
}

/// Properties of a window that does not exist are neither set nor deleted, and setting one
/// changes nothing of a window but its properties.
pub proof fn lemma_properties_belong_to_windows(
    t: ResourceTableView,
    w: ResourceId,
    atom: AtomId,
    value: PropertyValueView,
)
    ensures
        !t.windows.contains_key(w.0) ==> {
            &&& t.set_property(w, atom, value) == t
            &&& t.delete_property(w, atom) == t
            &&& t.property(w, atom) is None
        },
        t.windows.contains_key(w.0) ==> {
            let set = t.set_property(w, atom, value);
            let gone = t.delete_property(w, atom);
            &&& set.windows[w.0] == (WindowView {
                properties: t.windows[w.0].properties.insert(atom.0, value),
                ..t.windows[w.0]
            })
            &&& gone.windows[w.0] == (WindowView {
                properties: t.windows[w.0].properties.remove(atom.0),
                ..t.windows[w.0]
            })
            &&& t.property(w, atom) is Some <==> t.windows[w.0].properties.contains_key(atom.0)
        },
{
}

} // verus!
