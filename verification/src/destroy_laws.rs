//! In which order windows are destroyed.

use vstd::prelude::*;

use crate::filters;
use crate::protocol::ResourceId;
use crate::resource_laws;
use crate::resources;
use crate::resources::WindowView;

verus! {

/// Whether windows form trees: children go down in `rank`, none is listed twice by a
/// window, and each has the window that lists it for its parent.
pub open spec fn is_forest(ws: Map<u32, WindowView>, rank: spec_fn(u32) -> nat) -> bool {
    forall|id: u32| #[trigger]
        ws.contains_key(id) ==> {
            &&& ws[id].children.no_duplicates()
            &&& forall|c: ResourceId| #[trigger]
                ws[id].children.contains(c) ==> rank(c.0) < rank(id) && (ws.contains_key(c.0)
                    ==> ws[c.0].parent.0 == id)
        }
}

/// Whether `x` comes before `y` in `s`, wherever the two are.
pub open spec fn comes_before(s: Seq<ResourceId>, x: ResourceId, y: ResourceId) -> bool {
    forall|a: int, b: int|
        #![trigger s[a], s[b]]
        0 <= a < s.len() && 0 <= b < s.len() && s[a] == x && s[b] == y ==> a < b
}

/// Whether no window of `ws` is the parent of a window of `work`.
spec fn is_loose(ws: Map<u32, WindowView>, work: Seq<ResourceId>) -> bool {
    forall|w: ResourceId| #[trigger]
        work.contains(w) && ws.contains_key(w.0) ==> !ws.contains_key(ws[w.0].parent.0)
            || ws[w.0].parent == w
}

/// A path keeps going down.
proof fn lemma_path_ranks(
    ws: Map<u32, WindowView>,
    rank: spec_fn(u32) -> nat,
    p: Seq<ResourceId>,
    i: int,
)
    requires
        is_forest(ws, rank),
        resource_laws::is_path(ws, p),
        0 <= i < p.len(),
    ensures
        rank(p[i].0) + i <= rank(p[0].0),
    decreases i,
{
    if i > 0 {
        lemma_path_ranks(ws, rank, p, i - 1);
        assert(ws[p[i - 1].0].children.contains(p[i]));
        assert(ws.contains_key(p[i - 1].0));
    }
}

/// A path that does not go through a window is there once the window is detached.
proof fn lemma_path_survives(ws: Map<u32, WindowView>, id: ResourceId, p: Seq<ResourceId>)
    requires
        ws.contains_key(id.0),
        resource_laws::is_path(ws, p),
        forall|i: int| 0 <= i < p.len() ==> #[trigger] p[i] != id,
    ensures
        resource_laws::is_path(resources::detached(ws, id), p),
{
    let ws1 = resources::detached(ws, id);
    assert forall|i: int| 0 <= i < p.len() implies ws1.contains_key((#[trigger] p[i]).0) by {
        assert(p[i] != id);
        assert(p[i].0 != id.0) by {
            if p[i].0 == id.0 {
                assert(p[i] == id);
            }
        }
    }
    assert forall|i: int, j: int| 0 <= i && i + 1 == j && j < p.len() implies ws1[(
    #[trigger] p[i]).0].children.contains(#[trigger] p[j]) by {
        let before = ws[p[i].0].children;
        assert(before.contains(p[j]));
        filters::lemma_filter_keeps(before, resources::other_than(id), p[j]);
        assert(p[i].0 != id.0) by {
            if p[i].0 == id.0 {
                assert(p[i] == id);
            }
        }
    }
}

proof fn lemma_detached_is_forest(
    ws: Map<u32, WindowView>,
    rank: spec_fn(u32) -> nat,
    id: ResourceId,
)
    requires
        is_forest(ws, rank),
        ws.contains_key(id.0),
    ensures
        is_forest(resources::detached(ws, id), rank),
{
    let ws1 = resources::detached(ws, id);
    assert forall|k: u32| #[trigger] ws1.contains_key(k) implies {
        &&& ws1[k].children.no_duplicates()
        &&& forall|c: ResourceId| #[trigger]
            ws1[k].children.contains(c) ==> rank(c.0) < rank(k) && (ws1.contains_key(c.0)
                ==> ws1[c.0].parent.0 == k)
    } by {
        assert(ws.contains_key(k));
        let kids = ws[k].children;
        filters::lemma_filter_no_duplicates(kids, resources::other_than(id));
        assert forall|c: ResourceId| #[trigger] ws1[k].children.contains(c) implies rank(c.0) < rank(
            k,
        ) && (ws1.contains_key(c.0) ==> ws1[c.0].parent.0 == k) by {
            filters::lemma_filter_keeps(kids, resources::other_than(id), c);
            assert(kids.contains(c));
        }
    }
}

/// The lists of windows that do not list `id` stay as they are when it is detached.
proof fn lemma_other_lists_stay(ws: Map<u32, WindowView>, id: ResourceId, k: u32)
    requires
        ws.contains_key(id.0),
        ws.contains_key(k),
        k != id.0,
        !ws[k].children.contains(id),
    ensures
        resources::detached(ws, id)[k].children == ws[k].children,
{
    let kids = ws[k].children;
    assert forall|i: int| 0 <= i < kids.len() implies resources::other_than(id)(
        #[trigger] kids[i],
    ) by {
        assert(kids.contains(kids[i]));
    }
    filters::lemma_filter_all(kids, resources::other_than(id));
}

/// Of a list of siblings, whatever is below an earlier one goes before a later one.
proof fn lemma_siblings_go_in_order(
    ws: Map<u32, WindowView>,
    rank: spec_fn(u32) -> nat,
    parent: u32,
    kids: Seq<ResourceId>,
    rest: Seq<ResourceId>,
    i: int,
    j: int,
    x: ResourceId,
)
    requires
        ws.dom().finite(),
        is_forest(ws, rank),
        !ws.contains_key(parent),
        kids.no_duplicates(),
        forall|c: ResourceId| #[trigger]
            kids.contains(c) && ws.contains_key(c.0) ==> ws[c.0].parent.0 == parent,
        0 <= i < j < kids.len(),
        resource_laws::reachable(ws, seq![kids[i]], x),
    ensures
        comes_before(resources::destroyed(ws, kids + rest).1, x, kids[j]),
{
    let a = kids.take(j);
    let b = kids.skip(j) + rest;
    assert(kids + rest =~= a + b);
    resources::lemma_destroyed_append(ws, a, b);
    let all = resources::destroyed(ws, kids + rest).1;
    let first = resources::destroyed(ws, a).1;
    resource_laws::lemma_destroyed_is_what_is_reachable(ws, kids + rest);
    resource_laws::lemma_destroyed_is_what_is_reachable(ws, a);
    assert(first.contains(x)) by {
        let p = choose|p: Seq<ResourceId>| #[trigger]
            resource_laws::is_path(ws, p) && seq![kids[i]].contains(p[0]) && p.last() == x;
        assert(p[0] == kids[i]);
        assert(a[i] == kids[i]);
        assert(a.contains(p[0]));
        assert(resource_laws::reachable(ws, a, x));
    }
    assert(!first.contains(kids[j])) by {
        if first.contains(kids[j]) {
            assert(resource_laws::reachable(ws, a, kids[j]));
            let p = choose|p: Seq<ResourceId>| #[trigger]
                resource_laws::is_path(ws, p) && a.contains(p[0]) && p.last() == kids[j];
            if p.len() == 1 {
                let m = choose|m: int| 0 <= m < a.len() && a[m] == p[0];
                assert(kids[m] == kids[j]);
            } else {
                let n = p.len() - 2;
                assert(ws[p[n].0].children.contains(p[n + 1]));
                assert(ws.contains_key(p[n].0));
                assert(kids.contains(kids[j]));
                assert(ws.contains_key(p[n + 1].0));
            }
        }
    }
    let k = choose|k: int| 0 <= k < first.len() && first[k] == x;
    assert forall|u: int, v: int|
        #![trigger all[u], all[v]]
        0 <= u < all.len() && 0 <= v < all.len() && all[u] == x && all[v] == kids[j] implies u
        < v by {
        assert(all[k] == first[k]);
        assert(u == k);
        if v < first.len() {
            assert(first[v] == all[v]);
            assert(first.contains(first[v]));
        }
    }
}

/// What is claimed of one window `p` that goes: it goes before what is below it, and what
/// is below its child `i` goes before its child `j`.
spec fn goes_in_order(
    ws: Map<u32, WindowView>,
    gone: Seq<ResourceId>,
    p: ResourceId,
    i: int,
    j: int,
    x: ResourceId,
) -> bool {
    &&& comes_before(gone, p, x)
    &&& i < j < ws[p.0].children.len() ==> comes_before(gone, x, ws[p.0].children[j])
}

proof fn lemma_loose_windows_go_in_order(
    ws: Map<u32, WindowView>,
    rank: spec_fn(u32) -> nat,
    work: Seq<ResourceId>,
    p: ResourceId,
    i: int,
    j: int,
    x: ResourceId,
)
    requires
        ws.dom().finite(),
        is_forest(ws, rank),
        is_loose(ws, work),
        resources::destroyed(ws, work).1.contains(p),
        ws.contains_key(p.0),
        0 <= i < ws[p.0].children.len(),
        resource_laws::reachable(ws, seq![ws[p.0].children[i]], x),
    ensures
        goes_in_order(ws, resources::destroyed(ws, work).1, p, i, j, x),
    decreases ws.dom().len(), work.len(),
{
    if work.len() > 0 {
        let id = work[0];
        let rest = work.drop_first();
        assert(work.contains(id));
        if ws.contains_key(id.0) {
            lemma_first_goes_in_order(ws, rank, id, rest, p, i, j, x);
            if p != id {
                let ws1 = resources::detached(ws, id);
                let kids = ws[id.0].children;
                resources::lemma_detached_shrinks(ws, id);
                lemma_detached_is_forest(ws, rank, id);
                lemma_after_first(ws, rank, id, rest, p, i, x);
                assert(is_loose(ws1, kids + rest)) by {
                    assert forall|w: ResourceId| #[trigger]
                        (kids + rest).contains(w) && ws1.contains_key(w.0) implies !ws1.contains_key(
                        ws1[w.0].parent.0,
                    ) || ws1[w.0].parent == w by {
                        let m = choose|m: int| 0 <= m < (kids + rest).len() && (kids + rest)[m] == w;
                        if m < kids.len() {
                            assert(kids.contains(kids[m]));
                        } else {
                            assert(work[m - kids.len() + 1] == w);
                            assert(work.contains(w));
                        }
                    }
                }
                lemma_loose_windows_go_in_order(ws1, rank, kids + rest, p, i, j, x);
                lemma_shifted(ws, ws1, id, resources::destroyed(ws1, kids + rest).1, p, i, j, x);
            }
        } else {
            assert(is_loose(ws, rest)) by {
                assert forall|w: ResourceId| #[trigger]
                    rest.contains(w) && ws.contains_key(w.0) implies !ws.contains_key(
                    ws[w.0].parent.0,
                ) || ws[w.0].parent == w by {
                    let m = choose|m: int| 0 <= m < rest.len() && rest[m] == w;
                    assert(work[m + 1] == w);
                    assert(work.contains(w));
                }
            }
            lemma_loose_windows_go_in_order(ws, rank, rest, p, i, j, x);
        }
    }
}

/// The first window of a list goes before all else, and what is below its children in
/// their order.
proof fn lemma_first_goes_in_order(
    ws: Map<u32, WindowView>,
    rank: spec_fn(u32) -> nat,
    id: ResourceId,
    rest: Seq<ResourceId>,
    p: ResourceId,
    i: int,
    j: int,
    x: ResourceId,
)
    requires
        ws.dom().finite(),
        is_forest(ws, rank),
        ws.contains_key(id.0),
        0 <= i < ws[p.0].children.len(),
        resource_laws::reachable(ws, seq![ws[p.0].children[i]], x),
    ensures
        p == id ==> goes_in_order(
            ws,
            seq![id] + resources::destroyed(resources::detached(ws, id), ws[id.0].children + rest).1,
            p,
            i,
            j,
            x,
        ),
{
    if p == id {
        let ws1 = resources::detached(ws, id);
        let kids = ws[id.0].children;
        let later = resources::destroyed(ws1, kids + rest).1;
        let gone = seq![id] + later;
        resources::lemma_detached_shrinks(ws, id);
        lemma_detached_is_forest(ws, rank, id);
        resource_laws::lemma_destroyed_is_what_is_reachable(ws1, kids + rest);
        let path = choose|q: Seq<ResourceId>| #[trigger]
            resource_laws::is_path(ws, q) && seq![kids[i]].contains(q[0]) && q.last() == x;
        assert(path[0] == kids[i]);
        assert(kids.contains(kids[i]));
        assert forall|m: int| 0 <= m < path.len() implies #[trigger] path[m] != id by {
            lemma_path_ranks(ws, rank, path, m);
        }
        lemma_path_survives(ws, id, path);
        assert(seq![kids[i]].contains(path[0]));
        assert(resource_laws::reachable(ws1, seq![kids[i]], x));
        assert(!later.contains(id)) by {
            if later.contains(id) {
                let q = choose|q: Seq<ResourceId>| #[trigger]
                    resource_laws::is_path(ws1, q) && (kids + rest).contains(q[0]) && q.last() == id;
                assert(ws1.contains_key(q[q.len() - 1].0));
            }
        }
        assert(comes_before(gone, id, x)) by {
            assert forall|u: int, v: int|
                #![trigger gone[u], gone[v]]
                0 <= u < gone.len() && 0 <= v < gone.len() && gone[u] == id && gone[v]
                    == x implies u < v by {
                if u > 0 {
                    assert(later[u - 1] == id);
                    assert(later.contains(later[u - 1]));
                }
                assert(path[path.len() - 1] != id);
            }
        }
        if i < j < kids.len() {
            assert forall|c: ResourceId| #[trigger]
                kids.contains(c) && ws1.contains_key(c.0) implies ws1[c.0].parent.0 == id.0 by {}
            lemma_siblings_go_in_order(ws1, rank, id.0, kids, rest, i, j, x);
            assert(kids.contains(kids[j]));
            assert forall|u: int, v: int|
                #![trigger gone[u], gone[v]]
                0 <= u < gone.len() && 0 <= v < gone.len() && gone[u] == x && gone[v]
                    == kids[j] implies u < v by {
                assert(path[path.len() - 1] != id);
                assert(u > 0 && later[u - 1] == x);
                assert(v > 0 && later[v - 1] == kids[j]);
            }
        }
    }
}

/// Once the first window is gone, the others are as they were, and so is what is below
/// them.
proof fn lemma_after_first(
    ws: Map<u32, WindowView>,
    rank: spec_fn(u32) -> nat,
    id: ResourceId,
    rest: Seq<ResourceId>,
    p: ResourceId,
    i: int,
    x: ResourceId,
)
    requires
        ws.dom().finite(),
        is_forest(ws, rank),
        ws.contains_key(id.0),
        p != id,
        ws.contains_key(p.0),
        !ws.contains_key(ws[id.0].parent.0) || ws[id.0].parent == id,
        (seq![id] + resources::destroyed(
            resources::detached(ws, id),
            ws[id.0].children + rest,
        ).1).contains(p),
        0 <= i < ws[p.0].children.len(),
        resource_laws::reachable(ws, seq![ws[p.0].children[i]], x),
    ensures
        ({
            let ws1 = resources::detached(ws, id);
            &&& ws1.contains_key(p.0)
            &&& ws1[p.0].children == ws[p.0].children
            &&& resource_laws::reachable(ws1, seq![ws[p.0].children[i]], x)
            &&& resources::destroyed(ws1, ws[id.0].children + rest).1.contains(p)
            &&& !resources::destroyed(ws1, ws[id.0].children + rest).1.contains(id)
            &&& x != id
            &&& !ws[p.0].children.contains(id)
        }),
{
    let ws1 = resources::detached(ws, id);
    let later = resources::destroyed(ws1, ws[id.0].children + rest).1;
    let gone = seq![id] + later;
    let m = choose|m: int| 0 <= m < gone.len() && gone[m] == p;
    assert(later[m - 1] == p);
    assert(p.0 != id.0) by {
        if p.0 == id.0 {
            assert(p == id);
        }
    }
    // Nobody that is left lists it.
    assert forall|k: u32| #[trigger] ws.contains_key(k) implies !ws[k].children.contains(id) by {
        if ws[k].children.contains(id) {
            assert(ws[id.0].parent.0 == k);
            assert(rank(id.0) < rank(k));
        }
    }
    lemma_other_lists_stay(ws, id, p.0);
    let kid = ws[p.0].children[i];
    let path = choose|q: Seq<ResourceId>| #[trigger]
        resource_laws::is_path(ws, q) && seq![kid].contains(q[0]) && q.last() == x;
    assert(path[0] == kid);
    assert(ws[p.0].children.contains(kid));
    assert forall|n: int| 0 <= n < path.len() implies #[trigger] path[n] != id by {
        if n > 0 {
            assert(ws[path[n - 1].0].children.contains(path[n]));
            assert(ws.contains_key(path[n - 1].0));
        }
    }
    lemma_path_survives(ws, id, path);
    assert(seq![kid].contains(path[0]));
    assert(resource_laws::reachable(ws1, seq![kid], x));
    assert(path[path.len() - 1] != id);
    resources::lemma_detached_shrinks(ws, id);
    let work = ws[id.0].children + rest;
    resource_laws::lemma_destroyed_is_what_is_reachable(ws1, work);
    assert(!later.contains(id)) by {
        if later.contains(id) {
            let q = choose|q: Seq<ResourceId>| #[trigger]
                resource_laws::is_path(ws1, q) && work.contains(q[0]) && q.last() == id;
            assert(ws1.contains_key(q[q.len() - 1].0));
        }
    }
}

/// One more window in front changes no order behind it.
proof fn lemma_shifted(
    ws: Map<u32, WindowView>,
    ws1: Map<u32, WindowView>,
    id: ResourceId,
    later: Seq<ResourceId>,
    p: ResourceId,
    i: int,
    j: int,
    x: ResourceId,
)
    requires
        ws1[p.0].children == ws[p.0].children,
        goes_in_order(ws1, later, p, i, j, x),
        p != id,
        later.contains(p),
        x != id,
        !later.contains(id),
        i < j < ws[p.0].children.len() ==> ws[p.0].children[j] != id,
    ensures
        goes_in_order(ws, seq![id] + later, p, i, j, x),
{
    let gone = seq![id] + later;
    assert forall|u: int, v: int|
        #![trigger gone[u], gone[v]]
        0 <= u < gone.len() && 0 <= v < gone.len() && gone[u] == p && gone[v] == x implies u < v by {
        assert(later[u - 1] == p && later[v - 1] == x);
    }
    if i < j < ws[p.0].children.len() {
        let y = ws[p.0].children[j];
        assert forall|u: int, v: int|
            #![trigger gone[u], gone[v]]
            0 <= u < gone.len() && 0 <= v < gone.len() && gone[u] == x && gone[v] == y implies u
            < v by {
            assert(later[u - 1] == x && later[v - 1] == y);
        }
    }
}

/// Windows go in the order of the tree. When a window is destroyed with all below it, each
/// window goes before everything below it, and everything below one of its children goes
/// before the children that it lists later.
pub proof fn lemma_windows_go_in_the_order_of_the_tree(
    ws: Map<u32, WindowView>,
    rank: spec_fn(u32) -> nat,
    id: ResourceId,
    p: ResourceId,
    i: int,
    j: int,
    x: ResourceId,
)
    requires
        ws.dom().finite(),
        is_forest(ws, rank),
        ws.contains_key(id.0),
        resources::destroyed(ws, seq![id]).1.contains(p),
        0 <= i < ws[p.0].children.len(),
        resource_laws::reachable(ws, seq![ws[p.0].children[i]], x),
    ensures
        comes_before(resources::destroyed(ws, seq![id]).1, p, x),
        i < j < ws[p.0].children.len() ==> comes_before(
            resources::destroyed(ws, seq![id]).1,
            x,
            ws[p.0].children[j],
        ),
        resources::destroyed(ws, seq![id]).1.first() == id,
        resources::destroyed(ws, seq![id]).1.contains(x),
{
    let none = Seq::<ResourceId>::empty();
    let ws1 = resources::detached(ws, id);
    let kids = ws[id.0].children;
    let later = resources::destroyed(ws1, kids + none).1;
    let gone = resources::destroyed(ws, seq![id]).1;
    assert(seq![id].drop_first() =~= none);
    assert(gone == seq![id] + later);
    resource_laws::lemma_destroyed_is_what_is_reachable(ws, seq![id]);
    // Everything that goes hangs below the window.
    let q = choose|q: Seq<ResourceId>| #[trigger]
        resource_laws::is_path(ws, q) && seq![id].contains(q[0]) && q.last() == p;
    assert(q[0] == id);
    lemma_path_ranks(ws, rank, q, q.len() - 1);
    assert(ws.contains_key(q[q.len() - 1].0));
    let kid = ws[p.0].children[i];
    let down = choose|d: Seq<ResourceId>| #[trigger]
        resource_laws::is_path(ws, d) && seq![kid].contains(d[0]) && d.last() == x;
    assert(down[0] == kid);
    assert(ws[p.0].children.contains(kid));
    let whole = q + down;
    assert(resource_laws::is_path(ws, whole)) by {
        assert forall|m: int| 0 <= m < whole.len() implies ws.contains_key(
            (#[trigger] whole[m]).0,
        ) by {
            if m < q.len() {
                assert(whole[m] == q[m]);
            } else {
                assert(whole[m] == down[m - q.len()]);
            }
        }
        assert forall|m: int, n: int| 0 <= m && m + 1 == n && n < whole.len() implies ws[(
        #[trigger] whole[m]).0].children.contains(#[trigger] whole[n]) by {
            if n < q.len() {
                assert(whole[m] == q[m] && whole[n] == q[n]);
            } else if m < q.len() {
                assert(whole[m] == q.last() && whole[n] == down[0]);
            } else {
                assert(whole[m] == down[m - q.len()] && whole[n] == down[n - q.len()]);
            }
        }
    }
    assert(seq![id].contains(whole[0]));
    assert(whole.last() == x);
    assert(resource_laws::reachable(ws, seq![id], x));
    lemma_first_goes_in_order(ws, rank, id, none, p, i, j, x);
    if p != id {
        resources::lemma_detached_shrinks(ws, id);
        lemma_detached_is_forest(ws, rank, id);
        assert(!ws[p.0].children.contains(id));
        assert(p.0 != id.0) by {
            if p.0 == id.0 {
                assert(p == id);
            }
        }
        lemma_other_lists_stay(ws, id, p.0);
        let m = choose|m: int| 0 <= m < gone.len() && gone[m] == p;
        assert(later[m - 1] == p);
        assert(later.contains(p));
        assert forall|n: int| 0 <= n < down.len() implies #[trigger] down[n] != id by {
            lemma_path_ranks(ws, rank, down, n);
        }
        lemma_path_survives(ws, id, down);
        assert(seq![kid].contains(down[0]));
        assert(resource_laws::reachable(ws1, seq![kid], x));
        assert(is_loose(ws1, kids + none)) by {
            assert forall|w: ResourceId| #[trigger]
                (kids + none).contains(w) && ws1.contains_key(w.0) implies !ws1.contains_key(
                ws1[w.0].parent.0,
            ) || ws1[w.0].parent == w by {
                let n = choose|n: int| 0 <= n < (kids + none).len() && (kids + none)[n] == w;
                assert(kids.contains(kids[n]));
            }
        }
        lemma_loose_windows_go_in_order(ws1, rank, kids + none, p, i, j, x);
        assert(!later.contains(id)) by {
            if later.contains(id) {
                resource_laws::lemma_destroyed_is_what_is_reachable(ws1, kids + none);
                let r = choose|r: Seq<ResourceId>| #[trigger]
                    resource_laws::is_path(ws1, r) && (kids + none).contains(r[0]) && r.last()
                        == id;
                assert(ws1.contains_key(r[r.len() - 1].0));
            }
        }
        assert(down[down.len() - 1] != id);
        if i < j < ws[p.0].children.len() {
            assert(ws[p.0].children.contains(ws[p.0].children[j]));
        }
        lemma_shifted(ws, ws1, id, later, p, i, j, x);
    }
}

} // verus!
