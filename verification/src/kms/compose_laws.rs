//! What holds of every frame that is composed.

use vstd::prelude::*;

use crate::kms::compose;
use crate::kms::compose::CompositeStep;
use crate::kms::image::Color;
use crate::kms::state::{KmsView, WindowStateView};

verus! {

/// Whether `w` is `top` or somewhere below it, and both and all between are
/// mapped, at most `depth` levels in all.
pub open spec fn is_shown_in(
    ws: Map<u32, WindowStateView>,
    top: u32,
    w: u32,
    depth: nat,
) -> bool
    decreases depth,
{
    &&& depth > 0
    &&& ws.contains_key(top)
    &&& ws[top].mapped
    &&& top == w || exists|i: int|
        0 <= i < ws[top].children.len() && is_shown_in(
            ws,
            #[trigger] ws[top].children[i],
            w,
            (depth - 1) as nat,
        )
}

/// Whether the windows form trees: children go down in `rank`, none is listed
/// twice, and each has the window that lists it for its parent.
pub open spec fn is_forest(ws: Map<u32, WindowStateView>, rank: spec_fn(u32) -> nat) -> bool {
    &&& compose::ranked(ws, rank)
    &&& forall|id: u32| #[trigger] ws.contains_key(id) ==> ws[id].children.no_duplicates()
    &&& forall|id: u32, c: u32|
        ws.contains_key(id) && #[trigger] ws[id].children.contains(c) && ws.contains_key(c)
            ==> ws[c].parent == Some(id)
}

/// Holds of steps that blend onto `dst`.
pub open spec fn onto(dst: Option<u32>) -> spec_fn(CompositeStep) -> bool {
    |s: CompositeStep| s.dst == dst
}

/// What each step blends.
pub open spec fn sources(steps: Seq<CompositeStep>) -> Seq<u32> {
    steps.map_values(|s: CompositeStep| s.src)
}

/// Holds of windows that are mapped.
pub open spec fn is_mapped(ws: Map<u32, WindowStateView>) -> spec_fn(u32) -> bool {
    |id: u32| ws.contains_key(id) && ws[id].mapped
}

/// Window `n` parents up from `w`.
spec fn nth_parent(ws: Map<u32, WindowStateView>, w: u32, n: nat) -> u32
    decreases n,
{
    if n == 0 {
        w
    } else {
        match ws[nth_parent(ws, w, (n - 1) as nat)].parent {
            Some(p) => p,
            None => 0,
        }
    }
}

/// Whether the first `n` parents of `w` are listed windows, each below the next.
spec fn climbs(
    ws: Map<u32, WindowStateView>,
    rank: spec_fn(u32) -> nat,
    w: u32,
    n: nat,
) -> bool {
    forall|i: nat|
        i < n ==> {
            let c = #[trigger] nth_parent(ws, w, i);
            let p = nth_parent(ws, w, i + 1);
            &&& ws.contains_key(c)
            &&& ws.contains_key(p)
            &&& ws[c].parent == Some(p)
            &&& rank(c) < rank(p)
        }
}

proof fn lemma_shown_climbs(
    ws: Map<u32, WindowStateView>,
    rank: spec_fn(u32) -> nat,
    top: u32,
    w: u32,
    depth: nat,
) -> (n: nat)
    requires
        is_forest(ws, rank),
        is_shown_in(ws, top, w, depth),
    ensures
        nth_parent(ws, w, n) == top,
        climbs(ws, rank, w, n),
        ws.contains_key(w),
        ws[w].mapped,
        n == 0 ==> w == top,
    decreases depth,
{
    if top == w {
        0
    } else {
        let kids = ws[top].children;
        let i = choose|i: int|
            0 <= i < kids.len() && is_shown_in(ws, #[trigger] kids[i], w, (depth - 1) as nat);
        let m = lemma_shown_climbs(ws, rank, kids[i], w, (depth - 1) as nat);
        assert(kids.contains(kids[i]));
        assert(nth_parent(ws, w, m + 1) == top);
        assert forall|k: nat| k < m + 1 implies {
            let c = #[trigger] nth_parent(ws, w, k);
            let p = nth_parent(ws, w, k + 1);
            &&& ws.contains_key(c)
            &&& ws.contains_key(p)
            &&& ws[c].parent == Some(p)
            &&& rank(c) < rank(p)
        } by {
            assert(ws.contains_key(kids[i]));
        }
        m + 1
    }
}

proof fn lemma_climb_ranks(
    ws: Map<u32, WindowStateView>,
    rank: spec_fn(u32) -> nat,
    w: u32,
    n: nat,
    a: nat,
    b: nat,
)
    requires
        climbs(ws, rank, w, n),
        a <= b <= n,
    ensures
        rank(nth_parent(ws, w, a)) + (b - a) <= rank(nth_parent(ws, w, b)),
    decreases b - a,
{
    if a < b {
        lemma_climb_ranks(ws, rank, w, n, a, (b - 1) as nat);
        assert(rank(nth_parent(ws, w, (b - 1) as nat)) < rank(
            nth_parent(ws, w, ((b - 1) as nat) + 1),
        ));
    }
}

/// Whether `id` hangs below `over`, or below no window of the table.
spec fn hangs_below(
    ws: Map<u32, WindowStateView>,
    rank: spec_fn(u32) -> nat,
    over: Option<u32>,
    id: u32,
) -> bool {
    ws.contains_key(id) ==> match over {
        Some(p) => ws[id].parent == Some(p) && rank(id) < rank(p),
        None => match ws[id].parent {
            Some(p) => !ws.contains_key(p),
            None => true,
        },
    }
}

/// A window is shown in one of two siblings at most.
proof fn lemma_siblings_share_nothing(
    ws: Map<u32, WindowStateView>,
    rank: spec_fn(u32) -> nat,
    over: Option<u32>,
    a: u32,
    b: u32,
    w: u32,
    da: nat,
    db: nat,
)
    requires
        is_forest(ws, rank),
        a != b,
        hangs_below(ws, rank, over, a),
        hangs_below(ws, rank, over, b),
        is_shown_in(ws, a, w, da),
    ensures
        !is_shown_in(ws, b, w, db),
{
    if is_shown_in(ws, b, w, db) {
        let n = lemma_shown_climbs(ws, rank, a, w, da);
        let m = lemma_shown_climbs(ws, rank, b, w, db);
        if n < m {
            assert(ws[nth_parent(ws, w, n)].parent == Some(nth_parent(ws, w, n + 1)));
            lemma_climb_ranks(ws, rank, w, m, n + 1, m);
        } else if m < n {
            assert(ws[nth_parent(ws, w, m)].parent == Some(nth_parent(ws, w, m + 1)));
            lemma_climb_ranks(ws, rank, w, n, m + 1, n);
        }
    }
}

/// What is shown in a window does not rank above it.
proof fn lemma_shown_ranks(
    ws: Map<u32, WindowStateView>,
    rank: spec_fn(u32) -> nat,
    top: u32,
    w: u32,
    depth: nat,
)
    requires
        is_forest(ws, rank),
        is_shown_in(ws, top, w, depth),
    ensures
        rank(w) <= rank(top),
{
    let n = lemma_shown_climbs(ws, rank, top, w, depth);
    lemma_climb_ranks(ws, rank, w, n, 0, n);
}

/// Whether `dst` is a window that is shown in `id`.
spec fn is_inside(ws: Map<u32, WindowStateView>, id: u32, dst: Option<u32>, depth: nat) -> bool {
    dst is Some && is_shown_in(ws, id, dst->0, depth)
}

/// The steps of a window end with its own, onto `dst`; those before blend onto
/// windows that are shown in it.
proof fn lemma_own_step_comes_last(
    ws: Map<u32, WindowStateView>,
    id: u32,
    dst: Option<u32>,
    depth: nat,
)
    ensures
        ({
            let steps = compose::window_steps(ws, id, dst, depth);
            if depth > 0 && ws.contains_key(id) && ws[id].mapped {
                &&& steps.len() > 0
                &&& steps.last().src == id
                &&& steps.last().dst == dst
                &&& forall|i: int|
                    0 <= i < steps.len() - 1 ==> is_inside(
                        ws,
                        id,
                        (#[trigger] steps[i]).dst,
                        depth,
                    )
            } else {
                steps.len() == 0
            }
        }),
    decreases depth, 0nat,
{
    if depth > 0 && ws.contains_key(id) && ws[id].mapped {
        let kids = ws[id].children;
        let d = (depth - 1) as nat;
        lemma_list_stays_inside(ws, kids, Some(id), d, kids.len());
        let inner = compose::children_steps(ws, kids, Some(id), d, kids.len());
        let steps = compose::window_steps(ws, id, dst, depth);
        assert forall|i: int| 0 <= i < steps.len() - 1 implies is_inside(
            ws,
            id,
            (#[trigger] steps[i]).dst,
            depth,
        ) by {
            assert(steps[i] == inner[i]);
            if inner[i].dst != Some(id) {
                let j = choose|j: int|
                    0 <= j < kids.len() && is_inside(ws, #[trigger] kids[j], inner[i].dst, d);
                assert(is_shown_in(ws, kids[j], inner[i].dst->0, d));
            }
        }
    }
}

proof fn lemma_list_stays_inside(
    ws: Map<u32, WindowStateView>,
    ids: Seq<u32>,
    dst: Option<u32>,
    depth: nat,
    n: nat,
)
    requires
        n <= ids.len(),
    ensures
        forall|i: int|
            0 <= i < compose::children_steps(ws, ids, dst, depth, n).len() ==> {
                let s = #[trigger] compose::children_steps(ws, ids, dst, depth, n)[i];
                s.dst == dst || exists|j: int|
                    0 <= j < n && is_inside(ws, #[trigger] ids[j], s.dst, depth)
            },
    decreases depth, n,
{
    if n > 0 {
        let m = (n - 1) as nat;
        lemma_list_stays_inside(ws, ids, dst, depth, m);
        lemma_own_step_comes_last(ws, ids[n - 1], dst, depth);
        let a = compose::children_steps(ws, ids, dst, depth, m);
        let b = compose::window_steps(ws, ids[n - 1], dst, depth);
        let steps = compose::children_steps(ws, ids, dst, depth, n);
        assert(steps == a + b);
        assert forall|i: int| 0 <= i < steps.len() implies {
            let s = #[trigger] steps[i];
            s.dst == dst || exists|j: int|
                0 <= j < n && is_inside(ws, #[trigger] ids[j], s.dst, depth)
        } by {
            if i < a.len() {
                assert(steps[i] == a[i]);
            } else {
                assert(steps[i] == b[i - a.len()]);
                if i < steps.len() - 1 {
                    assert(is_inside(ws, ids[n - 1], b[i - a.len()].dst, depth));
                }
            }
        }
    }
}

/// Nothing is left of steps of which none blends onto `dst`.
proof fn lemma_none_onto(steps: Seq<CompositeStep>, dst: Option<u32>)
    requires
        forall|i: int| 0 <= i < steps.len() ==> (#[trigger] steps[i]).dst != dst,
    ensures
        steps.filter(onto(dst)) == Seq::<CompositeStep>::empty(),
    decreases steps.len(),
{
    reveal(Seq::filter);
    if steps.len() > 0 {
        let t = steps.drop_last();
        assert forall|i: int| 0 <= i < t.len() implies (#[trigger] t[i]).dst != dst by {
            assert(t[i] == steps[i]);
        }
        lemma_none_onto(t, dst);
        assert(steps[steps.len() - 1].dst != dst);
    } else {
        assert(steps.filter(onto(dst)) =~= Seq::<CompositeStep>::empty());
    }
}

proof fn lemma_sources_sum(a: Seq<CompositeStep>, b: Seq<CompositeStep>, dst: Option<u32>)
    ensures
        sources((a + b).filter(onto(dst))) == sources(a.filter(onto(dst))) + sources(
            b.filter(onto(dst)),
        ),
{
    Seq::filter_distributes_over_add(a, b, onto(dst));
    assert(sources(a.filter(onto(dst)) + b.filter(onto(dst))) =~= sources(a.filter(onto(dst)))
        + sources(b.filter(onto(dst))));
}

/// Of a list of windows the mapped ones are blended onto `dst`, in their order.
proof fn lemma_list_in_order(
    ws: Map<u32, WindowStateView>,
    ids: Seq<u32>,
    dst: Option<u32>,
    depth: nat,
    n: nat,
)
    requires
        n <= ids.len(),
        forall|j: int| 0 <= j < n ==> !is_inside(ws, #[trigger] ids[j], dst, depth),
        forall|j: int| 0 <= j < n && is_mapped(ws)(#[trigger] ids[j]) ==> depth > 0,
    ensures
        sources(compose::children_steps(ws, ids, dst, depth, n).filter(onto(dst))) == ids.take(
            n as int,
        ).filter(is_mapped(ws)),
    decreases n,
{
    reveal(Seq::filter);
    if n > 0 {
        let m = (n - 1) as nat;
        let id = ids[n - 1];
        lemma_list_in_order(ws, ids, dst, depth, m);
        lemma_own_step_comes_last(ws, id, dst, depth);
        let a = compose::children_steps(ws, ids, dst, depth, m);
        let b = compose::window_steps(ws, id, dst, depth);
        lemma_sources_sum(a, b, dst);
        assert(compose::children_steps(ws, ids, dst, depth, n) == a + b);
        assert(ids.take(n as int).drop_last() =~= ids.take(m as int));
        assert(ids.take(n as int).last() == id);
        if is_mapped(ws)(id) {
            let t = b.drop_last();
            assert forall|i: int| 0 <= i < t.len() implies (#[trigger] t[i]).dst != dst by {
                assert(t[i] == b[i]);
                assert(is_inside(ws, id, b[i].dst, depth));
            }
            lemma_none_onto(t, dst);
            assert(b.filter(onto(dst)) == Seq::<CompositeStep>::empty().push(b.last()));
            assert(sources(b.filter(onto(dst))) =~= seq![id]);
            let before = ids.take(m as int).filter(is_mapped(ws));
            assert(before.push(id) =~= before + seq![id]);
        } else {
            assert(b =~= Seq::empty());
            assert(sources(b.filter(onto(dst))) =~= Seq::<u32>::empty());
            let before = ids.take(m as int).filter(is_mapped(ws));
            assert(before + Seq::<u32>::empty() =~= before);
        }
    } else {
        assert(ids.take(0) =~= Seq::<u32>::empty());
        assert(sources(compose::children_steps(ws, ids, dst, depth, 0).filter(onto(dst)))
            =~= Seq::<u32>::empty());
        assert(ids.take(0).filter(is_mapped(ws)) =~= Seq::<u32>::empty());
    }
}

/// The mapped children of `w`, in the order in which it lists them.
pub open spec fn shown_children(ws: Map<u32, WindowStateView>, w: u32) -> Seq<u32> {
    ws[w].children.filter(is_mapped(ws))
}

proof fn lemma_window_in_order(
    ws: Map<u32, WindowStateView>,
    rank: spec_fn(u32) -> nat,
    id: u32,
    dst: Option<u32>,
    depth: nat,
    w: u32,
)
    requires
        is_forest(ws, rank),
        ws.dom().finite(),
        compose::up_to(ws, rank, id).len() <= depth,
        dst != Some(w),
    ensures
        sources(compose::window_steps(ws, id, dst, depth).filter(onto(Some(w)))) == (if is_shown_in(
            ws,
            id,
            w,
            depth,
        ) {
            shown_children(ws, w)
        } else {
            Seq::empty()
        }),
    decreases depth, 0nat,
{
    let steps = compose::window_steps(ws, id, dst, depth);
    let f = onto(Some(w));
    if depth > 0 && ws.contains_key(id) && ws[id].mapped {
        let kids = ws[id].children;
        let d = (depth - 1) as nat;
        let inner = compose::children_steps(ws, kids, Some(id), d, kids.len());
        let s = compose::up_to(ws, rank, id);
        assert(s.contains(id));
        vstd::set_lib::lemma_len_subset(s, ws.dom());
        assert forall|i: int| 0 <= i < kids.len() implies compose::up_to(
            ws,
            rank,
            #[trigger] kids[i],
        ).len() <= d && hangs_below(ws, rank, Some(id), kids[i]) by {
            assert(kids.contains(kids[i]));
            let t = compose::up_to(ws, rank, kids[i]);
            assert(t.subset_of(s.remove(id)));
            vstd::set_lib::lemma_len_subset(t, s.remove(id));
        }
        assert(steps.filter(f) == inner.filter(f)) by {
            reveal(Seq::filter);
            assert(steps.drop_last() =~= inner);
            assert(steps.last().dst == dst);
        }
        if w == id {
            assert forall|j: int| 0 <= j < kids.len() implies !is_inside(
                ws,
                #[trigger] kids[j],
                Some(id),
                d,
            ) by {
                assert(kids.contains(kids[j]));
                if is_shown_in(ws, kids[j], id, d) {
                    lemma_shown_ranks(ws, rank, kids[j], id, d);
                }
            }
            assert forall|j: int| 0 <= j < kids.len() && is_mapped(ws)(#[trigger] kids[j]) implies d
                > 0 by {
                let t = compose::up_to(ws, rank, kids[j]);
                assert(t.contains(kids[j]));
                vstd::set_lib::lemma_len_subset(t, ws.dom());
                assert(t.len() > 0);
            }
            lemma_list_in_order(ws, kids, Some(id), d, kids.len());
            assert(kids.take(kids.len() as int) =~= kids);
        } else {
            lemma_list_of_windows_in_order(ws, rank, kids, Some(id), Some(id), d, kids.len(), w);
            assert(is_shown_in(ws, id, w, depth) <==> is_shown_among(ws, kids, kids.len(), w, d));
        }
    } else {
        assert(steps.len() == 0);
        lemma_none_onto(steps, Some(w));
        assert(sources(steps.filter(f)) =~= Seq::<u32>::empty());
    }
}

/// Whether `w` is shown in one of the first `n` of `ids`.
spec fn is_shown_among(
    ws: Map<u32, WindowStateView>,
    ids: Seq<u32>,
    n: nat,
    w: u32,
    depth: nat,
) -> bool {
    exists|j: int| 0 <= j < n && is_shown_in(ws, #[trigger] ids[j], w, depth)
}

proof fn lemma_list_of_windows_in_order(
    ws: Map<u32, WindowStateView>,
    rank: spec_fn(u32) -> nat,
    ids: Seq<u32>,
    over: Option<u32>,
    dst: Option<u32>,
    depth: nat,
    n: nat,
    w: u32,
)
    requires
        is_forest(ws, rank),
        ws.dom().finite(),
        n <= ids.len(),
        ids.no_duplicates(),
        forall|i: int|
            0 <= i < ids.len() ==> compose::up_to(ws, rank, #[trigger] ids[i]).len() <= depth
                && hangs_below(ws, rank, over, ids[i]),
        dst != Some(w),
    ensures
        sources(compose::children_steps(ws, ids, dst, depth, n).filter(onto(Some(w)))) == (
        if is_shown_among(ws, ids, n, w, depth) {
            shown_children(ws, w)
        } else {
            Seq::empty()
        }),
    decreases depth, n,
{
    if n > 0 {
        let m = (n - 1) as nat;
        let id = ids[n - 1];
        lemma_list_of_windows_in_order(ws, rank, ids, over, dst, depth, m, w);
        lemma_window_in_order(ws, rank, id, dst, depth, w);
        let a = compose::children_steps(ws, ids, dst, depth, m);
        let b = compose::window_steps(ws, id, dst, depth);
        lemma_sources_sum(a, b, Some(w));
        assert(compose::children_steps(ws, ids, dst, depth, n) == a + b);
        let shown = shown_children(ws, w);
        assert(shown + Seq::<u32>::empty() =~= shown);
        assert(Seq::<u32>::empty() + shown =~= shown);
        assert(Seq::<u32>::empty() + Seq::<u32>::empty() =~= Seq::<u32>::empty());
        if is_shown_in(ws, id, w, depth) {
            assert(is_shown_in(ws, ids[n - 1], w, depth));
            if is_shown_among(ws, ids, m, w, depth) {
                let j = choose|j: int| 0 <= j < m && is_shown_in(ws, #[trigger] ids[j], w, depth);
                lemma_siblings_share_nothing(ws, rank, over, ids[j], id, w, depth, depth);
            }
        } else if is_shown_among(ws, ids, n, w, depth) {
            let j = choose|j: int| 0 <= j < n && is_shown_in(ws, #[trigger] ids[j], w, depth);
            assert(j < m);
        }
    } else {
        let none = compose::children_steps(ws, ids, dst, depth, 0);
        lemma_none_onto(none, Some(w));
        assert(sources(none.filter(onto(Some(w)))) =~= Seq::<u32>::empty());
    }
}

/// Siblings stack in list order. Where the windows form trees, a frame blends onto
/// each window that is shown exactly its mapped children, in the order in which it
/// lists them, so that later ones cover earlier ones; onto a window that is not
/// shown it blends nothing.
pub proof fn lemma_siblings_stack_in_list_order(
    k: KmsView,
    rank: spec_fn(u32) -> nat,
    steps: Seq<CompositeStep>,
    w: u32,
)
    requires
        k.is_composition(steps),
        k.windows.dom().finite(),
        is_forest(k.windows, rank),
        !k.windows.contains_key(k.window_id),
    ensures
        (exists|top: u32| #[trigger]
            k.is_top_level(top) && is_shown_in(k.windows, top, w, k.windows.dom().len()))
            ==> sources(steps.filter(onto(Some(w)))) == k.windows[w].children.filter(
            is_mapped(k.windows),
        ),
        !(exists|top: u32| #[trigger]
            k.is_top_level(top) && is_shown_in(k.windows, top, w, k.windows.dom().len()))
            ==> steps.filter(onto(Some(w))).len() == 0,
{
    let ws = k.windows;
    let depth = ws.dom().len();
    let tops = choose|tops: Seq<u32>|
        {
            &&& #[trigger] tops.no_duplicates()
            &&& forall|id: u32| #[trigger] tops.contains(id) <==> k.is_top_level(id)
            &&& steps == compose::children_steps(ws, tops, None, depth, tops.len())
        };
    assert forall|i: int| 0 <= i < tops.len() implies compose::up_to(
        ws,
        rank,
        #[trigger] tops[i],
    ).len() <= depth && hangs_below(ws, rank, None, tops[i]) by {
        assert(tops.contains(tops[i]));
        let t = compose::up_to(ws, rank, tops[i]);
        assert(t.subset_of(ws.dom()));
        vstd::set_lib::lemma_len_subset(t, ws.dom());
    }
    lemma_list_of_windows_in_order(ws, rank, tops, None, None, depth, tops.len(), w);
    if is_shown_among(ws, tops, tops.len(), w, depth) {
        let j = choose|j: int| 0 <= j < tops.len() && is_shown_in(ws, #[trigger] tops[j], w, depth);
        assert(tops.contains(tops[j]));
    } else {
        assert(sources(steps.filter(onto(Some(w)))).len() == 0);
        assert forall|top: u32| #[trigger] k.is_top_level(top) implies !is_shown_in(
            ws,
            top,
            w,
            depth,
        ) by {
            assert(tops.contains(top));
            let j = choose|j: int| 0 <= j < tops.len() && tops[j] == top;
            assert(!is_shown_in(ws, tops[j], w, depth));
        }
    }
}

/// Onto the screen go the mapped top-level windows, in the order in which they are
/// given.
pub proof fn lemma_top_levels_stack_in_order(k: KmsView, tops: Seq<u32>)
    requires
        k.windows.dom().finite(),
    ensures
        sources(
            compose::children_steps(
                k.windows,
                tops,
                None,
                k.windows.dom().len(),
                tops.len(),
            ).filter(onto(None)),
        ) == tops.filter(is_mapped(k.windows)),
{
    let ws = k.windows;
    assert forall|j: int| 0 <= j < tops.len() && is_mapped(ws)(
        #[trigger] tops[j],
    ) implies ws.dom().len() > 0 by {
        assert(ws.dom().contains(tops[j]));
    }
    lemma_list_in_order(ws, tops, None, ws.dom().len(), tops.len());
    assert(tops.take(tops.len() as int) =~= tops);
}

/// Every step of a frame blends a mapped window where it lies: at its own position
/// and with its own size.
pub proof fn lemma_windows_are_blended_where_they_lie(
    k: KmsView,
    steps: Seq<CompositeStep>,
    i: int,
)
    requires
        k.is_composition(steps),
        0 <= i < steps.len(),
    ensures
        ({
            let s = steps[i];
            let w = k.windows[s.src];
            &&& k.windows.contains_key(s.src)
            &&& w.mapped
            &&& (s.x, s.y, s.width, s.height) == (w.x, w.y, w.width, w.height)
            &&& s.dst matches Some(p) ==> k.windows.contains_key(p)
                && k.windows[p].children.contains(s.src)
        }),
{
    let ws = k.windows;
    let depth = ws.dom().len();
    let tops = choose|tops: Seq<u32>|
        {
            &&& #[trigger] tops.no_duplicates()
            &&& forall|id: u32| #[trigger] tops.contains(id) <==> k.is_top_level(id)
            &&& steps == compose::children_steps(ws, tops, None, depth, tops.len())
        };
    lemma_list_lies(ws, tops, None, depth, tops.len());
    assert(lies(ws, steps[i]));
}

/// Whether a step blends a mapped window where it lies, onto the screen or onto a
/// window that lists it.
spec fn lies(ws: Map<u32, WindowStateView>, s: CompositeStep) -> bool {
    let w = ws[s.src];
    &&& ws.contains_key(s.src)
    &&& w.mapped
    &&& (s.x, s.y, s.width, s.height) == (w.x, w.y, w.width, w.height)
    &&& s.dst is Some ==> ws.contains_key(s.dst->0) && ws[s.dst->0].children.contains(s.src)
}

proof fn lemma_list_lies(
    ws: Map<u32, WindowStateView>,
    ids: Seq<u32>,
    dst: Option<u32>,
    depth: nat,
    n: nat,
)
    requires
        n <= ids.len(),
        dst is Some ==> ws.contains_key(dst->0) && ws[dst->0].children == ids,
    ensures
        forall|i: int|
            0 <= i < compose::children_steps(ws, ids, dst, depth, n).len() ==> lies(
                ws,
                #[trigger] compose::children_steps(ws, ids, dst, depth, n)[i],
            ),
    decreases depth, n,
{
    if n > 0 {
        let m = (n - 1) as nat;
        let id = ids[n - 1];
        lemma_list_lies(ws, ids, dst, depth, m);
        let a = compose::children_steps(ws, ids, dst, depth, m);
        let b = compose::window_steps(ws, id, dst, depth);
        let steps = compose::children_steps(ws, ids, dst, depth, n);
        assert(steps == a + b);
        if depth > 0 && ws.contains_key(id) && ws[id].mapped {
            let kids = ws[id].children;
            let d = (depth - 1) as nat;
            lemma_list_lies(ws, kids, Some(id), d, kids.len());
            let inner = compose::children_steps(ws, kids, Some(id), d, kids.len());
            assert(ids.contains(ids[n - 1]));
            assert forall|i: int| 0 <= i < b.len() implies lies(ws, #[trigger] b[i]) by {
                if i < inner.len() {
                    assert(b[i] == inner[i]);
                }
            }
        }
        assert forall|i: int| 0 <= i < steps.len() implies lies(ws, #[trigger] steps[i]) by {
            if i < a.len() {
                assert(steps[i] == a[i]);
            } else {
                assert(steps[i] == b[i - a.len()]);
            }
        }
    }
}

/// The pointer is on a window if it is on one of its pixels: the window is mapped, and has
/// no parent or the root container for its parent.
pub proof fn lemma_pointer_is_on_the_pixels_of_a_window(k: KmsView, id: u32)
    ensures
        ({
            let w = k.windows[id];
            k.points_at(id) <==> {
                &&& k.windows.contains_key(id)
                &&& w.mapped
                &&& w.parent is None || w.parent == Some(k.window_id)
                &&& 0 <= k.cursor_x - w.x < w.width
                &&& 0 <= k.cursor_y - w.y < w.height
            }
        }),
{
}

/// Of the windows that the pointer is on, the one that stands last in the list is on top.
pub proof fn lemma_last_window_is_on_top(k: KmsView, ids: Seq<u32>, n: int, i: int)
    requires
        0 <= n <= ids.len(),
    ensures
        0 <= i < n && k.points_at(ids[i]) && (forall|j: int|
            i < j < n ==> !k.points_at(#[trigger] ids[j])) ==> k.last_pointed_at(ids, n) == Some(
            ids[i],
        ),
        (forall|j: int| 0 <= j < n ==> !k.points_at(#[trigger] ids[j])) ==> k.last_pointed_at(
            ids,
            n,
        ) is None,
    decreases n,
{
    if n > 0 {
        lemma_last_window_is_on_top(k, ids, n - 1, i);
        if 0 <= i < n - 1 && (forall|j: int| i < j < n ==> !k.points_at(#[trigger] ids[j])) {
            assert(!k.points_at(ids[n - 1]));
        }
        if forall|j: int| 0 <= j < n ==> !k.points_at(#[trigger] ids[j]) {
            assert(!k.points_at(ids[n - 1]));
        }
    }
}

/// The background of a frame has the colour whose red, green and blue are the low bytes of
/// the container's pixel value, and is grey without one; the cursor is sixteen pixels
/// square, with its upper left corner at the pointer.
pub proof fn lemma_frame_has_background_and_cursor(k: KmsView, pixel: u32)
    ensures
        k.bg_pixel is None ==> k.root_color() == (Color {
            red: 0x5050,
            green: 0x5050,
            blue: 0x5050,
            alpha: 0xffff,
        }),
        k.bg_pixel == Some(pixel) ==> {
            let c = k.root_color();
            &&& c.red == pixel / 0x1_0000 % 0x100 * 0x100
            &&& c.green == pixel / 0x100 % 0x100 * 0x100
            &&& c.blue == pixel % 0x100 * 0x100
            &&& c.alpha == 0xffff
        },
        k.cursor_rect().width == 16,
        k.cursor_rect().height == 16,
        k.cursor_x <= 32767 ==> k.cursor_rect().x == k.cursor_x,
        k.cursor_y <= 32767 ==> k.cursor_rect().y == k.cursor_y,
{
}

} // verus!
