//! What holds of every sequence of crossing events.

use vstd::prelude::*;

use crate::crossings;
use crate::crossings::{
    CrossingEvent, CrossingKind, MAX_HOPS, NOTIFY_NONLINEAR_VIRTUAL, NOTIFY_VIRTUAL,
};
use crate::protocol::ResourceId;
use crate::resources::WindowView;

verus! {

/// A window that does not lead on to another one: a root, or one that does not
/// exist.
pub open spec fn is_top(ws: Map<u32, WindowView>, w: ResourceId) -> bool {
    !ws.contains_key(w.0) || ws[w.0].parent == w
}

/// Whether the walk up from `start` ends at a top rather than at the limit.
pub open spec fn is_rooted(ws: Map<u32, WindowView>, start: ResourceId) -> bool {
    is_top(ws, crossings::chain_from(ws, start, MAX_HOPS as nat).last())
}

/// Whether each window of `s` but the last has the next one for its parent.
pub open spec fn follows_parents(ws: Map<u32, WindowView>, s: Seq<ResourceId>) -> bool {
    forall|i: int, j: int|
        #![trigger s[i], s[j]]
        0 <= i && j == i + 1 && j < s.len() ==> s[i] != s[j] && ws.contains_key(s[i].0)
            && ws[s[i].0].parent == s[j]
}

/// The same event with entering and leaving exchanged.
pub open spec fn mirrored(e: CrossingEvent) -> CrossingEvent {
    CrossingEvent {
        kind: match e.kind {
            CrossingKind::Enter => CrossingKind::Leave,
            CrossingKind::Leave => CrossingKind::Enter,
        },
        ..e
    }
}

/// A chain starts at its window, follows parents, and has at most one entry
/// more than there are hops.
pub proof fn lemma_chain_follows_parents(
    ws: Map<u32, WindowView>,
    start: ResourceId,
    hops: nat,
)
    ensures
        1 <= crossings::chain_from(ws, start, hops).len() <= hops + 1,
        crossings::chain_from(ws, start, hops)[0] == start,
        follows_parents(ws, crossings::chain_from(ws, start, hops)),
    decreases hops,
{
    if hops > 0 && !is_top(ws, start) {
        let parent = ws[start.0].parent;
        let s = crossings::chain_from(ws, start, hops);
        let t = crossings::chain_from(ws, parent, (hops - 1) as nat);
        lemma_chain_follows_parents(ws, parent, (hops - 1) as nat);
        assert(s == seq![start] + t);
        assert forall|i: int, j: int|
            #![trigger s[i], s[j]]
            0 <= i && j == i + 1 && j < s.len() implies s[i] != s[j] && ws.contains_key(
            s[i].0,
        ) && ws[s[i].0].parent == s[j] by {
            assert(s[j] == t[j - 1]);
            if i > 0 {
                assert(s[i] == t[i - 1]);
            }
        }
    } else {
        assert(crossings::chain_from(ws, start, hops).len() == 1);
    }
}

proof fn lemma_chain_suffix(ws: Map<u32, WindowView>, start: ResourceId, hops: nat, i: int)
    requires
        0 <= i < crossings::chain_from(ws, start, hops).len(),
    ensures
        i <= hops,
        crossings::chain_from(ws, crossings::chain_from(ws, start, hops)[i], (hops - i) as nat)
            == crossings::chain_from(ws, start, hops).skip(i),
    decreases i,
{
    let s = crossings::chain_from(ws, start, hops);
    lemma_chain_follows_parents(ws, start, hops);
    if i == 0 {
        assert(s.skip(0) =~= s);
    } else {
        let parent = ws[start.0].parent;
        let t = crossings::chain_from(ws, parent, (hops - 1) as nat);
        assert(s == seq![start] + t);
        lemma_chain_suffix(ws, parent, (hops - 1) as nat, i - 1);
        assert(s[i] == t[i - 1]);
        assert(s.skip(i) =~= t.skip(i - 1));
    }
}

proof fn lemma_complete_chains_agree(
    ws: Map<u32, WindowView>,
    start: ResourceId,
    h: nat,
    k: nat,
)
    requires
        is_top(ws, crossings::chain_from(ws, start, h).last()),
        is_top(ws, crossings::chain_from(ws, start, k).last()),
    ensures
        crossings::chain_from(ws, start, h) == crossings::chain_from(ws, start, k),
    decreases h,
{
    if !is_top(ws, start) {
        let parent = ws[start.0].parent;
        lemma_chain_follows_parents(ws, parent, (h - 1) as nat);
        lemma_chain_follows_parents(ws, parent, (k - 1) as nat);
        let s = crossings::chain_from(ws, parent, (h - 1) as nat);
        let t = crossings::chain_from(ws, parent, (k - 1) as nat);
        assert((seq![start] + s).last() == s.last());
        assert((seq![start] + t).last() == t.last());
        lemma_complete_chains_agree(ws, parent, (h - 1) as nat, (k - 1) as nat);
    }
}

/// Two rooted chains that share a window are as long above it.
proof fn lemma_shared_suffix(
    ws: Map<u32, WindowView>,
    a: ResourceId,
    b: ResourceId,
    i: int,
    j: int,
)
    requires
        is_rooted(ws, a),
        is_rooted(ws, b),
        0 <= i < crossings::chain_from(ws, a, MAX_HOPS as nat).len(),
        0 <= j < crossings::chain_from(ws, b, MAX_HOPS as nat).len(),
        crossings::chain_from(ws, a, MAX_HOPS as nat)[i] == crossings::chain_from(
            ws,
            b,
            MAX_HOPS as nat,
        )[j],
    ensures
        crossings::chain_from(ws, a, MAX_HOPS as nat).len() - i == crossings::chain_from(
            ws,
            b,
            MAX_HOPS as nat,
        ).len() - j,
{
    let s = crossings::chain_from(ws, a, MAX_HOPS as nat);
    let t = crossings::chain_from(ws, b, MAX_HOPS as nat);
    lemma_chain_suffix(ws, a, MAX_HOPS as nat, i);
    lemma_chain_suffix(ws, b, MAX_HOPS as nat, j);
    assert(s.skip(i).last() == s.last());
    assert(t.skip(j).last() == t.last());
    lemma_complete_chains_agree(ws, s[i], (MAX_HOPS - i) as nat, (MAX_HOPS - j) as nat);
    assert(s.skip(i).len() == s.len() - i);
    assert(t.skip(j).len() == t.len() - j);
}

proof fn lemma_position(s: Seq<ResourceId>, x: ResourceId, i: int)
    requires
        0 <= i <= s.len(),
    ensures
        i <= crossings::position(s, x, i) <= s.len(),
        crossings::position(s, x, i) < s.len() ==> s[crossings::position(s, x, i)] == x,
        forall|j: int| i <= j < crossings::position(s, x, i) ==> s[j] != x,
    decreases s.len() - i,
{
    if i < s.len() && s[i] != x {
        lemma_position(s, x, i + 1);
    }
}

proof fn lemma_first_common(up: Seq<ResourceId>, down: Seq<ResourceId>, i: int) -> (j: int)
    requires
        0 <= i <= down.len(),
    ensures
        match crossings::first_common(up, down, i) {
            Some(c) => i <= j < down.len() && down[j] == c && up.contains(c) && forall|l: int|
                i <= l < j ==> !up.contains(down[l]),
            None => forall|l: int| i <= l < down.len() ==> !up.contains(down[l]),
        },
    decreases down.len() - i,
{
    if i < down.len() && !up.contains(down[i]) {
        lemma_first_common(up, down, i + 1)
    } else {
        i
    }
}

/// Two windows have one lowest common ancestor, whichever of them is asked for
/// it first.
pub proof fn lemma_lowest_common_ancestor_is_symmetric(
    ws: Map<u32, WindowView>,
    a: ResourceId,
    b: ResourceId,
)
    requires
        is_rooted(ws, a),
        is_rooted(ws, b),
    ensures
        crossings::first_common(
            crossings::chain_from(ws, a, MAX_HOPS as nat),
            crossings::chain_from(ws, b, MAX_HOPS as nat),
            0,
        ) == crossings::first_common(
            crossings::chain_from(ws, b, MAX_HOPS as nat),
            crossings::chain_from(ws, a, MAX_HOPS as nat),
            0,
        ),
{
    let s = crossings::chain_from(ws, a, MAX_HOPS as nat);
    let t = crossings::chain_from(ws, b, MAX_HOPS as nat);
    let j = lemma_first_common(s, t, 0);
    let i = lemma_first_common(t, s, 0);
    match (crossings::first_common(s, t, 0), crossings::first_common(t, s, 0)) {
        (Some(c), Some(d)) => {
            let k = choose|k: int| 0 <= k < s.len() && s[k] == c;
            let l = choose|l: int| 0 <= l < t.len() && t[l] == d;
            lemma_shared_suffix(ws, a, b, k, j);
            lemma_shared_suffix(ws, a, b, i, l);
            assert(t.contains(s[k]));
            assert(s.contains(t[l]));
            assert(i <= k);
            assert(j <= l);
        },
        (Some(c), None) => {
            let k = choose|k: int| 0 <= k < s.len() && s[k] == c;
            assert(t.contains(s[k]));
        },
        (None, Some(d)) => {
            let l = choose|l: int| 0 <= l < t.len() && t[l] == d;
            assert(s.contains(t[l]));
        },
        (None, None) => {},
    }
}

/// A pointer that stays where it is crosses nothing.
pub proof fn lemma_no_crossing_without_a_move(ws: Map<u32, WindowView>, w: ResourceId)
    ensures
        crossings::crossing_events(ws, w, w) == Seq::<CrossingEvent>::empty(),
{
}

/// The events start by leaving the window left and end by entering the window
/// entered, both with no child; the events between are for windows passed over:
/// first those left and then those entered, each with a child whose parent is
/// that window.
pub proof fn lemma_crossings_lead_from_window_to_window(
    ws: Map<u32, WindowView>,
    from: ResourceId,
    to: ResourceId,
)
    requires
        from != to,
    ensures
        ({
            let events = crossings::crossing_events(ws, from, to);
            let n = events.len();
            &&& n >= 2
            &&& events[0].window == from && events[0].kind == CrossingKind::Leave
                && events[0].child == ResourceId(0)
            &&& events[n - 1].window == to && events[n - 1].kind == CrossingKind::Enter
                && events[n - 1].child == ResourceId(0)
            &&& forall|i: int|
                0 < i < n - 1 ==> {
                    let e = #[trigger] events[i];
                    &&& e.detail == NOTIFY_VIRTUAL || e.detail == NOTIFY_NONLINEAR_VIRTUAL
                    &&& ws.contains_key(e.child.0)
                    &&& ws[e.child.0].parent == e.window
                }
            &&& forall|i: int, j: int|
                0 <= i <= j < n && (#[trigger] events[j]).kind == CrossingKind::Leave ==> (
                #[trigger] events[i]).kind == CrossingKind::Leave
        }),
{
    let h = MAX_HOPS as nat;
    let up = crossings::chain_from(ws, from, h);
    let down = crossings::chain_from(ws, to, h);
    lemma_chain_follows_parents(ws, from, h);
    lemma_chain_follows_parents(ws, to, h);
    lemma_position(up, to, 1);
    lemma_position(down, from, 1);
    let common = crossings::first_common(up, down, 0);
    if let Some(c) = common {
        lemma_position(up, c, 1);
        lemma_position(down, c, 1);
    }
    let events = crossings::crossing_events(ws, from, to);
    let n = events.len();
    let climbed: int = if crossings::position(up, to, 1) < up.len() {
        crossings::position(up, to, 1) - 1
    } else if crossings::position(down, from, 1) < down.len() {
        0
    } else {
        crossings::meets(up, common) - 1
    };
    let stop: int = if crossings::position(up, to, 1) < up.len() {
        1
    } else if crossings::position(down, from, 1) < down.len() {
        crossings::position(down, from, 1)
    } else {
        crossings::meets(down, common)
    };
    assert(n == climbed + stop + 1);
    assert forall|i: int| 0 < i < n - 1 implies {
        let e = #[trigger] events[i];
        &&& e.detail == NOTIFY_VIRTUAL || e.detail == NOTIFY_NONLINEAR_VIRTUAL
        &&& ws.contains_key(e.child.0)
        &&& ws[e.child.0].parent == e.window
        &&& e.kind == (if i <= climbed {
            CrossingKind::Leave
        } else {
            CrossingKind::Enter
        })
    } by {
        if i <= climbed {
            assert(events[i].window == up[i] && events[i].child == up[i - 1]);
        } else {
            let d = stop - (i - climbed);
            assert(events[i].window == down[d] && events[i].child == down[d - 1]);
        }
    }
}

/// The way back is the way there, from its end, with entering and leaving
/// exchanged.
pub proof fn lemma_way_back_mirrors_way_there(
    ws: Map<u32, WindowView>,
    a: ResourceId,
    b: ResourceId,
)
    requires
        is_rooted(ws, a),
        is_rooted(ws, b),
    ensures
        crossings::crossing_events(ws, b, a) == crossings::crossing_events(
            ws,
            a,
            b,
        ).reverse().map_values(|e: CrossingEvent| mirrored(e)),
{
    let h = MAX_HOPS as nat;
    let s = crossings::chain_from(ws, a, h);
    let t = crossings::chain_from(ws, b, h);
    let there = crossings::crossing_events(ws, a, b);
    let back = crossings::crossing_events(ws, b, a);
    if a != b {
        lemma_chain_follows_parents(ws, a, h);
        lemma_chain_follows_parents(ws, b, h);
        lemma_position(s, b, 1);
        lemma_position(t, a, 1);
        let p = crossings::position(s, b, 1);
        let q = crossings::position(t, a, 1);
        if p < s.len() {
            lemma_shared_suffix(ws, a, b, p, 0);
        }
        if q < t.len() {
            lemma_shared_suffix(ws, a, b, 0, q);
        }
        lemma_lowest_common_ancestor_is_symmetric(ws, a, b);
        let common = crossings::first_common(s, t, 0);
        if let Some(c) = common {
            lemma_position(s, c, 1);
            lemma_position(t, c, 1);
        }
        assert(back.len() == there.len());
        assert(back =~= there.reverse().map_values(|e: CrossingEvent| mirrored(e)));
    }
}

/// Whether `w` is `start` or one of its ancestors, at most `hops` parents up.
pub open spec fn is_at_or_above(
    ws: Map<u32, WindowView>,
    start: ResourceId,
    w: ResourceId,
    hops: nat,
) -> bool
    decreases hops,
{
    ||| w == start
    ||| hops > 0 && !is_top(ws, start) && is_at_or_above(
        ws,
        ws[start.0].parent,
        w,
        (hops - 1) as nat,
    )
}

/// Whether the parents of `start` end at a top within `hops` of them.
pub open spec fn ends_at_a_top(ws: Map<u32, WindowView>, start: ResourceId, hops: nat) -> bool
    decreases hops,
{
    is_top(ws, start) || hops > 0 && ends_at_a_top(ws, ws[start.0].parent, (hops - 1) as nat)
}

/// How many of `events` are of `kind` for window `w`.
pub open spec fn times_told(events: Seq<CrossingEvent>, w: ResourceId, kind: CrossingKind) -> nat {
    events.filter(|e: CrossingEvent| e.window == w && e.kind == kind).len()
}

proof fn lemma_chain_is_what_is_above(
    ws: Map<u32, WindowView>,
    start: ResourceId,
    w: ResourceId,
    hops: nat,
)
    ensures
        crossings::chain_from(ws, start, hops).contains(w) <==> is_at_or_above(
            ws,
            start,
            w,
            hops,
        ),
        is_top(ws, crossings::chain_from(ws, start, hops).last()) <==> ends_at_a_top(
            ws,
            start,
            hops,
        ),
    decreases hops,
{
    let s = crossings::chain_from(ws, start, hops);
    lemma_chain_follows_parents(ws, start, hops);
    if hops > 0 && !is_top(ws, start) {
        let parent = ws[start.0].parent;
        let t = crossings::chain_from(ws, parent, (hops - 1) as nat);
        lemma_chain_is_what_is_above(ws, parent, w, (hops - 1) as nat);
        lemma_chain_follows_parents(ws, parent, (hops - 1) as nat);
        assert(s == seq![start] + t);
        assert(s.last() == t.last());
        if t.contains(w) {
            let i = choose|i: int| 0 <= i < t.len() && t[i] == w;
            assert(s[i + 1] == w);
        }
        if s.contains(w) && w != start {
            let i = choose|i: int| 0 <= i < s.len() && s[i] == w;
            assert(t[i - 1] == w);
        }
        assert(s[0] == start);
    } else {
        assert(s == seq![start]);
        assert(s[0] == start);
    }
}

/// A chain that ends at a top has no window twice.
proof fn lemma_chain_has_no_duplicates(ws: Map<u32, WindowView>, start: ResourceId)
    requires
        is_rooted(ws, start),
    ensures
        crossings::chain_from(ws, start, MAX_HOPS as nat).no_duplicates(),
{
    let s = crossings::chain_from(ws, start, MAX_HOPS as nat);
    assert forall|i: int, j: int| 0 <= i < s.len() && 0 <= j < s.len() && i != j implies s[i]
        != s[j] by {
        if s[i] == s[j] {
            lemma_shared_suffix(ws, start, start, i, j);
        }
    }
}

/// An event that stands at exactly one place is told once; one that stands
/// nowhere is not told.
proof fn lemma_told_once(events: Seq<CrossingEvent>, w: ResourceId, kind: CrossingKind, at: int)
    requires
        forall|i: int|
            0 <= i < events.len() ==> ((#[trigger] events[i]).window == w && events[i].kind == kind
                <==> i == at),
    ensures
        times_told(events, w, kind) == if 0 <= at < events.len() {
            1nat
        } else {
            0nat
        },
    decreases events.len(),
{
    let f = |e: CrossingEvent| e.window == w && e.kind == kind;
    reveal(Seq::filter);
    if events.len() > 0 {
        let t = events.drop_last();
        assert forall|i: int| 0 <= i < t.len() implies ((#[trigger] t[i]).window == w && t[i].kind
            == kind <==> i == at) by {
            assert(t[i] == events[i]);
        }
        lemma_told_once(t, w, kind, at);
        assert(events.last() == events[events.len() - 1]);
    } else {
        assert(events.filter(f).len() == 0);
    }
}

/// How the chains of two windows lie to each other: where the events stop
/// climbing, and where they start to descend.
proof fn lemma_stops(ws: Map<u32, WindowView>, from: ResourceId, to: ResourceId) -> (stops: (
    int,
    int,
))
    requires
        from != to,
        is_rooted(ws, from),
        is_rooted(ws, to),
    ensures
        ({
            let h = MAX_HOPS as nat;
            let up = crossings::chain_from(ws, from, h);
            let down = crossings::chain_from(ws, to, h);
            let (p, q) = stops;
            let events = crossings::crossing_events(ws, from, to);
            &&& 1 <= p <= up.len()
            &&& 1 <= q <= down.len()
            &&& events.len() == p + q
            &&& forall|i: int|
                #![trigger up[i]]
                1 <= i < up.len() ==> (i < p <==> !down.contains(up[i]))
            &&& forall|j: int|
                #![trigger down[j]]
                1 <= j < down.len() ==> (j < q <==> !up.contains(down[j]))
            &&& forall|i: int|
                0 <= i < p ==> (#[trigger] events[i]).window == up[i] && events[i].kind
                    == CrossingKind::Leave
            &&& forall|i: int|
                p <= i < p + q ==> (#[trigger] events[i]).window == down[p + q - 1 - i]
                    && events[i].kind == CrossingKind::Enter
            &&& forall|i: int| 1 <= i < p ==> (#[trigger] events[i]).child == up[i - 1]
            &&& forall|i: int|
                p <= i < p + q - 1 ==> (#[trigger] events[i]).child == down[p + q - 2 - i]
        }),
{
    let h = MAX_HOPS as nat;
    let up = crossings::chain_from(ws, from, h);
    let down = crossings::chain_from(ws, to, h);
    lemma_chain_follows_parents(ws, from, h);
    lemma_chain_follows_parents(ws, to, h);
    lemma_chain_has_no_duplicates(ws, from);
    lemma_chain_has_no_duplicates(ws, to);
    let a = crossings::position(up, to, 1);
    let b = crossings::position(down, from, 1);
    lemma_position(up, to, 1);
    lemma_position(down, from, 1);
    assert(up.contains(up[0]) && down.contains(down[0]));
    let events = crossings::crossing_events(ws, from, to);
    if a < up.len() {
        assert forall|i: int| #![trigger up[i]] 1 <= i < up.len() implies (i < a
            <==> !down.contains(up[i])) by {
            lemma_meets_at(ws, from, to, a, 0, i);
        }
        assert forall|j: int| #![trigger down[j]] 1 <= j < down.len() implies up.contains(
            down[j],
        ) by {
            lemma_meets_at(ws, to, from, 0, a, j);
        }
        (a, 1)
    } else if b < down.len() {
        assert forall|j: int| #![trigger down[j]] 1 <= j < down.len() implies (j < b
            <==> !up.contains(down[j])) by {
            lemma_meets_at(ws, to, from, b, 0, j);
        }
        assert forall|i: int| #![trigger up[i]] 1 <= i < up.len() implies down.contains(
            up[i],
        ) by {
            lemma_meets_at(ws, from, to, 0, b, i);
        }
        (1, b)
    } else {
        let common = crossings::first_common(up, down, 0);
        let m = lemma_first_common(up, down, 0);
        match common {
            Some(c) => {
                let l = choose|l: int| 0 <= l < up.len() && up[l] == c;
                lemma_position(up, c, 1);
                lemma_position(down, c, 1);
                assert(l > 0) by {
                    if l == 0 {
                        assert(down[m] == from);
                    }
                }
                assert(m > 0) by {
                    if m == 0 {
                        assert(up[l] == to);
                    }
                }
                let p = crossings::position(up, c, 1);
                let q = crossings::position(down, c, 1);
                assert(p == l && q == m);
                assert forall|i: int| #![trigger up[i]] 1 <= i < up.len() implies (i < p
                    <==> !down.contains(up[i])) by {
                    lemma_meets_at(ws, from, to, p, q, i);
                    if i < p && down.contains(up[i]) {
                        let j = choose|j: int| 0 <= j < down.len() && down[j] == up[i];
                        lemma_shared_suffix(ws, from, to, i, j);
                        lemma_shared_suffix(ws, from, to, p, q);
                        assert(j < m);
                        assert(!up.contains(down[j]));
                    }
                }
                assert forall|j: int| #![trigger down[j]] 1 <= j < down.len() implies (j < q
                    <==> !up.contains(down[j])) by {
                    lemma_meets_at(ws, to, from, q, p, j);
                }
                (p, q)
            },
            None => {
                assert forall|i: int| #![trigger up[i]] 1 <= i < up.len() implies !down.contains(
                    up[i],
                ) by {
                    if down.contains(up[i]) {
                        let j = choose|j: int| 0 <= j < down.len() && down[j] == up[i];
                        assert(!up.contains(down[j]));
                    }
                }
                (up.len() as int, down.len() as int)
            },
        }
    }
}

/// Above a window that two chains share, they share every window; below the
/// place where one of them starts, the other has none of it.
proof fn lemma_meets_at(
    ws: Map<u32, WindowView>,
    a: ResourceId,
    b: ResourceId,
    p: int,
    q: int,
    i: int,
)
    requires
        is_rooted(ws, a),
        is_rooted(ws, b),
        0 <= p < crossings::chain_from(ws, a, MAX_HOPS as nat).len(),
        0 <= q < crossings::chain_from(ws, b, MAX_HOPS as nat).len(),
        crossings::chain_from(ws, a, MAX_HOPS as nat)[p] == crossings::chain_from(
            ws,
            b,
            MAX_HOPS as nat,
        )[q],
        0 <= i < crossings::chain_from(ws, a, MAX_HOPS as nat).len(),
    ensures
        p <= i ==> crossings::chain_from(ws, b, MAX_HOPS as nat).contains(
            crossings::chain_from(ws, a, MAX_HOPS as nat)[i],
        ),
        q == 0 && i < p ==> !crossings::chain_from(ws, b, MAX_HOPS as nat).contains(
            crossings::chain_from(ws, a, MAX_HOPS as nat)[i],
        ),
{
    let h = MAX_HOPS as nat;
    let s = crossings::chain_from(ws, a, h);
    let t = crossings::chain_from(ws, b, h);
    lemma_shared_suffix(ws, a, b, p, q);
    if p <= i {
        lemma_chain_suffix(ws, a, h, p);
        lemma_chain_suffix(ws, b, h, q);
        assert(s.skip(p).last() == s.last());
        assert(t.skip(q).last() == t.last());
        lemma_complete_chains_agree(ws, s[p], (h - p) as nat, (h - q) as nat);
        assert(s.skip(p)[i - p] == t.skip(q)[i - p]);
        assert(t[q + i - p] == s[i]);
    }
    if q == 0 && i < p && t.contains(s[i]) {
        let j = choose|j: int| 0 <= j < t.len() && t[j] == s[i];
        lemma_shared_suffix(ws, a, b, i, j);
    }
}

/// Who is told of a move, in a tree of at most 256 levels: exactly the window left
/// and those of its ancestors that are not at or above the window entered get one
/// Leave; exactly the window entered and those of its ancestors that are not at or
/// above the window left get one Enter. Nobody is told twice.
pub proof fn lemma_everyone_on_the_way_is_told_once(
    ws: Map<u32, WindowView>,
    from: ResourceId,
    to: ResourceId,
    w: ResourceId,
)
    requires
        from != to,
        ends_at_a_top(ws, from, 256),
        ends_at_a_top(ws, to, 256),
    ensures
        times_told(crossings::crossing_events(ws, from, to), w, CrossingKind::Leave) == (if w
            == from || is_at_or_above(ws, from, w, 256) && !is_at_or_above(ws, to, w, 256) {
            1nat
        } else {
            0nat
        }),
        times_told(crossings::crossing_events(ws, from, to), w, CrossingKind::Enter) == (if w == to
            || is_at_or_above(ws, to, w, 256) && !is_at_or_above(ws, from, w, 256) {
            1nat
        } else {
            0nat
        }),
{
    let h = MAX_HOPS as nat;
    let up = crossings::chain_from(ws, from, h);
    let down = crossings::chain_from(ws, to, h);
    lemma_chain_is_what_is_above(ws, from, w, h);
    lemma_chain_is_what_is_above(ws, to, w, h);
    lemma_chain_follows_parents(ws, from, h);
    lemma_chain_follows_parents(ws, to, h);
    lemma_chain_has_no_duplicates(ws, from);
    lemma_chain_has_no_duplicates(ws, to);
    let (p, q) = lemma_stops(ws, from, to);
    let events = crossings::crossing_events(ws, from, to);
    let i: int = if up.contains(w) {
        choose|i: int| 0 <= i < up.len() && up[i] == w
    } else {
        -1
    };
    let j: int = if down.contains(w) {
        choose|j: int| 0 <= j < down.len() && down[j] == w
    } else {
        -1
    };
    let left: int = if 0 <= i < p {
        i
    } else {
        -1
    };
    let entered: int = if 0 <= j < q {
        p + q - 1 - j
    } else {
        -1
    };
    assert forall|k: int| 0 <= k < events.len() implies ((#[trigger] events[k]).window == w
        && events[k].kind == CrossingKind::Leave <==> k == left) by {
        if k < p {
            assert(events[k].window == up[k]);
            assert(up.contains(up[k]));
        }
    }
    assert forall|k: int| 0 <= k < events.len() implies ((#[trigger] events[k]).window == w
        && events[k].kind == CrossingKind::Enter <==> k == entered) by {
        if k >= p {
            assert(events[k].window == down[p + q - 1 - k]);
            assert(down.contains(down[p + q - 1 - k]));
        }
    }
    lemma_told_once(events, w, CrossingKind::Leave, left);
    lemma_told_once(events, w, CrossingKind::Enter, entered);
}

/// In which order windows are told, and of what, in a tree of at most 256 levels.
/// Leaving goes up and entering goes down: the child in the event of a window
/// passed over is the window told just before, on the way up, or told next, on the
/// way down. The details say how the two windows lie to each other: 0 for leaving
/// a window below the other one, 2 for one above it and 3 for one beside it, and
/// the other way round for entering; 1 and 4 for the windows between.
pub proof fn lemma_windows_are_told_in_order(
    ws: Map<u32, WindowView>,
    from: ResourceId,
    to: ResourceId,
    i: int,
)
    requires
        from != to,
        ends_at_a_top(ws, from, 256),
        ends_at_a_top(ws, to, 256),
        0 <= i < crossings::crossing_events(ws, from, to).len(),
    ensures
        ({
            let events = crossings::crossing_events(ws, from, to);
            let n = events.len();
            let e = events[i];
            let goes_up = is_at_or_above(ws, from, to, 256);
            let goes_down = is_at_or_above(ws, to, from, 256);
            &&& i > 0 && e.kind == CrossingKind::Leave ==> e.child == events[i - 1].window
            &&& i < n - 1 && e.kind == CrossingKind::Enter ==> e.child == events[i + 1].window
            &&& i == 0 ==> e.detail == (if goes_up {
                0
            } else if goes_down {
                2
            } else {
                3int
            })
            &&& i == n - 1 ==> e.detail == (if goes_up {
                2
            } else if goes_down {
                0
            } else {
                3int
            })
            &&& 0 < i < n - 1 ==> e.detail == (if goes_up || goes_down {
                1
            } else {
                4int
            })
        }),
{
    let h = MAX_HOPS as nat;
    let up = crossings::chain_from(ws, from, h);
    let down = crossings::chain_from(ws, to, h);
    lemma_chain_is_what_is_above(ws, from, to, h);
    lemma_chain_is_what_is_above(ws, to, from, h);
    lemma_chain_follows_parents(ws, from, h);
    lemma_chain_follows_parents(ws, to, h);
    let (p, q) = lemma_stops(ws, from, to);
    let events = crossings::crossing_events(ws, from, to);
    lemma_position(up, to, 1);
    lemma_position(down, from, 1);
    let a = crossings::position(up, to, 1);
    let b = crossings::position(down, from, 1);
    assert(a < up.len() <==> up.contains(to)) by {
        if up.contains(to) {
            let k = choose|k: int| 0 <= k < up.len() && up[k] == to;
            assert(k >= 1);
        }
    }
    assert(b < down.len() <==> down.contains(from)) by {
        if down.contains(from) {
            let k = choose|k: int| 0 <= k < down.len() && down[k] == from;
            assert(k >= 1);
        }
    }
    if 0 < i < p {
        assert(events[i - 1].window == up[i - 1]);
    }
    if p <= i < p + q - 1 {
        assert(events[i + 1].window == down[p + q - 1 - (i + 1)]);
    }
    let common = crossings::first_common(up, down, 0);
    if let Some(c) = common {
        lemma_position(up, c, 1);
        lemma_position(down, c, 1);
    }
}

/// The lowest common ancestor is at or above both windows, and below or at
/// everything else that is; there is none only if no window is above both.
pub proof fn lemma_lowest_common_ancestor_is_lowest(
    ws: Map<u32, WindowView>,
    a: ResourceId,
    b: ResourceId,
    w: ResourceId,
)
    requires
        ends_at_a_top(ws, a, 256),
        ends_at_a_top(ws, b, 256),
    ensures
        ({
            let common = crossings::first_common(
                crossings::chain_from(ws, a, MAX_HOPS as nat),
                crossings::chain_from(ws, b, MAX_HOPS as nat),
                0,
            );
            let above_both = is_at_or_above(ws, a, w, 256) && is_at_or_above(ws, b, w, 256);
            match common {
                Some(c) => {
                    &&& is_at_or_above(ws, a, c, 256)
                    &&& is_at_or_above(ws, b, c, 256)
                    &&& above_both ==> is_at_or_above(ws, c, w, 256)
                },
                None => !above_both,
            }
        }),
{
    let h = MAX_HOPS as nat;
    let s = crossings::chain_from(ws, a, h);
    let t = crossings::chain_from(ws, b, h);
    lemma_chain_is_what_is_above(ws, a, w, h);
    lemma_chain_is_what_is_above(ws, b, w, h);
    let j = lemma_first_common(s, t, 0);
    match crossings::first_common(s, t, 0) {
        Some(c) => {
            lemma_chain_is_what_is_above(ws, a, c, h);
            lemma_chain_is_what_is_above(ws, b, c, h);
            assert(t.contains(t[j]));
            if s.contains(w) && t.contains(w) {
                let l = choose|l: int| 0 <= l < t.len() && t[l] == w;
                assert(j <= l) by {
                    if l < j {
                        assert(!s.contains(t[l]));
                    }
                }
                lemma_chain_suffix(ws, b, h, j);
                assert(t.skip(j)[l - j] == w);
                assert(crossings::chain_from(ws, c, (h - j) as nat).contains(w));
                lemma_chain_is_what_is_above(ws, c, w, (h - j) as nat);
                lemma_more_hops_reach_more(ws, c, w, (h - j) as nat, h);
            }
        },
        None => {
            if s.contains(w) && t.contains(w) {
                let l = choose|l: int| 0 <= l < t.len() && t[l] == w;
                assert(!s.contains(t[l]));
            }
        },
    }
}

proof fn lemma_more_hops_reach_more(
    ws: Map<u32, WindowView>,
    start: ResourceId,
    w: ResourceId,
    few: nat,
    many: nat,
)
    requires
        few <= many,
        is_at_or_above(ws, start, w, few),
    ensures
        is_at_or_above(ws, start, w, many),
    decreases few,
{
    if w != start {
        lemma_more_hops_reach_more(
            ws,
            ws[start.0].parent,
            w,
            (few - 1) as nat,
            (many - 1) as nat,
        );
    }
}

} // verus!
