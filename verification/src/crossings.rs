//! EnterNotify and LeaveNotify events for a pointer that changes windows.
//!
//! When the pointer's logical window changes, X11 has every window on the way
//! through the tree told: the window left, the windows passed over, and the
//! window entered. An implicit grab activates and releases along the same way.

use std::collections::HashSet;

use vstd::prelude::*;

use crate::crossing_laws;
use crate::protocol::ResourceId;
use crate::resources::WindowView;
use crate::server::ServerState;

verus! {

pub const NOTIFY_ANCESTOR: u8 = 0;

pub const NOTIFY_VIRTUAL: u8 = 1;

pub const NOTIFY_INFERIOR: u8 = 2;

pub const NOTIFY_NONLINEAR: u8 = 3;

pub const NOTIFY_NONLINEAR_VIRTUAL: u8 = 4;

/// How many parents a walk up the tree visits at most, so that a malformed
/// tree cannot hold it up.
pub const MAX_HOPS: u32 = 256;

#[derive(Clone, Copy, Debug, PartialEq, Eq, Structural)]
pub enum CrossingKind {
    Enter,
    Leave,
}

#[derive(Clone, Copy, Debug, PartialEq, Eq, Structural)]
pub struct CrossingEvent {
    pub window: ResourceId,
    pub kind: CrossingKind,
    /// One of the `NOTIFY_*` constants.
    pub detail: u8,
    /// None, which is 0, for the window left and the window entered; for a
    /// window passed over, the next one on the way to the endpoint below it.
    pub child: ResourceId,
}

/// `start`, its parent, the parent of that, and so on: up to a window that is
/// its own parent or does not exist, or until `hops` parents were visited.
pub open spec fn chain_from(ws: Map<u32, WindowView>, start: ResourceId, hops: nat) -> Seq<
    ResourceId,
>
    decreases hops,
{
    if hops == 0 || !ws.contains_key(start.0) || ws[start.0].parent == start {
        seq![start]
    } else {
        seq![start] + chain_from(ws, ws[start.0].parent, (hops - 1) as nat)
    }
}

/// Index of the first `x` in `s` at or after `i`; the length of `s` if none.
pub open spec fn position(s: Seq<ResourceId>, x: ResourceId, i: int) -> int
    decreases s.len() - i,
{
    if i >= s.len() {
        s.len() as int
    } else if s[i] == x {
        i
    } else {
        position(s, x, i + 1)
    }
}

/// The first window of `down` at or after `i` that is in `up` as well.
pub open spec fn first_common(
    up: Seq<ResourceId>,
    down: Seq<ResourceId>,
    i: int,
) -> Option<ResourceId>
    decreases down.len() - i,
{
    if i >= down.len() {
        None
    } else if up.contains(down[i]) {
        Some(down[i])
    } else {
        first_common(up, down, i + 1)
    }
}

/// Where a walk along `s` meets `common`.
pub open spec fn meets(s: Seq<ResourceId>, common: Option<ResourceId>) -> int {
    match common {
        Some(c) => position(s, c, 1),
        None => s.len() as int,
    }
}

pub open spec fn endpoint(window: ResourceId, kind: CrossingKind, detail: u8) -> CrossingEvent {
    CrossingEvent { window, kind, detail, child: ResourceId(0) }
}

/// Leaving the windows of `s` between the first and `stop`, going up.
pub open spec fn climb(s: Seq<ResourceId>, stop: int, detail: u8) -> Seq<CrossingEvent> {
    Seq::new(
        (stop - 1) as nat,
        |i: int|
            CrossingEvent {
                window: s[i + 1],
                kind: CrossingKind::Leave,
                detail,
                child: s[i],
            },
    )
}

/// Entering the windows of `s` between `stop` and the first, going down.
pub open spec fn descend(s: Seq<ResourceId>, stop: int, detail: u8) -> Seq<CrossingEvent> {
    Seq::new(
        (stop - 1) as nat,
        |i: int|
            CrossingEvent {
                window: s[stop - 1 - i],
                kind: CrossingKind::Enter,
                detail,
                child: s[stop - 2 - i],
            },
    )
}

/// The events of a pointer that goes from the first window of `up` to the
/// first of `down`, which are different; each chain leads up to the root.
pub open spec fn events_along(up: Seq<ResourceId>, down: Seq<ResourceId>) -> Seq<CrossingEvent> {
    let from = up[0];
    let to = down[0];
    if position(up, to, 1) < up.len() {
        seq![endpoint(from, CrossingKind::Leave, NOTIFY_ANCESTOR)] + climb(
            up,
            position(up, to, 1),
            NOTIFY_VIRTUAL,
        ) + seq![endpoint(to, CrossingKind::Enter, NOTIFY_INFERIOR)]
    } else if position(down, from, 1) < down.len() {
        seq![endpoint(from, CrossingKind::Leave, NOTIFY_INFERIOR)] + descend(
            down,
            position(down, from, 1),
            NOTIFY_VIRTUAL,
        ) + seq![endpoint(to, CrossingKind::Enter, NOTIFY_ANCESTOR)]
    } else {
        let common = first_common(up, down, 0);
        seq![endpoint(from, CrossingKind::Leave, NOTIFY_NONLINEAR)] + climb(
            up,
            meets(up, common),
            NOTIFY_NONLINEAR_VIRTUAL,
        ) + descend(down, meets(down, common), NOTIFY_NONLINEAR_VIRTUAL)
            + seq![endpoint(to, CrossingKind::Enter, NOTIFY_NONLINEAR)]
    }
}

/// The events of a pointer that goes from `from` to `to`.
pub open spec fn crossing_events(
    ws: Map<u32, WindowView>,
    from: ResourceId,
    to: ResourceId,
) -> Seq<CrossingEvent> {
    if from == to {
        Seq::empty()
    } else {
        events_along(
            chain_from(ws, from, MAX_HOPS as nat),
            chain_from(ws, to, MAX_HOPS as nat),
        )
    }
}

/// Events for the pointer's logical window moving from `focus` to `grab`, in
/// the order in which they go out. For the start and end of an implicit grab:
/// the caller sends them with mode `NotifyGrab` or `NotifyUngrab`.
#[must_use]
pub fn implicit_grab_crossings(state: &ServerState, focus: ResourceId, grab: ResourceId) -> (r:
    Vec<CrossingEvent>)
    ensures
        r@ == crossing_events(state.resources@.windows, focus, grab),
{
    compute_crossing_chain(state, focus, grab)
}

/// Events for the pointer's logical window moving from `from` to `to` without a
/// grab: the caller sends them with mode `NotifyNormal`.
#[must_use]
pub fn normal_mode_crossings(state: &ServerState, from: ResourceId, to: ResourceId) -> (r: Vec<
    CrossingEvent,
>)
    ensures
        r@ == crossing_events(state.resources@.windows, from, to),
{
    compute_crossing_chain(state, from, to)
}

/// Index of the first `x` in `chain` behind its first entry; the length of
/// `chain` if there is none.
fn position_above(chain: &Vec<ResourceId>, x: ResourceId) -> (r: usize)
    requires
        chain@.len() >= 1,
    ensures
        r == position(chain@, x, 1),
        1 <= r <= chain@.len(),
{
    let n: usize = chain.len();
    let mut i: usize = 1;
    while i < n
        invariant
            1 <= i <= n == chain@.len(),
            position(chain@, x, 1) == position(chain@, x, i as int),
        decreases n - i,
    {
        if chain[i] == x {
            return i;
        }
        i += 1;
    }
    n
}

fn push_endpoint(
    events: &mut Vec<CrossingEvent>,
    window: ResourceId,
    kind: CrossingKind,
    detail: u8,
)
    ensures
        final(events)@ == old(events)@ + seq![endpoint(window, kind, detail)],
{
    events.push(CrossingEvent { window, kind, detail, child: ResourceId(0) });
    assert(events@ =~= old(events)@ + seq![endpoint(window, kind, detail)]);
}

fn push_climb(
    events: &mut Vec<CrossingEvent>,
    chain: &Vec<ResourceId>,
    stop: usize,
    detail: u8,
)
    requires
        1 <= stop <= chain@.len(),
    ensures
        final(events)@ == old(events)@ + climb(chain@, stop as int, detail),
{
    let ghost all = climb(chain@, stop as int, detail);
    assert(events@ =~= old(events)@ + all.take(0));
    for i in 1..stop
        invariant
            1 <= stop <= chain@.len(),
            all == climb(chain@, stop as int, detail),
            events@ == old(events)@ + all.take(i - 1),
    {
        events.push(
            CrossingEvent {
                window: chain[i],
                kind: CrossingKind::Leave,
                detail,
                child: chain[i - 1],
            },
        );
        assert(all.take(i as int) =~= all.take(i - 1).push(all[i - 1]));
        assert(events@ =~= old(events)@ + all.take(i as int));
    }
    assert(all.take(stop - 1) =~= all);
}

fn push_descend(
    events: &mut Vec<CrossingEvent>,
    chain: &Vec<ResourceId>,
    stop: usize,
    detail: u8,
)
    requires
        1 <= stop <= chain@.len(),
    ensures
        final(events)@ == old(events)@ + descend(chain@, stop as int, detail),
{
    let ghost all = descend(chain@, stop as int, detail);
    assert(events@ =~= old(events)@ + all.take(0));
    let mut i: usize = stop - 1;
    while i > 0
        invariant
            0 <= i < stop <= chain@.len(),
            all == descend(chain@, stop as int, detail),
            events@ == old(events)@ + all.take(stop - 1 - i),
        decreases i,
    {
        events.push(
            CrossingEvent {
                window: chain[i],
                kind: CrossingKind::Enter,
                detail,
                child: chain[i - 1],
            },
        );
        assert(all.take(stop - i) =~= all.take(stop - 1 - i).push(all[stop - 1 - i]));
        assert(events@ =~= old(events)@ + all.take(stop - i));
        i -= 1;
    }
    assert(all.take(stop - 1) =~= all);
}

fn compute_crossing_chain(state: &ServerState, from: ResourceId, to: ResourceId) -> (r: Vec<
    CrossingEvent,
>)
    ensures
        r@ == crossing_events(state.resources@.windows, from, to),
{
    let mut events: Vec<CrossingEvent> = Vec::new();
    if from == to {
        return events;
    }
    let ghost ws = state.resources@.windows;
    proof {
        crossing_laws::lemma_chain_follows_parents(ws, from, MAX_HOPS as nat);
        crossing_laws::lemma_chain_follows_parents(ws, to, MAX_HOPS as nat);
    }
    let from_chain = ancestor_chain(state, from);
    let to_chain = ancestor_chain(state, to);

    // Up into an ancestor.
    let above: usize = position_above(&from_chain, to);
    if above < from_chain.len() {
        push_endpoint(&mut events, from, CrossingKind::Leave, NOTIFY_ANCESTOR);
        push_climb(&mut events, &from_chain, above, NOTIFY_VIRTUAL);
        push_endpoint(&mut events, to, CrossingKind::Enter, NOTIFY_INFERIOR);
        assert(events@ =~= crossing_events(ws, from, to));
        return events;
    }

    // Down into a descendant.
    let below: usize = position_above(&to_chain, from);
    if below < to_chain.len() {
        push_endpoint(&mut events, from, CrossingKind::Leave, NOTIFY_INFERIOR);
        push_descend(&mut events, &to_chain, below, NOTIFY_VIRTUAL);
        push_endpoint(&mut events, to, CrossingKind::Enter, NOTIFY_ANCESTOR);
        assert(events@ =~= crossing_events(ws, from, to));
        return events;
    }

    // Across: up to the lowest common ancestor and down again.
    let common = lowest_common_ancestor(&from_chain, &to_chain);
    let (up, down): (usize, usize) = match common {
        Some(c) => (position_above(&from_chain, c), position_above(&to_chain, c)),
        None => (from_chain.len(), to_chain.len()),
    };
    push_endpoint(&mut events, from, CrossingKind::Leave, NOTIFY_NONLINEAR);
    push_climb(&mut events, &from_chain, up, NOTIFY_NONLINEAR_VIRTUAL);
    push_descend(&mut events, &to_chain, down, NOTIFY_NONLINEAR_VIRTUAL);
    push_endpoint(&mut events, to, CrossingKind::Enter, NOTIFY_NONLINEAR);
    assert(events@ =~= crossing_events(ws, from, to));
    events
}

/// `start` and its ancestors, up to the root: a window that is its own parent.
/// Ends early at a window that does not exist, or after `MAX_HOPS` parents.
pub fn ancestor_chain(state: &ServerState, start: ResourceId) -> (r: Vec<ResourceId>)
    ensures
        r@ == chain_from(state.resources@.windows, start, MAX_HOPS as nat),
{
    let ghost ws = state.resources@.windows;
    let ghost all = chain_from(ws, start, MAX_HOPS as nat);
    let mut chain: Vec<ResourceId> = Vec::new();
    chain.push(start);
    let mut current = start;
    let mut hops: u32 = 0;
    assert(all =~= chain@.drop_last() + all);
    while hops < MAX_HOPS
        invariant_except_break
            hops <= MAX_HOPS,
            ws == state.resources@.windows,
            chain@.len() >= 1,
            chain@.last() == current,
            all == chain@.drop_last() + chain_from(ws, current, (MAX_HOPS - hops) as nat),
        ensures
            chain@ == all,
        decreases MAX_HOPS - hops,
    {
        let Some(window) = state.resources.window(current) else {
            assert(chain@ =~= chain@.drop_last() + seq![current]);
            break;
        };
        let parent = window.parent;
        if parent == current {
            assert(chain@ =~= chain@.drop_last() + seq![current]);
            break;
        }
        let ghost before = chain@;
        chain.push(parent);
        assert(chain@.drop_last() =~= before);
        assert(before =~= before.drop_last() + seq![current]);
        assert(all =~= chain@.drop_last() + chain_from(
            ws,
            parent,
            (MAX_HOPS - hops - 1) as nat,
        ));
        current = parent;
        hops += 1;
        assert(hops == MAX_HOPS ==> chain@ =~= chain@.drop_last() + seq![current]);
    }
    chain
}

/// The first window of `b` that is in `a` as well. Of two chains to the root,
/// their lowest common ancestor.
pub fn lowest_common_ancestor(a: &Vec<ResourceId>, b: &Vec<ResourceId>) -> (r: Option<ResourceId>)
    ensures
        r == first_common(a@, b@, 0),
{
    broadcast use vstd::std_specs::hash::group_hash_axioms;

    let mut a_set: HashSet<u32> = HashSet::new();
    let n: usize = a.len();
    for i in 0..n
        invariant
            n == a@.len(),
            forall|x: u32| #[trigger]
                a_set@.contains(x) <==> exists|j: int| 0 <= j < i && (#[trigger] a@[j]).0 == x,
    {
        broadcast use vstd::std_specs::hash::group_hash_axioms;

        a_set.insert(a[i].0);
    }
    let m: usize = b.len();
    for i in 0..m
        invariant
            m == b@.len(),
            n == a@.len(),
            forall|x: u32| #[trigger]
                a_set@.contains(x) <==> exists|j: int| 0 <= j < n && (#[trigger] a@[j]).0 == x,
            first_common(a@, b@, 0) == first_common(a@, b@, i as int),
    {
        broadcast use vstd::std_specs::hash::group_hash_axioms;

        let found = a_set.contains(&b[i].0);
        assert(found == a@.contains(b@[i as int])) by {
            if found {
                let j = choose|j: int| 0 <= j < n && (#[trigger] a@[j]).0 == b@[i as int].0;
                assert(a@[j] == b@[i as int]);
            }
        }
        if found {
            return Some(b[i]);
        }
    }
    None
}

} // verus!
