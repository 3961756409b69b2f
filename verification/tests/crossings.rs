use yserver::crossings::{
    ancestor_chain, implicit_grab_crossings, lowest_common_ancestor, normal_mode_crossings,
    CrossingEvent, CrossingKind, NOTIFY_ANCESTOR, NOTIFY_INFERIOR, NOTIFY_NONLINEAR,
    NOTIFY_NONLINEAR_VIRTUAL, NOTIFY_VIRTUAL,
};
use yserver::protocol::{ClientId, CreateWindowRequest, ResourceId};
use yserver::resources::{ROOT_VISUAL, ROOT_WINDOW};
use yserver::server::ServerState;

fn make_window(state: &mut ServerState, id: u32, parent: ResourceId) -> ResourceId {
    let rid = ResourceId(id);
    state.resources.create_window(
        ClientId(1),
        CreateWindowRequest {
            depth: 24,
            window: rid,
            parent,
            x: 0,
            y: 0,
            width: 10,
            height: 10,
            border_width: 0,
            class: 1,
            visual: ResourceId(ROOT_VISUAL),
            ..Default::default()
        },
    );
    rid
}

fn windows_only(events: &[CrossingEvent]) -> Vec<ResourceId> {
    events.iter().map(|e| e.window).collect()
}

fn details_only(events: &[CrossingEvent]) -> Vec<u8> {
    events.iter().map(|e| e.detail).collect()
}

fn kinds_only(events: &[CrossingEvent]) -> Vec<CrossingKind> {
    events.iter().map(|e| e.kind).collect()
}

fn children_only(events: &[CrossingEvent]) -> Vec<ResourceId> {
    events.iter().map(|e| e.child).collect()
}

#[test]
fn equal_windows_emit_no_events() {
    let mut state = ServerState::new();
    let w = make_window(&mut state, 0x0010_0030, ResourceId(ROOT_WINDOW));
    assert!(implicit_grab_crossings(&state, w, w).is_empty());
}

#[test]
fn focus_descendant_of_grab_walks_up() {
    // root → A → B → focus, grab = A
    let mut state = ServerState::new();
    let a = make_window(&mut state, 0x0010_0010, ResourceId(ROOT_WINDOW));
    let b = make_window(&mut state, 0x0010_0011, a);
    let f = make_window(&mut state, 0x0010_0012, b);
    let events = implicit_grab_crossings(&state, f, a);
    assert_eq!(windows_only(&events), vec![f, b, a]);
    assert_eq!(
        kinds_only(&events),
        vec![
            CrossingKind::Leave,
            CrossingKind::Leave,
            CrossingKind::Enter
        ],
    );
    assert_eq!(
        details_only(&events),
        vec![NOTIFY_ANCESTOR, NOTIFY_VIRTUAL, NOTIFY_INFERIOR],
    );
    // child: Leave on focus → None. Virtual Leave on B (ancestor of
    // focus on path to focus) → child = f (immediate descendant of
    // B on path to f). Enter on grab (a) → None (source IS event
    // for Inferior detail; Xorg emits child=None on the dest).
    assert_eq!(
        children_only(&events),
        vec![ResourceId(0), f, ResourceId(0)],
    );
}

#[test]
fn focus_ancestor_of_grab_walks_down() {
    // root → focus → A → B → grab
    let mut state = ServerState::new();
    let f = make_window(&mut state, 0x0010_0020, ResourceId(ROOT_WINDOW));
    let a = make_window(&mut state, 0x0010_0021, f);
    let b = make_window(&mut state, 0x0010_0022, a);
    let g = make_window(&mut state, 0x0010_0023, b);
    let events = implicit_grab_crossings(&state, f, g);
    // Order: focus first, then ancestors of grab from closest-to-focus
    // outward, then grab.
    assert_eq!(windows_only(&events), vec![f, a, b, g]);
    assert_eq!(
        kinds_only(&events),
        vec![
            CrossingKind::Leave,
            CrossingKind::Enter,
            CrossingKind::Enter,
            CrossingKind::Enter,
        ],
    );
    assert_eq!(
        details_only(&events),
        vec![
            NOTIFY_INFERIOR,
            NOTIFY_VIRTUAL,
            NOTIFY_VIRTUAL,
            NOTIFY_ANCESTOR,
        ],
    );
    // child: Leave on focus → None. Virtual Enter on A → child = b
    // (immediate descendant of A on path to g). Virtual Enter on B
    // → child = g. Enter on grab → None.
    assert_eq!(
        children_only(&events),
        vec![ResourceId(0), b, g, ResourceId(0)],
    );
}

#[test]
fn root_to_direct_child_has_no_virtuals() {
    // root → frame (direct child). Cursor moves from root to frame.
    // This is the e16 hover-popup case: yserver must emit
    // LeaveNotify on root with detail=NotifyInferior so the WM
    // knows the cursor went into an inferior subtree.
    let mut state = ServerState::new();
    let frame = make_window(&mut state, 0x0010_0424, ResourceId(ROOT_WINDOW));
    let events = normal_mode_crossings(&state, ResourceId(ROOT_WINDOW), frame);
    assert_eq!(windows_only(&events), vec![ResourceId(ROOT_WINDOW), frame]);
    assert_eq!(
        kinds_only(&events),
        vec![CrossingKind::Leave, CrossingKind::Enter],
    );
    assert_eq!(
        details_only(&events),
        vec![NOTIFY_INFERIOR, NOTIFY_ANCESTOR]
    );
    assert_eq!(children_only(&events), vec![ResourceId(0), ResourceId(0)]);
}

#[test]
fn disjoint_subtrees_walk_through_common_ancestor() {
    // root → C → A → focus
    // root → C → B → grab
    let mut state = ServerState::new();
    let c = make_window(&mut state, 0x0010_0040, ResourceId(ROOT_WINDOW));
    let a = make_window(&mut state, 0x0010_0041, c);
    let f = make_window(&mut state, 0x0010_0042, a);
    let b = make_window(&mut state, 0x0010_0043, c);
    let g = make_window(&mut state, 0x0010_0044, b);
    let events = implicit_grab_crossings(&state, f, g);
    assert_eq!(windows_only(&events), vec![f, a, b, g]);
    assert_eq!(
        kinds_only(&events),
        vec![
            CrossingKind::Leave,
            CrossingKind::Leave,
            CrossingKind::Enter,
            CrossingKind::Enter,
        ],
    );
    assert_eq!(
        details_only(&events),
        vec![
            NOTIFY_NONLINEAR,
            NOTIFY_NONLINEAR_VIRTUAL,
            NOTIFY_NONLINEAR_VIRTUAL,
            NOTIFY_NONLINEAR,
        ],
    );
    // child: Leave on focus → None. NonlinearVirtual Leave on A →
    // child = f (descendant of A on path to source f).
    // NonlinearVirtual Enter on B → child = g (descendant of B on
    // path to destination g). Enter on grab → None.
    assert_eq!(
        children_only(&events),
        vec![ResourceId(0), f, g, ResourceId(0)],
    );
}

#[test]
fn disjoint_with_root_as_only_common_ancestor() {
    // root → focus, root → grab — common ancestor is root, which
    // is *not* in the chains' "skip root" iteration: chains end at
    // root because window.parent == current at root, so root never
    // gets a Leave/Enter virtual.
    let mut state = ServerState::new();
    let f = make_window(&mut state, 0x0010_0050, ResourceId(ROOT_WINDOW));
    let g = make_window(&mut state, 0x0010_0051, ResourceId(ROOT_WINDOW));
    let events = implicit_grab_crossings(&state, f, g);
    // Just Leave on focus + Enter on grab (no virtuals because no
    // intermediate ancestors below root).
    assert_eq!(windows_only(&events), vec![f, g]);
    assert_eq!(
        details_only(&events),
        vec![NOTIFY_NONLINEAR, NOTIFY_NONLINEAR],
    );
    assert_eq!(children_only(&events), vec![ResourceId(0), ResourceId(0)]);
}

#[test]
fn ancestor_chain_is_capped() {
    // Chain length cap is defensive — there's no practical way to
    // construct a 257-deep tree in the test harness here, so just
    // assert the code path doesn't loop forever on a sane case.
    let mut state = ServerState::new();
    let mut parent = ResourceId(ROOT_WINDOW);
    for i in 0..32 {
        parent = make_window(&mut state, 0x0010_0100 + i, parent);
    }
    let chain = ancestor_chain(&state, parent);
    // 33 entries: the leaf + 32 ancestors up to and including root.
    // (root is included because we hit it via parent==current and
    // break *after* pushing.)
    assert!(chain.len() >= 32, "chain too short: {}", chain.len());
    assert!(chain.len() <= 257);
}

#[test]
fn a_long_chain_stops_at_the_limit() {
    let mut state = ServerState::new();
    let mut parent = ResourceId(ROOT_WINDOW);
    for i in 0..300 {
        parent = make_window(&mut state, 0x0010_0100 + i, parent);
    }
    let chain = ancestor_chain(&state, parent);
    assert_eq!(chain.len(), 257);
    assert_eq!(chain[0], parent);
}

#[test]
fn a_cycle_of_parents_ends() {
    let mut state = ServerState::new();
    let a = make_window(&mut state, 0x0010_0001, ResourceId(0x0010_0002));
    let b = make_window(&mut state, 0x0010_0002, a);
    assert_eq!(ancestor_chain(&state, b).len(), 257);
}

#[test]
fn a_missing_window_ends_its_chain() {
    let state = ServerState::new();
    assert_eq!(ancestor_chain(&state, ResourceId(7)), vec![ResourceId(7)]);
    let events = normal_mode_crossings(&state, ResourceId(7), ResourceId(8));
    assert_eq!(windows_only(&events), vec![ResourceId(7), ResourceId(8)]);
    assert_eq!(
        details_only(&events),
        vec![NOTIFY_NONLINEAR, NOTIFY_NONLINEAR]
    );
}

#[test]
fn both_modes_cross_alike() {
    let mut state = ServerState::new();
    let a = make_window(&mut state, 0x0010_0010, ResourceId(ROOT_WINDOW));
    let b = make_window(&mut state, 0x0010_0011, a);
    let c = make_window(&mut state, 0x0010_0012, ResourceId(ROOT_WINDOW));
    assert_eq!(
        implicit_grab_crossings(&state, b, c),
        normal_mode_crossings(&state, b, c)
    );
}

#[test]
fn the_way_back_mirrors_the_way_there() {
    let mut state = ServerState::new();
    let c = make_window(&mut state, 0x0010_0040, ResourceId(ROOT_WINDOW));
    let a = make_window(&mut state, 0x0010_0041, c);
    let f = make_window(&mut state, 0x0010_0042, a);
    let b = make_window(&mut state, 0x0010_0043, c);
    let g = make_window(&mut state, 0x0010_0044, b);
    let all = [ResourceId(ROOT_WINDOW), a, b, c, f, g];
    for x in all {
        for y in all {
            let mut there = normal_mode_crossings(&state, x, y);
            there.reverse();
            for e in there.iter_mut() {
                e.kind = match e.kind {
                    CrossingKind::Enter => CrossingKind::Leave,
                    CrossingKind::Leave => CrossingKind::Enter,
                };
            }
            assert_eq!(normal_mode_crossings(&state, y, x), there);
        }
    }
}

#[test]
fn the_lowest_common_ancestor_is_the_first_shared_one() {
    let up = vec![ResourceId(5), ResourceId(3), ResourceId(2), ResourceId(1)];
    let down = vec![ResourceId(6), ResourceId(2), ResourceId(1)];
    assert_eq!(lowest_common_ancestor(&up, &down), Some(ResourceId(2)));
    assert_eq!(lowest_common_ancestor(&down, &up), Some(ResourceId(2)));
    assert_eq!(lowest_common_ancestor(&up, &vec![ResourceId(9)]), None);
}
