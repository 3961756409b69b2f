use yserver::protocol::{
    AtomId, ChangeWindowAttributesRequest, CharInfo, ClientId, ConfigureWindowRequest,
    CreateGcRequest, CreatePixmapRequest, CreateWindowRequest, FontMetrics, GcChange,
    PropertyValue, ResourceId,
};
use yserver::resources::{
    MapState, ResourceTable, WindowClass, ROOT_COLORMAP, ROOT_VISUAL, ROOT_WINDOW, SERVER_OWNER,
};

fn make_window(table: &mut ResourceTable, id: u32) {
    table.create_window(
        ClientId(1),
        CreateWindowRequest {
            depth: 24,
            window: ResourceId(id),
            parent: ResourceId(ROOT_WINDOW),
            x: 0,
            y: 0,
            width: 100,
            height: 100,
            border_width: 0,
            class: 1,
            visual: ResourceId(ROOT_VISUAL),
            background_pixel: None,
            event_mask: None,
            override_redirect: None,
        },
    );
}

#[test]
fn unmap_window_returns_true_on_transition_from_viewable() {
    let mut table = ResourceTable::new();
    make_window(&mut table, 0x100002);
    table.map_window(ResourceId(0x100002));
    assert_eq!(
        table.window(ResourceId(0x100002)).unwrap().map_state,
        MapState::Viewable
    );
    let was_mapped = table.unmap_window(ResourceId(0x100002));
    assert!(was_mapped);
    assert_eq!(
        table.window(ResourceId(0x100002)).unwrap().map_state,
        MapState::Unmapped
    );
}

#[test]
fn unmap_window_returns_true_on_transition_from_unviewable() {
    let mut table = ResourceTable::new();
    make_window(&mut table, 0x100002);
    // Force Unviewable directly — no public setter, but the field is pub.
    table.windows.get_mut(&0x100002).unwrap().map_state = MapState::Unviewable;
    let was_mapped = table.unmap_window(ResourceId(0x100002));
    assert!(was_mapped);
    assert_eq!(
        table.window(ResourceId(0x100002)).unwrap().map_state,
        MapState::Unmapped
    );
}

#[test]
fn unmap_window_returns_false_when_already_unmapped() {
    let mut table = ResourceTable::new();
    make_window(&mut table, 0x100002);
    // create_window leaves new windows Unmapped.
    assert_eq!(
        table.window(ResourceId(0x100002)).unwrap().map_state,
        MapState::Unmapped
    );
    let first = table.unmap_window(ResourceId(0x100002));
    assert!(!first);
    let second = table.unmap_window(ResourceId(0x100002));
    assert!(!second);
}

#[test]
fn unmap_window_returns_false_for_unknown_window() {
    let mut table = ResourceTable::new();
    let was_mapped = table.unmap_window(ResourceId(0x9999_9999));
    assert!(!was_mapped);
}

#[test]
fn unmap_window_no_ops_on_root() {
    let mut table = ResourceTable::new();
    assert_eq!(
        table.window(ResourceId(ROOT_WINDOW)).unwrap().map_state,
        MapState::Viewable
    );
    let was_mapped = table.unmap_window(ResourceId(ROOT_WINDOW));
    assert!(!was_mapped);
    assert_eq!(
        table.window(ResourceId(ROOT_WINDOW)).unwrap().map_state,
        MapState::Viewable
    );
}

#[test]
fn unmap_window_state_machine() {
    for initial in [MapState::Viewable, MapState::Unviewable, MapState::Unmapped] {
        for n in 1usize..=5 {
            let mut table = ResourceTable::new();
            make_window(&mut table, 0x100002);
            let target = ResourceId(0x100002);
            table.windows.get_mut(&target.0).unwrap().map_state = initial;
            let mut results = Vec::with_capacity(n);
            for _ in 0..n {
                results.push(table.unmap_window(target));
            }
            assert_eq!(results[0], initial != MapState::Unmapped);
            for r in results.iter().skip(1) {
                assert!(!*r, "subsequent calls must return false");
            }
            assert_eq!(table.window(target).unwrap().map_state, MapState::Unmapped);
        }
    }
}

fn child_of(table: &mut ResourceTable, owner: u32, id: u32, parent: u32) {
    table.create_window(
        ClientId(owner),
        CreateWindowRequest {
            depth: 24,
            window: ResourceId(id),
            parent: ResourceId(parent),
            ..Default::default()
        },
    );
}

fn blank_char() -> CharInfo {
    CharInfo {
        left_side_bearing: 0,
        right_side_bearing: 0,
        character_width: 0,
        ascent: 0,
        descent: 0,
        attributes: 0,
    }
}

fn blank_metrics() -> FontMetrics {
    FontMetrics {
        min_bounds: blank_char(),
        max_bounds: blank_char(),
        min_char_or_byte2: 0,
        max_char_or_byte2: 0,
        default_char: 0,
        draw_direction: 0,
        min_byte1: 0,
        max_byte1: 0,
        all_chars_exist: true,
        font_ascent: 9,
        font_descent: 2,
        properties: Vec::new(),
        char_infos: Vec::new(),
    }
}

#[test]
fn a_fresh_table_holds_the_root() {
    let table = ResourceTable::new();
    let root = table.window(ResourceId(ROOT_WINDOW)).unwrap();
    assert_eq!((root.width, root.height, root.depth), (800, 600, 24));
    assert_eq!(root.parent, ResourceId(ROOT_WINDOW));
    assert_eq!(root.owner, ClientId(SERVER_OWNER));
    assert_eq!(root.background_pixel, 0x00ff_ffff);
    assert!(table.children(ResourceId(ROOT_WINDOW)).is_empty());
    assert!(!table.any_resource_exists(ResourceId(ROOT_COLORMAP)));
}

#[test]
fn a_window_is_created_under_its_parent() {
    let mut table = ResourceTable::new();
    make_window(&mut table, 0x100002);
    make_window(&mut table, 0x100003);
    assert_eq!(
        table.children(ResourceId(ROOT_WINDOW)),
        &[ResourceId(0x100002), ResourceId(0x100003)]
    );
    let w = table.window(ResourceId(0x100002)).unwrap();
    assert_eq!(w.class, WindowClass::InputOutput);
    assert_eq!(w.owner, ClientId(1));
    assert!(!w.override_redirect);
}

#[test]
fn an_unknown_parent_gets_a_stand_in() {
    let mut table = ResourceTable::new();
    child_of(&mut table, 1, 0x20, 0x10);
    let parent = table.window(ResourceId(0x10)).unwrap();
    assert_eq!((parent.width, parent.height), (1, 1));
    assert_eq!(parent.map_state, MapState::Unmapped);
    assert_eq!(parent.parent, ResourceId(ROOT_WINDOW));
    assert_eq!(table.children(ResourceId(0x10)), &[ResourceId(0x20)]);
    assert_eq!(table.window(ResourceId(0x20)).unwrap().visual, ResourceId(ROOT_VISUAL));
}

#[test]
fn destroying_a_window_destroys_what_is_below() {
    let mut table = ResourceTable::new();
    child_of(&mut table, 1, 1, ROOT_WINDOW);
    child_of(&mut table, 1, 2, 1);
    child_of(&mut table, 1, 3, 1);
    child_of(&mut table, 1, 4, 2);
    child_of(&mut table, 1, 5, ROOT_WINDOW);
    let gone = table.destroy_window(ResourceId(1));
    assert_eq!(
        gone,
        vec![ResourceId(1), ResourceId(2), ResourceId(4), ResourceId(3)]
    );
    for id in 1..=4 {
        assert!(table.window(ResourceId(id)).is_none());
    }
    assert_eq!(table.children(ResourceId(ROOT_WINDOW)), &[ResourceId(5)]);
    assert!(table.destroy_window(ResourceId(1)).is_empty());
}

#[test]
fn destroying_undoes_creating() {
    let mut table = ResourceTable::new();
    child_of(&mut table, 1, 1, ROOT_WINDOW);
    child_of(&mut table, 1, 2, 1);
    assert_eq!(table.destroy_window(ResourceId(2)), vec![ResourceId(2)]);
    assert!(table.children(ResourceId(1)).is_empty());
    assert!(table.window(ResourceId(1)).is_some());
}

#[test]
fn attributes_and_geometry_change_what_they_name() {
    let mut table = ResourceTable::new();
    make_window(&mut table, 2);
    table.change_window_attributes(ChangeWindowAttributesRequest {
        window: ResourceId(2),
        background_pixel: Some(5),
        cursor: None,
    });
    assert_eq!(table.window(ResourceId(2)).unwrap().background_pixel, 5);
    assert_eq!(table.window(ResourceId(2)).unwrap().cursor, None);
    table.change_window_attributes(ChangeWindowAttributesRequest {
        window: ResourceId(2),
        background_pixel: None,
        cursor: Some(ResourceId(9)),
    });
    assert_eq!(table.window(ResourceId(2)).unwrap().background_pixel, 5);
    assert_eq!(table.window(ResourceId(2)).unwrap().cursor, Some(ResourceId(9)));
    let w = table
        .configure_window(ConfigureWindowRequest {
            window: ResourceId(2),
            x: Some(-3),
            y: None,
            width: None,
            height: Some(7),
            border_width: None,
        })
        .unwrap();
    assert_eq!((w.x, w.y, w.width, w.height), (-3, 0, 100, 7));
    assert!(table
        .configure_window(ConfigureWindowRequest {
            window: ResourceId(3),
            x: Some(-3),
            y: None,
            width: None,
            height: None,
            border_width: None,
        })
        .is_none());
}

#[test]
fn a_property_reads_back_until_deleted() {
    let mut table = ResourceTable::new();
    let root = ResourceId(ROOT_WINDOW);
    let value = PropertyValue {
        type_atom: AtomId(31),
        format: 8,
        data: vec![1, 2, 3],
    };
    table.set_window_property(root, AtomId(39), value);
    assert_eq!(table.window_property(root, AtomId(39)).unwrap().data, vec![1, 2, 3]);
    assert!(table.window_property(root, AtomId(40)).is_none());
    assert_eq!(
        table.delete_window_property(root, AtomId(39)).unwrap().data,
        vec![1, 2, 3]
    );
    assert!(table.window_property(root, AtomId(39)).is_none());
    assert!(table.delete_window_property(root, AtomId(39)).is_none());
}

#[test]
fn contexts_start_from_defaults() {
    let mut table = ResourceTable::new();
    let gc = ResourceId(0x30);
    assert_eq!(table.gc_foreground(gc), 0);
    assert_eq!(table.gc_background(gc), 0x00ff_ffff);
    table.create_gc(
        ClientId(1),
        CreateGcRequest {
            gc,
            drawable: ResourceId(ROOT_WINDOW),
            foreground: Some(4),
            background: None,
            line_width: None,
            font: None,
        },
    );
    assert_eq!(table.gc_foreground(gc), 4);
    table.change_gc(GcChange {
        gc,
        foreground: None,
        background: Some(6),
        line_width: Some(2),
        font: Some(ResourceId(0x40)),
    });
    let g = table.gc(gc).unwrap();
    assert_eq!((g.foreground, g.background, g.line_width), (4, 6, 2));
    assert_eq!(g.font, Some(ResourceId(0x40)));
    table.change_gc(GcChange {
        gc: ResourceId(0x31),
        foreground: None,
        background: None,
        line_width: None,
        font: None,
    });
    assert_eq!(table.gc(ResourceId(0x31)).unwrap().owner, ClientId(SERVER_OWNER));
    table.free_gc(gc);
    assert!(table.gc(gc).is_none());
}

#[test]
fn a_fontable_is_a_font_or_a_context_with_one() {
    let mut table = ResourceTable::new();
    table.install_font(ClientId(1), ResourceId(0x40), String::from("fixed"), 77, blank_metrics());
    table.change_gc(GcChange {
        gc: ResourceId(0x30),
        foreground: None,
        background: None,
        line_width: None,
        font: Some(ResourceId(0x40)),
    });
    assert_eq!(table.font(ResourceId(0x40)).unwrap().name, "fixed");
    assert_eq!(table.fontable(ResourceId(0x40)).unwrap().host_xid, 77);
    assert_eq!(table.fontable(ResourceId(0x30)).unwrap().host_xid, 77);
    assert!(table.fontable(ResourceId(0x31)).is_none());
    assert_eq!(table.close_font(ResourceId(0x40)).unwrap().metrics.font_ascent, 9);
    assert!(table.fontable(ResourceId(0x30)).is_none());
}

#[test]
fn pixmaps_and_cursors_come_and_go() {
    let mut table = ResourceTable::new();
    table.create_pixmap(
        ClientId(2),
        CreatePixmapRequest {
            depth: 8,
            pixmap: ResourceId(0x50),
            drawable: ResourceId(ROOT_WINDOW),
            width: 3,
            height: 4,
        },
    );
    table.create_glyph_cursor(ClientId(2), ResourceId(0x51));
    assert_eq!(table.pixmap(ResourceId(0x50)).unwrap().height, 4);
    assert!(table.any_resource_exists(ResourceId(0x50)));
    assert!(table.any_resource_exists(ResourceId(0x51)));
    table.free_pixmap(ResourceId(0x50));
    table.free_cursor(ResourceId(0x51));
    assert!(!table.any_resource_exists(ResourceId(0x50)));
    assert!(!table.any_resource_exists(ResourceId(0x51)));
}

#[test]
fn a_client_takes_its_resources_along() {
    let mut table = ResourceTable::new();
    for (owner, id, xid) in [(1, 0x40, 70), (2, 0x41, 71), (1, 0x42, 72)] {
        table.install_font(
            ClientId(owner),
            ResourceId(id),
            String::from("fixed"),
            xid,
            blank_metrics(),
        );
        table.create_glyph_cursor(ClientId(owner), ResourceId(id + 0x100));
    }
    make_window(&mut table, 0x60);
    let mut closed = table.remove_non_window_resources_owned_by(ClientId(1));
    closed.sort();
    assert_eq!(closed, vec![70, 72]);
    assert!(table.font(ResourceId(0x41)).is_some());
    assert!(table.font(ResourceId(0x40)).is_none());
    assert!(!table.any_resource_exists(ResourceId(0x140)));
    assert!(table.any_resource_exists(ResourceId(0x141)));
    assert!(table.window(ResourceId(0x60)).is_some());
}

#[test]
fn top_level_windows_of_a_client() {
    let mut table = ResourceTable::new();
    child_of(&mut table, 1, 1, ROOT_WINDOW);
    child_of(&mut table, 1, 2, 1);
    child_of(&mut table, 2, 3, 1);
    child_of(&mut table, 1, 4, 3);
    let mut out = vec![ResourceId(99)];
    table.collect_owned_window_roots(ClientId(1), &mut out);
    assert_eq!(out[0], ResourceId(99));
    let mut rest: Vec<u32> = out[1..].iter().map(|r| r.0).collect();
    rest.sort();
    assert_eq!(rest, vec![1, 4]);
    for id in &out[1..] {
        table.destroy_window(*id);
    }
    assert!(table.windows.values().all(|w| w.owner != ClientId(1)));
}

#[test]
fn classes_and_states_have_protocol_values() {
    for value in [0u16, 1, 2, 3, 500] {
        assert_eq!(WindowClass::from_protocol(value).protocol_value(), value);
    }
    assert_eq!(WindowClass::from_protocol(2), WindowClass::InputOnly);
    assert_eq!(MapState::Unmapped.protocol_value(), 0);
    assert_eq!(MapState::Unviewable.protocol_value(), 1);
    assert_eq!(MapState::Viewable.protocol_value(), 2);
}
