use yserver::backend::{
    AnyHandle, BackendError, DrawState, FontHandle, GcFunction, HostSubwindowConfig, PixmapHandle,
    WindowHandle,
};
use yserver::host_x11::HostSubwindowVisual;
use yserver::kms::compose::CompositeStep;
use yserver::kms::events::{HostExposeEvent, HostPointerEvent, PointerEventKind};
use yserver::kms::image::{Color, PixelFormat, PixmanImage};
use yserver::kms::input::{
    button_number, get_modifier_mapping, keyboard_mapping, serialize_modifiers, ActiveModifiers,
};
use yserver::kms::pictures::{read_trapezoids, FixedLine, FixedPoint};
use yserver::kms::raster::Rectangle16;
use yserver::kms::state::{KmsBackend, PictureState};
use yserver::protocol::ResourceId;

const ROOT: u32 = 1;

fn screen() -> KmsBackend {
    KmsBackend::new(800, 600)
}

fn window(k: &mut KmsBackend, parent: u32, x: i16, y: i16, w: u16, h: u16) -> u32 {
    let parent = WindowHandle::from_raw(parent).unwrap();
    let visual = HostSubwindowVisual::CopyFromParent;
    k.create_subwindow(parent, x, y, w, h, 0, visual, None).0.as_raw()
}

fn mapped(k: &mut KmsBackend, parent: u32, x: i16, y: i16, w: u16, h: u16) -> u32 {
    let id = window(k, parent, x, y, w, h);
    k.map_subwindow(id);
    id
}

fn expose(host_xid: u32, width: u16, height: u16) -> HostExposeEvent {
    HostExposeEvent { host_xid, x: 0, y: 0, width, height, count: 0 }
}

fn shorts(values: &[i16]) -> Vec<u8> {
    values.iter().flat_map(|v| v.to_le_bytes()).collect()
}

fn xor(k: &mut KmsBackend) {
    k.apply_draw_state(&DrawState { function: GcFunction::Xor, font: None });
}

fn lit(k: &KmsBackend, xid: u32) -> Vec<(i32, i32)> {
    let img = k.image(xid).unwrap();
    let mut out = Vec::new();
    for y in 0..img.height as i32 {
        for x in 0..img.width as i32 {
            if img.read(x, y).unwrap() != 0 {
                out.push((x, y));
            }
        }
    }
    out
}

#[test]
fn fresh_screen() {
    let k = screen();
    assert_eq!(k.fb_dimensions(), (800, 600));
    assert_eq!(k.window_id(), 1);
    assert_eq!(k.root_visual_xid(), 0x21);
    assert_eq!(k.xid_map.get(&1), Some(&ResourceId(0x100)));
    assert_eq!(k.render_opcode(), Some(133));
    assert_eq!(k.render_query_version(), (1, 1));
    assert_eq!(k.render_format_for_ynest_id(0), None);
    assert_eq!(k.render_format_for_ynest_id(4), Some(4));
    assert!(k.window_under_cursor().is_none());
}

#[test]
fn identifiers_count_up() {
    let mut k = screen();
    assert_eq!(window(&mut k, ROOT, 0, 0, 1, 1), 0x0040_0001);
    assert_eq!(k.create_pixmap(24, 1, 1).as_raw(), 0x0040_0002);
    assert_eq!(k.create_cursor().as_raw(), 0x0040_0003);
    let handle = PixmapHandle::from_raw(0x0040_0002).unwrap();
    assert_eq!(k.render_create_picture(AnyHandle::Pixmap(handle)).as_raw(), 0x0040_0004);
    k.free_pixmap(0x0040_0002);
    assert_eq!(k.create_pixmap(24, 1, 1).as_raw(), 0x0040_0005);
}

#[test]
fn new_windows_are_blank_with_a_background_to_fill() {
    let mut k = screen();
    let parent = WindowHandle::from_raw(ROOT).unwrap();
    let visual = HostSubwindowVisual::Explicit { depth: 32, visual_xid: 9, colormap_xid: 8 };
    let (id, fill) = k.create_subwindow(parent, 3, 4, 5, 6, 7, visual, Some(0x0001_0203));
    let fill = fill.unwrap();
    assert_eq!(fill.color, Color { red: 0x0100, green: 0x0200, blue: 0x0300, alpha: 0xffff });
    assert_eq!(fill.rects, [Rectangle16 { x: 0, y: 0, width: 5, height: 6 }]);
    let w = k.window(id.as_raw()).unwrap();
    assert_eq!((w.x, w.y, w.width, w.height, w.border_width), (3, 4, 5, 6, 7));
    assert_eq!((w.depth, w.visual, w.mapped), (32, 9, false));
    assert_eq!((w.parent, w.bg_pixel), (Some(ROOT), Some(0x0001_0203)));
    assert_eq!(w.image.format, PixelFormat::X8R8G8B8);
    assert!(w.image.data.iter().all(|&p| p == 0) && w.image.data.len() == 30);
}

#[test]
fn children_are_listed_in_order() {
    let mut k = screen();
    let top = window(&mut k, ROOT, 0, 0, 9, 9);
    let a = window(&mut k, top, 0, 0, 1, 1);
    let b = window(&mut k, top, 0, 0, 1, 1);
    assert_eq!(k.window(top).unwrap().children, [a, b]);
    let other = window(&mut k, ROOT, 0, 0, 9, 9);
    k.reparent_subwindow(a, other, 5, 6);
    assert_eq!(k.window(top).unwrap().children, [b]);
    assert_eq!(k.window(other).unwrap().children, [a]);
    let moved = k.window(a).unwrap();
    assert_eq!((moved.parent, moved.x, moved.y), (Some(other), 5, 6));
    k.destroy_subwindow(b);
    assert!(k.window(top).unwrap().children.is_empty());
    // Below its own parent again: to the end of the list.
    let c = window(&mut k, other, 0, 0, 1, 1);
    k.reparent_subwindow(a, other, 0, 0);
    assert_eq!(k.window(other).unwrap().children, [c, a]);
}

#[test]
fn destroyed_windows_leave_no_trace() {
    let mut k = screen();
    let top = window(&mut k, ROOT, 0, 0, 9, 9);
    let a = window(&mut k, top, 0, 0, 1, 1);
    let b = window(&mut k, top, 0, 0, 1, 1);
    k.destroy_subwindow(b);
    assert_eq!(k.window(top).unwrap().children, [a]);
    assert!(k.window(b).is_none());
    assert_eq!(k.windows.len(), 2);
}

#[test]
fn mapping_exposes() {
    let mut k = screen();
    let top = window(&mut k, ROOT, 0, 0, 9, 8);
    assert_eq!(k.map_subwindow(top), Some(expose(top, 9, 8)));
    assert!(k.window(top).unwrap().mapped);
    assert_eq!(k.map_subwindow(12345), None);
}

#[test]
fn uncovered_siblings_are_exposed() {
    let mut k = screen();
    let top = mapped(&mut k, ROOT, 0, 0, 9, 9);
    let a = mapped(&mut k, top, 0, 0, 1, 2);
    let b = mapped(&mut k, top, 0, 0, 3, 4);
    let c = window(&mut k, top, 0, 0, 5, 6);
    assert_eq!(k.unmap_subwindow(b), [expose(a, 1, 2)]);
    assert!(!k.window(b).unwrap().mapped);
    k.map_subwindow(b);
    k.map_subwindow(c);
    assert_eq!(k.destroy_subwindow(a), [expose(b, 3, 4), expose(c, 5, 6)]);
    // Top-level windows have no siblings in the table.
    assert!(k.unmap_subwindow(top).is_empty());
    assert!(k.destroy_subwindow(99).is_empty());
}

#[test]
fn resizing_takes_new_pixels() {
    let mut k = screen();
    let top = window(&mut k, ROOT, 0, 0, 4, 4);
    xor(&mut k);
    k.fill_rectangle(top, 0x00ff_ffff, 0, 0, 4, 4);
    let still = HostSubwindowConfig {
        x: Some(7),
        y: None,
        width: None,
        height: None,
        border_width: Some(2),
    };
    let (fill, event) = k.configure_subwindow(top, still);
    assert!(fill.is_none() && event.is_none());
    assert_eq!(lit(&k, top).len(), 16);
    k.change_subwindow_attributes(top, 2, &[0x0000_ff00]);
    let wide =
        HostSubwindowConfig { x: None, y: Some(1), width: Some(6), height: None, border_width: None };
    let (fill, event) = k.configure_subwindow(top, wide);
    assert_eq!(fill.unwrap().rects, [Rectangle16 { x: 0, y: 0, width: 6, height: 4 }]);
    assert_eq!(event, Some(expose(top, 6, 4)));
    let w = k.window(top).unwrap();
    assert_eq!((w.x, w.y, w.width, w.height, w.border_width), (7, 1, 6, 4, 2));
    assert_eq!(w.image.data.len(), 24);
    assert!(lit(&k, top).is_empty());
}

#[test]
fn attributes_come_in_order_of_their_bits() {
    let mut k = screen();
    let top = window(&mut k, ROOT, 0, 0, 1, 1);
    k.change_subwindow_attributes(top, 3, &[77, 88]);
    assert_eq!(k.window(top).unwrap().bg_pixmap, PixmapHandle::from_raw(77));
    assert_eq!(k.window(top).unwrap().bg_pixel, Some(88));
    k.change_subwindow_attributes(top, 3, &[0]);
    assert_eq!(k.window(top).unwrap().bg_pixmap, None);
    assert_eq!(k.window(top).unwrap().bg_pixel, Some(88));
    k.change_subwindow_attributes(top, 2, &[5]);
    assert_eq!(k.window(top).unwrap().bg_pixel, Some(5));
    k.change_subwindow_attributes(top, 2, &[]);
    assert_eq!(k.window(top).unwrap().bg_pixel, Some(5));
}

#[test]
fn registered_windows() {
    let mut k = screen();
    k.register_top_level(ResourceId(5), 50);
    k.register_subwindow(ResourceId(6), 60);
    assert_eq!(k.xid_map.get(&50), Some(&ResourceId(5)));
    k.unregister_host_window(50);
    assert_eq!(k.xid_map.get(&50), None);
    k.destroy_subwindow(60);
    assert_eq!(k.xid_map.len(), 1);
    let handle = WindowHandle::from_raw(1).unwrap();
    assert_eq!(k.name_window_pixmap(handle), Err(BackendError::Unsupported));
}

#[test]
fn drawing_lands_on_the_drawable() {
    let mut k = screen();
    let top = window(&mut k, ROOT, 0, 0, 6, 6);
    let other = k.create_pixmap(24, 6, 6).as_raw();
    xor(&mut k);
    assert!(k.poly_line(top, 1, 0, &shorts(&[0, 0, 2, 0])).is_none());
    assert_eq!(lit(&k, top), [(0, 0), (1, 0), (2, 0)]);
    assert!(lit(&k, other).is_empty());
    k.poly_line(top, 1, 0, &shorts(&[0, 0, 2, 0]));
    assert!(lit(&k, top).is_empty());
    k.poly_segment(other, 1, &shorts(&[1, 1, 2, 2]));
    assert_eq!(lit(&k, other), [(1, 1), (2, 2)]);
    k.free_pixmap(other);
    assert!(k.image(other).is_none());
    assert!(k.poly_segment(other, 1, &shorts(&[1, 1, 2, 2])).is_none());
}

#[test]
fn each_shape_is_drawn() {
    let mut k = screen();
    let p = k.create_pixmap(32, 5, 5).as_raw();
    xor(&mut k);
    k.poly_point(p, 1, &shorts(&[1, 1, 9, 9]));
    assert_eq!(lit(&k, p), [(1, 1)]);
    k.poly_point(p, 1, &shorts(&[1, 1]));
    k.poly_fill_rectangle(p, 1, &shorts(&[3, 3, 9, 1]));
    assert_eq!(lit(&k, p), [(3, 3), (4, 3)]);
    k.poly_fill_rectangle(p, 1, &shorts(&[3, 3, 9, 1]));
    k.fill_poly(p, 1, 0, &shorts(&[0, 0, 2, 0, 2, 1, 0, 1]));
    assert_eq!(lit(&k, p), [(0, 0), (1, 0)]);
    k.fill_poly(p, 1, 0, &shorts(&[0, 0, 2, 0, 2, 1, 0, 1]));
    // Corners are on two edges, and cancel out.
    k.poly_rectangle(p, 1, &shorts(&[0, 0, 3, 3]));
    assert_eq!(lit(&k, p), [(1, 0), (0, 1), (2, 1), (1, 2)]);
    k.poly_rectangle(p, 1, &shorts(&[0, 0, 3, 3]));
    let arc = shorts(&[0, 0, 4, 2, 0, 23040]);
    k.poly_fill_arc(p, 1, &arc, &vec![vec![Some((0, 4)), Some((-1, 3))]]);
    assert_eq!(lit(&k, p), [(0, 0), (1, 0), (2, 0), (3, 0), (0, 1), (1, 1), (2, 1)]);
    k.poly_fill_arc(p, 1, &arc, &vec![vec![Some((0, 4)), Some((-1, 3))]]);
    k.poly_arc(p, 1, &arc, &vec![vec![Some((0, 2))]]);
    assert_eq!(lit(&k, p), [(0, 0), (1, 0), (2, 0)]);
}

#[test]
fn other_functions_leave_a_fill() {
    let mut k = screen();
    let p = k.create_pixmap(24, 5, 5).as_raw();
    let left = k.fill_rectangle(p, 0x00ff_0000, -1, 2, 3, 4).unwrap();
    assert_eq!(left.color, Color { red: 0xff00, green: 0, blue: 0, alpha: 0xffff });
    assert_eq!(left.rects, [Rectangle16 { x: -1, y: 2, width: 3, height: 4 }]);
    // Lines are clipped first.
    let left = k.poly_line(p, 0, 0, &shorts(&[-1, 0, 1, 0])).unwrap();
    assert_eq!(left.rects.len(), 2);
    // No fill at all where an ellipse misses.
    let arc = shorts(&[0, 9, 4, 2, 0, 23040]);
    assert!(k.poly_fill_arc(p, 1, &arc, &vec![vec![Some((0, 4))]]).is_none());
}

#[test]
fn images_go_in_and_out() {
    let mut k = screen();
    let p = k.create_pixmap(32, 2, 2).as_raw();
    k.put_image(p, 32, 1, 1, 1, 1, &[0x11, 0x22, 0x33, 0x44]);
    assert_eq!(k.get_image(p, 1, 1, 1, 1).unwrap(), [0x33, 0x22, 0x11, 0x44]);
    assert_eq!(k.get_image(7, 0, 0, 1, 1), None);
    let q = k.create_pixmap(32, 2, 2).as_raw();
    k.copy_area(p, q, 1, 1, 0, 0, 1, 1);
    assert_eq!(k.get_image(q, 0, 0, 1, 1).unwrap(), [0x33, 0x22, 0x11, 0x44]);
    // Within one drawable the source is what it was.
    k.copy_area(q, q, 0, 0, 1, 0, 1, 1);
    assert_eq!(k.get_image(q, 1, 0, 1, 1).unwrap(), [0x33, 0x22, 0x11, 0x44]);
    k.copy_area(7, q, 0, 0, 0, 0, 2, 2);
    k.put_image(7, 32, 1, 1, 0, 0, &[0; 4]);
    assert_eq!(lit(&k, q), [(0, 0), (1, 0)]);
}

#[test]
fn pixels_can_be_taken_out_and_put_back() {
    let mut k = screen();
    let p = k.create_pixmap(24, 2, 1).as_raw();
    let mut img = PixmanImage::new(PixelFormat::X8R8G8B8, 2, 1);
    img.data = vec![5, 6];
    assert_eq!(k.replace_image(p, img).unwrap().data, [0, 0]);
    assert_eq!(k.image(p).unwrap().data, [5, 6]);
    assert!(k.replace_image(99, PixmanImage::new(PixelFormat::A8, 1, 1)).is_none());
}

#[test]
fn draw_state_keeps_the_font() {
    let mut k = screen();
    k.apply_draw_state(&DrawState { function: GcFunction::Copy, font: FontHandle::from_raw(9) });
    assert_eq!(k.current_font, Some(9));
    xor(&mut k);
    assert_eq!((k.current_font, k.current_function), (Some(9), GcFunction::Xor));
    k.set_container_background_pixel(0x00ab_cdef);
    k.set_container_background_pixmap(0);
    assert_eq!((k.bg_pixel, k.bg_pixmap), (Some(0x00ab_cdef), None));
}

#[test]
fn frames_go_bottom_up() {
    let mut k = screen();
    let top = mapped(&mut k, ROOT, 10, 20, 30, 40);
    let child = mapped(&mut k, top, 1, 2, 3, 4);
    let hidden = window(&mut k, top, 0, 0, 9, 9);
    mapped(&mut k, hidden, 0, 0, 1, 1);
    let grandchild = mapped(&mut k, child, 0, 0, 1, 1);
    let plan = k.compose_frame();
    let grey = Color { red: 0x5050, green: 0x5050, blue: 0x5050, alpha: 0xffff };
    assert_eq!(plan.background, grey);
    assert_eq!(plan.background_rect, Rectangle16 { x: 0, y: 0, width: 800, height: 600 });
    assert_eq!(
        plan.steps,
        [
            CompositeStep { src: grandchild, dst: Some(child), x: 0, y: 0, width: 1, height: 1 },
            CompositeStep { src: child, dst: Some(top), x: 1, y: 2, width: 3, height: 4 },
            CompositeStep { src: top, dst: None, x: 10, y: 20, width: 30, height: 40 },
        ]
    );
    assert_eq!(plan.cursor_rect, Rectangle16 { x: 0, y: 0, width: 16, height: 16 });
    k.set_container_background_pixel(0x0011_2233);
    assert_eq!(k.compose_frame().background.red, 0x1100);
}

#[test]
fn every_mapped_top_level_reaches_the_screen() {
    let mut k = screen();
    let ids: Vec<u32> = (0..5).map(|i| mapped(&mut k, ROOT, i, 0, 1, 1)).collect();
    window(&mut k, ROOT, 0, 0, 1, 1);
    let mut shown: Vec<u32> = k.compose_frame().steps.iter().map(|s| s.src).collect();
    shown.sort_unstable();
    assert_eq!(shown, ids);
}

#[test]
fn a_window_below_itself_does_not_hang() {
    let mut k = screen();
    let a = mapped(&mut k, ROOT, 0, 0, 1, 1);
    let b = mapped(&mut k, a, 0, 0, 1, 1);
    k.reparent_subwindow(a, b, 0, 0);
    assert!(k.compose_frame().steps.is_empty());
}

#[test]
fn pointer_events_name_the_window() {
    let mut k = screen();
    let top = mapped(&mut k, ROOT, 10, 10, 5, 5);
    let event = k.process_pointer_motion(14, 10, 77, 4);
    assert_eq!(
        event,
        HostPointerEvent {
            kind: PointerEventKind::MotionNotify,
            host_xid: top,
            detail: 0,
            time: 77,
            root_x: 14,
            root_y: 10,
            event_x: 14,
            event_y: 10,
            state: 4,
        }
    );
    assert_eq!(k.process_pointer_motion(15, 10, 0, 0).host_xid, 0);
    k.process_pointer_motion(12, 12, 0, 0);
    let press = k.process_pointer_button(0x111, true, 5, 1);
    assert_eq!((press.kind, press.detail, press.host_xid), (PointerEventKind::ButtonPress, 3, top));
    let release = k.process_pointer_button(0x110, false, 5, 1);
    assert_eq!((release.kind, release.detail), (PointerEventKind::ButtonRelease, 1));
    k.unmap_subwindow(top);
    assert_eq!(k.process_pointer_button(0x110, true, 5, 1).host_xid, 0);
    let at = k.query_pointer(9);
    assert_eq!((at.same_screen, at.win_x, at.win_y, at.mask), (true, 12, 12, 9));
}

#[test]
fn key_events_shift_the_keycode() {
    let mut k = screen();
    k.process_pointer_motion(40000, 3, 0, 0);
    let e = k.process_key_event(30, true, 9, 1);
    assert_eq!((e.pressed, e.keycode, e.time, e.state), (true, 38, 9, 1));
    assert_eq!((e.root_x, e.root_y, e.event_x, e.event_y), (32767, 3, 32767, 3));
    assert_eq!(k.process_key_event(700, false, 0, 0).keycode, 196);
}

#[test]
fn buttons_have_their_numbers() {
    let numbers = [0x110, 0x111, 0x112, 0x113, 0x114, 0x115, 0].map(button_number);
    assert_eq!(numbers, [1, 3, 2, 8, 9, 0, 0]);
}

#[test]
fn modifiers_have_their_bits() {
    let none = ActiveModifiers {
        shift: false,
        lock: false,
        control: false,
        mod1: false,
        mod2: false,
        mod3: false,
        mod4: false,
        mod5: false,
    };
    assert_eq!(serialize_modifiers(&none), 0);
    assert_eq!(serialize_modifiers(&ActiveModifiers { shift: true, ..none }), 0x01);
    assert_eq!(serialize_modifiers(&ActiveModifiers { lock: true, ..none }), 0x02);
    assert_eq!(serialize_modifiers(&ActiveModifiers { control: true, mod1: true, ..none }), 0x0c);
    assert_eq!(serialize_modifiers(&ActiveModifiers { mod2: true, mod3: true, ..none }), 0x30);
    assert_eq!(serialize_modifiers(&ActiveModifiers { mod4: true, mod5: true, ..none }), 0xc0);
}

#[test]
fn keyboard_rows_are_filled_up() {
    assert_eq!(keyboard_mapping(&vec![]), (1, vec![]));
    let rows = vec![vec![0x61, 0x41], vec![], vec![0x62]];
    assert_eq!(keyboard_mapping(&rows), (2, vec![0x61, 0x41, 0, 0, 0x62, 0]));
    assert_eq!(keyboard_mapping(&vec![vec![], vec![]]), (0, vec![]));
}

#[test]
fn modifier_keys() {
    let (columns, keys) = get_modifier_mapping();
    assert_eq!(columns, 4);
    assert_eq!(keys.len(), 32);
    assert_eq!(keys[..8], [0x32, 0x3e, 0, 0, 0x42, 0, 0, 0]);
    assert_eq!(keys[24..], [0x85, 0x86, 0, 0, 0, 0, 0, 0]);
}

fn trapezoid(words: [i32; 10]) -> Vec<u8> {
    words.iter().flat_map(|w| w.to_le_bytes()).collect()
}

#[test]
fn trapezoids_are_read() {
    let traps = read_trapezoids(&trapezoid([1, -2, 3, 4, 5, 6, 7, 8, 9, i32::MIN]));
    assert_eq!(traps.len(), 1);
    assert_eq!((traps[0].top, traps[0].bottom), (1, -2));
    assert_eq!(
        traps[0].left,
        FixedLine { p1: FixedPoint { x: 3, y: 4 }, p2: FixedPoint { x: 5, y: 6 } }
    );
    assert_eq!(traps[0].right.p2, FixedPoint { x: 9, y: i32::MIN });
}

#[test]
fn trapezoids_need_a_fill_and_a_drawable() {
    let mut k = screen();
    let p = k.create_pixmap(32, 8, 8);
    let dst = k.render_create_picture(AnyHandle::Pixmap(p)).as_raw();
    let src = k.render_create_solid_fill([0xff, 0xff, 0, 0, 1, 0, 0x34, 0x12]).as_raw();
    let data = trapezoid([1 << 16, 6 << 16, 1 << 16, 0, 1 << 16, 9, 6 << 16, 0, 6 << 16, 9]);
    let plan = k.render_trapezoids(3, src, dst, 1, 2, &data, 3, 4).unwrap();
    assert_eq!((plan.op, plan.drawable), (3, p.as_raw()));
    assert_eq!(plan.color, Color { red: 0xffff, green: 0, blue: 1, alpha: 0x1234 });
    assert_eq!((plan.src_x, plan.src_y, plan.x_off, plan.y_off), (1, 2, 3, 4));
    assert!(plan.clip.is_none() && plan.traps.len() == 1);
    assert!(k.render_trapezoids(3, dst, src, 0, 0, &data, 0, 0).is_none());
    assert!(k.render_trapezoids(3, src, src, 0, 0, &data, 0, 0).is_none());
    assert!(k.render_trapezoids(3, src, 99, 0, 0, &data, 0, 0).is_none());
    assert!(k.render_trapezoids(3, src, dst, 0, 0, &data[..39], 0, 0).is_none());
    assert!(k.render_trapezoids(3, src, dst, 0, 0, &[], 0, 0).is_none());
    k.free_pixmap(p.as_raw());
    assert!(k.render_trapezoids(3, src, dst, 0, 0, &data, 0, 0).is_none());
    k.render_free_picture(src);
    assert!(k.pictures.get(&src).is_none());
}

#[test]
fn pictures_are_clipped() {
    let mut k = screen();
    let p = k.create_pixmap(32, 8, 8);
    let dst = k.render_create_picture(AnyHandle::Pixmap(p)).as_raw();
    let src = k.render_create_solid_fill([0; 8]).as_raw();
    let body = shorts(&[0, 0, 5, 5, 1, 2, 3, 4]);
    k.render_set_picture_clip_rectangles(dst, &body);
    let clip = match k.pictures.get(&dst) {
        Some(PictureState::Drawable { clip: Some(rects), .. }) => rects.clone(),
        other => panic!("no clip: {other:?}"),
    };
    assert_eq!(clip, [Rectangle16 { x: 1, y: 2, width: 3, height: 4 }]);
    let data = trapezoid([0; 10]);
    assert_eq!(k.render_trapezoids(3, src, dst, 0, 0, &data, 0, 0).unwrap().clip, Some(clip));
    // Too short a body changes nothing; no rectangles take the clip away.
    k.render_set_picture_clip_rectangles(dst, &body[..7]);
    assert!(k.render_trapezoids(3, src, dst, 0, 0, &data, 0, 0).unwrap().clip.is_some());
    k.render_set_picture_clip_rectangles(dst, &body[..8]);
    assert!(k.render_trapezoids(3, src, dst, 0, 0, &data, 0, 0).unwrap().clip.is_none());
    k.render_set_picture_clip_rectangles(src, &body);
    assert!(matches!(k.pictures.get(&src), Some(PictureState::SolidFill { .. })));
}

#[test]
fn the_window_on_top_is_hit() {
    let mut k = screen();
    let a = mapped(&mut k, ROOT, 0, 0, 50, 50);
    let b = mapped(&mut k, ROOT, 20, 20, 50, 50);
    let hidden = window(&mut k, ROOT, 0, 0, 100, 100);
    let child = mapped(&mut k, a, 0, 0, 50, 50);
    let event = k.process_pointer_motion(30, 30, 1, 0);
    // Given an order, the last is on top.
    assert_eq!(k.topmost_at_cursor(&vec![a, b, hidden]), Some(b));
    assert_eq!(k.topmost_at_cursor(&vec![b, a, hidden]), Some(a));
    assert_eq!(k.topmost_at_cursor(&vec![b, child]), Some(b));
    assert_eq!(k.topmost_at_cursor(&vec![hidden, child]), None);
    let on_screen = |steps: Vec<CompositeStep>| -> Vec<u32> {
        steps.iter().filter(|s| s.dst.is_none()).map(|s| s.src).collect()
    };
    assert_eq!(on_screen(k.compose_windows(&vec![b, a, hidden])), [b, a]);
    // The order of the table is the same for the frame and for the pointer.
    let shown = on_screen(k.compose_frame().steps);
    assert_eq!(shown.len(), 2);
    assert_eq!(k.window_under_cursor(), shown.last().copied());
    assert_eq!(Some(event.host_xid), k.window_under_cursor());
    // Where only one is, that one is hit.
    assert_eq!(k.process_pointer_motion(5, 5, 2, 0).host_xid, a);
    assert_eq!(k.process_pointer_motion(60, 60, 3, 0).host_xid, b);
    let kind = PointerEventKind::ButtonPress;
    assert_eq!(k.pointer_event_on(Some(b), kind, 1, 4, 0).host_xid, b);
    assert_eq!(k.pointer_event_on(None, kind, 1, 4, 0).host_xid, 0);
}
