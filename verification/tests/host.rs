use yserver::backend::{BackendError, WindowHandle};
use yserver::host_x11::{
    assemble_response, classify_header, create_gc, create_window, map_window, open_font,
    parse_host_pict_formats, query_extension, HeaderAction, HostAction, HostExtension, HostResponse,
    HostSetup, HostSubwindowVisual, HostX11Backend, HostXkbInfo, Probe,
};

fn setup(argb_visual: Option<u32>) -> HostSetup {
    HostSetup {
        resource_id_base: 0x0120_0000,
        root: 0x1f5,
        root_depth: 24,
        root_visual: 0x21,
        black_pixel: 0,
        white_pixel: 0x00ff_ffff,
        argb_visual,
    }
}

fn reply(sequence: u16, bytes_8_to_12: [u8; 4]) -> HostResponse {
    let mut bytes = vec![0u8; 32];
    bytes[0] = 1;
    bytes[2..4].copy_from_slice(&sequence.to_le_bytes());
    bytes[8..12].copy_from_slice(&bytes_8_to_12);
    HostResponse { sequence, bytes }
}

fn sent(action: HostAction) -> Vec<u8> {
    match action {
        HostAction::Send { request } => request,
        other => panic!("nothing sent: {other:?}"),
    }
}

fn pict_format(id: u32, kind: u8, depth: u8, red: (u16, u16), alpha: (u16, u16)) -> Vec<u8> {
    let mut f = vec![0u8; 28];
    f[0..4].copy_from_slice(&id.to_le_bytes());
    f[4] = kind;
    f[5] = depth;
    f[8..10].copy_from_slice(&red.0.to_le_bytes());
    f[10..12].copy_from_slice(&red.1.to_le_bytes());
    f[20..22].copy_from_slice(&alpha.0.to_le_bytes());
    f[22..24].copy_from_slice(&alpha.1.to_le_bytes());
    f
}

fn formats_reply(announced: u32, formats: &[Vec<u8>]) -> Vec<u8> {
    let mut bytes = vec![0u8; 32];
    bytes[0] = 1;
    bytes[8..12].copy_from_slice(&announced.to_le_bytes());
    for f in formats {
        bytes.extend_from_slice(f);
    }
    bytes
}

#[test]
fn create_window_request() {
    let out = create_window(&setup(None), 0x0120_0000, 640, 480);
    let mut want: Vec<u8> = vec![1, 24, 11, 0];
    for word in [0x0120_0000u32, 0x1f5, 80 | 80 << 16, 640 | 480 << 16, 1 << 16, 0x21, 0x812,
        0x00ff_ffff, 1, 0x2_8000]
    {
        want.extend_from_slice(&word.to_le_bytes());
    }
    assert_eq!(out, want);
    assert_eq!(out.len(), 44);
}

#[test]
fn create_gc_and_map_window_requests() {
    let mut want: Vec<u8> = vec![55, 0, 7, 0];
    for word in [2u32, 1, 0x400c, 3, 4, 5] {
        want.extend_from_slice(&word.to_le_bytes());
    }
    assert_eq!(create_gc(1, 2, 3, 4, 5), want);
    assert_eq!(map_window(0x0102_0304), [8, 0, 2, 0, 4, 3, 2, 1]);
}

#[test]
fn open_font_request() {
    assert_eq!(
        open_font(9, b"fixed").unwrap(),
        [45, 0, 5, 0, 9, 0, 0, 0, 5, 0, 0, 0, b'f', b'i', b'x', b'e', b'd', 0, 0, 0]
    );
    assert!(open_font(9, &vec![b'a'; 0xffff]).is_ok());
    assert_eq!(open_font(9, &vec![b'a'; 0x1_0000]).unwrap_err(), BackendError::InvalidInput);
}

#[test]
fn query_extension_request() {
    assert_eq!(
        query_extension(b"SHAPE"),
        [98, 0, 4, 0, 5, 0, 0, 0, b'S', b'H', b'A', b'P', b'E', 0, 0, 0]
    );
    assert_eq!(HostExtension::Render.name(), b"RENDER");
    assert_eq!(HostExtension::Xkb.name(), b"XKEYBOARD");
    assert_eq!(HostExtension::Shape.name(), b"SHAPE");
    assert_eq!(HostExtension::Xfixes.name(), b"XFIXES");
    assert_eq!(HostExtension::Composite.name(), b"Composite");
}

#[test]
fn requests_name_their_length() {
    for out in [
        create_window(&setup(None), 1, 2, 3),
        create_gc(1, 2, 3, 4, 5),
        open_font(1, b"abcde").unwrap(),
        map_window(1),
        query_extension(b"RENDER"),
    ] {
        assert_eq!(out.len(), 4 * u16::from_le_bytes([out[2], out[3]]) as usize);
    }
}

#[test]
fn headers_are_classified() {
    let mut h = vec![0u8; 32];
    h[2] = 5;
    h[3] = 1;
    h[4] = 3;
    assert_eq!(classify_header(&h), HeaderAction::Respond { sequence: 261, extra: 0 });
    h[0] = 1;
    assert_eq!(classify_header(&h), HeaderAction::Respond { sequence: 261, extra: 12 });
    h[0] = 35;
    assert_eq!(classify_header(&h), HeaderAction::Discard { extra: 12 });
    h[0] = 12;
    assert_eq!(classify_header(&h), HeaderAction::Discard { extra: 0 });
    h[0] = 1;
    let r = assemble_response(&h, &[7, 8, 9, 10]);
    assert_eq!(r.sequence, 261);
    assert_eq!(r.bytes.len(), 36);
    assert_eq!(r.bytes[32..], [7, 8, 9, 10]);
}

#[test]
fn picture_formats_are_found() {
    let formats = [
        pict_format(0x30, 1, 1, (0, 0), (0, 1)),
        pict_format(0x31, 1, 8, (0, 0), (0, 0xff)),
        pict_format(0x32, 1, 24, (16, 0xff), (0, 0)),
        pict_format(0x33, 1, 32, (16, 0xff), (24, 0xff)),
        // Indexed, or with other masks: none of these counts.
        pict_format(0x40, 0, 8, (0, 0), (0, 0xff)),
        pict_format(0x41, 1, 24, (0, 0xff), (0, 0)),
        pict_format(0x42, 1, 32, (24, 0xff), (0, 0xff)),
    ];
    let info = parse_host_pict_formats(&formats_reply(7, &formats), 139).unwrap();
    assert_eq!(
        (info.opcode, info.fmt_a1, info.fmt_a8, info.fmt_rgb24, info.fmt_argb32),
        (139, 0x30, 0x31, 0x32, 0x33)
    );
}

#[test]
fn last_picture_format_counts_and_missing_ones_do_not() {
    let formats =
        [pict_format(0x30, 1, 8, (0, 0), (0, 0xff)), pict_format(0x31, 1, 8, (0, 0), (0, 0xff))];
    assert_eq!(parse_host_pict_formats(&formats_reply(2, &formats), 1).unwrap().fmt_a8, 0x31);
    assert_eq!(parse_host_pict_formats(&formats_reply(1, &formats), 1).unwrap().fmt_a8, 0x30);
    let info = parse_host_pict_formats(&formats_reply(9, &formats), 1).unwrap();
    assert_eq!((info.fmt_a8, info.fmt_a1), (0x31, 0));
    assert_eq!(parse_host_pict_formats(&[0; 31], 1).unwrap_err(), BackendError::Other);
}

#[test]
fn opening_writes_four_requests() {
    let s = setup(None);
    let (host, bytes) = HostX11Backend::open(&s, 640, 480);
    let mut want = create_window(&s, 0x0120_0000, 640, 480);
    want.extend_from_slice(&open_font(0x0120_0002, b"fixed").unwrap());
    want.extend_from_slice(&create_gc(0x0120_0000, 0x0120_0001, 0, 0x00ff_ffff, 0x0120_0002));
    want.extend_from_slice(&map_window(0x0120_0000));
    assert_eq!(bytes, want);
    assert_eq!(host.window_id(), 0x0120_0000);
    assert_eq!(host.sequence, 5);
    assert_eq!(host.next_xid_counter, 0x0120_0003);
    assert_eq!(host.root_visual_xid(), 0x21);
    assert_eq!(host.render_opcode(), None);
    assert_eq!(host.xkb_info(), None);
}

#[test]
fn startup_asks_for_everything() {
    let (mut host, _) = HostX11Backend::open(&setup(Some(0x77)), 1, 1);
    assert_eq!(sent(host.begin_probes()), query_extension(b"RENDER"));
    assert_eq!(host.awaited, 5);
    // A response to something else is not it.
    assert!(matches!(host.on_response(reply(4, [1, 1, 0, 0])), HostAction::Read));
    assert!(host.reply_buffer.is_empty());
    assert_eq!(sent(host.on_response(reply(5, [1, 139, 0, 0]))), [139, 1, 1, 0]);
    let mut formats = reply(6, [0; 4]);
    formats.bytes = formats_reply(1, &[pict_format(0x31, 1, 8, (0, 0), (0, 0xff))]);
    assert_eq!(sent(host.on_response(formats)), query_extension(b"XKEYBOARD"));
    assert_eq!(host.render_opcode(), Some(139));
    assert_eq!(sent(host.on_response(reply(7, [1, 135, 85, 137]))), [135, 0, 2, 0, 1, 0, 0, 0]);
    assert_eq!(sent(host.on_response(reply(8, [1, 0, 0, 0]))), query_extension(b"SHAPE"));
    assert_eq!(host.xkb_info(), Some((135, 85, 137)));
    assert_eq!(host.xkb_opcode(), Some(135));
    // From here on, other responses are kept.
    assert!(matches!(host.on_response(reply(2, [0; 4])), HostAction::Read));
    assert_eq!(host.reply_buffer.len(), 1);
    assert_eq!(sent(host.on_response(reply(9, [1, 128, 0, 0]))), query_extension(b"XFIXES"));
    assert_eq!(sent(host.on_response(reply(10, [0, 9, 0, 0]))), query_extension(b"Composite"));
    let colormap = sent(host.on_response(reply(11, [1, 142, 0, 0])));
    let mut want: Vec<u8> = vec![78, 0, 4, 0];
    for word in [0x0120_0003u32, 0x1f5, 0x77] {
        want.extend_from_slice(&word.to_le_bytes());
    }
    assert_eq!(colormap, want);
    assert_eq!(host.argb_colormap_xid(), None);
    host.on_colormap_sent();
    assert_eq!(host.argb_colormap_xid(), Some(0x0120_0003));
    assert_eq!(host.argb_visual_xid(), Some(0x77));
    assert_eq!(host.sequence, 13);
    assert_eq!(host.probe, Probe::Done);
    assert_eq!((host.shape_opcode, host.xfixes_opcode), (Some(128), None));
    assert_eq!(host.composite_opcode(), Some(142));
    assert_eq!(host.render_format_for_ynest_id(2), Some(0x31));
    assert_eq!(host.render_format_for_ynest_id(1), Some(0));
    assert_eq!(host.render_format_for_ynest_id(5), None);
}

#[test]
fn startup_survives_failures() {
    let (mut host, _) = HostX11Backend::open(&setup(None), 1, 1);
    host.begin_probes();
    assert_eq!(sent(host.on_failure()), query_extension(b"XKEYBOARD"));
    // Present, but may not be used.
    sent(host.on_response(reply(6, [1, 135, 85, 137])));
    assert_eq!(sent(host.on_response(reply(7, [0, 0, 0, 0]))), query_extension(b"SHAPE"));
    assert_eq!(host.xkb_info(), None);
    assert_eq!(sent(host.on_failure()), query_extension(b"XFIXES"));
    assert_eq!(sent(host.on_failure()), query_extension(b"Composite"));
    assert!(matches!(host.on_failure(), HostAction::Finish));
    assert_eq!(host.probe, Probe::Done);
    assert_eq!(host.render_format_for_ynest_id(1), None);
    assert_eq!(host.argb_colormap_xid(), None);
}

#[test]
fn absent_extensions_are_passed_over() {
    let (mut host, _) = HostX11Backend::open(&setup(None), 1, 1);
    host.begin_probes();
    assert_eq!(sent(host.on_response(reply(5, [0, 1, 2, 3]))), query_extension(b"XKEYBOARD"));
    assert_eq!(sent(host.on_response(reply(6, [0, 1, 2, 3]))), query_extension(b"SHAPE"));
    assert_eq!(host.render_opcode(), None);
    assert_eq!(host.xkb, None::<HostXkbInfo>);
}

#[test]
fn window_pixmaps_need_composite() {
    let (mut host, _) = HostX11Backend::open(&setup(None), 1, 1);
    let window = WindowHandle::from_raw(0x55).unwrap();
    assert_eq!(host.name_window_pixmap(window).unwrap_err(), BackendError::Unsupported);
    assert_eq!(host.next_xid_counter, 0x0120_0003);
    host.composite_opcode = Some(142);
    let (pixmap, request) = host.name_window_pixmap(window).unwrap();
    assert_eq!(pixmap.as_raw(), 0x0120_0003);
    assert_eq!(request, [142, 6, 3, 0, 0x55, 0, 0, 0, 3, 0, 0x20, 1]);
    host.request_sent();
    assert_eq!(host.sequence, 6);
    assert_eq!(host.next_xid(), 0x0120_0004);
}

#[test]
fn subwindow_visuals() {
    let explicit =
        HostSubwindowVisual::Explicit { depth: 32, visual_xid: 0x77, colormap_xid: 0x78 };
    assert_eq!((explicit.depth(), explicit.visual_xid()), (32, 0x77));
    let copy = HostSubwindowVisual::CopyFromParent;
    assert_eq!((copy.depth(), copy.visual_xid()), (0, 0));
    assert_eq!(WindowHandle::from_raw(0), None);
}
