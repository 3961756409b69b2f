//! A backend that shows everything in one window of another X server.
//!
//! This module composes the requests that go to that server, reads its
//! replies and keeps the books; it does not touch the connection itself.

use std::collections::HashMap;

use vstd::prelude::*;

use crate::backend::{BackendError, PixmapHandle, WindowHandle};
use crate::wire;
use crate::wire::{padded_len, read_u16, read_u32, write_i16, write_u16, write_u32};

verus! {

/// Minor opcode of COMPOSITE `NameWindowPixmap`.
pub const NAME_WINDOW_PIXMAP: u8 = 6;

#[derive(Clone, Debug)]
pub struct HostClipRectangles {
    pub ordering: u8,
    pub x_origin: i16,
    pub y_origin: i16,
    pub rectangles: Vec<u8>,
}

/// The clip that the host's shared graphics context has.
#[derive(Clone, Debug)]
pub enum HostClipState {
    /// Draw everywhere.
    Unclipped,
    Rectangles(HostClipRectangles),
    /// Draw where a bitmap, shifted to the origin, has a bit set.
    Pixmap { host_pixmap: u32, x_origin: i16, y_origin: i16 },
}

/// The fill style that the host's shared graphics context has.
#[derive(Clone, Copy, Debug, PartialEq, Eq, Structural)]
pub enum HostFillState {
    Solid,
    Tiled { host_pixmap: u32, x_origin: i16, y_origin: i16 },
}

/// Which visual a new window on the host has. `Explicit` names a colormap for
/// the visual too, which the host demands.
#[derive(Clone, Copy, Debug, PartialEq, Eq, Structural)]
pub enum HostSubwindowVisual {
    CopyFromParent,
    Explicit { depth: u8, visual_xid: u32, colormap_xid: u32 },
}

impl HostSubwindowVisual {
    pub open spec fn spec_depth(self) -> u8 {
        match self {
            HostSubwindowVisual::CopyFromParent => 0,
            HostSubwindowVisual::Explicit { depth, .. } => depth,
        }
    }

    pub open spec fn spec_visual_xid(self) -> u32 {
        match self {
            HostSubwindowVisual::CopyFromParent => 0,
            HostSubwindowVisual::Explicit { visual_xid, .. } => visual_xid,
        }
    }

    pub fn depth(self) -> (r: u8)
        ensures
            r == self.spec_depth(),
    {
        match self {
            HostSubwindowVisual::CopyFromParent => 0,
            HostSubwindowVisual::Explicit { depth, .. } => depth,
        }
    }

    pub fn visual_xid(self) -> (r: u32)
        ensures
            r == self.spec_visual_xid(),
    {
        match self {
            HostSubwindowVisual::CopyFromParent => 0,
            HostSubwindowVisual::Explicit { visual_xid, .. } => visual_xid,
        }
    }
}

/// What the host said of itself when the connection was set up.
#[derive(Clone, Copy, Debug, PartialEq, Eq, Structural)]
pub struct HostSetup {
    pub resource_id_base: u32,
    pub root: u32,
    pub root_depth: u8,
    pub root_visual: u32,
    pub black_pixel: u32,
    pub white_pixel: u32,
    pub argb_visual: Option<u32>,
}

/// The host's RENDER extension: its opcode and the formats of interest.
#[derive(Clone, Copy, Debug, PartialEq, Eq, Structural)]
pub struct HostRenderInfo {
    pub opcode: u8,
    pub fmt_a1: u32,
    pub fmt_a8: u32,
    pub fmt_rgb24: u32,
    pub fmt_argb32: u32,
}

/// The host's XKEYBOARD extension.
#[derive(Clone, Copy, Debug, PartialEq, Eq, Structural)]
pub struct HostXkbInfo {
    pub opcode: u8,
    pub first_event: u8,
    pub first_error: u8,
}

/// A reply or an error from the host.
#[derive(Clone, Debug)]
pub struct HostResponse {
    pub sequence: u16,
    pub bytes: Vec<u8>,
}

/// [`HostResponse`] with its bytes as a sequence.
#[verifier::ext_equal]
pub struct HostResponseView {
    pub sequence: u16,
    pub bytes: Seq<u8>,
}

impl View for HostResponse {
    type V = HostResponseView;

    open spec fn view(&self) -> HostResponseView {
        HostResponseView { sequence: self.sequence, bytes: self.bytes@ }
    }
}

/// Bytes of the fixed part of everything the host sends.
pub const HEADER_LEN: usize = 32;

/// What to do with something the host sent, from its first 32 bytes.
#[derive(Clone, Copy, Debug, PartialEq, Eq, Structural)]
pub enum HeaderAction {
    /// A reply or an error: `extra` more bytes belong to it.
    Respond { sequence: u16, extra: u64 },
    /// An event: throw it away, and `extra` more bytes with it.
    Discard { extra: u64 },
}

/// What the header `h` asks for. Errors (0) and replies (1) are responses, and
/// replies say how much follows; so does a generic event (35). All other
/// events end with the header.
pub open spec fn header_action(h: Seq<u8>) -> HeaderAction {
    let extra = (wire::u32_at(h, 4) * 4) as u64;
    if h[0] == 0 || h[0] == 1 {
        HeaderAction::Respond {
            sequence: wire::u16_at(h, 2) as u16,
            extra: if h[0] == 1 {
                extra
            } else {
                0
            },
        }
    } else {
        HeaderAction::Discard {
            extra: if h[0] == 35 {
                extra
            } else {
                0
            },
        }
    }
}

/// Decides what to do with something the host sent.
pub fn classify_header(header: &[u8]) -> (r: HeaderAction)
    requires
        header@.len() == HEADER_LEN,
    ensures
        r == header_action(header@),
{
    let extra: u64 = read_u32(header, 4) as u64 * 4;
    match header[0] {
        0 => HeaderAction::Respond { sequence: read_u16(header, 2), extra: 0 },
        1 => HeaderAction::Respond { sequence: read_u16(header, 2), extra },
        35 => HeaderAction::Discard { extra },
        _ => HeaderAction::Discard { extra: 0 },
    }
}

/// Puts a response together from its header and what followed it.
pub fn assemble_response(header: &[u8], tail: &[u8]) -> (r: HostResponse)
    requires
        header@.len() == HEADER_LEN,
    ensures
        r@ == (HostResponseView {
            sequence: wire::u16_at(header@, 2) as u16,
            bytes: header@ + tail@,
        }),
{
    let sequence: u16 = read_u16(header, 2);
    let mut bytes: Vec<u8> = Vec::new();
    bytes.extend_from_slice(header);
    bytes.extend_from_slice(tail);
    assert(bytes@ =~= header@ + tail@);
    HostResponse { sequence, bytes }
}

/// CreateWindow of the container: white, keeping its upper left corner when
/// resized, with StructureNotify and Exposure events.
pub open spec fn create_window_bytes(
    setup: HostSetup,
    window_id: u32,
    width: u16,
    height: u16,
) -> Seq<u8> {
    seq![1u8, setup.root_depth] + wire::le16(11) + wire::le32(window_id as int) + wire::le32(
        setup.root as int,
    ) + wire::le16(80) + wire::le16(80) + wire::le16(width as int) + wire::le16(height as int)
        + wire::le16(0) + wire::le16(1) + wire::le32(setup.root_visual as int) + wire::le32(0x812)
        + wire::le32(setup.white_pixel as int) + wire::le32(1) + wire::le32(0x2_8000)
}

pub fn create_window(setup: &HostSetup, window_id: u32, width: u16, height: u16) -> (out: Vec<u8>)
    ensures
        out@ == create_window_bytes(*setup, window_id, width, height),
{
    let mut out: Vec<u8> = Vec::new();
    out.push(1);
    out.push(setup.root_depth);
    assert(out@ =~= seq![1u8, setup.root_depth]);
    write_u16(&mut out, 11);
    write_u32(&mut out, window_id);
    write_u32(&mut out, setup.root);
    write_i16(&mut out, 80);
    write_i16(&mut out, 80);
    write_u16(&mut out, width);
    write_u16(&mut out, height);
    write_u16(&mut out, 0);
    write_u16(&mut out, 1);
    write_u32(&mut out, setup.root_visual);
    // Background pixel, bit gravity and event mask follow.
    write_u32(&mut out, 0x812);
    write_u32(&mut out, setup.white_pixel);
    write_u32(&mut out, 1);
    write_u32(&mut out, 0x2_8000);
    out
}

/// CreateGC with foreground, background and font.
pub open spec fn create_gc_bytes(
    drawable: u32,
    gc_id: u32,
    foreground: u32,
    background: u32,
    font_id: u32,
) -> Seq<u8> {
    seq![55u8, 0u8] + wire::le16(7) + wire::le32(gc_id as int) + wire::le32(drawable as int)
        + wire::le32(0x400c) + wire::le32(foreground as int) + wire::le32(background as int)
        + wire::le32(font_id as int)
}

pub fn create_gc(
    drawable: u32,
    gc_id: u32,
    foreground: u32,
    background: u32,
    font_id: u32,
) -> (out: Vec<u8>)
    ensures
        out@ == create_gc_bytes(drawable, gc_id, foreground, background, font_id),
{
    let mut out: Vec<u8> = Vec::new();
    out.push(55);
    out.push(0);
    assert(out@ =~= seq![55u8, 0u8]);
    write_u16(&mut out, 7);
    write_u32(&mut out, gc_id);
    write_u32(&mut out, drawable);
    write_u32(&mut out, 0x400c);
    write_u32(&mut out, foreground);
    write_u32(&mut out, background);
    write_u32(&mut out, font_id);
    out
}

/// `name`, filled up with zeros to a multiple of four bytes.
pub open spec fn padded_name(name: Seq<u8>) -> Seq<u8> {
    name + wire::zeros((wire::padded(name.len() as int) - name.len()) as nat)
}

/// Appends `name` and zeros up to a multiple of four bytes.
fn write_padded(out: &mut Vec<u8>, name: &[u8])
    requires
        name@.len() <= 0xffff,
        old(out)@.len() <= 64,
    ensures
        final(out)@ == old(out)@ + padded_name(name@),
{
    let padded: usize = padded_len(name.len());
    let start: usize = out.len();
    out.extend_from_slice(name);
    assert(out@ =~= old(out)@ + name@ + wire::zeros(0));
    while out.len() < start + padded
        invariant
            start == old(out)@.len(),
            start <= 64,
            padded <= 0x1_0000,
            padded == wire::padded(name@.len() as int),
            start + name@.len() <= out@.len() <= start + padded,
            out@ == old(out)@ + name@ + wire::zeros((out@.len() - start - name@.len()) as nat),
        decreases start + padded - out@.len(),
    {
        out.push(0);
        assert(out@ =~= old(out)@ + name@ + wire::zeros(
            (out@.len() - start - name@.len()) as nat,
        ));
    }
    assert(out@ =~= old(out)@ + padded_name(name@));
}

/// OpenFont.
pub open spec fn open_font_bytes(font_id: u32, name: Seq<u8>) -> Seq<u8> {
    seq![45u8, 0u8] + wire::le16(3 + wire::padded(name.len() as int) / 4) + wire::le32(
        font_id as int,
    ) + wire::le16(name.len() as int) + wire::le16(0) + padded_name(name)
}

/// OpenFont. Fails on a name whose length does not fit the request.
pub fn open_font(font_id: u32, name: &[u8]) -> (r: Result<Vec<u8>, BackendError>)
    ensures
        match r {
            Ok(out) => name@.len() <= 0xffff && out@ == open_font_bytes(font_id, name@),
            Err(e) => name@.len() > 0xffff && e == BackendError::InvalidInput,
        },
{
    if name.len() > 0xffff {
        return Err(BackendError::InvalidInput);
    }
    let length_units: u16 = (3 + padded_len(name.len()) / 4) as u16;
    let mut out: Vec<u8> = Vec::new();
    out.push(45);
    out.push(0);
    assert(out@ =~= seq![45u8, 0u8]);
    write_u16(&mut out, length_units);
    write_u32(&mut out, font_id);
    write_u16(&mut out, name.len() as u16);
    write_u16(&mut out, 0);
    write_padded(&mut out, name);
    Ok(out)
}

/// MapWindow.
pub open spec fn map_window_bytes(window_id: u32) -> Seq<u8> {
    seq![8u8, 0u8] + wire::le16(2) + wire::le32(window_id as int)
}

pub fn map_window(window_id: u32) -> (out: Vec<u8>)
    ensures
        out@ == map_window_bytes(window_id),
{
    let mut out: Vec<u8> = Vec::new();
    out.push(8);
    out.push(0);
    assert(out@ =~= seq![8u8, 0u8]);
    write_u16(&mut out, 2);
    write_u32(&mut out, window_id);
    out
}

/// QueryExtension.
pub open spec fn query_extension_bytes(name: Seq<u8>) -> Seq<u8> {
    seq![98u8, 0u8] + wire::le16(2 + wire::padded(name.len() as int) / 4) + wire::le16(
        name.len() as int,
    ) + wire::le16(0) + padded_name(name)
}

pub fn query_extension(name: &[u8]) -> (out: Vec<u8>)
    requires
        name@.len() <= 0xffff,
    ensures
        out@ == query_extension_bytes(name@),
{
    let mut out: Vec<u8> = Vec::new();
    out.push(98);
    out.push(0);
    assert(out@ =~= seq![98u8, 0u8]);
    write_u16(&mut out, (2 + padded_len(name.len()) / 4) as u16);
    write_u16(&mut out, name.len() as u16);
    write_u16(&mut out, 0);
    write_padded(&mut out, name);
    out
}

/// RENDER QueryPictFormats.
pub open spec fn query_pict_formats_bytes(opcode: u8) -> Seq<u8> {
    seq![opcode, 1u8] + wire::le16(1)
}

fn query_pict_formats(opcode: u8) -> (out: Vec<u8>)
    ensures
        out@ == query_pict_formats_bytes(opcode),
{
    let mut out: Vec<u8> = Vec::new();
    out.push(opcode);
    out.push(1);
    assert(out@ =~= seq![opcode, 1u8]);
    write_u16(&mut out, 1);
    out
}

/// XKEYBOARD UseExtension, version 1.0.
pub open spec fn use_xkb_bytes(opcode: u8) -> Seq<u8> {
    seq![opcode, 0u8] + wire::le16(2) + wire::le16(1) + wire::le16(0)
}

fn use_xkb(opcode: u8) -> (out: Vec<u8>)
    ensures
        out@ == use_xkb_bytes(opcode),
{
    let mut out: Vec<u8> = Vec::new();
    out.push(opcode);
    out.push(0);
    assert(out@ =~= seq![opcode, 0u8]);
    write_u16(&mut out, 2);
    write_u16(&mut out, 1);
    write_u16(&mut out, 0);
    out
}

/// CreateColormap without entries allocated.
pub open spec fn create_colormap_bytes(cmap_id: u32, host_root: u32, visual: u32) -> Seq<u8> {
    seq![78u8, 0u8] + wire::le16(4) + wire::le32(cmap_id as int) + wire::le32(host_root as int)
        + wire::le32(visual as int)
}

fn create_colormap(cmap_id: u32, host_root: u32, visual: u32) -> (out: Vec<u8>)
    ensures
        out@ == create_colormap_bytes(cmap_id, host_root, visual),
{
    let mut out: Vec<u8> = Vec::new();
    out.push(78);
    out.push(0);
    assert(out@ =~= seq![78u8, 0u8]);
    write_u16(&mut out, 4);
    write_u32(&mut out, cmap_id);
    write_u32(&mut out, host_root);
    write_u32(&mut out, visual);
    out
}

/// COMPOSITE NameWindowPixmap.
pub open spec fn name_window_pixmap_bytes(opcode: u8, window: u32, pixmap: u32) -> Seq<u8> {
    seq![opcode, NAME_WINDOW_PIXMAP] + wire::le16(3) + wire::le32(window as int) + wire::le32(
        pixmap as int,
    )
}

/// One of the picture formats that the server offers to its own clients.
#[derive(Clone, Copy, Debug, PartialEq, Eq, Structural)]
pub enum PictFormat {
    A1,
    A8,
    Rgb24,
    Argb32,
}

/// Where the `i`th format starts in a QueryPictFormats reply.
pub open spec fn format_offset(i: int) -> int {
    32 + 28 * i
}

/// How many formats a QueryPictFormats reply holds in full.
pub open spec fn format_count(bytes: Seq<u8>) -> int {
    let said = wire::u32_at(bytes, 8);
    let held = (bytes.len() - 32) / 28;
    if said <= held {
        said
    } else {
        held
    }
}

/// Whether the `i`th format of the reply is direct and has the depth and the
/// masks of `format`.
pub open spec fn is_format(bytes: Seq<u8>, i: int, format: PictFormat) -> bool {
    let base = format_offset(i);
    let depth = bytes[base + 5];
    let red_shift = wire::u16_at(bytes, base + 8);
    let red_mask = wire::u16_at(bytes, base + 10);
    let alpha_shift = wire::u16_at(bytes, base + 20);
    let alpha_mask = wire::u16_at(bytes, base + 22);
    &&& bytes[base + 4] == 1
    &&& match format {
        PictFormat::A1 => depth == 1 && alpha_mask == 1,
        PictFormat::A8 => depth == 8 && alpha_mask == 0xff && alpha_shift == 0,
        PictFormat::Rgb24 => depth == 24 && red_mask == 0xff && red_shift == 16 && alpha_mask
            == 0,
        PictFormat::Argb32 => depth == 32 && alpha_mask == 0xff && alpha_shift == 24,
    }
}

/// The identifier of the last of the first `n` formats of the reply that is
/// `format`; 0 if none is.
pub open spec fn last_format(bytes: Seq<u8>, n: int, format: PictFormat) -> int
    decreases n,
{
    if n <= 0 {
        0
    } else if is_format(bytes, n - 1, format) {
        wire::u32_at(bytes, format_offset(n - 1))
    } else {
        last_format(bytes, n - 1, format)
    }
}

/// What a QueryPictFormats reply says.
pub open spec fn pict_formats(bytes: Seq<u8>, opcode: u8) -> HostRenderInfo {
    let n = format_count(bytes);
    HostRenderInfo {
        opcode,
        fmt_a1: last_format(bytes, n, PictFormat::A1) as u32,
        fmt_a8: last_format(bytes, n, PictFormat::A8) as u32,
        fmt_rgb24: last_format(bytes, n, PictFormat::Rgb24) as u32,
        fmt_argb32: last_format(bytes, n, PictFormat::Argb32) as u32,
    }
}

/// Picks the formats of interest out of a QueryPictFormats reply. Formats that
/// the reply announces and does not hold are left out. Fails on a reply that is
/// shorter than a header.
pub fn parse_host_pict_formats(bytes: &[u8], opcode: u8) -> (r: Result<
    HostRenderInfo,
    BackendError,
>)
    ensures
        match r {
            Ok(info) => bytes@.len() >= 32 && info == pict_formats(bytes@, opcode),
            Err(e) => bytes@.len() < 32 && e == BackendError::Other,
        },
{
    if bytes.len() < 32 {
        return Err(BackendError::Other);
    }
    let len: usize = bytes.len();
    let said: usize = read_u32(bytes, 8) as usize;
    let held: usize = (len - 32) / 28;
    let n: usize = if said <= held {
        said
    } else {
        held
    };
    let mut fmt_a1: u32 = 0;
    let mut fmt_a8: u32 = 0;
    let mut fmt_rgb24: u32 = 0;
    let mut fmt_argb32: u32 = 0;
    for i in 0..n
        invariant
            n == format_count(bytes@),
            n <= (len - 32) / 28,
            32 <= len == bytes@.len(),
            fmt_a1 == last_format(bytes@, i as int, PictFormat::A1),
            fmt_a8 == last_format(bytes@, i as int, PictFormat::A8),
            fmt_rgb24 == last_format(bytes@, i as int, PictFormat::Rgb24),
            fmt_argb32 == last_format(bytes@, i as int, PictFormat::Argb32),
    {
        assert(32 + 28 * (i + 1) <= len);
        let base: usize = 32 + i * 28;
        assert(base == format_offset(i as int));
        assert(base + 28 <= bytes@.len());
        let id: u32 = read_u32(bytes, base);
        let type_: u8 = bytes[base + 4];
        let depth: u8 = bytes[base + 5];
        let alpha_shift: u16 = read_u16(bytes, base + 20);
        let alpha_mask: u16 = read_u16(bytes, base + 22);
        let red_shift: u16 = read_u16(bytes, base + 8);
        let red_mask: u16 = read_u16(bytes, base + 10);
        if type_ == 1 {
            if depth == 1 && alpha_mask == 1 {
                fmt_a1 = id;
            } else if depth == 8 && alpha_mask == 0xff && alpha_shift == 0 {
                fmt_a8 = id;
            } else if depth == 24 && red_mask == 0xff && red_shift == 16 && alpha_mask == 0 {
                fmt_rgb24 = id;
            } else if depth == 32 && alpha_mask == 0xff && alpha_shift == 24 {
                fmt_argb32 = id;
            }
        }
    }
    Ok(HostRenderInfo { opcode, fmt_a1, fmt_a8, fmt_rgb24, fmt_argb32 })
}

/// Extensions of the host that startup asks for.
#[derive(Clone, Copy, Debug, PartialEq, Eq, Structural)]
pub enum HostExtension {
    Render,
    Xkb,
    Shape,
    Xfixes,
    Composite,
}

impl HostExtension {
    /// The name of the extension, in ASCII.
    pub open spec fn ascii(self) -> Seq<u8> {
        match self {
            // RENDER
            HostExtension::Render => seq![82u8, 69, 78, 68, 69, 82],
            // XKEYBOARD
            HostExtension::Xkb => seq![88u8, 75, 69, 89, 66, 79, 65, 82, 68],
            // SHAPE
            HostExtension::Shape => seq![83u8, 72, 65, 80, 69],
            // XFIXES
            HostExtension::Xfixes => seq![88u8, 70, 73, 88, 69, 83],
            // Composite
            HostExtension::Composite => seq![67u8, 111, 109, 112, 111, 115, 105, 116, 101],
        }
    }

    pub fn name(self) -> (r: Vec<u8>)
        ensures
            r@ == self.ascii(),
            r@.len() <= 9,
    {
        let r: Vec<u8> = match self {
            HostExtension::Render => vec![82u8, 69, 78, 68, 69, 82],
            HostExtension::Xkb => vec![88u8, 75, 69, 89, 66, 79, 65, 82, 68],
            HostExtension::Shape => vec![83u8, 72, 65, 80, 69],
            HostExtension::Xfixes => vec![88u8, 70, 73, 88, 69, 83],
            HostExtension::Composite => vec![67u8, 111, 109, 112, 111, 115, 105, 116, 101],
        };
        assert(r@ =~= self.ascii());
        r
    }
}

/// What the startup conversation waits for.
#[derive(Clone, Copy, Debug, PartialEq, Eq, Structural)]
pub enum Probe {
    /// Whether the extension is there.
    Query { extension: HostExtension },
    /// The picture formats of RENDER.
    RenderFormats { opcode: u8 },
    /// Whether XKEYBOARD may be used.
    XkbUse { info: HostXkbInfo },
    /// That the request for a colormap is out.
    Colormap { xid: u32 },
    /// Nothing: startup is over.
    Done,
}

/// What the connection is to do next.
#[derive(Clone, Debug)]
pub enum HostAction {
    /// Write the request; then read a response, or for the colormap report
    /// that it was written.
    Send { request: Vec<u8> },
    /// Read another response.
    Read,
    /// Stop: startup is over.
    Finish,
}

/// [`HostAction`] with its bytes as a sequence.
#[verifier::ext_equal]
pub enum HostActionView {
    Send { request: Seq<u8> },
    Read,
    Finish,
}

impl View for HostAction {
    type V = HostActionView;

    open spec fn view(&self) -> HostActionView {
        match self {
            HostAction::Send { request } => HostActionView::Send { request: request@ },
            HostAction::Read => HostActionView::Read,
            HostAction::Finish => HostActionView::Finish,
        }
    }
}

/// The attributes that the host's shared graphics context has, as far as they
/// are known: an attribute that is `None` still has the host's default.
#[derive(Clone, Debug)]
pub struct HostGcCache {
    pub foreground: u32,
    pub background: u32,
    pub clip: HostClipState,
    pub fill: HostFillState,
    pub function: Option<u8>,
    pub plane_mask: Option<u32>,
    pub line_width: Option<u16>,
    pub line_style: Option<u8>,
    pub cap_style: Option<u8>,
    pub join_style: Option<u8>,
    pub fill_rule: Option<u8>,
    pub subwindow_mode: Option<u8>,
    pub graphics_exposures: Option<bool>,
    pub dash_offset: Option<i16>,
    pub dashes: Option<Vec<u8>>,
    pub arc_mode: Option<u8>,
}

impl HostGcCache {
    /// A context of which only the colours were set.
    pub open spec fn fresh(foreground: u32, background: u32) -> HostGcCache {
        HostGcCache {
            foreground,
            background,
            clip: HostClipState::Unclipped,
            fill: HostFillState::Solid,
            function: None,
            plane_mask: None,
            line_width: None,
            line_style: None,
            cap_style: None,
            join_style: None,
            fill_rule: None,
            subwindow_mode: None,
            graphics_exposures: None,
            dash_offset: None,
            dashes: None,
            arc_mode: None,
        }
    }
}

/// The name of the font that the server opens on the host: `fixed`.
pub open spec fn fixed_font() -> Seq<u8> {
    seq![102u8, 105, 120, 101, 100]
}

/// The requests that open a connection: the container window, the font, the
/// shared graphics context, and mapping the window.
pub open spec fn opening_bytes(setup: HostSetup, width: u16, height: u16) -> Seq<u8> {
    let window_id = setup.resource_id_base;
    let gc_id = (setup.resource_id_base + 1) as u32;
    let font_id = (setup.resource_id_base + 2) as u32;
    create_window_bytes(setup, window_id, width, height) + open_font_bytes(font_id, fixed_font())
        + create_gc_bytes(window_id, gc_id, setup.black_pixel, setup.white_pixel, font_id)
        + map_window_bytes(window_id)
}

/// The books of a connection to the host.
#[derive(Debug)]
pub struct HostX11Backend {
    pub window_id: u32,
    pub gc_id: u32,
    pub gc: HostGcCache,
    /// Sequence number of the next request.
    pub sequence: u16,
    pub next_xid_counter: u32,
    pub render: Option<HostRenderInfo>,
    pub xkb: Option<HostXkbInfo>,
    /// Major opcodes of extensions that the host has.
    pub shape_opcode: Option<u8>,
    pub xfixes_opcode: Option<u8>,
    pub composite_opcode: Option<u8>,
    pub root: u32,
    pub root_visual_xid: u32,
    pub argb_visual_xid: Option<u32>,
    pub argb_colormap_xid: Option<u32>,
    /// Responses that came while another one was awaited.
    pub reply_buffer: Vec<HostResponse>,
    /// Graphics contexts for pixmaps, by depth.
    pub depth_gcs: HashMap<u8, u32>,
    pub probe: Probe,
    /// Sequence number of the response that `probe` waits for.
    pub awaited: u16,
}

/// [`HostX11Backend`] with what it buffers as a sequence.
#[verifier::ext_equal]
pub struct HostView {
    pub window_id: u32,
    pub gc_id: u32,
    pub gc: HostGcCache,
    pub sequence: u16,
    pub next_xid_counter: u32,
    pub render: Option<HostRenderInfo>,
    pub xkb: Option<HostXkbInfo>,
    pub shape_opcode: Option<u8>,
    pub xfixes_opcode: Option<u8>,
    pub composite_opcode: Option<u8>,
    pub root: u32,
    pub root_visual_xid: u32,
    pub argb_visual_xid: Option<u32>,
    pub argb_colormap_xid: Option<u32>,
    pub reply_buffer: Seq<HostResponseView>,
    pub depth_gcs: Map<u8, u32>,
    pub probe: Probe,
    pub awaited: u16,
}

impl View for HostX11Backend {
    type V = HostView;

    open spec fn view(&self) -> HostView {
        HostView {
            window_id: self.window_id,
            gc_id: self.gc_id,
            gc: self.gc,
            sequence: self.sequence,
            next_xid_counter: self.next_xid_counter,
            render: self.render,
            xkb: self.xkb,
            shape_opcode: self.shape_opcode,
            xfixes_opcode: self.xfixes_opcode,
            composite_opcode: self.composite_opcode,
            root: self.root,
            root_visual_xid: self.root_visual_xid,
            argb_visual_xid: self.argb_visual_xid,
            argb_colormap_xid: self.argb_colormap_xid,
            reply_buffer: self.reply_buffer@.map_values(|r: HostResponse| r@),
            depth_gcs: self.depth_gcs@,
            probe: self.probe,
            awaited: self.awaited,
        }
    }
}

impl HostView {
    /// A connection that was just opened: window, graphics context and font
    /// have the first three identifiers, and five requests were counted.
    pub open spec fn opened(setup: HostSetup) -> HostView {
        HostView {
            window_id: setup.resource_id_base,
            gc_id: (setup.resource_id_base + 1) as u32,
            gc: HostGcCache::fresh(setup.black_pixel, setup.white_pixel),
            sequence: 5,
            next_xid_counter: (setup.resource_id_base + 3) as u32,
            render: None,
            xkb: None,
            shape_opcode: None,
            xfixes_opcode: None,
            composite_opcode: None,
            root: setup.root,
            root_visual_xid: setup.root_visual,
            argb_visual_xid: setup.argb_visual,
            argb_colormap_xid: None,
            reply_buffer: Seq::empty(),
            depth_gcs: Map::empty(),
            probe: Probe::Done,
            awaited: 0,
        }
    }

    /// After a request went out whose response `probe` waits for.
    pub open spec fn awaiting(self, probe: Probe) -> HostView {
        HostView {
            probe,
            awaited: self.sequence,
            sequence: self.sequence.wrapping_add(1),
            ..self
        }
    }

    /// Asking for an extension.
    pub open spec fn asking(self, extension: HostExtension) -> (HostView, HostActionView) {
        (
            self.awaiting(Probe::Query { extension }),
            HostActionView::Send { request: query_extension_bytes(extension.ascii()) },
        )
    }

    /// What comes once the current probe is settled: the extensions in turn,
    /// then a colormap if the host has an ARGB visual, then nothing.
    pub open spec fn settled(self) -> (HostView, HostActionView) {
        match self.probe {
            Probe::Query { extension: HostExtension::Render }
            | Probe::RenderFormats { .. } => self.asking(HostExtension::Xkb),
            Probe::Query { extension: HostExtension::Xkb }
            | Probe::XkbUse { .. } => self.asking(HostExtension::Shape),
            Probe::Query { extension: HostExtension::Shape } => self.asking(
                HostExtension::Xfixes,
            ),
            Probe::Query { extension: HostExtension::Xfixes } => self.asking(
                HostExtension::Composite,
            ),
            Probe::Query { extension: HostExtension::Composite } => match self.argb_visual_xid {
                Some(visual) => (
                    HostView {
                        probe: Probe::Colormap { xid: self.next_xid_counter },
                        next_xid_counter: self.next_xid_counter.wrapping_add(1),
                        ..self
                    },
                    HostActionView::Send {
                        request: create_colormap_bytes(self.next_xid_counter, self.root, visual),
                    },
                ),
                None => (HostView { probe: Probe::Done, ..self }, HostActionView::Finish),
            },
            Probe::Colormap { .. } | Probe::Done => (
                HostView { probe: Probe::Done, ..self },
                HostActionView::Finish,
            ),
        }
    }

    /// What the awaited response settles, or what it leads on to.
    pub open spec fn answered(self, bytes: Seq<u8>) -> (HostView, HostActionView) {
        let present = bytes[8] != 0;
        match self.probe {
            Probe::Query { extension: HostExtension::Render } => if present {
                (
                    self.awaiting(Probe::RenderFormats { opcode: bytes[9] }),
                    HostActionView::Send { request: query_pict_formats_bytes(bytes[9]) },
                )
            } else {
                self.settled()
            },
            Probe::RenderFormats { opcode } => HostView {
                render: Some(pict_formats(bytes, opcode)),
                ..self
            }.settled(),
            Probe::Query { extension: HostExtension::Xkb } => if present {
                (
                    self.awaiting(
                        Probe::XkbUse {
                            info: HostXkbInfo {
                                opcode: bytes[9],
                                first_event: bytes[10],
                                first_error: bytes[11],
                            },
                        },
                    ),
                    HostActionView::Send { request: use_xkb_bytes(bytes[9]) },
                )
            } else {
                self.settled()
            },
            Probe::XkbUse { info } => if present {
                HostView { xkb: Some(info), ..self }.settled()
            } else {
                self.settled()
            },
            Probe::Query { extension: HostExtension::Shape } => HostView {
                shape_opcode: if present {
                    Some(bytes[9])
                } else {
                    None
                },
                ..self
            }.settled(),
            Probe::Query { extension: HostExtension::Xfixes } => HostView {
                xfixes_opcode: if present {
                    Some(bytes[9])
                } else {
                    None
                },
                ..self
            }.settled(),
            Probe::Query { extension: HostExtension::Composite } => HostView {
                composite_opcode: if present {
                    Some(bytes[9])
                } else {
                    None
                },
                ..self
            }.settled(),
            Probe::Colormap { .. } | Probe::Done => self.settled(),
        }
    }

    /// Whether responses that are not awaited are kept for later.
    pub open spec fn keeps_others(self) -> bool {
        match self.probe {
            Probe::Query { extension } => extension != HostExtension::Render && extension
                != HostExtension::Xkb,
            _ => false,
        }
    }

    /// What a response leads to.
    pub open spec fn received(self, response: HostResponseView) -> (HostView, HostActionView) {
        if response.sequence == self.awaited || self.probe is Colormap || self.probe is Done {
            self.answered(response.bytes)
        } else if self.keeps_others() {
            (
                HostView { reply_buffer: self.reply_buffer.push(response), ..self },
                HostActionView::Read,
            )
        } else {
            (self, HostActionView::Read)
        }
    }

    /// The colormap request is out.
    pub open spec fn colormap_sent(self) -> HostView {
        match self.probe {
            Probe::Colormap { xid } => HostView {
                argb_colormap_xid: Some(xid),
                sequence: self.sequence.wrapping_add(1),
                probe: Probe::Done,
                ..self
            },
            _ => self,
        }
    }

    /// The host's format for a format number of the server's own.
    pub open spec fn format_for(self, ynest_fmt: u32) -> Option<u32> {
        match self.render {
            Some(r) => if ynest_fmt == 1 {
                Some(r.fmt_a1)
            } else if ynest_fmt == 2 {
                Some(r.fmt_a8)
            } else if ynest_fmt == 3 {
                Some(r.fmt_rgb24)
            } else if ynest_fmt == 4 {
                Some(r.fmt_argb32)
            } else {
                None
            },
            None => None,
        }
    }
}

impl HostX11Backend {
    /// Opens the books of a fresh connection, and composes the requests to
    /// write on it.
    pub fn open(setup: &HostSetup, width: u16, height: u16) -> (r: (Self, Vec<u8>))
        requires
            setup.resource_id_base <= u32::MAX - 3,
        ensures
            r.0@ == HostView::opened(*setup),
            r.1@ == opening_bytes(*setup, width, height),
    {
        let window_id: u32 = setup.resource_id_base;
        let gc_id: u32 = setup.resource_id_base + 1;
        let font_id: u32 = setup.resource_id_base + 2;
        let name: Vec<u8> = vec![102u8, 105, 120, 101, 100];
        assert(name@ =~= fixed_font());
        let mut out = create_window(setup, window_id, width, height);
        if let Ok(request) = open_font(font_id, name.as_slice()) {
            out.extend_from_slice(request.as_slice());
        }
        let request = create_gc(window_id, gc_id, setup.black_pixel, setup.white_pixel, font_id);
        out.extend_from_slice(request.as_slice());
        let request = map_window(window_id);
        out.extend_from_slice(request.as_slice());
        assert(out@ =~= opening_bytes(*setup, width, height));
        let this = HostX11Backend {
            window_id,
            gc_id,
            gc: HostGcCache {
                foreground: setup.black_pixel,
                background: setup.white_pixel,
                clip: HostClipState::Unclipped,
                fill: HostFillState::Solid,
                function: None,
                plane_mask: None,
                line_width: None,
                line_style: None,
                cap_style: None,
                join_style: None,
                fill_rule: None,
                subwindow_mode: None,
                graphics_exposures: None,
                dash_offset: None,
                dashes: None,
                arc_mode: None,
            },
            sequence: 5,
            next_xid_counter: setup.resource_id_base + 3,
            render: None,
            xkb: None,
            shape_opcode: None,
            xfixes_opcode: None,
            composite_opcode: None,
            root: setup.root,
            root_visual_xid: setup.root_visual,
            argb_visual_xid: setup.argb_visual,
            argb_colormap_xid: None,
            reply_buffer: Vec::new(),
            depth_gcs: HashMap::new(),
            probe: Probe::Done,
            awaited: 0,
        };
        assert(this@ =~= HostView::opened(*setup));
        (this, out)
    }

    /// Starts asking the host what it can do.
    pub fn begin_probes(&mut self) -> (action: HostAction)
        ensures
            (final(self)@, action@) == old(self)@.asking(HostExtension::Render),
    {
        self.query_extension_opcode(HostExtension::Render)
    }

    /// Takes the next response from the host.
    pub fn on_response(&mut self, response: HostResponse) -> (action: HostAction)
        requires
            response@.bytes.len() >= HEADER_LEN,
        ensures
            (final(self)@, action@) == old(self)@.received(response@),
    {
        match self.probe {
            Probe::Colormap { .. } | Probe::Done => {
                return self.proceed();
            },
            _ => {},
        }
        if response.sequence == self.awaited {
            match self.probe {
                Probe::Query { extension: HostExtension::Render }
                | Probe::RenderFormats { .. } => self.init_render(&response),
                Probe::Query { extension: HostExtension::Xkb }
                | Probe::XkbUse { .. } => self.init_xkb(&response),
                _ => {
                    let opcode: Option<u8> = if response.bytes[8] == 0 {
                        None
                    } else {
                        Some(response.bytes[9])
                    };
                    match self.probe {
                        Probe::Query { extension: HostExtension::Shape } => {
                            self.shape_opcode = opcode;
                        },
                        Probe::Query { extension: HostExtension::Xfixes } => {
                            self.xfixes_opcode = opcode;
                        },
                        _ => {
                            self.composite_opcode = opcode;
                        },
                    }
                    self.proceed()
                },
            }
        } else {
            match self.probe {
                Probe::Query { extension: HostExtension::Render }
                | Probe::Query { extension: HostExtension::Xkb } => {},
                Probe::Query { .. } => {
                    let ghost before = self@;
                    self.reply_buffer.push(response);
                    assert(self@.reply_buffer =~= before.reply_buffer.push(response@));
                },
                _ => {},
            }
            HostAction::Read
        }
    }

    /// Gives the current probe up, because the connection failed.
    pub fn on_failure(&mut self) -> (action: HostAction)
        ensures
            (final(self)@, action@) == old(self)@.settled(),
    {
        self.proceed()
    }

    /// The request for the colormap was written.
    pub fn on_colormap_sent(&mut self)
        ensures
            final(self)@ == old(self)@.colormap_sent(),
    {
        if let Probe::Colormap { xid } = self.probe {
            self.argb_colormap_xid = Some(xid);
            self.sequence = self.sequence.wrapping_add(1);
            self.probe = Probe::Done;
        }
    }

    /// Reads the answers about RENDER.
    fn init_render(&mut self, response: &HostResponse) -> (action: HostAction)
        requires
            old(self)@.probe is RenderFormats || old(self)@.probe == (Probe::Query {
                extension: HostExtension::Render,
            }),
            response@.bytes.len() >= HEADER_LEN,
        ensures
            (final(self)@, action@) == old(self)@.answered(response@.bytes),
    {
        if let Probe::RenderFormats { opcode } = self.probe {
            if let Ok(info) = parse_host_pict_formats(response.bytes.as_slice(), opcode) {
                self.render = Some(info);
            }
            self.proceed()
        } else if response.bytes[8] == 0 {
            self.proceed()
        } else {
            let opcode: u8 = response.bytes[9];
            self.wait_for(Probe::RenderFormats { opcode });
            HostAction::Send { request: query_pict_formats(opcode) }
        }
    }

    /// Reads the answers about XKEYBOARD.
    fn init_xkb(&mut self, response: &HostResponse) -> (action: HostAction)
        requires
            old(self)@.probe is XkbUse || old(self)@.probe == (Probe::Query {
                extension: HostExtension::Xkb,
            }),
            response@.bytes.len() >= HEADER_LEN,
        ensures
            (final(self)@, action@) == old(self)@.answered(response@.bytes),
    {
        let present = response.bytes[8] != 0;
        if let Probe::XkbUse { info } = self.probe {
            if present {
                self.xkb = Some(info);
            }
            self.proceed()
        } else if present {
            let info = HostXkbInfo {
                opcode: response.bytes[9],
                first_event: response.bytes[10],
                first_error: response.bytes[11],
            };
            self.wait_for(Probe::XkbUse { info });
            HostAction::Send { request: use_xkb(info.opcode) }
        } else {
            self.proceed()
        }
    }

    /// Asks for an extension.
    fn query_extension_opcode(&mut self, extension: HostExtension) -> (action: HostAction)
        ensures
            (final(self)@, action@) == old(self)@.asking(extension),
    {
        let name = extension.name();
        self.wait_for(Probe::Query { extension });
        HostAction::Send { request: query_extension(name.as_slice()) }
    }

    fn wait_for(&mut self, probe: Probe)
        ensures
            final(self)@ == old(self)@.awaiting(probe),
    {
        self.probe = probe;
        self.awaited = self.sequence;
        self.sequence = self.sequence.wrapping_add(1);
    }

    /// Goes on to what comes after the current probe.
    fn proceed(&mut self) -> (action: HostAction)
        ensures
            (final(self)@, action@) == old(self)@.settled(),
    {
        match self.probe {
            Probe::Query { extension: HostExtension::Render }
            | Probe::RenderFormats { .. } => self.query_extension_opcode(HostExtension::Xkb),
            Probe::Query { extension: HostExtension::Xkb }
            | Probe::XkbUse { .. } => self.query_extension_opcode(HostExtension::Shape),
            Probe::Query { extension: HostExtension::Shape } => self.query_extension_opcode(
                HostExtension::Xfixes,
            ),
            Probe::Query { extension: HostExtension::Xfixes } => self.query_extension_opcode(
                HostExtension::Composite,
            ),
            Probe::Query { extension: HostExtension::Composite } => match self.argb_visual_xid {
                Some(visual) => self.create_argb_colormap(visual),
                None => {
                    self.probe = Probe::Done;
                    HostAction::Finish
                },
            },
            Probe::Colormap { .. } | Probe::Done => {
                self.probe = Probe::Done;
                HostAction::Finish
            },
        }
    }

    /// Asks for a colormap for the ARGB visual. Nothing answers: should the host
    /// refuse, its error comes later and is dropped.
    fn create_argb_colormap(&mut self, argb_visual: u32) -> (action: HostAction)
        ensures
            final(self)@ == (HostView {
                probe: Probe::Colormap { xid: old(self)@.next_xid_counter },
                next_xid_counter: old(self)@.next_xid_counter.wrapping_add(1),
                ..old(self)@
            }),
            action@ == (HostActionView::Send {
                request: create_colormap_bytes(
                    old(self)@.next_xid_counter,
                    old(self)@.root,
                    argb_visual,
                ),
            }),
    {
        let xid: u32 = self.next_xid();
        self.probe = Probe::Colormap { xid };
        HostAction::Send { request: create_colormap(xid, self.root, argb_visual) }
    }

    /// An identifier for a new resource of the host.
    pub fn next_xid(&mut self) -> (r: u32)
        ensures
            r == old(self)@.next_xid_counter,
            final(self)@ == (HostView {
                next_xid_counter: old(self)@.next_xid_counter.wrapping_add(1),
                ..old(self)@
            }),
    {
        let xid: u32 = self.next_xid_counter;
        self.next_xid_counter = self.next_xid_counter.wrapping_add(1);
        xid
    }

    /// Composes `NameWindowPixmap` for a window of the host: the new pixmap and
    /// the request to write. No response comes; report the request with
    /// [`HostX11Backend::request_sent`] once it is written. Unsupported without
    /// the COMPOSITE extension.
    pub fn name_window_pixmap(&mut self, host_window: WindowHandle) -> (r: Result<
        (PixmapHandle, Vec<u8>),
        BackendError,
    >)
        requires
            old(self)@.composite_opcode is Some ==> old(self)@.next_xid_counter != 0,
        ensures
            match r {
                Ok((pixmap, request)) => {
                    &&& old(self)@.composite_opcode is Some
                    &&& pixmap.raw == old(self)@.next_xid_counter
                    &&& request@ == name_window_pixmap_bytes(
                        old(self)@.composite_opcode->0,
                        host_window.raw,
                        pixmap.raw,
                    )
                    &&& final(self)@ == (HostView {
                        next_xid_counter: old(self)@.next_xid_counter.wrapping_add(1),
                        ..old(self)@
                    })
                },
                Err(e) => {
                    &&& old(self)@.composite_opcode is None
                    &&& e == BackendError::Unsupported
                    &&& final(self)@ == old(self)@
                },
            },
    {
        let Some(major) = self.composite_opcode else {
            return Err(BackendError::Unsupported);
        };
        let host_pixmap: u32 = self.next_xid();
        let mut out: Vec<u8> = Vec::new();
        out.push(major);
        out.push(NAME_WINDOW_PIXMAP);
        assert(out@ =~= seq![major, NAME_WINDOW_PIXMAP]);
        write_u16(&mut out, 3);
        write_u32(&mut out, host_window.as_raw());
        write_u32(&mut out, host_pixmap);
        Ok((PixmapHandle { raw: host_pixmap }, out))
    }

    /// Counts a request that was written and that no response is awaited for.
    pub fn request_sent(&mut self)
        ensures
            final(self)@ == (HostView {
                sequence: old(self)@.sequence.wrapping_add(1),
                ..old(self)@
            }),
    {
        self.sequence = self.sequence.wrapping_add(1);
    }

    pub fn root_visual_xid(&self) -> (r: u32)
        ensures
            r == self@.root_visual_xid,
    {
        self.root_visual_xid
    }

    pub fn argb_visual_xid(&self) -> (r: Option<u32>)
        ensures
            r == self@.argb_visual_xid,
    {
        self.argb_visual_xid
    }

    pub fn argb_colormap_xid(&self) -> (r: Option<u32>)
        ensures
            r == self@.argb_colormap_xid,
    {
        self.argb_colormap_xid
    }

    #[must_use]
    pub fn composite_opcode(&self) -> (r: Option<u8>)
        ensures
            r == self@.composite_opcode,
    {
        self.composite_opcode
    }

    pub fn window_id(&self) -> (r: u32)
        ensures
            r == self@.window_id,
    {
        self.window_id
    }

    pub fn render_opcode(&self) -> (r: Option<u8>)
        ensures
            r == (match self@.render {
                Some(info) => Some(info.opcode),
                None => None,
            }),
    {
        match self.render {
            Some(info) => Some(info.opcode),
            None => None,
        }
    }

    pub fn xkb_opcode(&self) -> (r: Option<u8>)
        ensures
            r == (match self@.xkb {
                Some(info) => Some(info.opcode),
                None => None,
            }),
    {
        match self.xkb {
            Some(info) => Some(info.opcode),
            None => None,
        }
    }

    pub fn xkb_info(&self) -> (r: Option<(u8, u8, u8)>)
        ensures
            r == (match self@.xkb {
                Some(info) => Some((info.opcode, info.first_event, info.first_error)),
                None => None,
            }),
    {
        match self.xkb {
            Some(info) => Some((info.opcode, info.first_event, info.first_error)),
            None => None,
        }
    }

    pub fn render_format_for_ynest_id(&self, ynest_fmt: u32) -> (r: Option<u32>)
        ensures
            r == self@.format_for(ynest_fmt),
    {
        match self.render {
            Some(info) => match ynest_fmt {
                1 => Some(info.fmt_a1),
                2 => Some(info.fmt_a8),
                3 => Some(info.fmt_rgb24),
                4 => Some(info.fmt_argb32),
                _ => None,
            },
            None => None,
        }
    }
}

} // verus!
