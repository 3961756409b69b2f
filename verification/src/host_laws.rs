//! What holds of the conversation with the host.

use vstd::prelude::*;

use crate::host_x11;
use crate::host_x11::{
    HeaderAction, HostActionView, HostExtension, HostResponseView, HostSetup, HostSubwindowVisual,
    HostView, PictFormat, Probe,
};
use crate::wire;

verus! {

/// Whether the length that a request names, in units of four bytes, is its own.
pub open spec fn names_its_length(request: Seq<u8>) -> bool {
    request.len() == 4 * wire::u16_at(request, 2)
}

/// Every request composed for the host names its own length.
pub proof fn lemma_requests_name_their_length(
    setup: HostSetup,
    a: u32,
    b: u32,
    c: u32,
    width: u16,
    height: u16,
    opcode: u8,
    name: Seq<u8>,
)
    requires
        name.len() <= 0xffff,
    ensures
        names_its_length(host_x11::create_window_bytes(setup, a, width, height)),
        names_its_length(host_x11::create_gc_bytes(a, b, c, a, b)),
        names_its_length(host_x11::open_font_bytes(a, name)),
        names_its_length(host_x11::map_window_bytes(a)),
        names_its_length(host_x11::query_extension_bytes(name)),
        names_its_length(host_x11::query_pict_formats_bytes(opcode)),
        names_its_length(host_x11::use_xkb_bytes(opcode)),
        names_its_length(host_x11::create_colormap_bytes(a, b, c)),
        names_its_length(host_x11::name_window_pixmap_bytes(opcode, a, b)),
{
    lemma_create_window_length(setup, a, width, height);
    lemma_create_gc_length(a, b, c);
    lemma_named_lengths(a, name);
    lemma_short_lengths(a, b, c, opcode);
}

proof fn lemma_create_window_length(setup: HostSetup, id: u32, width: u16, height: u16)
    ensures
        names_its_length(host_x11::create_window_bytes(setup, id, width, height)),
{
    let request = host_x11::create_window_bytes(setup, id, width, height);
    assert(request.len() == 44);
    assert(request[2] == wire::le16(11)[0] && request[3] == wire::le16(11)[1]);
}

proof fn lemma_create_gc_length(a: u32, b: u32, c: u32)
    ensures
        names_its_length(host_x11::create_gc_bytes(a, b, c, a, b)),
{
    let request = host_x11::create_gc_bytes(a, b, c, a, b);
    assert(request.len() == 28);
    assert(request[2] == wire::le16(7)[0] && request[3] == wire::le16(7)[1]);
}

#[verifier::spinoff_prover]
#[verifier::rlimit(40)]
proof fn lemma_named_lengths(a: u32, name: Seq<u8>)
    requires
        name.len() <= 0xffff,
    ensures
        names_its_length(host_x11::open_font_bytes(a, name)),
        names_its_length(host_x11::query_extension_bytes(name)),
{
    let units = wire::padded(name.len() as int) / 4;
    assert(host_x11::padded_name(name).len() == 4 * units);
    let request = host_x11::open_font_bytes(a, name);
    assert(request.len() == 12 + 4 * units);
    assert(request[2] == wire::le16(3 + units)[0] && request[3] == wire::le16(3 + units)[1]);
    let request = host_x11::query_extension_bytes(name);
    assert(request.len() == 8 + 4 * units);
    assert(request[2] == wire::le16(2 + units)[0] && request[3] == wire::le16(2 + units)[1]);
}

proof fn lemma_short_lengths(a: u32, b: u32, c: u32, opcode: u8)
    ensures
        names_its_length(host_x11::map_window_bytes(a)),
        names_its_length(host_x11::query_pict_formats_bytes(opcode)),
        names_its_length(host_x11::use_xkb_bytes(opcode)),
        names_its_length(host_x11::create_colormap_bytes(a, b, c)),
        names_its_length(host_x11::name_window_pixmap_bytes(opcode, a, b)),
{
}

/// How far startup has come.
pub open spec fn stage(probe: Probe) -> int {
    match probe {
        Probe::Query { extension: HostExtension::Render } => 0,
        Probe::RenderFormats { .. } => 1,
        Probe::Query { extension: HostExtension::Xkb } => 2,
        Probe::XkbUse { .. } => 3,
        Probe::Query { extension: HostExtension::Shape } => 4,
        Probe::Query { extension: HostExtension::Xfixes } => 5,
        Probe::Query { extension: HostExtension::Composite } => 6,
        Probe::Colormap { .. } => 7,
        Probe::Done => 8,
    }
}

/// Startup ends: every response that is awaited, and every failure, takes it
/// further; any other response leaves the question as it was and asks for
/// another one.
pub proof fn lemma_startup_moves_forward(host: HostView, response: HostResponseView)
    requires
        !(host.probe is Done),
    ensures
        stage(host.settled().0.probe) > stage(host.probe),
        ({
            let (after, action) = host.received(response);
            if response.sequence == host.awaited || host.probe is Colormap {
                stage(after.probe) > stage(host.probe)
            } else {
                &&& action is Read
                &&& after.probe == host.probe
                &&& after.awaited == host.awaited
                &&& after.sequence == host.sequence
            }
        }),
        host.settled().1 is Finish <==> host.settled().0.probe is Done,
{
}

/// A host that fails at everything is left with no extension, and with an ARGB
/// colormap only if it was told of one before.
pub proof fn lemma_failures_change_no_capability(host: HostView)
    ensures
        host.settled().0.render == host.render,
        host.settled().0.xkb == host.xkb,
        host.settled().0.shape_opcode == host.shape_opcode,
        host.settled().0.xfixes_opcode == host.xfixes_opcode,
        host.settled().0.composite_opcode == host.composite_opcode,
        host.settled().0.argb_colormap_xid == host.argb_colormap_xid,
        host.settled().0.reply_buffer == host.reply_buffer,
        host.settled().0.window_id == host.window_id,
{
}

/// Every question that startup sends takes the next sequence number, and its
/// response is awaited under that number.
pub proof fn lemma_questions_are_counted(host: HostView, extension: HostExtension)
    ensures
        host.asking(extension).0.awaited == host.sequence,
        host.asking(extension).0.sequence == host.sequence.wrapping_add(1),
        host.asking(extension).0.probe == (Probe::Query { extension }),
{
}

/// New resources get identifiers that the opening requests did not use, as
/// long as the identifiers last.
pub proof fn lemma_first_new_identifier_is_fresh(setup: HostSetup)
    requires
        setup.resource_id_base <= u32::MAX - 3,
    ensures
        HostView::opened(setup).next_xid_counter > HostView::opened(setup).gc_id + 1,
        HostView::opened(setup).gc_id > HostView::opened(setup).window_id,
{
}

/// A format of interest is found if and only if the reply holds one, unless its
/// identifier is 0; and what is found is the last of its kind.
pub proof fn lemma_found_format_is_in_the_reply(bytes: Seq<u8>, n: int, format: PictFormat)
    requires
        n >= 0,
    ensures
        (forall|i: int| 0 <= i < n ==> !#[trigger] host_x11::is_format(bytes, i, format))
            ==> host_x11::last_format(bytes, n, format) == 0,
        forall|i: int|
            0 <= i < n && #[trigger] host_x11::is_format(bytes, i, format) && (forall|j: int|
                i < j < n ==> !#[trigger] host_x11::is_format(bytes, j, format))
                ==> host_x11::last_format(bytes, n, format) == wire::u32_at(
                bytes,
                host_x11::format_offset(i),
            ),
    decreases n,
{
    if n > 0 {
        lemma_found_format_is_in_the_reply(bytes, n - 1, format);
        assert forall|i: int|
            0 <= i < n && #[trigger] host_x11::is_format(bytes, i, format) && (forall|j: int|
                i < j < n ==> !#[trigger] host_x11::is_format(bytes, j, format)) implies host_x11::last_format(
            bytes,
            n,
            format,
        ) == wire::u32_at(bytes, host_x11::format_offset(i)) by {
            if i < n - 1 {
                assert(!host_x11::is_format(bytes, n - 1, format));
            }
        }
        if forall|i: int| 0 <= i < n ==> !#[trigger] host_x11::is_format(bytes, i, format) {
            assert(!host_x11::is_format(bytes, n - 1, format));
        }
    }
}

/// The value of two bytes from `at` on, the low one first.
pub open spec fn short_at(s: Seq<u8>, at: int) -> int {
    s[at] + 0x100 * s[at + 1]
}

/// The value of four bytes from `at` on, the low one first.
pub open spec fn long_at(s: Seq<u8>, at: int) -> int {
    s[at] + 0x100 * s[at + 1] + 0x1_0000 * s[at + 2] + 0x100_0000 * s[at + 3]
}

proof fn lemma_short_at(s: Seq<u8>, at: int, v: u16)
    requires
        s[at] == wire::le16(v as int)[0],
        s[at + 1] == wire::le16(v as int)[1],
    ensures
        short_at(s, at) == v,
{
    assert(v % 256 + 0x100 * (v / 256 % 256) == v) by (bit_vector);
}

proof fn lemma_long_at(s: Seq<u8>, at: int, v: u32)
    requires
        s[at] == wire::le32(v as int)[0],
        s[at + 1] == wire::le32(v as int)[1],
        s[at + 2] == wire::le32(v as int)[2],
        s[at + 3] == wire::le32(v as int)[3],
    ensures
        long_at(s, at) == v,
{
    assert(v % 256 + 0x100 * (v / 256 % 256) + 0x1_0000 * (v / 65536 % 256) + 0x100_0000 * (v
        / 16777216 % 256) == v) by (bit_vector);
}

/// The container window is asked for below the host's root, with its depth and
/// visual, at (80, 80) and in the size asked for; with the host's white for its
/// background, under a bit gravity of 1, and with the events that it is interested in.
pub proof fn lemma_container_is_asked_for_below_the_root(
    setup: HostSetup,
    id: u32,
    width: u16,
    height: u16,
)
    ensures
        ({
            let s = host_x11::create_window_bytes(setup, id, width, height);
            &&& s.len() == 44
            &&& s[0] == 1 && s[1] == setup.root_depth
            &&& short_at(s, 2) == 11
            &&& long_at(s, 4) == id
            &&& long_at(s, 8) == setup.root
            &&& short_at(s, 12) == 80 && short_at(s, 14) == 80
            &&& short_at(s, 16) == width && short_at(s, 18) == height
            &&& short_at(s, 20) == 0 && short_at(s, 22) == 1
            &&& long_at(s, 24) == setup.root_visual
            &&& long_at(s, 28) == 0x812
            &&& long_at(s, 32) == setup.white_pixel
            &&& long_at(s, 36) == 1
            &&& long_at(s, 40) == 0x2_8000
        }),
{
    let s = host_x11::create_window_bytes(setup, id, width, height);
    lemma_short_at(s, 2, 11);
    lemma_long_at(s, 4, id);
    lemma_long_at(s, 8, setup.root);
    lemma_short_at(s, 12, 80);
    lemma_short_at(s, 14, 80);
    lemma_short_at(s, 16, width);
    lemma_short_at(s, 18, height);
    lemma_short_at(s, 20, 0);
    lemma_short_at(s, 22, 1);
    lemma_long_at(s, 24, setup.root_visual);
    lemma_long_at(s, 28, 0x812);
    lemma_long_at(s, 32, setup.white_pixel);
    lemma_long_at(s, 36, 1);
    lemma_long_at(s, 40, 0x2_8000);
}

/// The shared graphics context is asked for on a drawable, with foreground,
/// background and font and nothing else.
pub proof fn lemma_context_is_asked_for_with_three_values(
    drawable: u32,
    id: u32,
    foreground: u32,
    background: u32,
    font: u32,
)
    ensures
        ({
            let s = host_x11::create_gc_bytes(drawable, id, foreground, background, font);
            &&& s.len() == 28
            &&& s[0] == 55 && s[1] == 0
            &&& short_at(s, 2) == 7
            &&& long_at(s, 4) == id
            &&& long_at(s, 8) == drawable
            &&& long_at(s, 12) == 0x400c
            &&& long_at(s, 16) == foreground
            &&& long_at(s, 20) == background
            &&& long_at(s, 24) == font
        }),
{
    let s = host_x11::create_gc_bytes(drawable, id, foreground, background, font);
    lemma_short_at(s, 2, 7);
    lemma_long_at(s, 4, id);
    lemma_long_at(s, 8, drawable);
    lemma_long_at(s, 12, 0x400c);
    lemma_long_at(s, 16, foreground);
    lemma_long_at(s, 20, background);
    lemma_long_at(s, 24, font);
}

/// A request with a name holds the name, its length, and zeros up to a multiple of
/// four bytes.
pub proof fn lemma_names_are_sent_whole(id: u32, name: Seq<u8>)
    requires
        name.len() <= 0xffff,
    ensures
        ({
            let s = host_x11::open_font_bytes(id, name);
            &&& s[0] == 45 && s[1] == 0
            &&& long_at(s, 4) == id
            &&& short_at(s, 8) == name.len() && short_at(s, 10) == 0
            &&& s.subrange(12, 12 + name.len() as int) == name
            &&& s.len() % 4 == 0 && 12 + name.len() <= s.len() < 16 + name.len()
            &&& forall|i: int| 12 + name.len() <= i < s.len() ==> #[trigger] s[i] == 0
        }),
        ({
            let s = host_x11::query_extension_bytes(name);
            &&& s[0] == 98 && s[1] == 0
            &&& short_at(s, 4) == name.len() && short_at(s, 6) == 0
            &&& s.subrange(8, 8 + name.len() as int) == name
            &&& s.len() % 4 == 0 && 8 + name.len() <= s.len() < 12 + name.len()
            &&& forall|i: int| 8 + name.len() <= i < s.len() ==> #[trigger] s[i] == 0
        }),
{
    let s = host_x11::open_font_bytes(id, name);
    lemma_long_at(s, 4, id);
    lemma_short_at(s, 8, name.len() as u16);
    lemma_short_at(s, 10, 0);
    assert(s.subrange(12, 12 + name.len() as int) =~= name);
    let t = host_x11::query_extension_bytes(name);
    lemma_short_at(t, 4, name.len() as u16);
    lemma_short_at(t, 6, 0);
    assert(t.subrange(8, 8 + name.len() as int) =~= name);
}

/// The other requests to the host hold their opcodes and arguments in the order of
/// the protocol.
pub proof fn lemma_short_requests_hold_their_arguments(opcode: u8, a: u32, b: u32, c: u32)
    ensures
        ({
            let s = host_x11::map_window_bytes(a);
            s.len() == 8 && s[0] == 8 && s[1] == 0 && long_at(s, 4) == a
        }),
        ({
            let s = host_x11::query_pict_formats_bytes(opcode);
            s.len() == 4 && s[0] == opcode && s[1] == 1
        }),
        ({
            let s = host_x11::use_xkb_bytes(opcode);
            &&& s.len() == 8 && s[0] == opcode && s[1] == 0
            &&& short_at(s, 4) == 1 && short_at(s, 6) == 0
        }),
        ({
            let s = host_x11::create_colormap_bytes(a, b, c);
            &&& s.len() == 16 && s[0] == 78 && s[1] == 0
            &&& long_at(s, 4) == a && long_at(s, 8) == b && long_at(s, 12) == c
        }),
        ({
            let s = host_x11::name_window_pixmap_bytes(opcode, a, b);
            &&& s.len() == 12 && s[0] == opcode && s[1] == 6
            &&& long_at(s, 4) == a && long_at(s, 8) == b
        }),
{
    lemma_long_at(host_x11::map_window_bytes(a), 4, a);
    lemma_short_at(host_x11::use_xkb_bytes(opcode), 4, 1);
    lemma_short_at(host_x11::use_xkb_bytes(opcode), 6, 0);
    let s = host_x11::create_colormap_bytes(a, b, c);
    lemma_long_at(s, 4, a);
    lemma_long_at(s, 8, b);
    lemma_long_at(s, 12, c);
    let t = host_x11::name_window_pixmap_bytes(opcode, a, b);
    lemma_long_at(t, 4, a);
    lemma_long_at(t, 8, b);
}

/// Whether `s` opens a connection with four requests, in this order: the container
/// under the first identifier, the font `fixed` under the third, the graphics context
/// under the second, black on white, on the container and with that font; and mapping
/// the container.
pub open spec fn opens_a_connection(
    s: Seq<u8>,
    setup: HostSetup,
    width: u16,
    height: u16,
) -> bool {
    let base = setup.resource_id_base;
    &&& s.len() == 44 + 20 + 28 + 8
    &&& s[0] == 1 && long_at(s, 4) == base && short_at(s, 16) == width && short_at(s, 18) == height
    &&& s[44] == 45 && long_at(s, 48) == base + 2
    &&& s.subrange(56, 61) == seq![0x66u8, 0x69, 0x78, 0x65, 0x64]
    &&& s[64] == 55 && long_at(s, 68) == base + 1 && long_at(s, 72) == base
    &&& long_at(s, 80) == setup.black_pixel && long_at(s, 84) == setup.white_pixel
    &&& long_at(s, 88) == base + 2
    &&& s[92] == 8 && long_at(s, 96) == base
}

/// What counts of the request for the container when a connection opens.
#[verifier::opaque]
spec fn asks_for_the_container(a: Seq<u8>, setup: HostSetup, width: u16, height: u16) -> bool {
    &&& a.len() == 44
    &&& a[0] == 1
    &&& long_at(a, 4) == setup.resource_id_base
    &&& short_at(a, 16) == width
    &&& short_at(a, 18) == height
}

/// What counts of the request for the font.
#[verifier::opaque]
spec fn asks_for_the_font(b: Seq<u8>, setup: HostSetup) -> bool {
    &&& b.len() == 20
    &&& b[0] == 45
    &&& long_at(b, 4) == setup.resource_id_base + 2
    &&& b.subrange(12, 17) == seq![0x66u8, 0x69, 0x78, 0x65, 0x64]
}

/// What counts of the request for the graphics context.
#[verifier::opaque]
spec fn asks_for_the_context(c: Seq<u8>, setup: HostSetup) -> bool {
    &&& c.len() == 28
    &&& c[0] == 55
    &&& long_at(c, 4) == setup.resource_id_base + 1
    &&& long_at(c, 8) == setup.resource_id_base
    &&& long_at(c, 16) == setup.black_pixel
    &&& long_at(c, 20) == setup.white_pixel
    &&& long_at(c, 24) == setup.resource_id_base + 2
}

/// What counts of the request that maps the container.
#[verifier::opaque]
spec fn maps_the_container(d: Seq<u8>, setup: HostSetup) -> bool {
    &&& d.len() == 8
    &&& d[0] == 8
    &&& long_at(d, 4) == setup.resource_id_base
}

proof fn lemma_asks_for_the_container(setup: HostSetup, width: u16, height: u16)
    ensures
        asks_for_the_container(
            host_x11::create_window_bytes(setup, setup.resource_id_base, width, height),
            setup,
            width,
            height,
        ),
{
    reveal(asks_for_the_container);
    lemma_container_is_asked_for_below_the_root(setup, setup.resource_id_base, width, height);
}

proof fn lemma_asks_for_the_font(setup: HostSetup)
    requires
        setup.resource_id_base <= u32::MAX - 3,
    ensures
        asks_for_the_font(
            host_x11::open_font_bytes(
                (setup.resource_id_base + 2) as u32,
                host_x11::fixed_font(),
            ),
            setup,
        ),
{
    reveal(asks_for_the_font);
    let name = host_x11::fixed_font();
    assert(name.len() == 5);
    lemma_names_are_sent_whole((setup.resource_id_base + 2) as u32, name);
    assert(name =~= seq![0x66u8, 0x69, 0x78, 0x65, 0x64]);
}

proof fn lemma_asks_for_the_context(setup: HostSetup)
    requires
        setup.resource_id_base <= u32::MAX - 3,
    ensures
        asks_for_the_context(
            host_x11::create_gc_bytes(
                setup.resource_id_base,
                (setup.resource_id_base + 1) as u32,
                setup.black_pixel,
                setup.white_pixel,
                (setup.resource_id_base + 2) as u32,
            ),
            setup,
        ),
{
    reveal(asks_for_the_context);
    lemma_context_is_asked_for_with_three_values(
        setup.resource_id_base,
        (setup.resource_id_base + 1) as u32,
        setup.black_pixel,
        setup.white_pixel,
        (setup.resource_id_base + 2) as u32,
    );
}

proof fn lemma_maps_the_container(setup: HostSetup)
    ensures
        maps_the_container(host_x11::map_window_bytes(setup.resource_id_base), setup),
{
    reveal(maps_the_container);
    lemma_short_requests_hold_their_arguments(0, setup.resource_id_base, 0, 0);
}

/// A connection opens with container, font, graphics context and mapping.
pub proof fn lemma_connection_opens_in_order(setup: HostSetup, width: u16, height: u16)
    requires
        setup.resource_id_base <= u32::MAX - 3,
    ensures
        opens_a_connection(host_x11::opening_bytes(setup, width, height), setup, width, height),
{
    let base = setup.resource_id_base;
    let font = (base + 2) as u32;
    let gc = (base + 1) as u32;
    lemma_asks_for_the_container(setup, width, height);
    lemma_asks_for_the_font(setup);
    lemma_asks_for_the_context(setup);
    lemma_maps_the_container(setup);
    lemma_opens_in_order(
        host_x11::create_window_bytes(setup, base, width, height),
        host_x11::open_font_bytes(font, host_x11::fixed_font()),
        host_x11::create_gc_bytes(base, gc, setup.black_pixel, setup.white_pixel, font),
        host_x11::map_window_bytes(base),
        setup,
        width,
        height,
    );
}

proof fn lemma_opens_in_order(
    a: Seq<u8>,
    b: Seq<u8>,
    c: Seq<u8>,
    d: Seq<u8>,
    setup: HostSetup,
    width: u16,
    height: u16,
)
    requires
        asks_for_the_container(a, setup, width, height),
        asks_for_the_font(b, setup),
        asks_for_the_context(c, setup),
        maps_the_container(d, setup),
    ensures
        opens_a_connection(a + b + c + d, setup, width, height),
{
    reveal(asks_for_the_container);
    reveal(asks_for_the_font);
    reveal(asks_for_the_context);
    reveal(maps_the_container);
    lemma_four_parts(a, b, c, d);
    assert((a + b + c + d).subrange(56, 61) =~= b.subrange(12, 17));
}

/// Bytes of four requests one behind the other.
proof fn lemma_four_parts(a: Seq<u8>, b: Seq<u8>, c: Seq<u8>, d: Seq<u8>)
    requires
        a.len() == 44,
        b.len() == 20,
        c.len() == 28,
        d.len() == 8,
    ensures
        ({
            let s = a + b + c + d;
            &&& s.len() == 100
            &&& s[0] == a[0] && long_at(s, 4) == long_at(a, 4)
            &&& short_at(s, 16) == short_at(a, 16) && short_at(s, 18) == short_at(a, 18)
            &&& s[44] == b[0] && long_at(s, 48) == long_at(b, 4)
            &&& s[64] == c[0] && long_at(s, 68) == long_at(c, 4) && long_at(s, 72) == long_at(c, 8)
            &&& long_at(s, 80) == long_at(c, 16) && long_at(s, 84) == long_at(c, 20)
            &&& long_at(s, 88) == long_at(c, 24)
            &&& s[92] == d[0] && long_at(s, 96) == long_at(d, 4)
            &&& forall|i: int| 44 <= i < 64 ==> #[trigger] s[i] == b[i - 44]
        }),
{
}

/// What the host sends is a response if its first byte is 0, an error, or 1, a reply;
/// anything else is thrown away. Replies, and events of code 35, are as many words
/// longer than 32 bytes as their second word says; nothing else is longer.
pub proof fn lemma_header_says_what_follows(h: Seq<u8>)
    requires
        h.len() == 32,
    ensures
        match host_x11::header_action(h) {
            HeaderAction::Respond { sequence, extra } => {
                &&& h[0] == 0 || h[0] == 1
                &&& sequence == short_at(h, 2)
                &&& extra == if h[0] == 1 {
                    4 * long_at(h, 4)
                } else {
                    0
                }
            },
            HeaderAction::Discard { extra } => {
                &&& h[0] > 1
                &&& extra == if h[0] == 35 {
                    4 * long_at(h, 4)
                } else {
                    0
                }
            },
        },
{
}

/// Formats stand 28 bytes each behind the header of a reply. They are told apart by
/// depth and masks: one bit of alpha, eight bits of alpha, red from bit 16 on without
/// alpha, and alpha from bit 24 on.
pub proof fn lemma_formats_are_told_by_their_masks(bytes: Seq<u8>, i: int, format: PictFormat)
    ensures
        ({
            let at = 32 + 28 * i;
            let (red_shift, red) = (short_at(bytes, at + 8), short_at(bytes, at + 10));
            let (alpha_shift, alpha) = (short_at(bytes, at + 20), short_at(bytes, at + 22));
            let depth = bytes[at + 5];
            host_x11::is_format(bytes, i, format) <==> bytes[at + 4] == 1 && match format {
                PictFormat::A1 => depth == 1 && alpha == 1,
                PictFormat::A8 => depth == 8 && (alpha_shift, alpha) == (0int, 0xffint),
                PictFormat::Rgb24 => depth == 24 && (red_shift, red) == (16int, 0xffint) && alpha
                    == 0,
                PictFormat::Argb32 => depth == 32 && (alpha_shift, alpha) == (24int, 0xffint),
            }
        }),
        host_x11::format_offset(i) == 32 + 28 * i,
        bytes.len() >= 32 ==> {
            let n = host_x11::format_count(bytes);
            &&& n <= long_at(bytes, 8) && 32 + 28 * n <= bytes.len()
            &&& n == long_at(bytes, 8) || 32 + 28 * (n + 1) > bytes.len()
        },
{
}

/// Each format of the reply goes where it belongs.
pub proof fn lemma_formats_go_where_they_belong(bytes: Seq<u8>, opcode: u8)
    requires
        bytes.len() >= 32,
    ensures
        ({
            let info = host_x11::pict_formats(bytes, opcode);
            let n = host_x11::format_count(bytes);
            &&& info.opcode == opcode
            &&& info.fmt_a1 == host_x11::last_format(bytes, n, PictFormat::A1)
            &&& info.fmt_a8 == host_x11::last_format(bytes, n, PictFormat::A8)
            &&& info.fmt_rgb24 == host_x11::last_format(bytes, n, PictFormat::Rgb24)
            &&& info.fmt_argb32 == host_x11::last_format(bytes, n, PictFormat::Argb32)
        }),
{
    let n = host_x11::format_count(bytes);
    lemma_format_is_an_identifier(bytes, n, PictFormat::A1);
    lemma_format_is_an_identifier(bytes, n, PictFormat::A8);
    lemma_format_is_an_identifier(bytes, n, PictFormat::Rgb24);
    lemma_format_is_an_identifier(bytes, n, PictFormat::Argb32);
}

proof fn lemma_format_is_an_identifier(bytes: Seq<u8>, n: int, format: PictFormat)
    ensures
        0 <= host_x11::last_format(bytes, n, format) <= u32::MAX,
    decreases n,
{
    if n > 0 {
        lemma_format_is_an_identifier(bytes, n - 1, format);
    }
}

/// Extensions are asked for by their names.
pub proof fn lemma_extensions_have_names()
    ensures
        ({
            let is = |s: Seq<u8>, name: Seq<char>|
                s.len() == name.len() && forall|i: int|
                    0 <= i < s.len() ==> s[i] == #[trigger] name[i] as u8;
            &&& is(HostExtension::Render.ascii(), "RENDER"@)
            &&& is(HostExtension::Xkb.ascii(), "XKEYBOARD"@)
            &&& is(HostExtension::Shape.ascii(), "SHAPE"@)
            &&& is(HostExtension::Xfixes.ascii(), "XFIXES"@)
            &&& is(HostExtension::Composite.ascii(), "Composite"@)
        }),
{
    reveal_strlit("RENDER");
    reveal_strlit("XKEYBOARD");
    reveal_strlit("SHAPE");
    reveal_strlit("XFIXES");
    reveal_strlit("Composite");
}

/// Once a question is settled the next one comes: RENDER, XKEYBOARD, SHAPE, XFIXES and
/// Composite in this order, and then, for a host with an ARGB visual, a colormap for
/// that visual on the root, under the next identifier.
pub proof fn lemma_questions_come_in_order(host: HostView)
    ensures
        ({
            let (next, action) = host.settled();
            let asks = |e: HostExtension|
                next.probe == (Probe::Query { extension: e }) && action == (HostActionView::Send {
                    request: host_x11::query_extension_bytes(e.ascii()),
                });
            match host.probe {
                Probe::Query { extension } => match extension {
                    HostExtension::Render => asks(HostExtension::Xkb),
                    HostExtension::Xkb => asks(HostExtension::Shape),
                    HostExtension::Shape => asks(HostExtension::Xfixes),
                    HostExtension::Xfixes => asks(HostExtension::Composite),
                    HostExtension::Composite => match host.argb_visual_xid {
                        Some(visual) => {
                            &&& next.probe == (Probe::Colormap { xid: host.next_xid_counter })
                            &&& action is Send
                            &&& action->request[0] == 78
                            &&& long_at(action->request, 4) == host.next_xid_counter
                            &&& long_at(action->request, 8) == host.root
                            &&& long_at(action->request, 12) == visual
                        },
                        None => next.probe is Done && action is Finish,
                    },
                },
                Probe::RenderFormats { .. } => asks(HostExtension::Xkb),
                Probe::XkbUse { .. } => asks(HostExtension::Shape),
                _ => next.probe is Done && action is Finish,
            }
        }),
{
    if let Some(visual) = host.argb_visual_xid {
        lemma_short_requests_hold_their_arguments(0, host.next_xid_counter, host.root, visual);
    }
}

/// An extension is there if byte 8 of the answer says so; its opcode is byte 9. Each
/// answer is filed for the extension that was asked for, and for no other. RENDER and
/// XKEYBOARD are filed after a second question under that opcode; XKEYBOARD only if
/// the host agrees to it.
pub proof fn lemma_answers_are_filed(host: HostView, bytes: Seq<u8>)
    requires
        bytes.len() >= 32,
    ensures
        ({
            let (next, action) = host.answered(bytes);
            let there = bytes[8] != 0;
            let opcode = if there {
                Some(bytes[9])
            } else {
                None
            };
            &&& next.shape_opcode == if host.probe == (Probe::Query {
                extension: HostExtension::Shape,
            }) {
                opcode
            } else {
                host.shape_opcode
            }
            &&& next.xfixes_opcode == if host.probe == (Probe::Query {
                extension: HostExtension::Xfixes,
            }) {
                opcode
            } else {
                host.xfixes_opcode
            }
            &&& next.composite_opcode == if host.probe == (Probe::Query {
                extension: HostExtension::Composite,
            }) {
                opcode
            } else {
                host.composite_opcode
            }
            &&& host.probe == (Probe::Query { extension: HostExtension::Render }) && there ==> {
                &&& next.probe == (Probe::RenderFormats { opcode: bytes[9] })
                &&& next.awaited == host.sequence
                &&& action is Send && action->request[0] == bytes[9] && action->request[1] == 1
            }
            &&& host.probe == (Probe::Query { extension: HostExtension::Xkb }) && there ==> {
                &&& next.probe is XkbUse
                &&& next.probe->info.opcode == bytes[9]
                &&& next.probe->info.first_event == bytes[10]
                &&& next.probe->info.first_error == bytes[11]
                &&& next.awaited == host.sequence
                &&& action is Send && action->request[0] == bytes[9] && action->request[1] == 0
            }
            &&& match host.probe {
                Probe::RenderFormats { opcode } => next.render == Some(
                    host_x11::pict_formats(bytes, opcode),
                ),
                _ => next.render == host.render,
            }
            &&& match host.probe {
                Probe::XkbUse { info } => next.xkb == if there {
                    Some(info)
                } else {
                    host.xkb
                },
                _ => next.xkb == host.xkb,
            }
            &&& next.window_id == host.window_id && next.gc_id == host.gc_id && next.gc == host.gc
            &&& next.root == host.root && next.argb_colormap_xid == host.argb_colormap_xid
        }),
{
    lemma_short_requests_hold_their_arguments(bytes[9], 0, 0, 0);
}

/// Picture formats 1 to 4 of the server are the host's formats of one bit and eight
/// bits of alpha, of colours without alpha and of colours with alpha; without RENDER
/// there are none.
pub proof fn lemma_formats_are_numbered(host: HostView, n: u32)
    ensures
        match host.render {
            None => host.format_for(n) is None,
            Some(r) => {
                &&& host.format_for(1) == Some(r.fmt_a1)
                &&& host.format_for(2) == Some(r.fmt_a8)
                &&& host.format_for(3) == Some(r.fmt_rgb24)
                &&& host.format_for(4) == Some(r.fmt_argb32)
                &&& n == 0 || n > 4 ==> host.format_for(n) is None
            },
        },
{
}

/// A response that is not awaited is kept, in order, while SHAPE, XFIXES or Composite
/// is asked for, and dropped before; it changes nothing else.
pub proof fn lemma_other_responses_wait(host: HostView, response: HostResponseView)
    requires
        response.sequence != host.awaited,
        !(host.probe is Colormap || host.probe is Done),
    ensures
        ({
            let (next, action) = host.received(response);
            let kept = host.probe == (Probe::Query { extension: HostExtension::Shape })
                || host.probe == (Probe::Query { extension: HostExtension::Xfixes }) || host.probe
                == (Probe::Query { extension: HostExtension::Composite });
            &&& action is Read
            &&& next == (HostView { reply_buffer: next.reply_buffer, ..host })
            &&& next.reply_buffer == if kept {
                host.reply_buffer.push(response)
            } else {
                host.reply_buffer
            }
        }),
{
}

/// The books of a fresh connection: the container and the graphics context have the first
/// two identifiers, and the next free one is the fourth; five requests were counted, the
/// connection included; no extension is known.
pub proof fn lemma_fresh_books(setup: HostSetup)
    requires
        setup.resource_id_base <= u32::MAX - 3,
    ensures
        ({
            let host = HostView::opened(setup);
            let base = setup.resource_id_base;
            &&& host.window_id == base && host.gc_id == base + 1
            &&& host.next_xid_counter == base + 3
            &&& host.sequence == 5
            &&& host.gc.foreground == setup.black_pixel && host.gc.background == setup.white_pixel
            &&& host.root == setup.root && host.root_visual_xid == setup.root_visual
            &&& host.argb_visual_xid == setup.argb_visual
            &&& host.render is None && host.xkb is None && host.shape_opcode is None
            &&& host.xfixes_opcode is None && host.composite_opcode is None
            &&& host.argb_colormap_xid is None && host.reply_buffer.len() == 0
            &&& host.probe is Done
        }),
{
}

/// A colormap that was sent for is known under its identifier, and counted; otherwise
/// nothing changes.
pub proof fn lemma_sent_colormap_is_known(host: HostView, xid: u32)
    ensures
        host.probe == (Probe::Colormap { xid }) ==> {
            let after = host.colormap_sent();
            &&& after.argb_colormap_xid == Some(xid)
            &&& after.sequence == host.sequence.wrapping_add(1)
            &&& after.probe is Done
            &&& after == (HostView {
                argb_colormap_xid: after.argb_colormap_xid,
                sequence: after.sequence,
                probe: after.probe,
                ..host
            })
        },
        !(host.probe is Colormap) ==> host.colormap_sent() == host,
{
}

/// A visual that is copied from the parent has depth and identifier 0; another has its own.
pub proof fn lemma_visuals_have_depths(v: HostSubwindowVisual)
    ensures
        match v {
            HostSubwindowVisual::CopyFromParent => v.spec_depth() == 0 && v.spec_visual_xid() == 0,
            HostSubwindowVisual::Explicit { depth, visual_xid, .. } => v.spec_depth() == depth
                && v.spec_visual_xid() == visual_xid,
        },
{
}

} // verus!
