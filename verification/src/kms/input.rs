//! Keyboard and pointer.

use vstd::prelude::*;

use crate::backend::PointerPosition;
use crate::kms::events::{HostKeyEvent, HostPointerEvent, PointerEventKind};
use crate::kms::state::{KmsBackend, KmsView};

verus! {

/// Which of the eight modifiers of X11 are in effect.
#[derive(Clone, Copy, Debug, PartialEq, Eq, Structural)]
pub struct ActiveModifiers {
    pub shift: bool,
    pub lock: bool,
    pub control: bool,
    pub mod1: bool,
    pub mod2: bool,
    pub mod3: bool,
    pub mod4: bool,
    pub mod5: bool,
}

pub open spec fn bit(on: bool, weight: int) -> int {
    if on {
        weight
    } else {
        0
    }
}

impl ActiveModifiers {
    /// The modifiers as a bit mask, Shift lowest.
    pub open spec fn mask(self) -> int {
        bit(self.shift, 0x01) + bit(self.lock, 0x02) + bit(self.control, 0x04) + bit(
            self.mod1,
            0x08,
        ) + bit(self.mod2, 0x10) + bit(self.mod3, 0x20) + bit(self.mod4, 0x40) + bit(
            self.mod5,
            0x80,
        )
    }
}

pub fn serialize_modifiers(m: &ActiveModifiers) -> (r: u16)
    ensures
        r == m.mask(),
{
    let mut mask: u16 = 0;
    if m.shift {
        mask += 0x01;
    }
    if m.lock {
        mask += 0x02;
    }
    if m.control {
        mask += 0x04;
    }
    if m.mod1 {
        mask += 0x08;
    }
    if m.mod2 {
        mask += 0x10;
    }
    if m.mod3 {
        mask += 0x20;
    }
    if m.mod4 {
        mask += 0x40;
    }
    if m.mod5 {
        mask += 0x80;
    }
    mask
}

/// The X11 button of an input device's button code; 0 for others.
pub open spec fn button_of(code: u32) -> u8 {
    if code == 0x110 {
        1
    } else if code == 0x111 {
        3
    } else if code == 0x112 {
        2
    } else if code == 0x113 {
        8
    } else if code == 0x114 {
        9
    } else {
        0
    }
}

pub fn button_number(code: u32) -> (r: u8)
    ensures
        r == button_of(code),
{
    match code {
        0x110 => 1,
        0x111 => 3,
        0x112 => 2,
        0x113 => 8,
        0x114 => 9,
        _ => 0,
    }
}

/// A coordinate of the screen in 16 bits, or the greatest such value.
pub open spec fn event_coord(v: u16) -> i16 {
    if v > 32767 {
        32767
    } else {
        v as i16
    }
}

fn to_event_coord(v: u16) -> (r: i16)
    ensures
        r == event_coord(v),
{
    if v > 32767 {
        32767
    } else {
        v as i16
    }
}

impl KmsView {
    /// The key event for a key of the input device. Keycodes of X11 are eight
    /// higher, and have eight bits.
    pub open spec fn key_event(
        self,
        evdev_keycode: u32,
        pressed: bool,
        time: u32,
        state: u16,
    ) -> HostKeyEvent {
        HostKeyEvent {
            pressed,
            keycode: ((evdev_keycode + 8) % 256) as u8,
            time,
            root_x: event_coord(self.cursor_x),
            root_y: event_coord(self.cursor_y),
            event_x: event_coord(self.cursor_x),
            event_y: event_coord(self.cursor_y),
            state,
        }
    }

    /// A pointer event at the pointer.
    pub open spec fn pointer_event(
        self,
        kind: PointerEventKind,
        host_xid: u32,
        detail: u8,
        time: u32,
        state: u16,
    ) -> HostPointerEvent {
        HostPointerEvent {
            kind,
            host_xid,
            detail,
            time,
            root_x: event_coord(self.cursor_x),
            root_y: event_coord(self.cursor_y),
            event_x: event_coord(self.cursor_x),
            event_y: event_coord(self.cursor_y),
            state,
        }
    }

    /// Whether `xid` is a window that the pointer is on, or 0 if there is none.
    pub open spec fn is_pointed_at(self, xid: u32) -> bool {
        self.points_at(xid) || xid == 0 && forall|id: u32| !#[trigger] self.points_at(id)
    }

    /// The state with the pointer on another pixel.
    pub open spec fn with_cursor(self, x: u16, y: u16) -> KmsView {
        KmsView { cursor_x: x, cursor_y: y, ..self }
    }
}

impl KmsBackend {
    /// A key went down or up; `state` are the modifiers after that.
    pub fn process_key_event(&self, evdev_keycode: u32, is_press: bool, time: u32, state: u16) -> (
    r: HostKeyEvent)
        requires
            evdev_keycode <= u32::MAX - 8,
        ensures
            r == self@.key_event(evdev_keycode, is_press, time, state),
    {
        let x: i16 = to_event_coord(self.cursor_x);
        let y: i16 = to_event_coord(self.cursor_y);
        HostKeyEvent {
            pressed: is_press,
            keycode: ((evdev_keycode + 8) % 256) as u8,
            time,
            root_x: x,
            root_y: y,
            event_x: x,
            event_y: y,
            state,
        }
    }

    /// A pointer event for the window `under` the pointer, if there is one.
    pub fn pointer_event_on(
        &self,
        under: Option<u32>,
        kind: PointerEventKind,
        detail: u8,
        time: u32,
        state: u16,
    ) -> (r: HostPointerEvent)
        ensures
            r == self@.pointer_event(
                kind,
                match under {
                    Some(id) => id,
                    None => 0,
                },
                detail,
                time,
                state,
            ),
    {
        let host_xid: u32 = match under {
            Some(id) => id,
            None => 0,
        };
        let x: i16 = to_event_coord(self.cursor_x);
        let y: i16 = to_event_coord(self.cursor_y);
        HostPointerEvent {
            kind,
            host_xid,
            detail,
            time,
            root_x: x,
            root_y: y,
            event_x: x,
            event_y: y,
            state,
        }
    }

    fn pointer_event(&self, kind: PointerEventKind, detail: u8, time: u32, state: u16) -> (r:
        HostPointerEvent)
        ensures
            self@.is_pointed_at(r.host_xid),
            r == self@.pointer_event(kind, r.host_xid, detail, time, state),
    {
        self.pointer_event_on(self.window_under_cursor(), kind, detail, time, state)
    }

    /// The pointer moved onto another pixel of the screen.
    pub fn process_pointer_motion(&mut self, x: u16, y: u16, time: u32, state: u16) -> (r:
        HostPointerEvent)
        ensures
            final(self)@ == old(self)@.with_cursor(x, y),
            final(self)@.is_pointed_at(r.host_xid),
            r == final(self)@.pointer_event(
                PointerEventKind::MotionNotify,
                r.host_xid,
                0,
                time,
                state,
            ),
    {
        self.cursor_x = x;
        self.cursor_y = y;
        self.pointer_event(PointerEventKind::MotionNotify, 0, time, state)
    }

    /// A button went down or up.
    pub fn process_pointer_button(&self, code: u32, pressed: bool, time: u32, state: u16) -> (r:
        HostPointerEvent)
        ensures
            self@.is_pointed_at(r.host_xid),
            r == self@.pointer_event(
                if pressed {
                    PointerEventKind::ButtonPress
                } else {
                    PointerEventKind::ButtonRelease
                },
                r.host_xid,
                button_of(code),
                time,
                state,
            ),
    {
        let kind = if pressed {
            PointerEventKind::ButtonPress
        } else {
            PointerEventKind::ButtonRelease
        };
        self.pointer_event(kind, button_number(code), time, state)
    }

    pub fn query_pointer(&self, state: u16) -> (r: PointerPosition)
        ensures
            r == (PointerPosition {
                same_screen: true,
                win_x: event_coord(self@.cursor_x),
                win_y: event_coord(self@.cursor_y),
                mask: state,
            }),
    {
        PointerPosition {
            same_screen: true,
            win_x: to_event_coord(self.cursor_x),
            win_y: to_event_coord(self.cursor_y),
            mask: state,
        }
    }
}

pub open spec fn row_views(rows: Seq<Vec<u32>>) -> Seq<Seq<u32>> {
    rows.map_values(|r: Vec<u32>| r@)
}

/// The length of the longest of the first `n` rows.
pub open spec fn longest(rows: Seq<Seq<u32>>, n: int) -> nat
    decreases n,
{
    if n <= 0 {
        0
    } else if rows[n - 1].len() > longest(rows, n - 1) {
        rows[n - 1].len()
    } else {
        longest(rows, n - 1)
    }
}

/// The keysym at position `i` of a table with `width` columns: of key
/// `i / width`, and NoSymbol, which is 0, where that key has fewer.
pub open spec fn keysym_at(rows: Seq<Seq<u32>>, width: int, i: int) -> u32 {
    let row = rows[i / width];
    if i % width < row.len() {
        row[i % width]
    } else {
        0
    }
}

/// The columns of a keyboard mapping: as many as the longest row takes, and one
/// if there is no row.
pub open spec fn mapping_width(rows: Seq<Seq<u32>>) -> nat {
    if rows.len() == 0 {
        1
    } else {
        longest(rows, rows.len() as int)
    }
}

/// A keyboard mapping as one list.
pub open spec fn flat_mapping(rows: Seq<Seq<u32>>) -> Seq<u32> {
    let width = mapping_width(rows);
    Seq::new(rows.len() * width, |i: int| keysym_at(rows, width as int, i))
}

proof fn lemma_longest(rows: Seq<Seq<u32>>, n: int)
    requires
        0 <= n <= rows.len(),
    ensures
        forall|i: int| 0 <= i < n ==> (#[trigger] rows[i]).len() <= longest(rows, n),
        n > 0 ==> exists|i: int| 0 <= i < n && (#[trigger] rows[i]).len() == longest(rows, n),
    decreases n,
{
    if n > 0 {
        lemma_longest(rows, n - 1);
        if n == 1 || rows[n - 1].len() > longest(rows, n - 1) {
            assert(rows[n - 1].len() >= longest(rows, n));
            assert(rows[n - 1].len() == longest(rows, n));
        } else {
            let i = choose|i: int|
                0 <= i < n - 1 && (#[trigger] rows[i]).len() == longest(rows, n - 1);
            assert(rows[i].len() == longest(rows, n));
        }
    }
}

/// Lays out the keysyms of consecutive keys: how many columns there are, and
/// the table row by row, filled up with NoSymbol.
pub fn keyboard_mapping(rows: &Vec<Vec<u32>>) -> (r: (u8, Vec<u32>))
    requires
        forall|i: int| 0 <= i < rows@.len() ==> (#[trigger] rows@[i])@.len() <= 255,
    ensures
        r.0 == mapping_width(row_views(rows@)),
        r.1@ == flat_mapping(row_views(rows@)),
{
    let ghost views = row_views(rows@);
    let n: usize = rows.len();
    let mut width: usize = 0;
    for i in 0..n
        invariant
            n == rows@.len(),
            views == row_views(rows@),
            forall|i: int| 0 <= i < rows@.len() ==> (#[trigger] rows@[i])@.len() <= 255,
            width == longest(views, i as int),
            width <= 255,
    {
        let len: usize = rows[i].len();
        assert(views[i as int] == rows@[i as int]@);
        if len > width {
            width = len;
        }
    }
    if n == 0 {
        width = 1;
    }
    proof {
        lemma_longest(views, n as int);
    }
    let mut flat: Vec<u32> = Vec::new();
    let ghost all = flat_mapping(views);
    assert(flat@ =~= all.take(0));
    assert(0 * width == 0);
    for i in 0..n
        invariant
            n == rows@.len(),
            views == row_views(rows@),
            all == flat_mapping(views),
            width == mapping_width(views),
            forall|i: int| 0 <= i < views.len() ==> (#[trigger] views[i]).len() <= width,
            flat@ == all.take(i * width),
    {
        let len: usize = rows[i].len();
        assert(views[i as int] == rows@[i as int]@);
        let mut j: usize = 0;
        while j < width
            invariant
                i < n,
                n == rows@.len(),
                j <= width,
                views == row_views(rows@),
                views[i as int] == rows@[i as int]@,
                len == views[i as int].len(),
                len <= width,
                all == flat_mapping(views),
                width == mapping_width(views),
                flat@ == all.take(i * width + j),
            decreases width - j,
        {
            let sym: u32 = if j < len {
                rows[i][j]
            } else {
                0
            };
            flat.push(sym);
            proof {
                crate::kms::image::lemma_word_of_pixel(
                    width as int,
                    n as int,
                    j as int,
                    i as int,
                );
                assert(width * n == n * width) by (nonlinear_arith);
                assert(all[i * width + j] == sym);
                assert(flat@ =~= all.take(i * width + j + 1));
            }
            j += 1;
        }
        assert((i + 1) * width == i * width + width) by (nonlinear_arith);
    }
    assert(flat@ =~= all);
    (width as u8, flat)
}

/// The keycodes of the eight modifiers, four columns each: Shift, Lock, Control
/// and Mod1 to Mod5.
pub open spec fn modifier_keycodes() -> Seq<u8> {
    seq![
        0x32u8, 0x3e, 0, 0,
        0x42, 0, 0, 0,
        0x25, 0x69, 0, 0,
        0x40, 0x6c, 0, 0,
        0x4d, 0, 0, 0,
        0x73, 0, 0, 0,
        0x85, 0x86, 0, 0,
        0, 0, 0, 0,
    ]
}

/// The modifier mapping: how many columns it has, and the keycodes.
pub fn get_modifier_mapping() -> (r: (u8, Vec<u8>))
    ensures
        r.0 == 4,
        r.1@ == modifier_keycodes(),
{
    let data: Vec<u8> = vec![
        0x32u8, 0x3e, 0, 0,
        0x42, 0, 0, 0,
        0x25, 0x69, 0, 0,
        0x40, 0x6c, 0, 0,
        0x4d, 0, 0, 0,
        0x73, 0, 0, 0,
        0x85, 0x86, 0, 0,
        0, 0, 0, 0,
    ];
    assert(data@ =~= modifier_keycodes());
    (4, data)
}

/// A mask has eight bits, and tells all modifiers apart.
pub proof fn lemma_masks_tell_modifiers_apart(a: ActiveModifiers, b: ActiveModifiers)
    ensures
        0 <= a.mask() < 256,
        a.mask() == b.mask() ==> a == b,
{
}

/// In a keyboard mapping each keysym of each key stands in its column, and the
/// rest of the row is NoSymbol.
pub proof fn lemma_keysyms_stand_in_rows(rows: Seq<Seq<u32>>, key: int, column: int)
    requires
        0 <= key < rows.len(),
        0 <= column < mapping_width(rows),
    ensures
        rows[key].len() <= mapping_width(rows),
        0 <= key * mapping_width(rows) + column < flat_mapping(rows).len(),
        flat_mapping(rows)[key * mapping_width(rows) + column] == (if column < rows[key].len() {
            rows[key][column]
        } else {
            0
        }),
{
    let width = mapping_width(rows) as int;
    let n = rows.len() as int;
    lemma_longest(rows, n);
    crate::kms::image::lemma_word_of_pixel(width, n, column, key);
    assert(width * n == n * width) by (nonlinear_arith);
}

/// Each modifier has a bit of its own: Shift, Lock and Control the lowest three, and
/// Mod1 to Mod5 the next five.
pub proof fn lemma_modifiers_have_bits(m: ActiveModifiers)
    ensures
        m.mask() % 2 == 1 <==> m.shift,
        m.mask() / 2 % 2 == 1 <==> m.lock,
        m.mask() / 4 % 2 == 1 <==> m.control,
        m.mask() / 8 % 2 == 1 <==> m.mod1,
        m.mask() / 16 % 2 == 1 <==> m.mod2,
        m.mask() / 32 % 2 == 1 <==> m.mod3,
        m.mask() / 64 % 2 == 1 <==> m.mod4,
        m.mask() / 128 % 2 == 1 <==> m.mod5,
{
}

/// A key event names the keycode eight above that of the device, in eight bits, and
/// carries direction, time and modifiers as they came. It is at the pointer.
pub proof fn lemma_key_events_carry_the_key(
    k: KmsView,
    code: u32,
    pressed: bool,
    time: u32,
    state: u16,
)
    requires
        k.cursor_x <= 32767,
        k.cursor_y <= 32767,
    ensures
        ({
            let e = k.key_event(code, pressed, time, state);
            &&& e.pressed == pressed && e.time == time && e.state == state
            &&& (code + 8 - e.keycode) % 256 == 0
            &&& code < 248 ==> e.keycode == code + 8
            &&& e.root_x == k.cursor_x && e.root_y == k.cursor_y
            &&& e.event_x == k.cursor_x && e.event_y == k.cursor_y
        }),
{
}

/// A pointer event carries what it was made of, at the pointer. Coordinates beyond 16
/// bits with sign are the greatest there is.
pub proof fn lemma_pointer_events_are_at_the_pointer(
    k: KmsView,
    kind: PointerEventKind,
    xid: u32,
    detail: u8,
    time: u32,
    state: u16,
)
    ensures
        ({
            let e = k.pointer_event(kind, xid, detail, time, state);
            &&& e.kind == kind && e.host_xid == xid && e.detail == detail
            &&& e.time == time && e.state == state
            &&& e.root_x == e.event_x && e.root_y == e.event_y
            &&& k.cursor_x <= 32767 ==> e.root_x == k.cursor_x
            &&& k.cursor_x > 32767 ==> e.root_x == 32767
            &&& k.cursor_y <= 32767 ==> e.root_y == k.cursor_y
            &&& k.cursor_y > 32767 ==> e.root_y == 32767
        }),
{
}

/// Left, right and middle button are buttons 1, 3 and 2; the two on the side are 8 and
/// 9. Nothing else is a button.
pub proof fn lemma_buttons_are_numbered(code: u32)
    ensures
        button_of(code) == 1 <==> code == 0x110,
        button_of(code) == 3 <==> code == 0x111,
        button_of(code) == 2 <==> code == 0x112,
        button_of(code) == 8 <==> code == 0x113,
        button_of(code) == 9 <==> code == 0x114,
        button_of(code) == 0 <==> !(0x110 <= code <= 0x114),
{
}

/// Keys of a modifier mapping stand in rows of four, one for each modifier, without
/// gaps and none twice.
pub proof fn lemma_modifier_keys_stand_in_rows(row: int, i: int, j: int)
    requires
        0 <= row < 8,
        0 <= i < 4,
        0 <= j < 32,
    ensures
        ({
            let keys = modifier_keycodes();
            &&& keys.len() == 32
            &&& i > 0 && keys[4 * row + i] != 0 ==> keys[4 * row + i - 1] != 0
            &&& 4 * row + i != j && keys[j] != 0 ==> keys[4 * row + i] != keys[j]
        }),
{
    let keys = modifier_keycodes();
    let at = 4 * row + i;
    assert(at == 0 || at == 1 || at == 2 || at == 3 || at == 4 || at == 5 || at == 6 || at == 7
        || at == 8 || at == 9 || at == 10 || at == 11 || at == 12 || at == 13 || at == 14 || at
        == 15 || at == 16 || at == 17 || at == 18 || at == 19 || at == 20 || at == 21 || at == 22
        || at == 23 || at == 24 || at == 25 || at == 26 || at == 27 || at == 28 || at == 29 || at
        == 30 || at == 31);
    assert(j == 0 || j == 1 || j == 2 || j == 3 || j == 4 || j == 5 || j == 6 || j == 7 || j == 8
        || j == 9 || j == 10 || j == 11 || j == 12 || j == 13 || j == 14 || j == 15 || j == 16 || j
        == 17 || j == 18 || j == 19 || j == 20 || j == 21 || j == 22 || j == 23 || j == 24 || j
        == 25 || j == 26 || j == 27 || j == 28 || j == 29 || j == 30 || j == 31);
}

/// A keyboard mapping is no wider than its longest row, and one column wide without rows.
pub proof fn lemma_mapping_is_as_wide_as_its_longest_row(rows: Seq<Seq<u32>>)
    ensures
        rows.len() == 0 ==> mapping_width(rows) == 1,
        rows.len() > 0 ==> exists|i: int|
            0 <= i < rows.len() && (#[trigger] rows[i]).len() == mapping_width(rows),
        flat_mapping(rows).len() == rows.len() * mapping_width(rows),
{
    lemma_longest(rows, rows.len() as int);
}

/// The pointer moves to where it is put, and nothing else changes.
pub proof fn lemma_pointer_moves_alone(k: KmsView, x: u16, y: u16)
    ensures
        k.with_cursor(x, y).cursor_x == x,
        k.with_cursor(x, y).cursor_y == y,
        k.with_cursor(x, y).with_cursor(k.cursor_x, k.cursor_y) == k,
{
}

/// An event is for the window that the pointer is on; its number is 0 only if there is none
/// or that is the window's own number.
pub proof fn lemma_events_are_for_the_window_pointed_at(k: KmsView, xid: u32, id: u32)
    requires
        k.is_pointed_at(xid),
    ensures
        k.points_at(id) ==> k.points_at(xid),
        !k.points_at(xid) ==> xid == 0,
{
}

} // verus!
