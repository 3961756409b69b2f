//! Per-opcode length rules for X11 core protocol requests
//! (opcodes 1-127).
//!
//! Each request has a wire length expressed in 4-byte units, declared in
//! the request header. The X11 protocol defines, per opcode, either a
//! fixed length or a minimum length plus a variable tail. A request whose
//! header breaks the rule of its opcode is answered with `BadLength`.

use vstd::prelude::*;

verus! {

/// Length contract for a single core opcode.
#[derive(Clone, Copy, Debug, PartialEq, Eq, Structural)]
pub enum LenSpec {
    /// The request is exactly this many 4-byte units.
    Fixed(u32),
    /// The request is at least this many 4-byte units; the tail is
    /// variable (list, string, value-list, image data, ...).
    AtLeast(u32),
}

/// Core opcodes that the protocol assigns to a request.
pub open spec fn is_core_opcode(op: u8) -> bool {
    1 <= op <= 119 || op == 127
}

/// Core opcodes whose request carries a variable tail.
pub open spec fn has_variable_tail(op: u8) -> bool {
    ||| 1 <= op <= 2
    ||| op == 12
    ||| op == 16
    ||| op == 18
    ||| op == 45
    ||| 48 <= op <= 51
    ||| 55 <= op <= 56
    ||| 58 <= op <= 59
    ||| 64 <= op <= 72
    ||| 74 <= op <= 77
    ||| op == 85
    ||| 88 <= op <= 92
    ||| op == 98
    ||| op == 100
    ||| op == 102
    ||| op == 109
    ||| op == 114
    ||| op == 116
    ||| op == 118
    ||| op == 127
}

/// Length in 4-byte units of the fixed part of core request `op`, header
/// included.
pub open spec fn fixed_units(op: u8) -> u32 {
    if 36 <= op <= 37 || 43 <= op <= 44 || op == 52 || op == 89 || op == 99 || 103 <= op <= 104 || op == 106 || op == 108 || 110 <= op <= 112 || 115 <= op <= 119 || op == 127 {
        1
    } else if op == 2 || op == 12 || op == 19 || op == 29 || op == 34 || op == 42 || op == 45 || op == 56 || 58 <= op <= 59 || 64 <= op <= 68 || 70 <= op <= 71 || op == 80 || 85 <= op <= 86 || op == 88 || op == 92 || op == 97 || op == 105 || op == 107 || op == 114 {
        3
    } else if op == 7 || op == 22 || 30 <= op <= 31 || op == 33 || 39 <= op <= 40 || op == 53 || op == 55 || op == 57 || op == 61 || op == 69 || 74 <= op <= 78 || op == 84 || op == 87 || op == 90 {
        4
    } else if op == 73 || op == 96 {
        5
    } else if op == 18 || op == 20 || op == 24 || op == 26 || op == 28 || op == 41 || op == 72 {
        6
    } else if op == 62 {
        7
    } else if op == 1 || op == 63 || 93 <= op <= 94 {
        8
    } else if op == 25 {
        11
    } else {
        2
    }
}

/// The length contract of core request `op`; `None` where no request has
/// that opcode.
pub open spec fn core_length(op: u8) -> Option<LenSpec> {
    if !is_core_opcode(op) {
        None
    } else if has_variable_tail(op) {
        Some(LenSpec::AtLeast(fixed_units(op)))
    } else {
        Some(LenSpec::Fixed(fixed_units(op)))
    }
}

/// Whether `units` satisfies the length contract of opcode `op`.
pub open spec fn length_is_valid(op: u8, units: u32) -> bool {
    is_core_opcode(op) ==> if has_variable_tail(op) {
        units >= fixed_units(op)
    } else {
        units == fixed_units(op)
    }
}

/// Return the length contract for a core X11 opcode (1-127), or `None`
/// for opcodes outside that range or that are not enforced.
#[must_use]
pub fn core_request_length(opcode: u8) -> (r: Option<LenSpec>)
    ensures
        r == core_length(opcode),
{
    match opcode {
        1 => Some(LenSpec::AtLeast(8)),  // CreateWindow         8 + n
        2 => Some(LenSpec::AtLeast(3)),  // ChangeWindowAttrs    3 + n
        3 => Some(LenSpec::Fixed(2)),  // GetWindowAttributes
        4 => Some(LenSpec::Fixed(2)),  // DestroyWindow
        5 => Some(LenSpec::Fixed(2)),  // DestroySubwindows
        6 => Some(LenSpec::Fixed(2)),  // ChangeSaveSet
        7 => Some(LenSpec::Fixed(4)),  // ReparentWindow
        8 => Some(LenSpec::Fixed(2)),  // MapWindow
        9 => Some(LenSpec::Fixed(2)),  // MapSubwindows
        10 => Some(LenSpec::Fixed(2)),  // UnmapWindow
        11 => Some(LenSpec::Fixed(2)),  // UnmapSubwindows
        12 => Some(LenSpec::AtLeast(3)),  // ConfigureWindow      3 + n
        13 => Some(LenSpec::Fixed(2)),  // CirculateWindow
        14 => Some(LenSpec::Fixed(2)),  // GetGeometry
        15 => Some(LenSpec::Fixed(2)),  // QueryTree
        16 => Some(LenSpec::AtLeast(2)),  // InternAtom           2 + (n+p)/4
        17 => Some(LenSpec::Fixed(2)),  // GetAtomName
        18 => Some(LenSpec::AtLeast(6)),  // ChangeProperty       6 + (n+p)/4
        19 => Some(LenSpec::Fixed(3)),  // DeleteProperty
        20 => Some(LenSpec::Fixed(6)),  // GetProperty
        21 => Some(LenSpec::Fixed(2)),  // ListProperties
        22 => Some(LenSpec::Fixed(4)),  // SetSelectionOwner
        23 => Some(LenSpec::Fixed(2)),  // GetSelectionOwner
        24 => Some(LenSpec::Fixed(6)),  // ConvertSelection
        25 => Some(LenSpec::Fixed(11)),  // SendEvent
        26 => Some(LenSpec::Fixed(6)),  // GrabPointer
        27 => Some(LenSpec::Fixed(2)),  // UngrabPointer
        28 => Some(LenSpec::Fixed(6)),  // GrabButton
        29 => Some(LenSpec::Fixed(3)),  // UngrabButton
        30 => Some(LenSpec::Fixed(4)),  // ChangeActivePointerGrab
        31 => Some(LenSpec::Fixed(4)),  // GrabKeyboard
        32 => Some(LenSpec::Fixed(2)),  // UngrabKeyboard
        33 => Some(LenSpec::Fixed(4)),  // GrabKey
        34 => Some(LenSpec::Fixed(3)),  // UngrabKey
        35 => Some(LenSpec::Fixed(2)),  // AllowEvents
        36 => Some(LenSpec::Fixed(1)),  // GrabServer
        37 => Some(LenSpec::Fixed(1)),  // UngrabServer
        38 => Some(LenSpec::Fixed(2)),  // QueryPointer
        39 => Some(LenSpec::Fixed(4)),  // GetMotionEvents
        40 => Some(LenSpec::Fixed(4)),  // TranslateCoordinates
        41 => Some(LenSpec::Fixed(6)),  // WarpPointer
        42 => Some(LenSpec::Fixed(3)),  // SetInputFocus
        43 => Some(LenSpec::Fixed(1)),  // GetInputFocus
        44 => Some(LenSpec::Fixed(1)),  // QueryKeymap
        45 => Some(LenSpec::AtLeast(3)),  // OpenFont             3 + (n+p)/4
        46 => Some(LenSpec::Fixed(2)),  // CloseFont
        47 => Some(LenSpec::Fixed(2)),  // QueryFont
        48 => Some(LenSpec::AtLeast(2)),  // QueryTextExtents     2 + (2n+p)/4
        49 => Some(LenSpec::AtLeast(2)),  // ListFonts            2 + (n+p)/4
        50 => Some(LenSpec::AtLeast(2)),  // ListFontsWithInfo    2 + (n+p)/4
        51 => Some(LenSpec::AtLeast(2)),  // SetFontPath          2 + (n+p)/4
        52 => Some(LenSpec::Fixed(1)),  // GetFontPath
        53 => Some(LenSpec::Fixed(4)),  // CreatePixmap
        54 => Some(LenSpec::Fixed(2)),  // FreePixmap
        55 => Some(LenSpec::AtLeast(4)),  // CreateGC             4 + n
        56 => Some(LenSpec::AtLeast(3)),  // ChangeGC             3 + n
        57 => Some(LenSpec::Fixed(4)),  // CopyGC
        58 => Some(LenSpec::AtLeast(3)),  // SetDashes            3 + (n+p)/4
        59 => Some(LenSpec::AtLeast(3)),  // SetClipRectangles    3 + 2n
        60 => Some(LenSpec::Fixed(2)),  // FreeGC
        61 => Some(LenSpec::Fixed(4)),  // ClearArea
        62 => Some(LenSpec::Fixed(7)),  // CopyArea
        63 => Some(LenSpec::Fixed(8)),  // CopyPlane
        64 => Some(LenSpec::AtLeast(3)),  // PolyPoint            3 + n
        65 => Some(LenSpec::AtLeast(3)),  // PolyLine             3 + n
        66 => Some(LenSpec::AtLeast(3)),  // PolySegment          3 + 2n
        67 => Some(LenSpec::AtLeast(3)),  // PolyRectangle        3 + 2n
        68 => Some(LenSpec::AtLeast(3)),  // PolyArc              3 + 3n
        69 => Some(LenSpec::AtLeast(4)),  // FillPoly             4 + n
        70 => Some(LenSpec::AtLeast(3)),  // PolyFillRectangle    3 + 2n
        71 => Some(LenSpec::AtLeast(3)),  // PolyFillArc          3 + 3n
        72 => Some(LenSpec::AtLeast(6)),  // PutImage             6 + (n+p)/4
        73 => Some(LenSpec::Fixed(5)),  // GetImage
        74 => Some(LenSpec::AtLeast(4)),  // PolyText8            4 + (n+p)/4
        75 => Some(LenSpec::AtLeast(4)),  // PolyText16           4 + (n+p)/4
        76 => Some(LenSpec::AtLeast(4)),  // ImageText8           4 + (n+p)/4
        77 => Some(LenSpec::AtLeast(4)),  // ImageText16          4 + (n+p)/4
        78 => Some(LenSpec::Fixed(4)),  // CreateColormap
        79 => Some(LenSpec::Fixed(2)),  // FreeColormap
        80 => Some(LenSpec::Fixed(3)),  // CopyColormapAndFree
        81 => Some(LenSpec::Fixed(2)),  // InstallColormap
        82 => Some(LenSpec::Fixed(2)),  // UninstallColormap
        83 => Some(LenSpec::Fixed(2)),  // ListInstalledColormaps
        84 => Some(LenSpec::Fixed(4)),  // AllocColor
        85 => Some(LenSpec::AtLeast(3)),  // AllocNamedColor      3 + (n+p)/4
        86 => Some(LenSpec::Fixed(3)),  // AllocColorCells
        87 => Some(LenSpec::Fixed(4)),  // AllocColorPlanes
        88 => Some(LenSpec::AtLeast(3)),  // FreeColors           3 + n
        89 => Some(LenSpec::AtLeast(1)),  // StoreColors          1 + 3n
        90 => Some(LenSpec::AtLeast(4)),  // StoreNamedColor      4 + (n+p)/4
        91 => Some(LenSpec::AtLeast(2)),  // QueryColors          2 + n
        92 => Some(LenSpec::AtLeast(3)),  // LookupColor          3 + (n+p)/4
        93 => Some(LenSpec::Fixed(8)),  // CreateCursor
        94 => Some(LenSpec::Fixed(8)),  // CreateGlyphCursor
        95 => Some(LenSpec::Fixed(2)),  // FreeCursor
        96 => Some(LenSpec::Fixed(5)),  // RecolorCursor
        97 => Some(LenSpec::Fixed(3)),  // QueryBestSize
        98 => Some(LenSpec::AtLeast(2)),  // QueryExtension       2 + (n+p)/4
        99 => Some(LenSpec::Fixed(1)),  // ListExtensions
        100 => Some(LenSpec::AtLeast(2)),  // ChangeKeyboardMapping 2 + nm
        101 => Some(LenSpec::Fixed(2)),  // GetKeyboardMapping
        102 => Some(LenSpec::AtLeast(2)),  // ChangeKeyboardControl 2 + n
        103 => Some(LenSpec::Fixed(1)),  // GetKeyboardControl
        104 => Some(LenSpec::Fixed(1)),  // Bell
        105 => Some(LenSpec::Fixed(3)),  // ChangePointerControl
        106 => Some(LenSpec::Fixed(1)),  // GetPointerControl
        107 => Some(LenSpec::Fixed(3)),  // SetScreenSaver
        108 => Some(LenSpec::Fixed(1)),  // GetScreenSaver
        109 => Some(LenSpec::AtLeast(2)),  // ChangeHosts          2 + (n+p)/4
        110 => Some(LenSpec::Fixed(1)),  // ListHosts
        111 => Some(LenSpec::Fixed(1)),  // SetAccessControl
        112 => Some(LenSpec::Fixed(1)),  // SetCloseDownMode
        113 => Some(LenSpec::Fixed(2)),  // KillClient
        114 => Some(LenSpec::AtLeast(3)),  // RotateProperties     3 + n
        115 => Some(LenSpec::Fixed(1)),  // ForceScreenSaver
        116 => Some(LenSpec::AtLeast(1)),  // SetPointerMapping    1 + (n+p)/4
        117 => Some(LenSpec::Fixed(1)),  // GetPointerMapping
        118 => Some(LenSpec::AtLeast(1)),  // SetModifierMapping   1 + 2n
        119 => Some(LenSpec::Fixed(1)),  // GetModifierMapping
        127 => Some(LenSpec::AtLeast(1)),  // NoOperation          1 + n
        _ => None,
    }
}

/// Returns `true` if `length_units` (the value carried in the request
/// header, possibly extended via BIG-REQUESTS) satisfies the rule for
/// `opcode`. Opcodes outside the core range or without a rule return
/// `true` (the dispatcher decides).
#[must_use]
pub fn validate_core_request_length(opcode: u8, length_units: u32) -> (r: bool)
    ensures
        r == length_is_valid(opcode, length_units),
{
    match core_request_length(opcode) {
        Some(LenSpec::Fixed(n)) => length_units == n,
        Some(LenSpec::AtLeast(n)) => length_units >= n,
        None => true,
    }
}

/// A core request shorter than its fixed part is always refused, and one
/// of exactly that length is always accepted.
pub proof fn lemma_fixed_part_is_the_shortest_valid_length(op: u8, units: u32)
    requires
        is_core_opcode(op),
    ensures
        units < fixed_units(op) ==> !length_is_valid(op, units),
        length_is_valid(op, fixed_units(op)),
        1 <= fixed_units(op) <= 11,
{
}

/// An over-long request is refused exactly when its opcode has no variable
/// tail.
pub proof fn lemma_over_long_requests(op: u8, units: u32)
    requires
        is_core_opcode(op),
        units > fixed_units(op),
    ensures
        length_is_valid(op, units) <==> has_variable_tail(op),
{
}

/// Extension opcodes carry no length rule here: every length passes.
pub proof fn lemma_extension_opcodes_pass_through(op: u8, units: u32)
    requires
        op >= 128,
    ensures
        core_length(op) is None,
        length_is_valid(op, units),
{
}

/// The rule of each request, in the order of the opcodes: how many units it has at
/// least, and whether it may have more. Opcodes with the same rule that follow on one
/// another share a line.
pub open spec fn protocol_rule(op: int) -> (int, bool) {
    if op <= 1 {
        (8, true)
    } else if op <= 2 {
        (3, true)
    } else if op <= 6 {
        (2, false)
    } else if op <= 7 {
        (4, false)
    } else if op <= 11 {
        (2, false)
    } else if op <= 12 {
        (3, true)
    } else if op <= 15 {
        (2, false)
    } else if op <= 16 {
        (2, true)
    } else if op <= 17 {
        (2, false)
    } else if op <= 18 {
        (6, true)
    } else if op <= 19 {
        (3, false)
    } else if op <= 20 {
        (6, false)
    } else if op <= 21 {
        (2, false)
    } else if op <= 22 {
        (4, false)
    } else if op <= 23 {
        (2, false)
    } else if op <= 24 {
        (6, false)
    } else if op <= 25 {
        (11, false)
    } else if op <= 26 {
        (6, false)
    } else if op <= 27 {
        (2, false)
    } else if op <= 28 {
        (6, false)
    } else if op <= 29 {
        (3, false)
    } else if op <= 31 {
        (4, false)
    } else if op <= 32 {
        (2, false)
    } else if op <= 33 {
        (4, false)
    } else if op <= 34 {
        (3, false)
    } else if op <= 35 {
        (2, false)
    } else if op <= 37 {
        (1, false)
    } else if op <= 38 {
        (2, false)
    } else if op <= 40 {
        (4, false)
    } else if op <= 41 {
        (6, false)
    } else if op <= 42 {
        (3, false)
    } else if op <= 44 {
        (1, false)
    } else if op <= 45 {
        (3, true)
    } else if op <= 47 {
        (2, false)
    } else if op <= 51 {
        (2, true)
    } else if op <= 52 {
        (1, false)
    } else if op <= 53 {
        (4, false)
    } else if op <= 54 {
        (2, false)
    } else if op <= 55 {
        (4, true)
    } else if op <= 56 {
        (3, true)
    } else if op <= 57 {
        (4, false)
    } else if op <= 59 {
        (3, true)
    } else if op <= 60 {
        (2, false)
    } else if op <= 61 {
        (4, false)
    } else if op <= 62 {
        (7, false)
    } else if op <= 63 {
        (8, false)
    } else if op <= 68 {
        (3, true)
    } else if op <= 69 {
        (4, true)
    } else if op <= 71 {
        (3, true)
    } else if op <= 72 {
        (6, true)
    } else if op <= 73 {
        (5, false)
    } else if op <= 77 {
        (4, true)
    } else if op <= 78 {
        (4, false)
    } else if op <= 79 {
        (2, false)
    } else if op <= 80 {
        (3, false)
    } else if op <= 83 {
        (2, false)
    } else if op <= 84 {
        (4, false)
    } else if op <= 85 {
        (3, true)
    } else if op <= 86 {
        (3, false)
    } else if op <= 87 {
        (4, false)
    } else if op <= 88 {
        (3, true)
    } else if op <= 89 {
        (1, true)
    } else if op <= 90 {
        (4, true)
    } else if op <= 91 {
        (2, true)
    } else if op <= 92 {
        (3, true)
    } else if op <= 94 {
        (8, false)
    } else if op <= 95 {
        (2, false)
    } else if op <= 96 {
        (5, false)
    } else if op <= 97 {
        (3, false)
    } else if op <= 98 {
        (2, true)
    } else if op <= 99 {
        (1, false)
    } else if op <= 100 {
        (2, true)
    } else if op <= 101 {
        (2, false)
    } else if op <= 102 {
        (2, true)
    } else if op <= 104 {
        (1, false)
    } else if op <= 105 {
        (3, false)
    } else if op <= 106 {
        (1, false)
    } else if op <= 107 {
        (3, false)
    } else if op <= 108 {
        (1, false)
    } else if op <= 109 {
        (2, true)
    } else if op <= 112 {
        (1, false)
    } else if op <= 113 {
        (2, false)
    } else if op <= 114 {
        (3, true)
    } else if op <= 115 {
        (1, false)
    } else if op <= 116 {
        (1, true)
    } else if op <= 117 {
        (1, false)
    } else if op <= 118 {
        (1, true)
    } else if op <= 119 {
        (1, false)
    } else {
        (1, true)
    }
}

/// A length is accepted exactly as the protocol has it: opcodes 1 to 119 and 127 by
/// their rule, and every length where there is none.
pub proof fn lemma_lengths_are_those_of_the_protocol(op: u8, units: u32)
    ensures
        ({
            let (least, more) = protocol_rule(op as int);
            let ruled = 1 <= op <= 119 || op == 127;
            &&& length_is_valid(op, units) <==> !ruled || units == least || more && units > least
            &&& core_length(op) is None <==> !ruled
            &&& core_length(op) matches Some(LenSpec::Fixed(n)) ==> n == least && !more
            &&& core_length(op) matches Some(LenSpec::AtLeast(n)) ==> n == least && more
        }),
{
}

} // verus!
