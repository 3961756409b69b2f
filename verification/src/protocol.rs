//! X11 protocol values: identifiers and decoded requests.

use vstd::prelude::*;

verus! {

/// An X11 resource identifier (window, pixmap, graphics context, ...).
#[derive(Clone, Copy, Debug, PartialEq, Eq, Hash, Structural)]
pub struct ResourceId(pub u32);

/// A connected client.
#[derive(Clone, Copy, Debug, PartialEq, Eq, Hash, Structural)]
pub struct ClientId(pub u32);

/// An interned atom.
#[derive(Clone, Copy, Debug, PartialEq, Eq, Hash, Structural)]
pub struct AtomId(pub u32);

/// Decoded `CreateWindow`.
#[derive(Clone, Copy, Debug, PartialEq, Eq, Structural)]
pub struct CreateWindowRequest {
    pub depth: u8,
    pub window: ResourceId,
    pub parent: ResourceId,
    pub x: i16,
    pub y: i16,
    pub width: u16,
    pub height: u16,
    pub border_width: u16,
    pub class: u16,
    pub visual: ResourceId,
    pub background_pixel: Option<u32>,
    pub event_mask: Option<u32>,
    pub override_redirect: Option<bool>,
}

impl Default for CreateWindowRequest {
    fn default() -> (r: Self)
        ensures
            r == (CreateWindowRequest {
                depth: 0,
                window: ResourceId(0),
                parent: ResourceId(0),
                x: 0,
                y: 0,
                width: 0,
                height: 0,
                border_width: 0,
                class: 0,
                visual: ResourceId(0),
                background_pixel: None,
                event_mask: None,
                override_redirect: None,
            }),
    {
        CreateWindowRequest {
            depth: 0,
            window: ResourceId(0),
            parent: ResourceId(0),
            x: 0,
            y: 0,
            width: 0,
            height: 0,
            border_width: 0,
            class: 0,
            visual: ResourceId(0),
            background_pixel: None,
            event_mask: None,
            override_redirect: None,
        }
    }
}

/// Decoded `ChangeWindowAttributes`.
#[derive(Clone, Copy, Debug, PartialEq, Eq, Structural)]
pub struct ChangeWindowAttributesRequest {
    pub window: ResourceId,
    pub background_pixel: Option<u32>,
    pub cursor: Option<ResourceId>,
}

/// Decoded `ConfigureWindow`.
#[derive(Clone, Copy, Debug, PartialEq, Eq, Structural)]
pub struct ConfigureWindowRequest {
    pub window: ResourceId,
    pub x: Option<i16>,
    pub y: Option<i16>,
    pub width: Option<u16>,
    pub height: Option<u16>,
    pub border_width: Option<u16>,
}

/// Decoded `CreatePixmap`.
#[derive(Clone, Copy, Debug, PartialEq, Eq, Structural)]
pub struct CreatePixmapRequest {
    pub depth: u8,
    pub pixmap: ResourceId,
    pub drawable: ResourceId,
    pub width: u16,
    pub height: u16,
}

/// Decoded `CreateGC`.
#[derive(Clone, Copy, Debug, PartialEq, Eq, Structural)]
pub struct CreateGcRequest {
    pub gc: ResourceId,
    pub drawable: ResourceId,
    pub foreground: Option<u32>,
    pub background: Option<u32>,
    pub line_width: Option<u16>,
    pub font: Option<ResourceId>,
}

/// Decoded `ChangeGC`.
#[derive(Clone, Copy, Debug, PartialEq, Eq, Structural)]
pub struct GcChange {
    pub gc: ResourceId,
    pub foreground: Option<u32>,
    pub background: Option<u32>,
    pub line_width: Option<u16>,
    pub font: Option<ResourceId>,
}

/// Metrics of one character.
#[derive(Clone, Copy, Debug, PartialEq, Eq, Structural)]
pub struct CharInfo {
    pub left_side_bearing: i16,
    pub right_side_bearing: i16,
    pub character_width: i16,
    pub ascent: i16,
    pub descent: i16,
    pub attributes: u16,
}

/// A font property: atom name and 32-bit value.
#[derive(Clone, Copy, Debug, PartialEq, Eq, Structural)]
pub struct FontProp {
    pub name: AtomId,
    pub value: u32,
}

/// Metrics of a whole font, as `QueryFont` reports them.
#[derive(Clone, Debug)]
pub struct FontMetrics {
    pub min_bounds: CharInfo,
    pub max_bounds: CharInfo,
    pub min_char_or_byte2: u16,
    pub max_char_or_byte2: u16,
    pub default_char: u16,
    pub draw_direction: u8,
    pub min_byte1: u8,
    pub max_byte1: u8,
    pub all_chars_exist: bool,
    pub font_ascent: i16,
    pub font_descent: i16,
    pub properties: Vec<FontProp>,
    pub char_infos: Vec<CharInfo>,
}

/// [`FontMetrics`] with its lists as sequences.
#[verifier::ext_equal]
pub struct FontMetricsView {
    pub min_bounds: CharInfo,
    pub max_bounds: CharInfo,
    pub min_char_or_byte2: u16,
    pub max_char_or_byte2: u16,
    pub default_char: u16,
    pub draw_direction: u8,
    pub min_byte1: u8,
    pub max_byte1: u8,
    pub all_chars_exist: bool,
    pub font_ascent: i16,
    pub font_descent: i16,
    pub properties: Seq<FontProp>,
    pub char_infos: Seq<CharInfo>,
}

impl View for FontMetrics {
    type V = FontMetricsView;

    open spec fn view(&self) -> FontMetricsView {
        FontMetricsView {
            min_bounds: self.min_bounds,
            max_bounds: self.max_bounds,
            min_char_or_byte2: self.min_char_or_byte2,
            max_char_or_byte2: self.max_char_or_byte2,
            default_char: self.default_char,
            draw_direction: self.draw_direction,
            min_byte1: self.min_byte1,
            max_byte1: self.max_byte1,
            all_chars_exist: self.all_chars_exist,
            font_ascent: self.font_ascent,
            font_descent: self.font_descent,
            properties: self.properties@,
            char_infos: self.char_infos@,
        }
    }
}

/// The value of a window property.
#[derive(Clone, Debug)]
pub struct PropertyValue {
    pub type_atom: AtomId,
    pub format: u8,
    pub data: Vec<u8>,
}

/// [`PropertyValue`] with its bytes as a sequence.
#[verifier::ext_equal]
pub struct PropertyValueView {
    pub type_atom: AtomId,
    pub format: u8,
    pub data: Seq<u8>,
}

impl View for PropertyValue {
    type V = PropertyValueView;

    open spec fn view(&self) -> PropertyValueView {
        PropertyValueView { type_atom: self.type_atom, format: self.format, data: self.data@ }
    }
}

} // verus!
