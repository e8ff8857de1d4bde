//! Styling system: colors, spacing, borders and style composition.
use vstd::prelude::*;
use vstd::string::StringSliceAdditionalSpecFns;

verus! {

/// Terminal color: the 16-color palette or a 24-bit RGB value.
#[derive(Clone, Copy, Debug, PartialEq, Eq, Structural)]
pub enum Color {
    Black,
    Red,
    Green,
    Yellow,
    Blue,
    Magenta,
    Cyan,
    White,
    BrightBlack,
    BrightRed,
    BrightGreen,
    BrightYellow,
    BrightBlue,
    BrightMagenta,
    BrightCyan,
    BrightWhite,
    Rgb(u8, u8, u8),
}

/// Value of an ASCII hex digit (either case), if `c` is one.
pub open spec fn hex_digit_value(c: char) -> Option<u8> {
    if '0' <= c && c <= '9' {
        Some((c as u32 - '0' as u32) as u8)
    } else if 'a' <= c && c <= 'f' {
        Some((c as u32 - 'a' as u32 + 10) as u8)
    } else if 'A' <= c && c <= 'F' {
        Some((c as u32 - 'A' as u32 + 10) as u8)
    } else {
        None
    }
}

/// Parses a single hex digit into its value.
pub fn parse_hex_digit(c: char) -> (r: Result<u8, &'static str>)
    ensures
        match hex_digit_value(c) {
            Some(v) => r == Ok::<u8, &'static str>(v),
            None => r is Err && r->Err_0@ == "Invalid hex digit"@,
        },
{
    if '0' <= c && c <= '9' {
        Ok((c as u32 - '0' as u32) as u8)
    } else if 'a' <= c && c <= 'f' {
        Ok((c as u32 - 'a' as u32 + 10) as u8)
    } else if 'A' <= c && c <= 'F' {
        Ok((c as u32 - 'A' as u32 + 10) as u8)
    } else {
        Err("Invalid hex digit")
    }
}


/// The reasons `Color::from_hex` rejects a string.
#[derive(Clone, Copy, Debug, PartialEq, Eq, Structural)]
pub enum HexFault {
    /// The digit count (after an optional `#`) is not 1, 3 or 6.
    Length,
    /// A single-digit form holds a non-hex character.
    Digit,
    /// A two-digit channel of the six-digit form does not parse.
    Format,
}

/// The message `Color::from_hex` returns for each fault.
pub open spec fn hex_fault_message(f: HexFault) -> Seq<char> {
    match f {
        HexFault::Length => "Hex color must be 1, 3, or 6 digits"@,
        HexFault::Digit => "Invalid hex digit"@,
        HexFault::Format => "Invalid hex color format"@,
    }
}

/// The bytes of a hex color string once an optional leading `#` is dropped.
pub open spec fn hex_body(b: Seq<u8>) -> Seq<u8> {
    if b.len() > 0 && b[0] == 35u8 {
        b.drop_first()
    } else {
        b
    }
}

/// Offset of the hex body inside the full string.
pub open spec fn hex_body_offset(b: Seq<u8>) -> int {
    if b.len() > 0 && b[0] == 35u8 {
        1
    } else {
        0
    }
}

/// Value of a hex digit byte.
pub open spec fn byte_digit(b: u8) -> Option<u8> {
    hex_digit_value(b as char)
}

/// A digit `v` written twice (`F` becomes `FF`).
pub open spec fn doubled_nibble(v: u8) -> u8 {
    (v * 17) as u8
}

/// Value of a two-byte radix-16 number as `u8::from_str_radix` reads it:
/// one leading `+` is allowed in front of a single digit.
pub open spec fn hex_pair_value(b0: u8, b1: u8) -> Option<u8> {
    if b0 == 43u8 {
        byte_digit(b1)
    } else {
        match (byte_digit(b0), byte_digit(b1)) {
            (Some(h), Some(l)) => Some((h * 16 + l) as u8),
            _ => None,
        }
    }
}

/// What `Color::from_hex` yields for the given UTF-8 bytes.
pub open spec fn hex_color_spec(bytes: Seq<u8>) -> Result<Color, HexFault> {
    let b = hex_body(bytes);
    if b.len() == 1 {
        match byte_digit(b[0]) {
            Some(v) => Ok(Color::Rgb(doubled_nibble(v), doubled_nibble(v), doubled_nibble(v))),
            None => Err(HexFault::Digit),
        }
    } else if b.len() == 3 {
        match (byte_digit(b[0]), byte_digit(b[1]), byte_digit(b[2])) {
            (Some(r), Some(g), Some(bl)) => Ok(
                Color::Rgb(doubled_nibble(r), doubled_nibble(g), doubled_nibble(bl)),
            ),
            _ => Err(HexFault::Digit),
        }
    } else if b.len() == 6 {
        match (hex_pair_value(b[0], b[1]), hex_pair_value(b[2], b[3]), hex_pair_value(b[4], b[5])) {
            (Some(r), Some(g), Some(bl)) => Ok(Color::Rgb(r, g, bl)),
            _ => Err(HexFault::Format),
        }
    } else {
        Err(HexFault::Length)
    }
}

fn parse_hex_byte(b: u8) -> (r: Option<u8>)
    ensures
        r == byte_digit(b),
{
    match parse_hex_digit(b as char) {
        Ok(v) => Some(v),
        Err(_) => None,
    }
}

fn parse_hex_pair(b0: u8, b1: u8) -> (r: Option<u8>)
    ensures
        r == hex_pair_value(b0, b1),
{
    if b0 == 43u8 {
        parse_hex_byte(b1)
    } else {
        match (parse_hex_byte(b0), parse_hex_byte(b1)) {
            (Some(h), Some(l)) => Some(h * 16 + l),
            _ => None,
        }
    }
}

fn hex_error(f: HexFault) -> (e: &'static str)
    ensures
        e@ == hex_fault_message(f),
{
    proof {
        reveal_strlit("Hex color must be 1, 3, or 6 digits");
        reveal_strlit("Invalid hex digit");
        reveal_strlit("Invalid hex color format");
    }
    match f {
        HexFault::Length => "Hex color must be 1, 3, or 6 digits",
        HexFault::Digit => "Invalid hex digit",
        HexFault::Format => "Invalid hex color format",
    }
}

impl Color {
    /// Creates a Color from a hex string (`#` optional, case-insensitive):
    /// one digit gives a gray, three digits a short RGB, six digits a full RGB.
    /// Any other string gives an error; a character outside ASCII is never
    /// a digit.
    pub fn from_hex(hex: &str) -> (r: Result<Color, &'static str>)
        ensures
            match hex_color_spec(hex.spec_bytes()) {
                Ok(c) => r == Ok::<Color, &'static str>(c),
                Err(f) => r is Err && r->Err_0@ == hex_fault_message(f),
            },
    {
        let bytes = hex.as_bytes();
        let off: usize = if bytes.len() > 0 && bytes[0] == 35u8 { 1 } else { 0 };
        let n: usize = bytes.len() - off;
        let ghost b = hex_body(bytes@);
        assert(b.len() == n);
        assert(forall|i: int| 0 <= i < n ==> b[i] == bytes@[off + i]);
        if n == 1 {
            match parse_hex_byte(bytes[off]) {
                Some(v) => {
                    let e = v * 17;
                    Ok(Color::Rgb(e, e, e))
                },
                None => Err(hex_error(HexFault::Digit)),
            }
        } else if n == 3 {
            let r = parse_hex_byte(bytes[off]);
            let g = parse_hex_byte(bytes[off + 1]);
            let bl = parse_hex_byte(bytes[off + 2]);
            match (r, g, bl) {
                (Some(r), Some(g), Some(bl)) => Ok(Color::Rgb(r * 17, g * 17, bl * 17)),
                _ => Err(hex_error(HexFault::Digit)),
            }
        } else if n == 6 {
            let r = parse_hex_pair(bytes[off], bytes[off + 1]);
            let g = parse_hex_pair(bytes[off + 2], bytes[off + 3]);
            let bl = parse_hex_pair(bytes[off + 4], bytes[off + 5]);
            match (r, g, bl) {
                (Some(r), Some(g), Some(bl)) => Ok(Color::Rgb(r, g, bl)),
                _ => Err(hex_error(HexFault::Format)),
            }
        } else {
            Err(hex_error(HexFault::Length))
        }
    }

    /// Creates a Color from a hex string that is known to be valid.
    pub fn hex(hex: &str) -> (c: Color)
        requires
            hex_color_spec(hex.spec_bytes()) is Ok,
        ensures
            hex_color_spec(hex.spec_bytes()) == Ok::<Color, HexFault>(c),
    {
        match Self::from_hex(hex) {
            Ok(c) => c,
            Err(_) => Color::Black,
        }
    }

    /// Creates an RGB color from its three components.
    pub fn rgb(r: u8, g: u8, b: u8) -> (c: Color)
        ensures
            c == Color::Rgb(r, g, b),
    {
        Color::Rgb(r, g, b)
    }
}


/// Dimension specification for element sizing.
///
/// A percentage is kept as the bit pattern of the `f32` fraction (0.0 to 1.0)
/// that the builders store, so that styles can be compared and merged
/// without floating point.
#[derive(Clone, Copy, Debug, PartialEq, Eq, Structural)]
pub enum Dimension {
    /// Fixed size in terminal cells
    Fixed(u16),
    /// Fraction of the parent's dimension, as `f32` bits
    Percentage(u32),
    /// Share of the space left after fixed and percentage sizes
    Auto,
    /// Size that fits the content
    Content,
}

/// Spacing values for the four sides of an element.
#[derive(Clone, Copy, Debug, PartialEq, Eq, Structural)]
pub struct Spacing {
    pub top: u16,
    pub right: u16,
    pub bottom: u16,
    pub left: u16,
}

/// Layout direction for arranging child elements.
#[derive(Clone, Copy, Debug, PartialEq, Eq, Structural)]
pub enum Direction {
    Vertical,
    Horizontal,
}

/// Overflow behavior for content that exceeds container bounds.
#[derive(Clone, Copy, Debug, PartialEq, Eq, Structural)]
pub enum Overflow {
    /// Content may draw outside the container (no clipping)
    Visible,
    Hidden,
    Scroll,
    Auto,
}

/// Horizontal text alignment.
#[derive(Clone, Copy, Debug, PartialEq, Eq, Structural)]
pub enum TextAlign {
    Left,
    Center,
    Right,
}

/// Text wrapping modes.
#[derive(Clone, Copy, Debug, PartialEq, Eq, Structural)]
pub enum TextWrap {
    /// No wrapping
    NoWrap,
    Character,
    Word,
    WordBreak,
}

/// Element wrapping modes for children.
#[derive(Clone, Copy, Debug, PartialEq, Eq, Structural)]
pub enum WrapMode {
    NoWrap,
    Wrap,
    WrapReverse,
}

/// Positioning mode for elements.
#[derive(Clone, Copy, Debug, PartialEq, Eq, Structural)]
pub enum Position {
    Relative,
    Absolute,
    Fixed,
}

/// Distribution of content along the main axis.
#[derive(Clone, Copy, Debug, PartialEq, Eq, Structural)]
pub enum JustifyContent {
    Start,
    Center,
    End,
    SpaceBetween,
    SpaceAround,
    SpaceEvenly,
}

/// Alignment of items on the cross axis.
#[derive(Clone, Copy, Debug, PartialEq, Eq, Structural)]
pub enum AlignItems {
    Start,
    Center,
    End,
}

/// Per-item override of the parent's cross-axis alignment.
#[derive(Clone, Copy, Debug, PartialEq, Eq, Structural)]
pub enum AlignSelf {
    Auto,
    Start,
    Center,
    End,
}

/// Border line styles.
#[derive(Clone, Copy, Debug, PartialEq, Eq, Structural)]
pub enum BorderStyle {
    Single,
    Double,
    Thick,
    Rounded,
    Dashed,
}

impl Default for TextAlign {
    fn default() -> (r: Self)
        ensures
            r == TextAlign::Left,
    {
        TextAlign::Left
    }
}

impl Default for JustifyContent {
    fn default() -> (r: Self)
        ensures
            r == JustifyContent::Start,
    {
        JustifyContent::Start
    }
}

impl Default for AlignItems {
    fn default() -> (r: Self)
        ensures
            r == AlignItems::Start,
    {
        AlignItems::Start
    }
}

impl Default for AlignSelf {
    fn default() -> (r: Self)
        ensures
            r == AlignSelf::Auto,
    {
        AlignSelf::Auto
    }
}

impl Default for BorderStyle {
    fn default() -> (r: Self)
        ensures
            r == BorderStyle::Single,
    {
        BorderStyle::Single
    }
}

/// Set of border edges and corners to render, one bit each.
#[derive(Clone, Copy, Debug, PartialEq, Eq, Structural)]
pub struct BorderEdges {
    /// One bit per edge (top, right, bottom, left) then corner
    /// (top-left, top-right, bottom-right, bottom-left), lowest bit first.
    pub bits: u8,
}

impl BorderEdges {
    /// The `top` set.
    pub fn top() -> (e: BorderEdges)
        ensures
            e.spec_bits() == 1,
    {
        BorderEdges { bits: 1 }
    }

    /// The `right` set.
    pub fn right() -> (e: BorderEdges)
        ensures
            e.spec_bits() == 2,
    {
        BorderEdges { bits: 2 }
    }

    /// The `bottom` set.
    pub fn bottom() -> (e: BorderEdges)
        ensures
            e.spec_bits() == 4,
    {
        BorderEdges { bits: 4 }
    }

    /// The `left` set.
    pub fn left() -> (e: BorderEdges)
        ensures
            e.spec_bits() == 8,
    {
        BorderEdges { bits: 8 }
    }

    /// The `top_left` set.
    pub fn top_left() -> (e: BorderEdges)
        ensures
            e.spec_bits() == 16,
    {
        BorderEdges { bits: 16 }
    }

    /// The `top_right` set.
    pub fn top_right() -> (e: BorderEdges)
        ensures
            e.spec_bits() == 32,
    {
        BorderEdges { bits: 32 }
    }

    /// The `bottom_right` set.
    pub fn bottom_right() -> (e: BorderEdges)
        ensures
            e.spec_bits() == 64,
    {
        BorderEdges { bits: 64 }
    }

    /// The `bottom_left` set.
    pub fn bottom_left() -> (e: BorderEdges)
        ensures
            e.spec_bits() == 128,
    {
        BorderEdges { bits: 128 }
    }

    /// The `edges` set.
    pub fn edges() -> (e: BorderEdges)
        ensures
            e.spec_bits() == 15,
    {
        BorderEdges { bits: 15 }
    }

    /// The `corners` set.
    pub fn corners() -> (e: BorderEdges)
        ensures
            e.spec_bits() == 240,
    {
        BorderEdges { bits: 240 }
    }

    /// The `horizontal` set.
    pub fn horizontal() -> (e: BorderEdges)
        ensures
            e.spec_bits() == 5,
    {
        BorderEdges { bits: 5 }
    }

    /// The `vertical` set.
    pub fn vertical() -> (e: BorderEdges)
        ensures
            e.spec_bits() == 10,
    {
        BorderEdges { bits: 10 }
    }

    /// The raw bits of this set.
    pub open spec fn spec_bits(self) -> u8 {
        self.bits
    }

    /// The raw bits of this set.
    pub fn bits(&self) -> (b: u8)
        ensures
            b == self.spec_bits(),
    {
        self.bits
    }

    /// The set with exactly the given bits.
    pub fn from_bits_retain(bits: u8) -> (e: BorderEdges)
        ensures
            e.spec_bits() == bits,
    {
        BorderEdges { bits }
    }

    /// The empty set.
    pub fn empty() -> (e: BorderEdges)
        ensures
            e.spec_bits() == 0,
    {
        BorderEdges { bits: 0 }
    }

    /// The set of every edge and corner.
    pub fn all() -> (e: BorderEdges)
        ensures
            e.spec_bits() == 255,
    {
        BorderEdges { bits: 255 }
    }

    /// Whether no edge or corner is set.
    pub fn is_empty(&self) -> (b: bool)
        ensures
            b == (self.spec_bits() == 0),
    {
        self.bits == 0
    }

    /// Whether every bit of `other` is set in `self`.
    pub fn contains(&self, other: BorderEdges) -> (b: bool)
        ensures
            b == (self.spec_bits() & other.spec_bits() == other.spec_bits()),
    {
        self.bits & other.bits == other.bits
    }

    /// Whether some bit of `other` is set in `self`.
    pub fn intersects(&self, other: BorderEdges) -> (b: bool)
        ensures
            b == (self.spec_bits() & other.spec_bits() != 0),
    {
        self.bits & other.bits != 0
    }

    /// The bits set in either.
    pub fn union(self, other: BorderEdges) -> (e: BorderEdges)
        ensures
            e.spec_bits() == self.spec_bits() | other.spec_bits(),
    {
        BorderEdges { bits: self.bits | other.bits }
    }

    /// The bits set in both.
    pub fn intersection(self, other: BorderEdges) -> (e: BorderEdges)
        ensures
            e.spec_bits() == self.spec_bits() & other.spec_bits(),
    {
        BorderEdges { bits: self.bits & other.bits }
    }

    /// The bits of `self` that are not in `other`.
    pub fn difference(self, other: BorderEdges) -> (e: BorderEdges)
        ensures
            e.spec_bits() == self.spec_bits() & !other.spec_bits(),
    {
        BorderEdges { bits: self.bits & !other.bits }
    }

    /// Adds the bits of `other`.
    pub fn insert(&mut self, other: BorderEdges)
        ensures
            final(self).spec_bits() == old(self).spec_bits() | other.spec_bits(),
    {
        self.bits = self.bits | other.bits;
    }

    /// Removes the bits of `other`.
    pub fn remove(&mut self, other: BorderEdges)
        ensures
            final(self).spec_bits() == old(self).spec_bits() & !other.spec_bits(),
    {
        self.bits = self.bits & !other.bits;
    }
}

/// Border configuration for UI elements.
#[derive(Clone, Copy, Debug, PartialEq, Eq, Structural)]
pub struct Border {
    /// Whether to show the border
    pub enabled: bool,
    /// Border style
    pub style: BorderStyle,
    /// Border color
    pub color: Color,
    /// Which edges and corners to render
    pub edges: BorderEdges,
}

impl Border {
    /// An enabled single-line border of the given color on all edges.
    pub fn new(color: Color) -> (b: Border)
        ensures
            b == (Border { enabled: true, style: BorderStyle::Single, color, edges: BorderEdges { bits: 255 } }),
    {
        Border { enabled: true, style: BorderStyle::Single, color, edges: BorderEdges { bits: 255 } }
    }

    /// A disabled border, for clearing borders in styles.
    pub fn none() -> (b: Border)
        ensures
            b == (Border {
                enabled: false,
                style: BorderStyle::Single,
                color: Color::White,
                edges: BorderEdges { bits: 255 },
            }),
    {
        Border { enabled: false, style: BorderStyle::Single, color: Color::White, edges: BorderEdges { bits: 255 } }
    }

    /// An enabled border of the given style and color on all edges.
    pub fn with_style(style: BorderStyle, color: Color) -> (b: Border)
        ensures
            b == (Border { enabled: true, style, color, edges: BorderEdges { bits: 255 } }),
    {
        Border { enabled: true, style, color, edges: BorderEdges { bits: 255 } }
    }

    /// An enabled border of the given style, color and edges.
    pub fn with_edges(style: BorderStyle, color: Color, edges: BorderEdges) -> (b: Border)
        ensures
            b == (Border { enabled: true, style, color, edges }),
    {
        Border { enabled: true, style, color, edges }
    }
}

impl Spacing {
    /// The same spacing on all four sides.
    pub fn all(value: u16) -> (s: Spacing)
        ensures
            s == (Spacing { top: value, right: value, bottom: value, left: value }),
    {
        Spacing { top: value, right: value, bottom: value, left: value }
    }

    /// Spacing on top and bottom only.
    pub fn vertical(value: u16) -> (s: Spacing)
        ensures
            s == (Spacing { top: value, right: 0, bottom: value, left: 0 }),
    {
        Spacing { top: value, right: 0, bottom: value, left: 0 }
    }

    /// Spacing on left and right only.
    pub fn horizontal(value: u16) -> (s: Spacing)
        ensures
            s == (Spacing { top: 0, right: value, bottom: 0, left: value }),
    {
        Spacing { top: 0, right: value, bottom: 0, left: value }
    }
}

/// Complete style definition for a UI element; unset properties inherit defaults.
#[derive(Clone, Copy, Debug, PartialEq, Eq, Structural)]
pub struct Style {
    /// Background fill color
    pub background: Option<Color>,
    /// Layout direction for children
    pub direction: Option<Direction>,
    /// Inner spacing around content
    pub padding: Option<Spacing>,
    /// Overflow behavior
    pub overflow: Option<Overflow>,
    /// Width dimension
    pub width: Option<Dimension>,
    /// Height dimension
    pub height: Option<Dimension>,
    /// Border configuration
    pub border: Option<Border>,
    /// Positioning mode
    pub position: Option<Position>,
    /// Layering order (higher renders on top)
    pub z_index: Option<i32>,
    /// Offset from the top edge
    pub top: Option<i16>,
    /// Offset from the right edge
    pub right: Option<i16>,
    /// Offset from the bottom edge
    pub bottom: Option<i16>,
    /// Offset from the left edge
    pub left: Option<i16>,
    /// Wrapping mode for children
    pub wrap: Option<WrapMode>,
    /// Gap between children
    pub gap: Option<u16>,
    /// Outer spacing
    pub margin: Option<Spacing>,
    /// Minimum width
    pub min_width: Option<u16>,
    /// Minimum height
    pub min_height: Option<u16>,
    /// Maximum width
    pub max_width: Option<u16>,
    /// Maximum height
    pub max_height: Option<u16>,
    /// Border color
    pub border_color: Option<Color>,
    /// Absolute X position
    pub x: Option<u16>,
    /// Absolute Y position
    pub y: Option<u16>,
    /// Whether to show a scrollbar
    pub show_scrollbar: Option<bool>,
    /// Distribution along the main axis
    pub justify_content: Option<JustifyContent>,
    /// Alignment on the cross axis
    pub align_items: Option<AlignItems>,
    /// Override of the parent's cross-axis alignment
    pub align_self: Option<AlignSelf>,
}

/// Style properties of text elements.
#[derive(Clone, Copy, Debug, PartialEq, Eq, Structural)]
pub struct TextStyle {
    /// Foreground color
    pub color: Option<Color>,
    /// Background color
    pub background: Option<Color>,
    /// Bold weight
    pub bold: Option<bool>,
    /// Italic style
    pub italic: Option<bool>,
    /// Underline
    pub underline: Option<bool>,
    /// Strikethrough
    pub strikethrough: Option<bool>,
    /// Text wrapping mode
    pub wrap: Option<TextWrap>,
    /// Text alignment
    pub align: Option<TextAlign>,
}

/// Builder for styles with a fluent API.
pub struct StyleBuilder {
    /// The style being built
    pub style: Style,
}

/// Builder for text styles with a fluent API.
pub struct TextStyleBuilder {
    /// The text style being built
    pub style: TextStyle,
}

/// `top` where it is set, else `base`.
pub open spec fn overlay<T>(base: Option<T>, top: Option<T>) -> Option<T> {
    if top is Some {
        top
    } else {
        base
    }
}

/// `top` where it is set, else `base`.
fn take_set<T: Copy>(base: Option<T>, top: Option<T>) -> (r: Option<T>)
    ensures
        r == overlay(base, top),
{
    match top {
        Some(_) => top,
        None => base,
    }
}

/// A style with every property unset.
pub open spec fn unset_style() -> Style {
    Style {
        background: None,
        direction: None,
        padding: None,
        overflow: None,
        width: None,
        height: None,
        border: None,
        position: None,
        z_index: None,
        top: None,
        right: None,
        bottom: None,
        left: None,
        wrap: None,
        gap: None,
        margin: None,
        min_width: None,
        min_height: None,
        max_width: None,
        max_height: None,
        border_color: None,
        x: None,
        y: None,
        show_scrollbar: None,
        justify_content: None,
        align_items: None,
        align_self: None,
    }
}

/// A text style with every property unset.
pub open spec fn unset_text_style() -> TextStyle {
    TextStyle {
        color: None,
        background: None,
        bold: None,
        italic: None,
        underline: None,
        strikethrough: None,
        wrap: None,
        align: None,
    }
}

/// `top` laid over `base`: each property that `Style::merge` overlays takes
/// `top`'s value where set; the others keep `base`'s.
pub open spec fn style_overlay(base: Style, top: Style) -> Style {
    Style {
        background: overlay(base.background, top.background),
        direction: overlay(base.direction, top.direction),
        padding: overlay(base.padding, top.padding),
        overflow: overlay(base.overflow, top.overflow),
        width: overlay(base.width, top.width),
        height: overlay(base.height, top.height),
        border: overlay(base.border, top.border),
        position: overlay(base.position, top.position),
        z_index: overlay(base.z_index, top.z_index),
        top: overlay(base.top, top.top),
        right: overlay(base.right, top.right),
        bottom: overlay(base.bottom, top.bottom),
        left: overlay(base.left, top.left),
        wrap: overlay(base.wrap, top.wrap),
        gap: overlay(base.gap, top.gap),
        margin: overlay(base.margin, top.margin),
        min_width: overlay(base.min_width, top.min_width),
        min_height: overlay(base.min_height, top.min_height),
        max_width: overlay(base.max_width, top.max_width),
        max_height: overlay(base.max_height, top.max_height),
        border_color: overlay(base.border_color, top.border_color),
        x: overlay(base.x, top.x),
        y: overlay(base.y, top.y),
        show_scrollbar: overlay(base.show_scrollbar, top.show_scrollbar),
        justify_content: overlay(base.justify_content, top.justify_content),
        align_items: overlay(base.align_items, top.align_items),
        align_self: overlay(base.align_self, top.align_self),
    }
}

/// What `Style::merge` returns.
pub open spec fn style_merge(base: Option<Style>, top: Option<Style>) -> Option<Style> {
    match (base, top) {
        (Some(b), Some(t)) => Some(style_overlay(b, t)),
        (Some(b), None) => Some(b),
        (None, t) => t,
    }
}

/// `top` laid over `base` property by property.
pub open spec fn text_style_overlay(base: TextStyle, top: TextStyle) -> TextStyle {
    TextStyle {
        color: overlay(base.color, top.color),
        background: overlay(base.background, top.background),
        bold: overlay(base.bold, top.bold),
        italic: overlay(base.italic, top.italic),
        underline: overlay(base.underline, top.underline),
        strikethrough: overlay(base.strikethrough, top.strikethrough),
        wrap: overlay(base.wrap, top.wrap),
        align: overlay(base.align, top.align),
    }
}

/// What `TextStyle::merge` returns.
pub open spec fn text_style_merge(base: Option<TextStyle>, top: Option<TextStyle>) -> Option<TextStyle> {
    match (base, top) {
        (Some(b), Some(t)) => Some(text_style_overlay(b, t)),
        (Some(b), None) => Some(b),
        (None, t) => t,
    }
}

impl Default for Style {
    fn default() -> (s: Self)
        ensures
            s == unset_style(),
    {
        Style {
            background: None,
            direction: None,
            padding: None,
            overflow: None,
            width: None,
            height: None,
            border: None,
            position: None,
            z_index: None,
            top: None,
            right: None,
            bottom: None,
            left: None,
            wrap: None,
            gap: None,
            margin: None,
            min_width: None,
            min_height: None,
            max_width: None,
            max_height: None,
            border_color: None,
            x: None,
            y: None,
            show_scrollbar: None,
            justify_content: None,
            align_items: None,
            align_self: None,
        }
    }
}

impl Default for TextStyle {
    fn default() -> (s: Self)
        ensures
            s == unset_text_style(),
    {
        TextStyle {
            color: None,
            background: None,
            bold: None,
            italic: None,
            underline: None,
            strikethrough: None,
            wrap: None,
            align: None,
        }
    }
}

impl Style {
    /// The default focus style: a yellow single-line border on all edges.
    pub fn default_focus() -> (s: Style)
        ensures
            s == (Style { border: Some(Border { enabled: true, style: BorderStyle::Single, color: Color::Yellow, edges: BorderEdges { bits: 255 } }), ..unset_style() }),
    {
        let mut s = Style::default();
        s.border = Some(Border { enabled: true, style: BorderStyle::Single, color: Color::Yellow, edges: BorderEdges { bits: 255 } });
        s
    }

    /// Merges two styles; every property set in the overlay wins.
    pub fn merge(base: Option<Style>, overlay: Option<Style>) -> (r: Option<Style>)
        ensures
            r == style_merge(base, overlay),
    {
        match (base, overlay) {
            (None, None) => None,
            (Some(base), None) => Some(base),
            (None, Some(overlay)) => Some(overlay),
            (Some(mut base), Some(overlay)) => {
                base.background = take_set(base.background, overlay.background);
                base.direction = take_set(base.direction, overlay.direction);
                base.padding = take_set(base.padding, overlay.padding);
                base.overflow = take_set(base.overflow, overlay.overflow);
                base.width = take_set(base.width, overlay.width);
                base.height = take_set(base.height, overlay.height);
                base.border = take_set(base.border, overlay.border);
                base.position = take_set(base.position, overlay.position);
                base.z_index = take_set(base.z_index, overlay.z_index);
                base.top = take_set(base.top, overlay.top);
                base.right = take_set(base.right, overlay.right);
                base.bottom = take_set(base.bottom, overlay.bottom);
                base.left = take_set(base.left, overlay.left);
                base.wrap = take_set(base.wrap, overlay.wrap);
                base.gap = take_set(base.gap, overlay.gap);
                base.margin = take_set(base.margin, overlay.margin);
                base.min_width = take_set(base.min_width, overlay.min_width);
                base.min_height = take_set(base.min_height, overlay.min_height);
                base.max_width = take_set(base.max_width, overlay.max_width);
                base.max_height = take_set(base.max_height, overlay.max_height);
                base.border_color = take_set(base.border_color, overlay.border_color);
                base.x = take_set(base.x, overlay.x);
                base.y = take_set(base.y, overlay.y);
                base.show_scrollbar = take_set(base.show_scrollbar, overlay.show_scrollbar);
                base.justify_content = take_set(base.justify_content, overlay.justify_content);
                base.align_items = take_set(base.align_items, overlay.align_items);
                base.align_self = take_set(base.align_self, overlay.align_self);
                Some(base)
            },
        }
    }

    /// Sets `background`.
    pub fn background(self, color: Color) -> (s: Self)
        ensures
            s == (Style { background: Some(color), ..self }),
    {
        let mut s = self;
        s.background = Some(color);
        s
    }

    /// Sets `direction`.
    pub fn direction(self, direction: Direction) -> (s: Self)
        ensures
            s == (Style { direction: Some(direction), ..self }),
    {
        let mut s = self;
        s.direction = Some(direction);
        s
    }

    /// Sets `padding`.
    pub fn padding(self, padding: Spacing) -> (s: Self)
        ensures
            s == (Style { padding: Some(padding), ..self }),
    {
        let mut s = self;
        s.padding = Some(padding);
        s
    }

    /// Sets `overflow`.
    pub fn overflow(self, overflow: Overflow) -> (s: Self)
        ensures
            s == (Style { overflow: Some(overflow), ..self }),
    {
        let mut s = self;
        s.overflow = Some(overflow);
        s
    }

    /// Sets `width`.
    pub fn width(self, width: Dimension) -> (s: Self)
        ensures
            s == (Style { width: Some(width), ..self }),
    {
        let mut s = self;
        s.width = Some(width);
        s
    }

    /// Sets `height`.
    pub fn height(self, height: Dimension) -> (s: Self)
        ensures
            s == (Style { height: Some(height), ..self }),
    {
        let mut s = self;
        s.height = Some(height);
        s
    }

    /// Sets `position`.
    pub fn position(self, position: Position) -> (s: Self)
        ensures
            s == (Style { position: Some(position), ..self }),
    {
        let mut s = self;
        s.position = Some(position);
        s
    }

    /// Sets `z_index`.
    pub fn z_index(self, z_index: i32) -> (s: Self)
        ensures
            s == (Style { z_index: Some(z_index), ..self }),
    {
        let mut s = self;
        s.z_index = Some(z_index);
        s
    }

    /// Sets `top`.
    pub fn top(self, top: i16) -> (s: Self)
        ensures
            s == (Style { top: Some(top), ..self }),
    {
        let mut s = self;
        s.top = Some(top);
        s
    }

    /// Sets `right`.
    pub fn right(self, right: i16) -> (s: Self)
        ensures
            s == (Style { right: Some(right), ..self }),
    {
        let mut s = self;
        s.right = Some(right);
        s
    }

    /// Sets `bottom`.
    pub fn bottom(self, bottom: i16) -> (s: Self)
        ensures
            s == (Style { bottom: Some(bottom), ..self }),
    {
        let mut s = self;
        s.bottom = Some(bottom);
        s
    }

    /// Sets `left`.
    pub fn left(self, left: i16) -> (s: Self)
        ensures
            s == (Style { left: Some(left), ..self }),
    {
        let mut s = self;
        s.left = Some(left);
        s
    }

    /// Sets `wrap`.
    pub fn wrap(self, wrap: WrapMode) -> (s: Self)
        ensures
            s == (Style { wrap: Some(wrap), ..self }),
    {
        let mut s = self;
        s.wrap = Some(wrap);
        s
    }

    /// Sets `gap`.
    pub fn gap(self, gap: u16) -> (s: Self)
        ensures
            s == (Style { gap: Some(gap), ..self }),
    {
        let mut s = self;
        s.gap = Some(gap);
        s
    }

    /// Sets `show_scrollbar`.
    pub fn show_scrollbar(self, show: bool) -> (s: Self)
        ensures
            s == (Style { show_scrollbar: Some(show), ..self }),
    {
        let mut s = self;
        s.show_scrollbar = Some(show);
        s
    }

    /// Enables a single-line border of the given color on all edges.
    pub fn border(self, color: Color) -> (s: Self)
        ensures
            s == (Style { border: Some(Border { enabled: true, style: BorderStyle::Single, color, edges: BorderEdges { bits: 255 } }), ..self }),
    {
        let mut s = self;
        s.border = Some(Border::new(color));
        s
    }

    /// A builder starting from a style with every property unset.
    pub fn builder() -> (b: StyleBuilder)
        ensures
            b.style == unset_style(),
    {
        StyleBuilder { style: Style::default() }
    }
}

impl StyleBuilder {
    /// Sets `background`.
    pub fn background(self, color: Color) -> (b: Self)
        ensures
            b.style == (Style { background: Some(color), ..self.style }),
    {
        let mut b = self;
        b.style.background = Some(color);
        b
    }

    /// Sets `direction`.
    pub fn direction(self, direction: Direction) -> (b: Self)
        ensures
            b.style == (Style { direction: Some(direction), ..self.style }),
    {
        let mut b = self;
        b.style.direction = Some(direction);
        b
    }

    /// Sets `padding`.
    pub fn padding(self, padding: Spacing) -> (b: Self)
        ensures
            b.style == (Style { padding: Some(padding), ..self.style }),
    {
        let mut b = self;
        b.style.padding = Some(padding);
        b
    }

    /// Sets `overflow`.
    pub fn overflow(self, overflow: Overflow) -> (b: Self)
        ensures
            b.style == (Style { overflow: Some(overflow), ..self.style }),
    {
        let mut b = self;
        b.style.overflow = Some(overflow);
        b
    }

    /// Sets `width`.
    pub fn width(self, width: Dimension) -> (b: Self)
        ensures
            b.style == (Style { width: Some(width), ..self.style }),
    {
        let mut b = self;
        b.style.width = Some(width);
        b
    }

    /// Sets `height`.
    pub fn height(self, height: Dimension) -> (b: Self)
        ensures
            b.style == (Style { height: Some(height), ..self.style }),
    {
        let mut b = self;
        b.style.height = Some(height);
        b
    }

    /// Sets `position`.
    pub fn position(self, position: Position) -> (b: Self)
        ensures
            b.style == (Style { position: Some(position), ..self.style }),
    {
        let mut b = self;
        b.style.position = Some(position);
        b
    }

    /// Sets `z_index`.
    pub fn z_index(self, z_index: i32) -> (b: Self)
        ensures
            b.style == (Style { z_index: Some(z_index), ..self.style }),
    {
        let mut b = self;
        b.style.z_index = Some(z_index);
        b
    }

    /// Sets `top`.
    pub fn top(self, top: i16) -> (b: Self)
        ensures
            b.style == (Style { top: Some(top), ..self.style }),
    {
        let mut b = self;
        b.style.top = Some(top);
        b
    }

    /// Sets `right`.
    pub fn right(self, right: i16) -> (b: Self)
        ensures
            b.style == (Style { right: Some(right), ..self.style }),
    {
        let mut b = self;
        b.style.right = Some(right);
        b
    }

    /// Sets `bottom`.
    pub fn bottom(self, bottom: i16) -> (b: Self)
        ensures
            b.style == (Style { bottom: Some(bottom), ..self.style }),
    {
        let mut b = self;
        b.style.bottom = Some(bottom);
        b
    }

    /// Sets `left`.
    pub fn left(self, left: i16) -> (b: Self)
        ensures
            b.style == (Style { left: Some(left), ..self.style }),
    {
        let mut b = self;
        b.style.left = Some(left);
        b
    }

    /// Sets `wrap`.
    pub fn wrap(self, wrap: WrapMode) -> (b: Self)
        ensures
            b.style == (Style { wrap: Some(wrap), ..self.style }),
    {
        let mut b = self;
        b.style.wrap = Some(wrap);
        b
    }

    /// Sets `gap`.
    pub fn gap(self, gap: u16) -> (b: Self)
        ensures
            b.style == (Style { gap: Some(gap), ..self.style }),
    {
        let mut b = self;
        b.style.gap = Some(gap);
        b
    }

    /// Enables a single-line border of the given color on all edges.
    pub fn border(self, color: Color) -> (b: Self)
        ensures
            b.style == (Style { border: Some(Border { enabled: true, style: BorderStyle::Single, color, edges: BorderEdges { bits: 255 } }), ..self.style }),
    {
        let mut b = self;
        b.style.border = Some(Border::new(color));
        b
    }

    /// The style built so far.
    pub fn build(self) -> (s: Style)
        ensures
            s == self.style,
    {
        self.style
    }
}

impl TextStyle {
    /// Merges two text styles; every property set in the overlay wins.
    pub fn merge(base: Option<TextStyle>, overlay: Option<TextStyle>) -> (r: Option<TextStyle>)
        ensures
            r == text_style_merge(base, overlay),
    {
        match (base, overlay) {
            (None, None) => None,
            (Some(base), None) => Some(base),
            (None, Some(overlay)) => Some(overlay),
            (Some(mut base), Some(overlay)) => {
                base.color = take_set(base.color, overlay.color);
                base.background = take_set(base.background, overlay.background);
                base.bold = take_set(base.bold, overlay.bold);
                base.italic = take_set(base.italic, overlay.italic);
                base.underline = take_set(base.underline, overlay.underline);
                base.strikethrough = take_set(base.strikethrough, overlay.strikethrough);
                base.wrap = take_set(base.wrap, overlay.wrap);
                base.align = take_set(base.align, overlay.align);
                Some(base)
            },
        }
    }

    /// A builder starting from a text style with every property unset.
    pub fn builder() -> (b: TextStyleBuilder)
        ensures
            b.style == unset_text_style(),
    {
        TextStyleBuilder { style: TextStyle::default() }
    }

    /// Sets `color`.
    pub fn color(self, color: Color) -> (s: Self)
        ensures
            s == (TextStyle { color: Some(color), ..self }),
    {
        let mut s = self;
        s.color = Some(color);
        s
    }

    /// Sets `background`.
    pub fn background(self, color: Color) -> (s: Self)
        ensures
            s == (TextStyle { background: Some(color), ..self }),
    {
        let mut s = self;
        s.background = Some(color);
        s
    }

    /// Sets `bold`.
    pub fn bold(self, bold: bool) -> (s: Self)
        ensures
            s == (TextStyle { bold: Some(bold), ..self }),
    {
        let mut s = self;
        s.bold = Some(bold);
        s
    }

    /// Sets `italic`.
    pub fn italic(self, italic: bool) -> (s: Self)
        ensures
            s == (TextStyle { italic: Some(italic), ..self }),
    {
        let mut s = self;
        s.italic = Some(italic);
        s
    }

    /// Sets `underline`.
    pub fn underline(self, underline: bool) -> (s: Self)
        ensures
            s == (TextStyle { underline: Some(underline), ..self }),
    {
        let mut s = self;
        s.underline = Some(underline);
        s
    }

    /// Sets `strikethrough`.
    pub fn strikethrough(self, strikethrough: bool) -> (s: Self)
        ensures
            s == (TextStyle { strikethrough: Some(strikethrough), ..self }),
    {
        let mut s = self;
        s.strikethrough = Some(strikethrough);
        s
    }

    /// Sets `wrap`.
    pub fn wrap(self, wrap: TextWrap) -> (s: Self)
        ensures
            s == (TextStyle { wrap: Some(wrap), ..self }),
    {
        let mut s = self;
        s.wrap = Some(wrap);
        s
    }

    /// Sets `align`.
    pub fn align(self, align: TextAlign) -> (s: Self)
        ensures
            s == (TextStyle { align: Some(align), ..self }),
    {
        let mut s = self;
        s.align = Some(align);
        s
    }

}

impl TextStyleBuilder {
    /// Sets `color`.
    pub fn color(self, color: Color) -> (b: Self)
        ensures
            b.style == (TextStyle { color: Some(color), ..self.style }),
    {
        let mut b = self;
        b.style.color = Some(color);
        b
    }

    /// Sets `background`.
    pub fn background(self, color: Color) -> (b: Self)
        ensures
            b.style == (TextStyle { background: Some(color), ..self.style }),
    {
        let mut b = self;
        b.style.background = Some(color);
        b
    }

    /// Turns `bold` on.
    pub fn bold(self) -> (b: Self)
        ensures
            b.style == (TextStyle { bold: Some(true), ..self.style }),
    {
        let mut b = self;
        b.style.bold = Some(true);
        b
    }

    /// Turns `italic` on.
    pub fn italic(self) -> (b: Self)
        ensures
            b.style == (TextStyle { italic: Some(true), ..self.style }),
    {
        let mut b = self;
        b.style.italic = Some(true);
        b
    }

    /// Turns `underline` on.
    pub fn underline(self) -> (b: Self)
        ensures
            b.style == (TextStyle { underline: Some(true), ..self.style }),
    {
        let mut b = self;
        b.style.underline = Some(true);
        b
    }

    /// Turns `strikethrough` on.
    pub fn strikethrough(self) -> (b: Self)
        ensures
            b.style == (TextStyle { strikethrough: Some(true), ..self.style }),
    {
        let mut b = self;
        b.style.strikethrough = Some(true);
        b
    }

    /// Sets `wrap`.
    pub fn wrap(self, wrap: TextWrap) -> (b: Self)
        ensures
            b.style == (TextStyle { wrap: Some(wrap), ..self.style }),
    {
        let mut b = self;
        b.style.wrap = Some(wrap);
        b
    }

    /// Sets `align`.
    pub fn align(self, align: TextAlign) -> (b: Self)
        ensures
            b.style == (TextStyle { align: Some(align), ..self.style }),
    {
        let mut b = self;
        b.style.align = Some(align);
        b
    }

    /// Same as `bold`.
    pub fn strong(self) -> (b: Self)
        ensures
            b.style == (TextStyle { bold: Some(true), ..self.style }),
    {
        self.bold()
    }

    /// Same as `italic`.
    pub fn emphasis(self) -> (b: Self)
        ensures
            b.style == (TextStyle { italic: Some(true), ..self.style }),
    {
        self.italic()
    }

    /// The text style built so far.
    pub fn build(self) -> (s: TextStyle)
        ensures
            s == self.style,
    {
        self.style
    }
}

/// Merging with nothing on either side gives back the other style.
pub proof fn lemma_style_merge_identity(s: Option<Style>)
    ensures
        style_merge(None, s) == s,
        style_merge(s, None) == s,
{
}

/// Merging a style over itself changes nothing.
pub proof fn lemma_style_merge_idempotent(s: Option<Style>)
    ensures
        style_merge(s, s) == s,
{
}

/// Layering is associative: merging `c` over the merge of `a` and `b`
/// equals merging the merge of `b` and `c` over `a`.
pub proof fn lemma_style_merge_associative(a: Option<Style>, b: Option<Style>, c: Option<Style>)
    ensures
        style_merge(style_merge(a, b), c) == style_merge(a, style_merge(b, c)),
{
    if a is Some && b is Some && c is Some {
        lemma_style_overlay_associative(a->Some_0, b->Some_0, c->Some_0);
    }
}

proof fn lemma_style_overlay_associative(a: Style, b: Style, c: Style)
    ensures
        style_overlay(style_overlay(a, b), c) == style_overlay(a, style_overlay(b, c)),
{
    let l = style_overlay(style_overlay(a, b), c);
    let r = style_overlay(a, style_overlay(b, c));
    assert(l.background == r.background);
    assert(l.direction == r.direction);
    assert(l.padding == r.padding);
    assert(l.overflow == r.overflow);
    assert(l.width == r.width);
    assert(l.height == r.height);
    assert(l.border == r.border);
    assert(l.position == r.position);
    assert(l.z_index == r.z_index);
    assert(l.top == r.top);
    assert(l.right == r.right);
    assert(l.bottom == r.bottom);
    assert(l.left == r.left);
    assert(l.wrap == r.wrap);
    assert(l.gap == r.gap);
    assert(l.show_scrollbar == r.show_scrollbar);
    assert(l.justify_content == r.justify_content);
    assert(l.align_items == r.align_items);
    assert(l.align_self == r.align_self);
}

/// Every overlaid property that the overlay sets wins over the base.
pub proof fn lemma_style_merge_overlay_wins(base: Style, top: Style)
    ensures
        ({
            let r = style_merge(Some(base), Some(top))->Some_0;
            &&& top.background is Some ==> r.background == top.background
            &&& top.direction is Some ==> r.direction == top.direction
            &&& top.padding is Some ==> r.padding == top.padding
            &&& top.overflow is Some ==> r.overflow == top.overflow
            &&& top.width is Some ==> r.width == top.width
            &&& top.height is Some ==> r.height == top.height
            &&& top.border is Some ==> r.border == top.border
            &&& top.position is Some ==> r.position == top.position
            &&& top.z_index is Some ==> r.z_index == top.z_index
            &&& top.top is Some ==> r.top == top.top
            &&& top.right is Some ==> r.right == top.right
            &&& top.bottom is Some ==> r.bottom == top.bottom
            &&& top.left is Some ==> r.left == top.left
            &&& top.wrap is Some ==> r.wrap == top.wrap
            &&& top.gap is Some ==> r.gap == top.gap
            &&& top.show_scrollbar is Some ==> r.show_scrollbar == top.show_scrollbar
            &&& top.justify_content is Some ==> r.justify_content == top.justify_content
            &&& top.align_items is Some ==> r.align_items == top.align_items
            &&& top.align_self is Some ==> r.align_self == top.align_self
        }),
{
}

/// Merging with nothing on either side gives back the other text style.
pub proof fn lemma_text_style_merge_identity(s: Option<TextStyle>)
    ensures
        text_style_merge(None, s) == s,
        text_style_merge(s, None) == s,
{
}

/// Merging a text style over itself changes nothing.
pub proof fn lemma_text_style_merge_idempotent(s: Option<TextStyle>)
    ensures
        text_style_merge(s, s) == s,
{
}

/// Text style layering is associative.
pub proof fn lemma_text_style_merge_associative(
    a: Option<TextStyle>,
    b: Option<TextStyle>,
    c: Option<TextStyle>,
)
    ensures
        text_style_merge(text_style_merge(a, b), c) == text_style_merge(a, text_style_merge(b, c)),
{
}

/// Every property the text overlay sets wins over the base.
pub proof fn lemma_text_style_merge_overlay_wins(base: TextStyle, top: TextStyle)
    ensures
        ({
            let r = text_style_merge(Some(base), Some(top))->Some_0;
            &&& top.color is Some ==> r.color == top.color
            &&& top.background is Some ==> r.background == top.background
            &&& top.bold is Some ==> r.bold == top.bold
            &&& top.italic is Some ==> r.italic == top.italic
            &&& top.underline is Some ==> r.underline == top.underline
            &&& top.strikethrough is Some ==> r.strikethrough == top.strikethrough
            &&& top.wrap is Some ==> r.wrap == top.wrap
            &&& top.align is Some ==> r.align == top.align
        }),
{
}

/// On every string that `Color::from_hex` accepts, `Color::hex` gives the
/// same color.
pub proof fn lemma_hex_agrees_with_from_hex(hex: &str, parsed: Result<Color, &'static str>, c: Color)
    requires
        call_ensures(Color::from_hex, (hex,), parsed),
        parsed is Ok,
        call_ensures(Color::hex, (hex,), c),
    ensures
        parsed == Ok::<Color, &'static str>(c),
{
}

} // verus!
