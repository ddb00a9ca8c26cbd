//! Colors, text attributes and per-cell style overlays.

use vstd::prelude::*;

verus! {

/// A terminal color.
#[derive(Copy, Clone, Debug, PartialEq, Eq, Structural, Hash)]
pub enum Color {
    /// The terminal's own default color.
    Reset,
    Black,
    DarkGrey,
    Red,
    DarkRed,
    Green,
    DarkGreen,
    Yellow,
    DarkYellow,
    Blue,
    DarkBlue,
    Magenta,
    DarkMagenta,
    Cyan,
    DarkCyan,
    White,
    Grey,
    /// A 24-bit color.
    Rgb { r: u8, g: u8, b: u8 },
    /// An entry of the 256-color palette.
    AnsiValue(u8),
}

/// A foreground and a background color, each of which may be left unset.
#[derive(Copy, Clone, Debug, PartialEq, Eq, Structural)]
pub struct Colors {
    pub foreground: Option<Color>,
    pub background: Option<Color>,
}

impl Default for Colors {
    fn default() -> (colors: Self)
        ensures
            colors == (Colors { foreground: None, background: None }),
    {
        Colors { foreground: None, background: None }
    }
}

impl Colors {
    /// Both channels set to the terminal's own defaults.
    pub fn term_colors() -> (colors: Colors)
        ensures
            colors == (Colors {
                foreground: Some(Color::Reset),
                background: Some(Color::Reset),
            }),
    {
        Colors { foreground: Some(Color::Reset), background: Some(Color::Reset) }
    }

    /// What `self.with_default(fallback)` evaluates to: every channel that
    /// `self` leaves unset is taken from `fallback`.
    pub open spec fn spec_with_default(self, fallback: Colors) -> Colors {
        Colors {
            foreground: if self.foreground is Some {
                self.foreground
            } else {
                fallback.foreground
            },
            background: if self.background is Some {
                self.background
            } else {
                fallback.background
            },
        }
    }

    /// Fills every unset channel from `default_colors`.
    pub fn with_default(&self, default_colors: Colors) -> (colors: Colors)
        ensures
            colors == self.spec_with_default(default_colors),
    {
        Colors {
            foreground: match self.foreground {
                Some(color) => Some(color),
                None => default_colors.foreground,
            },
            background: match self.background {
                Some(color) => Some(color),
                None => default_colors.background,
            },
        }
    }

    pub fn new(foreground: Color, background: Color) -> (colors: Colors)
        ensures
            colors == (Colors { foreground: Some(foreground), background: Some(background) }),
    {
        Colors { foreground: Some(foreground), background: Some(background) }
    }

    pub fn bg(background: Color) -> (colors: Colors)
        ensures
            colors == (Colors { foreground: None, background: Some(background) }),
    {
        Colors { foreground: None, background: Some(background) }
    }

    pub fn fg(foreground: Color) -> (colors: Colors)
        ensures
            colors == (Colors { foreground: Some(foreground), background: None }),
    {
        Colors { foreground: Some(foreground), background: None }
    }
}

/// A single text attribute.
#[derive(Copy, Clone, Debug, PartialEq, Eq, Structural, Hash)]
pub enum Attribute {
    Reset,
    Bold,
    Dim,
    Italic,
    Underlined,
    SlowBlink,
    RapidBlink,
    Reverse,
    Hidden,
    CrossedOut,
    Fraktur,
    NoBold,
    NormalIntensity,
    NoItalic,
    NoUnderline,
    NoBlink,
    NoReverse,
    NoHidden,
    NotCrossedOut,
    Framed,
    Encircled,
    OverLined,
    NotFramedOrEncircled,
    NotOverLined,
}

/// How many attributes there are.
pub const ATTRIBUTE_COUNT: u32 = 24;

/// The bits of an attribute set that stand for an attribute: bits 1 to 24.
pub const ATTRIBUTE_MASK: u32 = 0x01ff_fffe;

impl Attribute {
    /// The position of the attribute in declaration order, starting at 0.
    pub open spec fn spec_index(self) -> u32 {
        match self {
            Attribute::Reset => 0,
            Attribute::Bold => 1,
            Attribute::Dim => 2,
            Attribute::Italic => 3,
            Attribute::Underlined => 4,
            Attribute::SlowBlink => 5,
            Attribute::RapidBlink => 6,
            Attribute::Reverse => 7,
            Attribute::Hidden => 8,
            Attribute::CrossedOut => 9,
            Attribute::Fraktur => 10,
            Attribute::NoBold => 11,
            Attribute::NormalIntensity => 12,
            Attribute::NoItalic => 13,
            Attribute::NoUnderline => 14,
            Attribute::NoBlink => 15,
            Attribute::NoReverse => 16,
            Attribute::NoHidden => 17,
            Attribute::NotCrossedOut => 18,
            Attribute::Framed => 19,
            Attribute::Encircled => 20,
            Attribute::OverLined => 21,
            Attribute::NotFramedOrEncircled => 22,
            Attribute::NotOverLined => 23,
        }
    }

    /// The bit that stands for the attribute in an attribute set. Bit 0 is
    /// never used, so that `Reset`, at index 0, has a bit of its own.
    pub open spec fn spec_bytes(self) -> u32 {
        1u32 << ((self.spec_index() + 1) as u32)
    }

    /// The position of the attribute in declaration order, starting at 0.
    pub fn index(self) -> (index: u32)
        ensures
            index == self.spec_index(),
            index < ATTRIBUTE_COUNT,
    {
        match self {
            Attribute::Reset => 0,
            Attribute::Bold => 1,
            Attribute::Dim => 2,
            Attribute::Italic => 3,
            Attribute::Underlined => 4,
            Attribute::SlowBlink => 5,
            Attribute::RapidBlink => 6,
            Attribute::Reverse => 7,
            Attribute::Hidden => 8,
            Attribute::CrossedOut => 9,
            Attribute::Fraktur => 10,
            Attribute::NoBold => 11,
            Attribute::NormalIntensity => 12,
            Attribute::NoItalic => 13,
            Attribute::NoUnderline => 14,
            Attribute::NoBlink => 15,
            Attribute::NoReverse => 16,
            Attribute::NoHidden => 17,
            Attribute::NotCrossedOut => 18,
            Attribute::Framed => 19,
            Attribute::Encircled => 20,
            Attribute::OverLined => 21,
            Attribute::NotFramedOrEncircled => 22,
            Attribute::NotOverLined => 23,
        }
    }

    /// The bit that stands for the attribute in an attribute set.
    pub fn bytes(self) -> (bit: u32)
        ensures
            bit == self.spec_bytes(),
            bit & ATTRIBUTE_MASK == bit,
            bit != 0,
    {
        let shift: u32 = self.index() + 1;
        let bit: u32 = 1u32 << shift;
        assert(bit & 0x01ff_fffe == bit && bit != 0) by (bit_vector)
            requires
                bit == 1u32 << shift,
                1 <= shift <= 24,
        ;
        bit
    }
}

/// A set of text attributes, kept as a bit set.
#[derive(Copy, Clone, Debug, PartialEq, Eq, Structural)]
pub struct Attributes {
    bits: u32,
}

impl Default for Attributes {
    fn default() -> (attributes: Self)
        ensures
            attributes.spec_bits() == 0,
    {
        Attributes { bits: 0 }
    }
}

impl Attributes {
    /// The bit set: bit `a.spec_bytes()` is set exactly when `a` is in the set.
    pub closed spec fn spec_bits(self) -> u32 {
        self.bits
    }

    /// Whether `attribute` is in the set.
    pub open spec fn spec_has(self, attribute: Attribute) -> bool {
        self.spec_bits() & attribute.spec_bytes() != 0
    }

    /// Two attribute sets with the same bits are the same set.
    pub proof fn lemma_bits_decide(self, other: Attributes)
        ensures
            (self == other) <==> (self.spec_bits() == other.spec_bits()),
    {
    }

    /// The set that holds `attribute` and nothing else.
    pub fn from_attribute(attribute: Attribute) -> (attributes: Attributes)
        ensures
            attributes.spec_bits() == attribute.spec_bytes(),
    {
        Attributes { bits: attribute.bytes() }
    }

    /// The set with the given bits. Bits that stand for no attribute are
    /// dropped.
    pub fn from_bits(bits: u32) -> (attributes: Attributes)
        ensures
            attributes.spec_bits() == bits & ATTRIBUTE_MASK,
    {
        Attributes { bits: bits & ATTRIBUTE_MASK }
    }

    /// The bit set.
    pub fn bits(&self) -> (bits: u32)
        ensures
            bits == self.spec_bits(),
    {
        self.bits
    }

    /// Adds `attribute` to the set.
    pub fn set(&mut self, attribute: Attribute)
        ensures
            final(self).spec_bits() == old(self).spec_bits() | attribute.spec_bytes(),
    {
        self.bits = self.bits | attribute.bytes();
    }

    /// Whether `attribute` is in the set.
    pub fn has(&self, attribute: Attribute) -> (has: bool)
        ensures
            has == self.spec_has(attribute),
    {
        self.bits & attribute.bytes() != 0
    }

    /// Whether the set is empty.
    pub fn is_empty(&self) -> (empty: bool)
        ensures
            empty == (self.spec_bits() == 0),
    {
        self.bits == 0
    }
}

/// An attribute set read back from its bits holds exactly the attributes
/// whose bit was set.
pub proof fn lemma_from_bits_has(bits: u32, attribute: Attribute)
    ensures
        (bits & ATTRIBUTE_MASK) & attribute.spec_bytes() != 0 <==> bits & attribute.spec_bytes()
            != 0,
{
    let shift: u32 = (attribute.spec_index() + 1) as u32;
    assert(((bits & 0x01ff_fffe) & (1u32 << shift) != 0) == (bits & (1u32 << shift) != 0))
        by (bit_vector)
        requires
            1 <= shift <= 24,
    ;
}

/// How a cell is drawn: its attributes and its colors.
#[derive(Copy, Clone, Debug, PartialEq, Eq, Structural)]
pub struct Style {
    pub attributes: Attributes,
    pub colors: Colors,
}

impl Style {
    pub fn new(colors: Colors, attributes: Attributes) -> (style: Style)
        ensures
            style == (Style { attributes, colors }),
    {
        Style { colors, attributes }
    }

    /// A style of one attribute and no colors.
    pub fn with_attrib(attribute: Attribute) -> (style: Style)
        ensures
            style.colors == (Colors { foreground: None, background: None }),
            style.attributes.spec_bits() == attribute.spec_bytes(),
    {
        Style { colors: Colors::default(), attributes: Attributes::from_attribute(attribute) }
    }

    /// A style of the given attributes and no colors.
    pub fn with_attribs(attributes: Attributes) -> (style: Style)
        ensures
            style == (Style { attributes, colors: Colors { foreground: None, background: None } }),
    {
        Style { colors: Colors::default(), attributes }
    }

    /// A style that sets the foreground and resets the attributes.
    pub fn with_fg(foreground: Color) -> (style: Style)
        ensures
            style.colors == (Colors { foreground: Some(foreground), background: None }),
            style.attributes.spec_bits() == Attribute::Reset.spec_bytes(),
    {
        Style {
            colors: Colors::fg(foreground),
            attributes: Attributes::from_attribute(Attribute::Reset),
        }
    }

    /// A style that sets the background and resets the attributes.
    pub fn with_bg(background: Color) -> (style: Style)
        ensures
            style.colors == (Colors { foreground: None, background: Some(background) }),
            style.attributes.spec_bits() == Attribute::Reset.spec_bytes(),
    {
        Style {
            colors: Colors::bg(background),
            attributes: Attributes::from_attribute(Attribute::Reset),
        }
    }

    /// A style of the given colors that resets the attributes.
    pub fn with_colors(colors: Colors) -> (style: Style)
        ensures
            style.colors == colors,
            style.attributes.spec_bits() == Attribute::Reset.spec_bytes(),
    {
        Style { colors, attributes: Attributes::from_attribute(Attribute::Reset) }
    }
}

impl Default for Style {
    fn default() -> (style: Self)
        ensures
            style.colors == (Colors { foreground: None, background: None }),
            style.attributes.spec_bits() == Attribute::Reset.spec_bytes(),
    {
        Style {
            attributes: Attributes::from_attribute(Attribute::Reset),
            colors: Colors::default(),
        }
    }
}

/// A default style and a grid of per-cell overrides, addressed by row, then
/// column. Rows may differ in length.
#[derive(Clone, Debug, PartialEq, Eq)]
pub struct StyleMap {
    pub style: Style,
    pub map: Vec<Vec<Style>>,
}

impl Default for StyleMap {
    fn default() -> (stylemap: Self)
        ensures
            stylemap.map@.len() == 0,
            stylemap.style.colors == (Colors { foreground: None, background: None }),
            stylemap.style.attributes.spec_bits() == Attribute::Reset.spec_bytes(),
    {
        StyleMap { style: Style::default(), map: Vec::new() }
    }
}

impl StyleMap {
    /// The override at column `x` of row `y`, if the grid has one.
    pub open spec fn spec_style_at(&self, x: int, y: int) -> Option<Style> {
        if 0 <= y < self.map@.len() && 0 <= x < self.map@[y]@.len() {
            Some(self.map@[y]@[x])
        } else {
            None
        }
    }

    /// The style of the cell at column `x` of row `y`: its override, or the
    /// default style.
    pub open spec fn spec_style_for(&self, x: int, y: int) -> Style {
        match self.spec_style_at(x, y) {
            Some(style) => style,
            None => self.style,
        }
    }

    pub fn new(style: Style, map: Vec<Vec<Style>>) -> (stylemap: StyleMap)
        ensures
            stylemap.style == style,
            stylemap.map == map,
    {
        StyleMap { style, map }
    }

    /// An empty grid over a style of one attribute and no colors.
    pub fn with_attrib(attribute: Attribute) -> (stylemap: StyleMap)
        ensures
            stylemap.map@.len() == 0,
            stylemap.style.colors == (Colors { foreground: None, background: None }),
            stylemap.style.attributes.spec_bits() == attribute.spec_bytes(),
    {
        StyleMap { style: Style::with_attrib(attribute), map: Vec::new() }
    }

    /// An empty grid over a style of the given attributes and no colors.
    pub fn with_attribs(attributes: Attributes) -> (stylemap: StyleMap)
        ensures
            stylemap.map@.len() == 0,
            stylemap.style == (Style {
                attributes,
                colors: Colors { foreground: None, background: None },
            }),
    {
        StyleMap { style: Style::with_attribs(attributes), map: Vec::new() }
    }

    /// An empty grid over a style that sets the foreground.
    pub fn with_fg(foreground: Color) -> (stylemap: StyleMap)
        ensures
            stylemap.map@.len() == 0,
            stylemap.style.colors == (Colors { foreground: Some(foreground), background: None }),
            stylemap.style.attributes.spec_bits() == Attribute::Reset.spec_bytes(),
    {
        StyleMap { style: Style::with_fg(foreground), map: Vec::new() }
    }

    /// An empty grid over a style that sets the background.
    pub fn with_bg(background: Color) -> (stylemap: StyleMap)
        ensures
            stylemap.map@.len() == 0,
            stylemap.style.colors == (Colors { foreground: None, background: Some(background) }),
            stylemap.style.attributes.spec_bits() == Attribute::Reset.spec_bytes(),
    {
        StyleMap { style: Style::with_bg(background), map: Vec::new() }
    }

    /// An empty grid over a style of the given colors and no attributes.
    pub fn with_colors(colors: Colors) -> (stylemap: StyleMap)
        ensures
            stylemap.map@.len() == 0,
            stylemap.style.colors == colors,
            stylemap.style.attributes.spec_bits() == 0,
    {
        StyleMap { style: Style::new(colors, Attributes::default()), map: Vec::new() }
    }

    /// The override at column `x` of row `y`, if the grid has one.
    pub fn style_at(&self, x: usize, y: usize) -> (style: Option<&Style>)
        ensures
            match style {
                Some(found) => self.spec_style_at(x as int, y as int) == Some(*found),
                None => self.spec_style_at(x as int, y as int) is None,
            },
    {
        if y < self.map.len() {
            let row = &self.map[y];
            if x < row.len() {
                return Some(&row[x]);
            }
        }
        None
    }

    /// The style of the cell at column `x` of row `y`: its override, or the
    /// default style where the grid has none.
    pub fn style_for(&self, x: usize, y: usize) -> (style: Style)
        ensures
            style == self.spec_style_for(x as int, y as int),
    {
        match self.style_at(x, y) {
            Some(style) => *style,
            None => self.style,
        }
    }
}

} // verus!
