//! MOTD component types: colors, formatting, and the parsed component enum.
use vstd::prelude::*;

verus! {

/// Minecraft text formatting codes.
///
/// These are applied as bitflags in the protocol, but parsed into individual
/// components for ease of manipulation.
#[derive(Debug, Clone, Copy, PartialEq, Eq, Hash, Structural)]
pub enum Formatting {
    Bold,
    Italic,
    Underlined,
    Strikethrough,
    Obfuscated,
    /// A reset code (§r) that clears all formatting and color.
    Reset,
}

/// The legacy code character of a formatting code.
pub open spec fn formatting_code(f: Formatting) -> char {
    match f {
        Formatting::Bold => 'l',
        Formatting::Italic => 'o',
        Formatting::Underlined => 'n',
        Formatting::Strikethrough => 'm',
        Formatting::Obfuscated => 'k',
        Formatting::Reset => 'r',
    }
}

/// The formatting code denoted by a code character (either case).
pub open spec fn formatting_of_code(c: char) -> Option<Formatting> {
    if c == 'l' || c == 'L' {
        Some(Formatting::Bold)
    } else if c == 'o' || c == 'O' {
        Some(Formatting::Italic)
    } else if c == 'n' || c == 'N' {
        Some(Formatting::Underlined)
    } else if c == 'm' || c == 'M' {
        Some(Formatting::Strikethrough)
    } else if c == 'k' || c == 'K' {
        Some(Formatting::Obfuscated)
    } else if c == 'r' || c == 'R' {
        Some(Formatting::Reset)
    } else {
        None
    }
}

impl Formatting {
    /// Returns the legacy section-sign code character for this formatting.
    pub fn code_char(&self) -> (c: char)
        ensures
            c == formatting_code(*self),
    {
        match self {
            Formatting::Bold => 'l',
            Formatting::Italic => 'o',
            Formatting::Underlined => 'n',
            Formatting::Strikethrough => 'm',
            Formatting::Obfuscated => 'k',
            Formatting::Reset => 'r',
        }
    }

    /// Parses a formatting code from its section-sign character.
    pub fn from_code_char(c: char) -> (r: Option<Formatting>)
        ensures
            r == formatting_of_code(c),
    {
        if c == 'l' || c == 'L' {
            Some(Formatting::Bold)
        } else if c == 'o' || c == 'O' {
            Some(Formatting::Italic)
        } else if c == 'n' || c == 'N' {
            Some(Formatting::Underlined)
        } else if c == 'm' || c == 'M' {
            Some(Formatting::Strikethrough)
        } else if c == 'k' || c == 'K' {
            Some(Formatting::Obfuscated)
        } else if c == 'r' || c == 'R' {
            Some(Formatting::Reset)
        } else {
            None
        }
    }
}

/// The 16 standard Minecraft named colors, and Bedrock's minecoin gold.
#[derive(Debug, Clone, Copy, PartialEq, Eq, Hash, Structural)]
pub enum MinecraftColor {
    Black,
    DarkBlue,
    DarkGreen,
    DarkAqua,
    DarkRed,
    DarkPurple,
    Gold,
    Gray,
    DarkGray,
    Blue,
    Green,
    Aqua,
    Red,
    LightPurple,
    Yellow,
    White,
    /// Bedrock-only material color.
    MinecoinGold,
}

/// The legacy code character of a color.
pub open spec fn color_code(c: MinecraftColor) -> char {
    match c {
        MinecraftColor::Black => '0',
        MinecraftColor::DarkBlue => '1',
        MinecraftColor::DarkGreen => '2',
        MinecraftColor::DarkAqua => '3',
        MinecraftColor::DarkRed => '4',
        MinecraftColor::DarkPurple => '5',
        MinecraftColor::Gold => '6',
        MinecraftColor::Gray => '7',
        MinecraftColor::DarkGray => '8',
        MinecraftColor::Blue => '9',
        MinecraftColor::Green => 'a',
        MinecraftColor::Aqua => 'b',
        MinecraftColor::Red => 'c',
        MinecraftColor::LightPurple => 'd',
        MinecraftColor::Yellow => 'e',
        MinecraftColor::White => 'f',
        MinecraftColor::MinecoinGold => 'g',
    }
}

/// The packed 24-bit RGB value of a color.
pub open spec fn color_rgb(c: MinecraftColor) -> u32 {
    match c {
        MinecraftColor::Black => 0x000000,
        MinecraftColor::DarkBlue => 0x0000AA,
        MinecraftColor::DarkGreen => 0x00AA00,
        MinecraftColor::DarkAqua => 0x00AAAA,
        MinecraftColor::DarkRed => 0xAA0000,
        MinecraftColor::DarkPurple => 0xAA00AA,
        MinecraftColor::Gold => 0xFFAA00,
        MinecraftColor::Gray => 0xAAAAAA,
        MinecraftColor::DarkGray => 0x555555,
        MinecraftColor::Blue => 0x5555FF,
        MinecraftColor::Green => 0x55FF55,
        MinecraftColor::Aqua => 0x55FFFF,
        MinecraftColor::Red => 0xFF5555,
        MinecraftColor::LightPurple => 0xFF55FF,
        MinecraftColor::Yellow => 0xFFFF55,
        MinecraftColor::White => 0xFFFFFF,
        MinecraftColor::MinecoinGold => 0xDDD605,
    }
}

/// The color denoted by a code character (either case).
pub open spec fn color_of_code(c: char) -> Option<MinecraftColor> {
    let l = if 'A' <= c <= 'Z' {
        ((c as u32) + 32) as char
    } else {
        c
    };
    if l == '0' {
        Some(MinecraftColor::Black)
    } else if l == '1' {
        Some(MinecraftColor::DarkBlue)
    } else if l == '2' {
        Some(MinecraftColor::DarkGreen)
    } else if l == '3' {
        Some(MinecraftColor::DarkAqua)
    } else if l == '4' {
        Some(MinecraftColor::DarkRed)
    } else if l == '5' {
        Some(MinecraftColor::DarkPurple)
    } else if l == '6' {
        Some(MinecraftColor::Gold)
    } else if l == '7' {
        Some(MinecraftColor::Gray)
    } else if l == '8' {
        Some(MinecraftColor::DarkGray)
    } else if l == '9' {
        Some(MinecraftColor::Blue)
    } else if l == 'a' {
        Some(MinecraftColor::Green)
    } else if l == 'b' {
        Some(MinecraftColor::Aqua)
    } else if l == 'c' {
        Some(MinecraftColor::Red)
    } else if l == 'd' {
        Some(MinecraftColor::LightPurple)
    } else if l == 'e' {
        Some(MinecraftColor::Yellow)
    } else if l == 'f' {
        Some(MinecraftColor::White)
    } else if l == 'g' {
        Some(MinecraftColor::MinecoinGold)
    } else {
        None
    }
}

impl MinecraftColor {
    /// Returns the legacy section-sign code character for this color.
    pub fn code_char(&self) -> (c: char)
        ensures
            c == color_code(*self),
    {
        match self {
            MinecraftColor::Black => '0',
            MinecraftColor::DarkBlue => '1',
            MinecraftColor::DarkGreen => '2',
            MinecraftColor::DarkAqua => '3',
            MinecraftColor::DarkRed => '4',
            MinecraftColor::DarkPurple => '5',
            MinecraftColor::Gold => '6',
            MinecraftColor::Gray => '7',
            MinecraftColor::DarkGray => '8',
            MinecraftColor::Blue => '9',
            MinecraftColor::Green => 'a',
            MinecraftColor::Aqua => 'b',
            MinecraftColor::Red => 'c',
            MinecraftColor::LightPurple => 'd',
            MinecraftColor::Yellow => 'e',
            MinecraftColor::White => 'f',
            MinecraftColor::MinecoinGold => 'g',
        }
    }

    /// Returns the RGB hex value for this color.
    pub fn rgb(&self) -> (v: u32)
        ensures
            v == color_rgb(*self),
    {
        match self {
            MinecraftColor::Black => 0x000000,
            MinecraftColor::DarkBlue => 0x0000AA,
            MinecraftColor::DarkGreen => 0x00AA00,
            MinecraftColor::DarkAqua => 0x00AAAA,
            MinecraftColor::DarkRed => 0xAA0000,
            MinecraftColor::DarkPurple => 0xAA00AA,
            MinecraftColor::Gold => 0xFFAA00,
            MinecraftColor::Gray => 0xAAAAAA,
            MinecraftColor::DarkGray => 0x555555,
            MinecraftColor::Blue => 0x5555FF,
            MinecraftColor::Green => 0x55FF55,
            MinecraftColor::Aqua => 0x55FFFF,
            MinecraftColor::Red => 0xFF5555,
            MinecraftColor::LightPurple => 0xFF55FF,
            MinecraftColor::Yellow => 0xFFFF55,
            MinecraftColor::White => 0xFFFFFF,
            MinecraftColor::MinecoinGold => 0xDDD605,
        }
    }

    /// Returns the red component (0-255).
    pub fn r(&self) -> (v: u8)
        ensures
            v == color_rgb(*self) / 0x10000,
    {
        (self.rgb() / 0x10000) as u8
    }

    /// Returns the green component (0-255).
    pub fn g(&self) -> (v: u8)
        ensures
            v == (color_rgb(*self) / 0x100) % 0x100,
    {
        ((self.rgb() / 0x100) % 0x100) as u8
    }

    /// Returns the blue component (0-255).
    pub fn b(&self) -> (v: u8)
        ensures
            v == color_rgb(*self) % 0x100,
    {
        (self.rgb() % 0x100) as u8
    }

    /// Parses a color from its section-sign code character (either case).
    pub fn from_code_char(c: char) -> (r: Option<MinecraftColor>)
        ensures
            r == color_of_code(c),
    {
        let l = if 'A' <= c && c <= 'Z' {
            ((c as u8) + 32) as char
        } else {
            c
        };
        if l == '0' {
            Some(MinecraftColor::Black)
        } else if l == '1' {
            Some(MinecraftColor::DarkBlue)
        } else if l == '2' {
            Some(MinecraftColor::DarkGreen)
        } else if l == '3' {
            Some(MinecraftColor::DarkAqua)
        } else if l == '4' {
            Some(MinecraftColor::DarkRed)
        } else if l == '5' {
            Some(MinecraftColor::DarkPurple)
        } else if l == '6' {
            Some(MinecraftColor::Gold)
        } else if l == '7' {
            Some(MinecraftColor::Gray)
        } else if l == '8' {
            Some(MinecraftColor::DarkGray)
        } else if l == '9' {
            Some(MinecraftColor::Blue)
        } else if l == 'a' {
            Some(MinecraftColor::Green)
        } else if l == 'b' {
            Some(MinecraftColor::Aqua)
        } else if l == 'c' {
            Some(MinecraftColor::Red)
        } else if l == 'd' {
            Some(MinecraftColor::LightPurple)
        } else if l == 'e' {
            Some(MinecraftColor::Yellow)
        } else if l == 'f' {
            Some(MinecraftColor::White)
        } else if l == 'g' {
            Some(MinecraftColor::MinecoinGold)
        } else {
            None
        }
    }
}

/// A hex RGB color used in modern Minecraft chat components.
#[derive(Debug, Clone, Copy, PartialEq, Eq, Hash, Structural)]
pub struct WebColor {
    r: u8,
    g: u8,
    b: u8,
}

impl WebColor {
    /// The red component.
    pub closed spec fn red(self) -> u8 {
        self.r
    }

    /// The green component.
    pub closed spec fn green(self) -> u8 {
        self.g
    }

    /// The blue component.
    pub closed spec fn blue(self) -> u8 {
        self.b
    }

    /// The packed 24-bit RGB value.
    pub open spec fn packed(self) -> u32 {
        (self.red() as u32 * 0x10000 + self.green() as u32 * 0x100 + self.blue() as u32) as u32
    }

    /// Two colors with the same components are the same color.
    pub proof fn lemma_same_components(a: WebColor, b: WebColor)
        requires
            a.red() == b.red(),
            a.green() == b.green(),
            a.blue() == b.blue(),
        ensures
            a == b,
    {
    }

    /// The color with the given components.
    pub closed spec fn from_parts(r: u8, g: u8, b: u8) -> WebColor {
        WebColor { r, g, b }
    }

    /// The components of a color built from parts are those parts.
    pub proof fn lemma_from_parts(r: u8, g: u8, b: u8)
        ensures
            WebColor::from_parts(r, g, b).red() == r,
            WebColor::from_parts(r, g, b).green() == g,
            WebColor::from_parts(r, g, b).blue() == b,
    {
    }

    /// Creates a new web color from RGB components.
    pub fn new(r: u8, g: u8, b: u8) -> (c: WebColor)
        ensures
            c == WebColor::from_parts(r, g, b),
            c.red() == r,
            c.green() == g,
            c.blue() == b,
    {
        WebColor { r, g, b }
    }

    /// Returns the packed 24-bit RGB value.
    pub fn rgb(&self) -> (v: u32)
        ensures
            v == self.packed(),
    {
        (self.r as u32) * 0x10000 + (self.g as u32) * 0x100 + (self.b as u32)
    }

    /// Returns the red component.
    pub fn r(&self) -> (v: u8)
        ensures
            v == self.red(),
    {
        self.r
    }

    /// Returns the green component.
    pub fn g(&self) -> (v: u8)
        ensures
            v == self.green(),
    {
        self.g
    }

    /// Returns the blue component.
    pub fn b(&self) -> (v: u8)
        ensures
            v == self.blue(),
    {
        self.b
    }
}

/// A parsed MOTD component — one element in the parsed component list.
#[derive(Debug, Clone, PartialEq, Eq)]
pub enum MotdComponent {
    /// Plain text.
    Text(String),
    /// A formatting code (bold, italic, etc.).
    Formatting(Formatting),
    /// A standard Minecraft color (16 named colors).
    MinecraftColor(MinecraftColor),
    /// A hex RGB web color.
    WebColor(WebColor),
    /// A translation tag (e.g. `multiplayer.player.joined`).
    TranslationTag { id: String },
}

/// The mathematical value of a component: text as a character sequence.
pub ghost enum Component {
    Text(Seq<char>),
    Formatting(Formatting),
    MinecraftColor(MinecraftColor),
    WebColor(WebColor),
    TranslationTag(Seq<char>),
}

impl View for MotdComponent {
    type V = Component;

    open spec fn view(&self) -> Component {
        match self {
            MotdComponent::Text(s) => Component::Text(s@),
            MotdComponent::Formatting(f) => Component::Formatting(*f),
            MotdComponent::MinecraftColor(c) => Component::MinecraftColor(*c),
            MotdComponent::WebColor(c) => Component::WebColor(*c),
            MotdComponent::TranslationTag { id } => Component::TranslationTag(id@),
        }
    }
}

/// The values of a list of components.
pub open spec fn components_view(v: Seq<MotdComponent>) -> Seq<Component> {
    Seq::new(v.len(), |i: int| v[i]@)
}

/// The visible text of a component: text and translation tags show their
/// characters, colors and formatting show nothing.
pub open spec fn text_of(c: Component) -> Seq<char> {
    match c {
        Component::Text(s) => s,
        Component::TranslationTag(id) => id,
        _ => Seq::empty(),
    }
}

/// The visible text of a component list, in order.
pub open spec fn plain_text(s: Seq<Component>) -> Seq<char>
    decreases s.len(),
{
    if s.len() == 0 {
        Seq::empty()
    } else {
        plain_text(s.drop_last()) + text_of(s.last())
    }
}

/// The visible text of two lists one after the other is the text of the
/// first followed by the text of the second.
pub proof fn lemma_plain_text_append(a: Seq<Component>, b: Seq<Component>)
    ensures
        plain_text(a + b) == plain_text(a) + plain_text(b),
    decreases b.len(),
{
    if b.len() == 0 {
        assert(a + b =~= a);
        assert(plain_text(a) + plain_text(b) =~= plain_text(a));
    } else {
        lemma_plain_text_append(a, b.drop_last());
        assert((a + b).drop_last() =~= a + b.drop_last());
        assert((a + b).last() == b.last());
        assert(plain_text(a) + plain_text(b) =~= plain_text(a) + plain_text(b.drop_last())
            + text_of(b.last()));
    }
}

/// The visible text of a single component.
pub proof fn lemma_plain_text_single(c: Component)
    ensures
        plain_text(seq![c]) == text_of(c),
{
    assert(seq![c].drop_last() =~= Seq::<Component>::empty());
    assert(seq![c].last() == c);
    assert(plain_text(Seq::<Component>::empty()) == Seq::<char>::empty());
    assert(Seq::<char>::empty() + text_of(c) =~= text_of(c));
}

/// Clones a component, keeping its value.
pub fn clone_component(c: &MotdComponent) -> (r: MotdComponent)
    ensures
        r@ == c@,
{
    match c {
        MotdComponent::Text(s) => MotdComponent::Text(s.clone()),
        MotdComponent::Formatting(f) => MotdComponent::Formatting(*f),
        MotdComponent::MinecraftColor(m) => MotdComponent::MinecraftColor(*m),
        MotdComponent::WebColor(w) => MotdComponent::WebColor(*w),
        MotdComponent::TranslationTag { id } => MotdComponent::TranslationTag { id: id.clone() },
    }
}

} // verus!
