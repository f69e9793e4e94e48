use vstd::prelude::*;

verus! {

/// An operating-system control sequence that a style may open: it is
/// written after the graphic codes of the style, and its argument (a URL,
/// a title, a path) follows it.
#[derive(Clone, Copy, Debug, PartialEq, Eq, Structural, Hash)]
pub enum OSControl {
    /// An OSC 8 hyperlink.
    Hyperlink,
    /// The window title (OSC 2).
    Title,
    /// The icon name (OSC I).
    Icon,
    /// The current working directory (OSC 7).
    Cwd,
}

/// A colour of the terminal palette, a 256-colour index, or a 24-bit
/// RGB colour.
#[derive(Clone, Copy, Debug, PartialEq, Eq, Structural, Hash)]
pub enum Color {
    Black,
    DarkGray,
    Red,
    LightRed,
    Green,
    LightGreen,
    Yellow,
    LightYellow,
    Blue,
    LightBlue,
    Purple,
    LightPurple,
    Magenta,
    LightMagenta,
    Cyan,
    LightCyan,
    White,
    LightGray,
    /// An index into the 256-colour palette.
    Fixed(u8),
    /// A 24-bit colour.
    Rgb(u8, u8, u8),
    /// The terminal's default colour.
    Default,
}

/// A set of text attributes, colours and an optional control sequence,
/// to be applied to a piece of text.
#[derive(Clone, Copy, Debug, PartialEq, Eq, Structural, Hash)]
pub struct Style {
    pub foreground: Option<Color>,
    pub background: Option<Color>,
    pub is_bold: bool,
    pub is_dimmed: bool,
    pub is_italic: bool,
    pub is_underline: bool,
    pub is_blink: bool,
    pub is_reverse: bool,
    pub is_hidden: bool,
    pub is_strikethrough: bool,
    /// Whether a full reset code is written before the style's own codes.
    pub prefix_with_reset: bool,
    pub oscontrol: Option<OSControl>,
}

/// The style with no colour, no attribute, no reset and no control
/// sequence: text painted with it is written as it is.
pub open spec fn plain_style() -> Style {
    Style {
        foreground: None,
        background: None,
        is_bold: false,
        is_dimmed: false,
        is_italic: false,
        is_underline: false,
        is_blink: false,
        is_reverse: false,
        is_hidden: false,
        is_strikethrough: false,
        prefix_with_reset: false,
        oscontrol: None,
    }
}

/// The plain style with only the given control sequence.
pub open spec fn osc_style(osc: OSControl) -> Style {
    Style { oscontrol: Some(osc), ..plain_style() }
}

impl Default for Style {
    /// The plain style.
    fn default() -> (s: Style)
        ensures
            s == plain_style(),
    {
        Style {
            foreground: None,
            background: None,
            is_bold: false,
            is_dimmed: false,
            is_italic: false,
            is_underline: false,
            is_blink: false,
            is_reverse: false,
            is_hidden: false,
            is_strikethrough: false,
            prefix_with_reset: false,
            oscontrol: None,
        }
    }
}

impl Style {
    /// The plain style.
    pub fn new() -> (s: Style)
        ensures
            s == plain_style(),
    {
        Style::default()
    }

    /// Whether this style is the plain one, so that nothing is written
    /// around text painted with it.
    pub fn is_plain(&self) -> (b: bool)
        ensures
            b == (*self == plain_style()),
    {
        let plain = Style::default();
        *self == plain
    }

    /// This style, bold.
    pub fn bold(&self) -> (s: Style)
        ensures
            s == (Style { is_bold: true, ..*self }),
    {
        Style { is_bold: true, ..*self }
    }

    /// This style, dimmed.
    pub fn dimmed(&self) -> (s: Style)
        ensures
            s == (Style { is_dimmed: true, ..*self }),
    {
        Style { is_dimmed: true, ..*self }
    }

    /// This style, italic.
    pub fn italic(&self) -> (s: Style)
        ensures
            s == (Style { is_italic: true, ..*self }),
    {
        Style { is_italic: true, ..*self }
    }

    /// This style, underlined.
    pub fn underline(&self) -> (s: Style)
        ensures
            s == (Style { is_underline: true, ..*self }),
    {
        Style { is_underline: true, ..*self }
    }

    /// This style, blinking.
    pub fn blink(&self) -> (s: Style)
        ensures
            s == (Style { is_blink: true, ..*self }),
    {
        Style { is_blink: true, ..*self }
    }

    /// This style, with foreground and background swapped.
    pub fn reverse(&self) -> (s: Style)
        ensures
            s == (Style { is_reverse: true, ..*self }),
    {
        Style { is_reverse: true, ..*self }
    }

    /// This style, hidden.
    pub fn hidden(&self) -> (s: Style)
        ensures
            s == (Style { is_hidden: true, ..*self }),
    {
        Style { is_hidden: true, ..*self }
    }

    /// This style, struck through.
    pub fn strikethrough(&self) -> (s: Style)
        ensures
            s == (Style { is_strikethrough: true, ..*self }),
    {
        Style { is_strikethrough: true, ..*self }
    }

    /// This style, preceded by a full reset when written.
    pub fn reset_before_style(&self) -> (s: Style)
        ensures
            s == (Style { prefix_with_reset: true, ..*self }),
    {
        Style { prefix_with_reset: true, ..*self }
    }

    /// This style with the given foreground colour.
    pub fn fg(&self, foreground: Color) -> (s: Style)
        ensures
            s == (Style { foreground: Some(foreground), ..*self }),
    {
        Style { foreground: Some(foreground), ..*self }
    }

    /// This style with the given background colour.
    pub fn on(&self, background: Color) -> (s: Style)
        ensures
            s == (Style { background: Some(background), ..*self }),
    {
        Style { background: Some(background), ..*self }
    }

    /// Turns this style into a hyperlink; the URL is given with the text.
    pub fn hyperlink(&mut self)
        ensures
            *final(self) == (Style { oscontrol: Some(OSControl::Hyperlink), ..*old(self) }),
    {
        self.oscontrol = Some(OSControl::Hyperlink);
    }

    /// The style that sets the terminal's title to the painted text.
    pub fn title() -> (s: Style)
        ensures
            s == osc_style(OSControl::Title),
    {
        Style { oscontrol: Some(OSControl::Title), ..Style::default() }
    }

    /// The style that sets the terminal's icon to the painted path.
    pub fn icon() -> (s: Style)
        ensures
            s == osc_style(OSControl::Icon),
    {
        Style { oscontrol: Some(OSControl::Icon), ..Style::default() }
    }

    /// The style that tells the terminal its working directory is the
    /// painted path.
    pub fn cwd() -> (s: Style)
        ensures
            s == osc_style(OSControl::Cwd),
    {
        Style { oscontrol: Some(OSControl::Cwd), ..Style::default() }
    }
}

/// The style with only the given foreground colour.
pub open spec fn fg_style(c: Color) -> Style {
    Style { foreground: Some(c), ..plain_style() }
}

impl Color {
    /// The style with this colour as foreground and nothing else.
    pub fn normal(self) -> (s: Style)
        ensures
            s == fg_style(self),
    {
        Style { foreground: Some(self), ..Style::default() }
    }

    /// Bold text in this colour.
    pub fn bold(self) -> (s: Style)
        ensures
            s == (Style { is_bold: true, ..fg_style(self) }),
    {
        Style { is_bold: true, ..self.normal() }
    }

    /// Dimmed text in this colour.
    pub fn dimmed(self) -> (s: Style)
        ensures
            s == (Style { is_dimmed: true, ..fg_style(self) }),
    {
        Style { is_dimmed: true, ..self.normal() }
    }

    /// Italic text in this colour.
    pub fn italic(self) -> (s: Style)
        ensures
            s == (Style { is_italic: true, ..fg_style(self) }),
    {
        Style { is_italic: true, ..self.normal() }
    }

    /// Underlined text in this colour.
    pub fn underline(self) -> (s: Style)
        ensures
            s == (Style { is_underline: true, ..fg_style(self) }),
    {
        Style { is_underline: true, ..self.normal() }
    }

    /// Blinking text in this colour.
    pub fn blink(self) -> (s: Style)
        ensures
            s == (Style { is_blink: true, ..fg_style(self) }),
    {
        Style { is_blink: true, ..self.normal() }
    }

    /// Text in this colour with foreground and background swapped.
    pub fn reverse(self) -> (s: Style)
        ensures
            s == (Style { is_reverse: true, ..fg_style(self) }),
    {
        Style { is_reverse: true, ..self.normal() }
    }

    /// Hidden text in this colour.
    pub fn hidden(self) -> (s: Style)
        ensures
            s == (Style { is_hidden: true, ..fg_style(self) }),
    {
        Style { is_hidden: true, ..self.normal() }
    }

    /// Struck-through text in this colour.
    pub fn strikethrough(self) -> (s: Style)
        ensures
            s == (Style { is_strikethrough: true, ..fg_style(self) }),
    {
        Style { is_strikethrough: true, ..self.normal() }
    }

    /// Text in this colour on the given background.
    pub fn on(self, background: Color) -> (s: Style)
        ensures
            s == (Style { background: Some(background), ..fg_style(self) }),
    {
        Style { background: Some(background), ..self.normal() }
    }
}

} // verus!
