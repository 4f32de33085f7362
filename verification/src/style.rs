//! The style and color data model.

use vstd::prelude::*;

verus! {

/// A color usable as a foreground or background color of a terminal run.
///
/// The set is closed: the sixteen named terminal colors (with `Purple` and
/// `Magenta` naming the same terminal color), the 256-color palette through
/// `Fixed`, true color through `Rgb`, and the terminal's configured `Default`.
#[derive(Clone, Copy, Debug, PartialEq, Eq, Structural)]
pub enum Color {
    /// Color #0 (foreground code `30`, background code `40`).
    Black,
    /// Color #1 (foreground code `31`, background code `41`).
    Red,
    /// Color #2 (foreground code `32`, background code `42`).
    Green,
    /// Color #3 (foreground code `33`, background code `43`).
    Yellow,
    /// Color #4 (foreground code `34`, background code `44`).
    Blue,
    /// Color #5 (foreground code `35`, background code `45`).
    Purple,
    /// Color #5 (foreground code `35`, background code `45`), under the name
    /// more terminals use; encodes exactly as `Purple` does.
    Magenta,
    /// Color #6 (foreground code `36`, background code `46`).
    Cyan,
    /// Color #7 (foreground code `37`, background code `47`).
    White,
    /// A color from the 256-color palette (codes `38;5;n` and `48;5;n`).
    Fixed(u8),
    /// A true color from its red, green and blue components
    /// (codes `38;2;r;g;b` and `48;2;r;g;b`).
    Rgb(u8, u8, u8),
    /// The terminal's configured default color (codes `39` and `49`).
    Default,
    /// Bright black (foreground code `90`, background code `100`).
    DarkGray,
    /// Bright red (foreground code `91`, background code `101`).
    LightRed,
    /// Bright green (foreground code `92`, background code `102`).
    LightGreen,
    /// Bright yellow (foreground code `93`, background code `103`).
    LightYellow,
    /// Bright blue (foreground code `94`, background code `104`).
    LightBlue,
    /// Bright purple (foreground code `95`, background code `105`).
    LightPurple,
    /// Bright purple (foreground code `95`, background code `105`), under the
    /// name more terminals use; encodes exactly as `LightPurple` does.
    LightMagenta,
    /// Bright cyan (foreground code `96`, background code `106`).
    LightCyan,
    /// Bright white (foreground code `97`, background code `107`).
    LightGray,
}

/// A terminal text style: eight independent boolean attributes, an optional
/// foreground and background color, and a flag that forces a full reset in
/// front of the style's prefix.
///
/// Styles are immutable values; the builder methods return changed copies.
#[derive(Clone, Copy, Debug, PartialEq, Eq, Structural)]
pub struct Style {
    /// The foreground color, if one is requested.
    pub foreground: Option<Color>,
    /// The background color, if one is requested.
    pub background: Option<Color>,
    /// Whether this style is bold (code `1`).
    pub is_bold: bool,
    /// Whether this style is dimmed (code `2`).
    pub is_dimmed: bool,
    /// Whether this style is italic (code `3`).
    pub is_italic: bool,
    /// Whether this style is underlined (code `4`).
    pub is_underline: bool,
    /// Whether this style blinks (code `5`).
    pub is_blink: bool,
    /// Whether this style has reversed colors (code `7`).
    pub is_reverse: bool,
    /// Whether this style is hidden (code `8`).
    pub is_hidden: bool,
    /// Whether this style is struck through (code `9`).
    pub is_strikethrough: bool,
    /// Whether the prefix must start with a full reset sequence regardless of
    /// the style's other contents.
    pub prefix_with_reset: bool,
}

impl Style {
    /// A plain style: no attribute set, no color, no forced reset.
    pub open spec fn spec_is_plain(&self) -> bool {
        *self == Style::spec_default()
    }

    /// The style that requests nothing.
    pub open spec fn spec_default() -> Style {
        Style {
            foreground: None,
            background: None,
            is_bold: false,
            is_dimmed: false,
            is_italic: false,
            is_underline: false,
            is_blink: false,
            is_reverse: false,
            is_hidden: false,
            is_strikethrough: false,
            prefix_with_reset: false,
        }
    }

    /// Creates the plain style.
    pub fn new() -> (s: Style)
        ensures
            s == Style::spec_default(),
    {
        Style {
            foreground: None,
            background: None,
            is_bold: false,
            is_dimmed: false,
            is_italic: false,
            is_underline: false,
            is_blink: false,
            is_reverse: false,
            is_hidden: false,
            is_strikethrough: false,
            prefix_with_reset: false,
        }
    }

    /// True exactly when this style requests nothing: no attribute, no color,
    /// no forced reset.  A plain style encodes to empty output.
    #[verifier::when_used_as_spec(spec_is_plain)]
    pub fn is_plain(&self) -> (r: bool)
        ensures
            r == self.spec_is_plain(),
    {
        self.foreground.is_none() && self.background.is_none() && !self.is_bold
            && !self.is_dimmed && !self.is_italic && !self.is_underline && !self.is_blink
            && !self.is_reverse && !self.is_hidden && !self.is_strikethrough
            && !self.prefix_with_reset
    }
}

impl Default for Style {
    /// The plain style.
    fn default() -> (s: Style)
        ensures
            s == Style::spec_default(),
    {
        Style::new()
    }
}

impl Style {
    /// A copy of this style with the bold attribute set.
    pub fn bold(self) -> (s: Style)
        ensures
            s == (Style { is_bold: true, ..self }),
    {
        Style { is_bold: true, ..self }
    }

    /// A copy of this style with the dimmed attribute set.
    pub fn dimmed(self) -> (s: Style)
        ensures
            s == (Style { is_dimmed: true, ..self }),
    {
        Style { is_dimmed: true, ..self }
    }

    /// A copy of this style with the italic attribute set.
    pub fn italic(self) -> (s: Style)
        ensures
            s == (Style { is_italic: true, ..self }),
    {
        Style { is_italic: true, ..self }
    }

    /// A copy of this style with the underline attribute set.
    pub fn underline(self) -> (s: Style)
        ensures
            s == (Style { is_underline: true, ..self }),
    {
        Style { is_underline: true, ..self }
    }

    /// A copy of this style with the blink attribute set.
    pub fn blink(self) -> (s: Style)
        ensures
            s == (Style { is_blink: true, ..self }),
    {
        Style { is_blink: true, ..self }
    }

    /// A copy of this style with the reverse attribute set.
    pub fn reverse(self) -> (s: Style)
        ensures
            s == (Style { is_reverse: true, ..self }),
    {
        Style { is_reverse: true, ..self }
    }

    /// A copy of this style with the hidden attribute set.
    pub fn hidden(self) -> (s: Style)
        ensures
            s == (Style { is_hidden: true, ..self }),
    {
        Style { is_hidden: true, ..self }
    }

    /// A copy of this style with the strikethrough attribute set.
    pub fn strikethrough(self) -> (s: Style)
        ensures
            s == (Style { is_strikethrough: true, ..self }),
    {
        Style { is_strikethrough: true, ..self }
    }

    /// A copy of this style with the given foreground color.
    pub fn fg(self, color: Color) -> (s: Style)
        ensures
            s == (Style { foreground: Some(color), ..self }),
    {
        Style { foreground: Some(color), ..self }
    }

    /// A copy of this style with the given background color.
    pub fn bg(self, color: Color) -> (s: Style)
        ensures
            s == (Style { background: Some(color), ..self }),
    {
        Style { background: Some(color), ..self }
    }

    /// A copy of this style with the given background color.
    pub fn on(self, color: Color) -> (s: Style)
        ensures
            s == (Style { background: Some(color), ..self }),
    {
        Style { background: Some(color), ..self }
    }

    /// A copy of this style whose prefix starts with a full reset.
    pub fn prefix_with_reset(self) -> (s: Style)
        ensures
            s == (Style { prefix_with_reset: true, ..self }),
    {
        Style { prefix_with_reset: true, ..self }
    }
}

impl Color {
    /// The style with this foreground color and nothing else.
    pub open spec fn spec_normal(self) -> Style {
        Style { foreground: Some(self), ..Style::spec_default() }
    }

    /// Turns this color into a style with it as the foreground color.
    pub fn normal(self) -> (s: Style)
        ensures
            s == self.spec_normal(),
    {
        Style { foreground: Some(self), ..Style::new() }
    }

    /// A bold style with this foreground color.
    pub fn bold(self) -> (s: Style)
        ensures
            s == (Style { is_bold: true, ..self.spec_normal() }),
    {
        self.normal().bold()
    }

    /// A dimmed style with this foreground color.
    pub fn dimmed(self) -> (s: Style)
        ensures
            s == (Style { is_dimmed: true, ..self.spec_normal() }),
    {
        self.normal().dimmed()
    }

    /// An italic style with this foreground color.
    pub fn italic(self) -> (s: Style)
        ensures
            s == (Style { is_italic: true, ..self.spec_normal() }),
    {
        self.normal().italic()
    }

    /// An underlined style with this foreground color.
    pub fn underline(self) -> (s: Style)
        ensures
            s == (Style { is_underline: true, ..self.spec_normal() }),
    {
        self.normal().underline()
    }

    /// A style with this foreground color on the given background color.
    pub fn on(self, background: Color) -> (s: Style)
        ensures
            s == (Style { background: Some(background), ..self.spec_normal() }),
    {
        self.normal().on(background)
    }
}

} // verus!
