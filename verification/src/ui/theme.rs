//! The colours of every screen.

use vstd::prelude::*;
use crate::text::{lowered, same, to_lower, trim, trimmed};
use crate::ui::line::Tone;

verus! {

/// A terminal colour.
#[derive(Debug, Clone, Copy, PartialEq, Eq, Structural)]
pub enum Color {
    /// The terminal's own colour.
    Reset,
    Red,
    Green,
    Yellow,
    Blue,
    Cyan,
    Gray,
    DarkGray,
    LightYellow,
    /// Red, green and blue.
    Rgb(u8, u8, u8),
}

/// The colours in use.
#[derive(Debug, Clone, Copy, PartialEq, Eq, Structural)]
pub struct Theme {
    /// Titles and focused borders.
    pub accent: Color,
    /// Background of the selected row.
    pub selection_bg: Color,
    /// Hints, descriptions, footer keys.
    pub muted: Color,
    /// Warnings.
    pub warning: Color,
    /// The command preview.
    pub command: Color,
    /// Explanations of flags.
    pub explanation: Color,
}

/// The colours on a dark background.
pub open spec fn dark_theme() -> Theme {
    Theme {
        accent: Color::Cyan,
        selection_bg: Color::DarkGray,
        muted: Color::Gray,
        warning: Color::Yellow,
        command: Color::Green,
        explanation: Color::DarkGray,
    }
}

/// The colours on a light background.
pub open spec fn light_theme() -> Theme {
    Theme {
        accent: Color::Blue,
        selection_bg: Color::LightYellow,
        muted: Color::DarkGray,
        warning: Color::Red,
        command: Color::Green,
        explanation: Color::Gray,
    }
}

/// The theme with a name; every other name gives the dark one.
pub open spec fn theme_named(name: Seq<char>) -> Theme {
    if lowered(trimmed(name)) == "light"@ {
        light_theme()
    } else {
        dark_theme()
    }
}

impl Theme {
    /// The colours on a dark background.
    pub fn dark() -> (r: Self)
        ensures
            r == dark_theme(),
    {
        Theme {
            accent: Color::Cyan,
            selection_bg: Color::DarkGray,
            muted: Color::Gray,
            warning: Color::Yellow,
            command: Color::Green,
            explanation: Color::DarkGray,
        }
    }

    /// The colours on a light background.
    pub fn light() -> (r: Self)
        ensures
            r == light_theme(),
    {
        Theme {
            accent: Color::Blue,
            selection_bg: Color::LightYellow,
            muted: Color::DarkGray,
            warning: Color::Red,
            command: Color::Green,
            explanation: Color::Gray,
        }
    }

    /// Finds a theme by its name.
    pub fn from_name(name: &str) -> (r: Self)
        ensures
            r == theme_named(name@),
    {
        if same(to_lower(trim(name).as_str()).as_str(), "light") {
            Theme::light()
        } else {
            Theme::dark()
        }
    }
}

/// How a piece of text looks.
#[derive(Debug, Clone, Copy, PartialEq, Eq, Structural)]
pub struct Style {
    /// Its colour, other than the terminal's.
    pub fg: Option<Color>,
    /// Its background, other than the terminal's.
    pub bg: Option<Color>,
    pub bold: bool,
    pub underlined: bool,
}

/// Text in a colour.
pub open spec fn coloured(fg: Color) -> Style {
    Style { fg: Some(fg), bg: None, bold: false, underlined: false }
}

/// How a piece of text looks by its role: titles and warnings are bold, what is
/// focused is bold on the selection's background.
pub open spec fn look(t: Theme, tone: Tone) -> Style {
    match tone {
        Tone::Plain => Style { fg: None, bg: None, bold: false, underlined: false },
        Tone::Title => Style { bold: true, ..coloured(t.accent) },
        Tone::Selected => Style {
            fg: None,
            bg: Some(t.selection_bg),
            bold: true,
            underlined: false,
        },
        Tone::SelectAll => Style {
            fg: None,
            bg: Some(t.selection_bg),
            bold: true,
            underlined: true,
        },
        Tone::Muted => coloured(t.muted),
        Tone::Command => coloured(t.command),
        Tone::Warning => Style { bold: true, ..coloured(t.warning) },
        Tone::Explanation => coloured(t.explanation),
        Tone::Footer => coloured(t.muted),
    }
}

/// Gives text a colour.
fn in_color(fg: Color) -> (r: Style)
    ensures
        r == coloured(fg),
{
    Style { fg: Some(fg), bg: None, bold: false, underlined: false }
}

impl Theme {
    /// Titles.
    pub fn title(&self) -> (r: Style)
        ensures
            r == look(*self, Tone::Title),
    {
        Style { fg: Some(self.accent), bg: None, bold: true, underlined: false }
    }

    /// The selected row, or the focused field.
    pub fn selected(&self) -> (r: Style)
        ensures
            r == look(*self, Tone::Selected),
    {
        Style { fg: None, bg: Some(self.selection_bg), bold: true, underlined: false }
    }

    /// Descriptions.
    pub fn muted_style(&self) -> (r: Style)
        ensures
            r == look(*self, Tone::Muted),
    {
        in_color(self.muted)
    }

    /// The command preview.
    pub fn command_style(&self) -> (r: Style)
        ensures
            r == look(*self, Tone::Command),
    {
        in_color(self.command)
    }

    /// Warnings and errors.
    pub fn warning_style(&self) -> (r: Style)
        ensures
            r == look(*self, Tone::Warning),
    {
        Style { fg: Some(self.warning), bg: None, bold: true, underlined: false }
    }

    /// Explanations of flags.
    pub fn explanation_style(&self) -> (r: Style)
        ensures
            r == look(*self, Tone::Explanation),
    {
        in_color(self.explanation)
    }

    /// Key hints.
    pub fn footer(&self) -> (r: Style)
        ensures
            r == look(*self, Tone::Footer),
    {
        in_color(self.muted)
    }

    /// Gives the look of a role.
    pub fn style(&self, tone: Tone) -> (r: Style)
        ensures
            r == look(*self, tone),
    {
        match tone {
            Tone::Plain => Style { fg: None, bg: None, bold: false, underlined: false },
            Tone::Title => self.title(),
            Tone::Selected => self.selected(),
            Tone::SelectAll => {
                let base = self.selected();
                Style { fg: base.fg, bg: base.bg, bold: base.bold, underlined: true }
            },
            Tone::Muted => self.muted_style(),
            Tone::Command => self.command_style(),
            Tone::Warning => self.warning_style(),
            Tone::Explanation => self.explanation_style(),
            Tone::Footer => self.footer(),
        }
    }
}

impl Default for Theme {
    fn default() -> (r: Self)
        ensures
            r == dark_theme(),
    {
        Theme::dark()
    }
}

/// The light theme is taken when it is named, whatever the case and the blanks
/// around it, and the dark one for every other name.
pub proof fn law_the_named_theme_is_taken(name: Seq<char>)
    ensures
        lowered(trimmed(name)) == "light"@ <==> theme_named(name).accent == Color::Blue,
        lowered(trimmed(name)) != "light"@ <==> theme_named(name).accent == Color::Cyan,
{
}

} // verus!
