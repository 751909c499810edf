//! Colour themes.
use vstd::prelude::*;

use crate::text::{
    ascii_lowercase, chars_equal, chars_of, is_ascii_char, spec_to_lowercase, to_lowercase,
};

verus! {

/// A terminal colour, as the renderer names them.
#[derive(Debug, Clone, Copy, PartialEq, Eq, Hash, Structural)]
pub enum Color {
    Reset,
    Black,
    Red,
    Green,
    Yellow,
    Blue,
    Magenta,
    Cyan,
    Gray,
    DarkGray,
    LightRed,
    LightGreen,
    LightYellow,
    LightBlue,
    LightMagenta,
    LightCyan,
    White,
    Rgb(u8, u8, u8),
    Indexed(u8),
}

/// The colour of each role on screen.
#[derive(Debug, Clone, Copy, PartialEq, Eq, Structural)]
pub struct Theme {
    pub bg: Color,
    pub fg: Color,
    pub muted: Color,
    pub accent: Color,
    pub status_open: Color,
    pub status_in_progress: Color,
    pub status_blocked: Color,
    pub status_closed: Color,
    pub status_deferred: Color,
    pub progress_filled: Color,
    pub progress_empty: Color,
    pub selection_bg: Color,
    pub selection_fg: Color,
    pub error: Color,
}

/// The built-in themes.
#[derive(Debug, Clone, Copy, PartialEq, Eq, Hash, Structural)]
pub enum ThemeName {
    Default,
    Light,
    SolarizedDark,
    SolarizedLight,
    Gruvbox,
    Dracula,
    HighContrast,
}

pub open spec fn default_palette() -> Theme {
    Theme {
        bg: Color::Reset,
        fg: Color::Gray,
        muted: Color::DarkGray,
        accent: Color::Cyan,
        status_open: Color::Gray,
        status_in_progress: Color::Yellow,
        status_blocked: Color::Red,
        status_closed: Color::Green,
        status_deferred: Color::Blue,
        progress_filled: Color::Green,
        progress_empty: Color::DarkGray,
        selection_bg: Color::DarkGray,
        selection_fg: Color::White,
        error: Color::Red,
    }
}

pub open spec fn light_palette() -> Theme {
    Theme {
        bg: Color::White,
        fg: Color::Black,
        muted: Color::Gray,
        accent: Color::Blue,
        status_open: Color::DarkGray,
        status_in_progress: Color::Rgb(176, 112, 0),
        status_blocked: Color::Rgb(176, 0, 0),
        status_closed: Color::Rgb(0, 120, 0),
        status_deferred: Color::Blue,
        progress_filled: Color::Rgb(0, 120, 0),
        progress_empty: Color::Gray,
        selection_bg: Color::Rgb(220, 220, 255),
        selection_fg: Color::Black,
        error: Color::Red,
    }
}

pub open spec fn solarized_dark_palette() -> Theme {
    Theme {
        bg: Color::Rgb(0, 43, 54),
        fg: Color::Rgb(131, 148, 150),
        muted: Color::Rgb(88, 110, 117),
        accent: Color::Rgb(38, 139, 210),
        status_open: Color::Rgb(147, 161, 161),
        status_in_progress: Color::Rgb(181, 137, 0),
        status_blocked: Color::Rgb(220, 50, 47),
        status_closed: Color::Rgb(133, 153, 0),
        status_deferred: Color::Rgb(38, 139, 210),
        progress_filled: Color::Rgb(133, 153, 0),
        progress_empty: Color::Rgb(88, 110, 117),
        selection_bg: Color::Rgb(7, 54, 66),
        selection_fg: Color::Rgb(253, 246, 227),
        error: Color::Rgb(220, 50, 47),
    }
}

pub open spec fn solarized_light_palette() -> Theme {
    Theme {
        bg: Color::Rgb(253, 246, 227),
        fg: Color::Rgb(101, 123, 131),
        muted: Color::Rgb(147, 161, 161),
        accent: Color::Rgb(38, 139, 210),
        status_open: Color::Rgb(88, 110, 117),
        status_in_progress: Color::Rgb(181, 137, 0),
        status_blocked: Color::Rgb(220, 50, 47),
        status_closed: Color::Rgb(133, 153, 0),
        status_deferred: Color::Rgb(38, 139, 210),
        progress_filled: Color::Rgb(133, 153, 0),
        progress_empty: Color::Rgb(238, 232, 213),
        selection_bg: Color::Rgb(238, 232, 213),
        selection_fg: Color::Rgb(0, 43, 54),
        error: Color::Rgb(220, 50, 47),
    }
}

pub open spec fn gruvbox_palette() -> Theme {
    Theme {
        bg: Color::Rgb(40, 40, 40),
        fg: Color::Rgb(235, 219, 178),
        muted: Color::Rgb(146, 131, 116),
        accent: Color::Rgb(131, 165, 152),
        status_open: Color::Rgb(189, 174, 147),
        status_in_progress: Color::Rgb(250, 189, 47),
        status_blocked: Color::Rgb(251, 73, 52),
        status_closed: Color::Rgb(184, 187, 38),
        status_deferred: Color::Rgb(131, 165, 152),
        progress_filled: Color::Rgb(184, 187, 38),
        progress_empty: Color::Rgb(60, 56, 54),
        selection_bg: Color::Rgb(60, 56, 54),
        selection_fg: Color::Rgb(251, 241, 199),
        error: Color::Rgb(251, 73, 52),
    }
}

pub open spec fn dracula_palette() -> Theme {
    Theme {
        bg: Color::Rgb(40, 42, 54),
        fg: Color::Rgb(248, 248, 242),
        muted: Color::Rgb(98, 114, 164),
        accent: Color::Rgb(139, 233, 253),
        status_open: Color::Rgb(189, 189, 190),
        status_in_progress: Color::Rgb(241, 250, 140),
        status_blocked: Color::Rgb(255, 85, 85),
        status_closed: Color::Rgb(80, 250, 123),
        status_deferred: Color::Rgb(189, 147, 249),
        progress_filled: Color::Rgb(80, 250, 123),
        progress_empty: Color::Rgb(68, 71, 90),
        selection_bg: Color::Rgb(68, 71, 90),
        selection_fg: Color::Rgb(248, 248, 242),
        error: Color::Rgb(255, 85, 85),
    }
}

pub open spec fn high_contrast_palette() -> Theme {
    Theme {
        bg: Color::Black,
        fg: Color::White,
        muted: Color::Gray,
        accent: Color::Rgb(0, 255, 255),
        status_open: Color::White,
        status_in_progress: Color::Rgb(255, 221, 0),
        status_blocked: Color::Rgb(255, 64, 64),
        status_closed: Color::Rgb(64, 255, 64),
        status_deferred: Color::Rgb(128, 192, 255),
        progress_filled: Color::Rgb(64, 255, 64),
        progress_empty: Color::Rgb(64, 64, 64),
        selection_bg: Color::Rgb(0, 128, 255),
        selection_fg: Color::White,
        error: Color::Rgb(255, 64, 64),
    }
}

/// The colours of each built-in theme.
pub open spec fn palette(name: ThemeName) -> Theme {
    match name {
        ThemeName::Default => default_palette(),
        ThemeName::Light => light_palette(),
        ThemeName::SolarizedDark => solarized_dark_palette(),
        ThemeName::SolarizedLight => solarized_light_palette(),
        ThemeName::Gruvbox => gruvbox_palette(),
        ThemeName::Dracula => dracula_palette(),
        ThemeName::HighContrast => high_contrast_palette(),
    }
}

/// The name of each theme as given on the command line.
pub open spec fn kebab_name(name: ThemeName) -> Seq<char> {
    match name {
        ThemeName::Default => "default"@,
        ThemeName::Light => "light"@,
        ThemeName::SolarizedDark => "solarized-dark"@,
        ThemeName::SolarizedLight => "solarized-light"@,
        ThemeName::Gruvbox => "gruvbox"@,
        ThemeName::Dracula => "dracula"@,
        ThemeName::HighContrast => "high-contrast"@,
    }
}

/// The theme a lowercase name selects: the kebab-case names, and the
/// multi-word ones also with underscores.
pub open spec fn named_theme(l: Seq<char>) -> Option<ThemeName> {
    if l == "default"@ {
        Some(ThemeName::Default)
    } else if l == "light"@ {
        Some(ThemeName::Light)
    } else if l == "solarized-dark"@ || l == "solarized_dark"@ {
        Some(ThemeName::SolarizedDark)
    } else if l == "solarized-light"@ || l == "solarized_light"@ {
        Some(ThemeName::SolarizedLight)
    } else if l == "gruvbox"@ {
        Some(ThemeName::Gruvbox)
    } else if l == "dracula"@ {
        Some(ThemeName::Dracula)
    } else if l == "high-contrast"@ || l == "high_contrast"@ {
        Some(ThemeName::HighContrast)
    } else {
        None
    }
}

/// The theme `parse` picks for `s`: case is ignored.
pub open spec fn parsed_theme(s: Seq<char>) -> Option<ThemeName> {
    named_theme(spec_to_lowercase(s))
}

fn is_name(l: &Vec<char>, name: &str) -> (r: bool)
    ensures
        r == (l@ == name@),
{
    let n = chars_of(name);
    chars_equal(l, &n)
}

impl ThemeName {
    pub fn theme(self) -> (t: Theme)
        ensures
            t == palette(self),
    {
        match self {
            ThemeName::Default => default(),
            ThemeName::Light => light(),
            ThemeName::SolarizedDark => solarized_dark(),
            ThemeName::SolarizedLight => solarized_light(),
            ThemeName::Gruvbox => gruvbox(),
            ThemeName::Dracula => dracula(),
            ThemeName::HighContrast => high_contrast(),
        }
    }

    /// Parses a theme name, ignoring case.
    pub fn parse(s: &str) -> (r: Option<Self>)
        ensures
            r == parsed_theme(s@),
            (forall|i: int| 0 <= i < s@.len() ==> is_ascii_char(#[trigger] s@[i])) ==> r
                == named_theme(ascii_lowercase(s@)),
    {
        let l = to_lowercase(s);
        ThemeName::from_lowercase(l.as_str())
    }

    /// The theme an already lowercased name selects.
    pub fn from_lowercase(l: &str) -> (r: Option<Self>)
        ensures
            r == named_theme(l@),
    {
        let v = chars_of(l);
        if is_name(&v, "default") {
            Some(ThemeName::Default)
        } else if is_name(&v, "light") {
            Some(ThemeName::Light)
        } else if is_name(&v, "solarized-dark") || is_name(&v, "solarized_dark") {
            Some(ThemeName::SolarizedDark)
        } else if is_name(&v, "solarized-light") || is_name(&v, "solarized_light") {
            Some(ThemeName::SolarizedLight)
        } else if is_name(&v, "gruvbox") {
            Some(ThemeName::Gruvbox)
        } else if is_name(&v, "dracula") {
            Some(ThemeName::Dracula)
        } else if is_name(&v, "high-contrast") || is_name(&v, "high_contrast") {
            Some(ThemeName::HighContrast)
        } else {
            None
        }
    }
}

fn default() -> (t: Theme)
    ensures
        t == default_palette(),
{
    Theme {
        bg: Color::Reset,
        fg: Color::Gray,
        muted: Color::DarkGray,
        accent: Color::Cyan,
        status_open: Color::Gray,
        status_in_progress: Color::Yellow,
        status_blocked: Color::Red,
        status_closed: Color::Green,
        status_deferred: Color::Blue,
        progress_filled: Color::Green,
        progress_empty: Color::DarkGray,
        selection_bg: Color::DarkGray,
        selection_fg: Color::White,
        error: Color::Red,
    }
}

fn light() -> (t: Theme)
    ensures
        t == light_palette(),
{
    Theme {
        bg: Color::White,
        fg: Color::Black,
        muted: Color::Gray,
        accent: Color::Blue,
        status_open: Color::DarkGray,
        status_in_progress: Color::Rgb(176, 112, 0),
        status_blocked: Color::Rgb(176, 0, 0),
        status_closed: Color::Rgb(0, 120, 0),
        status_deferred: Color::Blue,
        progress_filled: Color::Rgb(0, 120, 0),
        progress_empty: Color::Gray,
        selection_bg: Color::Rgb(220, 220, 255),
        selection_fg: Color::Black,
        error: Color::Red,
    }
}

fn solarized_dark() -> (t: Theme)
    ensures
        t == solarized_dark_palette(),
{
    Theme {
        bg: Color::Rgb(0, 43, 54),
        fg: Color::Rgb(131, 148, 150),
        muted: Color::Rgb(88, 110, 117),
        accent: Color::Rgb(38, 139, 210),
        status_open: Color::Rgb(147, 161, 161),
        status_in_progress: Color::Rgb(181, 137, 0),
        status_blocked: Color::Rgb(220, 50, 47),
        status_closed: Color::Rgb(133, 153, 0),
        status_deferred: Color::Rgb(38, 139, 210),
        progress_filled: Color::Rgb(133, 153, 0),
        progress_empty: Color::Rgb(88, 110, 117),
        selection_bg: Color::Rgb(7, 54, 66),
        selection_fg: Color::Rgb(253, 246, 227),
        error: Color::Rgb(220, 50, 47),
    }
}

fn solarized_light() -> (t: Theme)
    ensures
        t == solarized_light_palette(),
{
    Theme {
        bg: Color::Rgb(253, 246, 227),
        fg: Color::Rgb(101, 123, 131),
        muted: Color::Rgb(147, 161, 161),
        accent: Color::Rgb(38, 139, 210),
        status_open: Color::Rgb(88, 110, 117),
        status_in_progress: Color::Rgb(181, 137, 0),
        status_blocked: Color::Rgb(220, 50, 47),
        status_closed: Color::Rgb(133, 153, 0),
        status_deferred: Color::Rgb(38, 139, 210),
        progress_filled: Color::Rgb(133, 153, 0),
        progress_empty: Color::Rgb(238, 232, 213),
        selection_bg: Color::Rgb(238, 232, 213),
        selection_fg: Color::Rgb(0, 43, 54),
        error: Color::Rgb(220, 50, 47),
    }
}

fn gruvbox() -> (t: Theme)
    ensures
        t == gruvbox_palette(),
{
    Theme {
        bg: Color::Rgb(40, 40, 40),
        fg: Color::Rgb(235, 219, 178),
        muted: Color::Rgb(146, 131, 116),
        accent: Color::Rgb(131, 165, 152),
        status_open: Color::Rgb(189, 174, 147),
        status_in_progress: Color::Rgb(250, 189, 47),
        status_blocked: Color::Rgb(251, 73, 52),
        status_closed: Color::Rgb(184, 187, 38),
        status_deferred: Color::Rgb(131, 165, 152),
        progress_filled: Color::Rgb(184, 187, 38),
        progress_empty: Color::Rgb(60, 56, 54),
        selection_bg: Color::Rgb(60, 56, 54),
        selection_fg: Color::Rgb(251, 241, 199),
        error: Color::Rgb(251, 73, 52),
    }
}

fn dracula() -> (t: Theme)
    ensures
        t == dracula_palette(),
{
    Theme {
        bg: Color::Rgb(40, 42, 54),
        fg: Color::Rgb(248, 248, 242),
        muted: Color::Rgb(98, 114, 164),
        accent: Color::Rgb(139, 233, 253),
        status_open: Color::Rgb(189, 189, 190),
        status_in_progress: Color::Rgb(241, 250, 140),
        status_blocked: Color::Rgb(255, 85, 85),
        status_closed: Color::Rgb(80, 250, 123),
        status_deferred: Color::Rgb(189, 147, 249),
        progress_filled: Color::Rgb(80, 250, 123),
        progress_empty: Color::Rgb(68, 71, 90),
        selection_bg: Color::Rgb(68, 71, 90),
        selection_fg: Color::Rgb(248, 248, 242),
        error: Color::Rgb(255, 85, 85),
    }
}

fn high_contrast() -> (t: Theme)
    ensures
        t == high_contrast_palette(),
{
    Theme {
        bg: Color::Black,
        fg: Color::White,
        muted: Color::Gray,
        accent: Color::Rgb(0, 255, 255),
        status_open: Color::White,
        status_in_progress: Color::Rgb(255, 221, 0),
        status_blocked: Color::Rgb(255, 64, 64),
        status_closed: Color::Rgb(64, 255, 64),
        status_deferred: Color::Rgb(128, 192, 255),
        progress_filled: Color::Rgb(64, 255, 64),
        progress_empty: Color::Rgb(64, 64, 64),
        selection_bg: Color::Rgb(0, 128, 255),
        selection_fg: Color::White,
        error: Color::Rgb(255, 64, 64),
    }
}

/// The theme a mode falls back to: high contrast on a TV, the default
/// theme otherwise.
pub open spec fn mode_default(tv: bool) -> ThemeName {
    if tv {
        ThemeName::HighContrast
    } else {
        ThemeName::Default
    }
}

/// The theme to use: the command-line choice, else the environment's
/// choice when it names a theme, else the mode's default.
pub open spec fn resolved_theme_in_mode(
    cli: Option<ThemeName>,
    env: Option<Seq<char>>,
    tv: bool,
) -> Theme {
    match cli {
        Some(name) => palette(name),
        None => match env {
            Some(v) => match parsed_theme(v) {
                Some(name) => palette(name),
                None => palette(mode_default(tv)),
            },
            None => palette(mode_default(tv)),
        },
    }
}

/// The theme to use outside TV mode.
pub open spec fn resolved_theme(cli: Option<ThemeName>, env: Option<Seq<char>>) -> Theme {
    resolved_theme_in_mode(cli, env, false)
}

/// Picks the theme: `--theme` first, then `BD_WATCHER_THEME` when it names a
/// theme, then the mode's default (`high-contrast` for `--tv`).
pub fn resolve_in_mode(cli: Option<ThemeName>, env: Option<&str>, tv: bool) -> (t: Theme)
    ensures
        t == resolved_theme_in_mode(
            cli,
            match env {
                Some(v) => Some(v@),
                None => None,
            },
            tv,
        ),
{
    if let Some(name) = cli {
        return name.theme();
    }
    if let Some(v) = env {
        if let Some(name) = ThemeName::parse(v) {
            return name.theme();
        }
    }
    if tv {
        ThemeName::HighContrast.theme()
    } else {
        ThemeName::Default.theme()
    }
}

/// Picks the theme outside TV mode.
pub fn resolve(cli: Option<ThemeName>, env: Option<&str>) -> (t: Theme)
    ensures
        t == resolved_theme(
            cli,
            match env {
                Some(v) => Some(v@),
                None => None,
            },
        ),
{
    resolve_in_mode(cli, env, false)
}

/// Every theme's command-line name selects that theme.
pub proof fn lemma_kebab_name_selects(name: ThemeName)
    ensures
        named_theme(kebab_name(name)) == Some(name),
{
    reveal_strlit("default");
    reveal_strlit("light");
    reveal_strlit("solarized-dark");
    reveal_strlit("solarized_dark");
    reveal_strlit("solarized-light");
    reveal_strlit("solarized_light");
    reveal_strlit("gruvbox");
    reveal_strlit("dracula");
    reveal_strlit("high-contrast");
    reveal_strlit("high_contrast");
    match name {
        ThemeName::Default => {
        },
        ThemeName::Light => {
            assert("light"@.len() != "default"@.len());
        },
        ThemeName::SolarizedDark => {
            assert("solarized-dark"@.len() != "default"@.len());
            assert("solarized-dark"@.len() != "light"@.len());
        },
        ThemeName::SolarizedLight => {
            assert("solarized-light"@.len() != "default"@.len());
            assert("solarized-light"@.len() != "light"@.len());
            assert("solarized-light"@.len() != "solarized-dark"@.len());
            assert("solarized-light"@.len() != "solarized_dark"@.len());
        },
        ThemeName::Gruvbox => {
            assert("gruvbox"@[0] != "default"@[0]);
            assert("gruvbox"@.len() != "light"@.len());
            assert("gruvbox"@.len() != "solarized-dark"@.len());
            assert("gruvbox"@.len() != "solarized_dark"@.len());
            assert("gruvbox"@.len() != "solarized-light"@.len());
            assert("gruvbox"@.len() != "solarized_light"@.len());
        },
        ThemeName::Dracula => {
            assert("dracula"@[1] != "default"@[1]);
            assert("dracula"@.len() != "light"@.len());
            assert("dracula"@.len() != "solarized-dark"@.len());
            assert("dracula"@.len() != "solarized_dark"@.len());
            assert("dracula"@.len() != "solarized-light"@.len());
            assert("dracula"@.len() != "solarized_light"@.len());
            assert("dracula"@[0] != "gruvbox"@[0]);
        },
        ThemeName::HighContrast => {
            assert("high-contrast"@.len() != "default"@.len());
            assert("high-contrast"@.len() != "light"@.len());
            assert("high-contrast"@.len() != "solarized-dark"@.len());
            assert("high-contrast"@.len() != "solarized_dark"@.len());
            assert("high-contrast"@.len() != "solarized-light"@.len());
            assert("high-contrast"@.len() != "solarized_light"@.len());
            assert("high-contrast"@.len() != "gruvbox"@.len());
            assert("high-contrast"@.len() != "dracula"@.len());
        },
    }
}

} // verus!
