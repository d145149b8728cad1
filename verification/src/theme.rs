//! Color themes and the saved theme preference: plain data consumed by the
//! renderer, with a built-in catalog. The core clamps a loaded preference to
//! the catalog bounds and never validates it further.

use vstd::prelude::*;
use vstd::string::StringExecFns;

verus! {

/// One color as red, green and blue components.
#[derive(Debug, Clone, Copy, PartialEq, Eq, Structural)]
pub struct Rgb {
    pub r: u8,
    pub g: u8,
    pub b: u8,
}

impl Rgb {
    pub fn new(r: u8, g: u8, b: u8) -> (c: Self)
        ensures
            c == (Rgb { r, g, b }),
    {
        Rgb { r, g, b }
    }
}

/// A complete color scheme. `transparent` asks the renderer to keep the
/// terminal's own background.
#[derive(Debug)]
pub struct Theme {
    pub name: String,
    pub transparent: bool,
    pub bg: Rgb,
    pub fg: Rgb,
    pub accent: Rgb,
    pub accent_secondary: Rgb,
    pub border: Rgb,
    pub border_focused: Rgb,
    pub header_bg: Rgb,
    pub header_fg: Rgb,
    pub selected_bg: Rgb,
    pub selected_fg: Rgb,
    pub status_bar_bg: Rgb,
    pub status_bar_fg: Rgb,
    pub error: Rgb,
    pub success: Rgb,
    pub warning: Rgb,
    pub muted: Rgb,
    pub input_bg: Rgb,
    pub input_fg: Rgb,
    pub input_cursor: Rgb,
}

impl Clone for Theme {
    /// A clone is equal to the original.
    fn clone(&self) -> (r: Self)
        ensures
            r == *self,
    {
        Theme {
            name: self.name.clone(),
            transparent: self.transparent,
            bg: self.bg,
            fg: self.fg,
            accent: self.accent,
            accent_secondary: self.accent_secondary,
            border: self.border,
            border_focused: self.border_focused,
            header_bg: self.header_bg,
            header_fg: self.header_fg,
            selected_bg: self.selected_bg,
            selected_fg: self.selected_fg,
            status_bar_bg: self.status_bar_bg,
            status_bar_fg: self.status_bar_fg,
            error: self.error,
            success: self.success,
            warning: self.warning,
            muted: self.muted,
            input_bg: self.input_bg,
            input_fg: self.input_fg,
            input_cursor: self.input_cursor,
        }
    }
}

/// The saved choice of theme and transparency.
#[derive(Debug, Clone, Copy, PartialEq, Eq, Structural)]
pub struct ThemePreference {
    pub theme_index: usize,
    pub transparent: bool,
}

/// The preference used when none is saved: the first theme, opaque.
pub open spec fn default_preference() -> ThemePreference {
    ThemePreference { theme_index: 0, transparent: false }
}

impl Default for ThemePreference {
    fn default() -> (r: Self)
        ensures
            r == default_preference(),
    {
        ThemePreference { theme_index: 0, transparent: false }
    }
}

/// The built-in themes.
pub struct ThemeCatalog;

impl ThemeCatalog {
    /// Every built-in theme, in selector order; the first entry is the
    /// transparent one.
    pub fn all() -> (r: Vec<Theme>)
        ensures
            r@.len() == 7,
            r@[0].transparent == true,
    {
        let mut r: Vec<Theme> = Vec::new();
        r.push(Self::transparent());
        r.push(Self::tokyo_night());
        r.push(Self::catppuccin_mocha());
        r.push(Self::dracula());
        r.push(Self::nord());
        r.push(Self::gruvbox_dark());
        r.push(Self::cyberpunk());
        r
    }

    pub fn transparent() -> (r: Theme)
        ensures
            r.name@ == "Transparent"@,
            r.transparent == true,
    {
        Theme {
            name: String::from_str("Transparent"),
            transparent: true,
            bg: Rgb::new(0, 0, 0),
            fg: Rgb::new(220, 220, 220),
            accent: Rgb::new(114, 160, 250),
            accent_secondary: Rgb::new(180, 140, 250),
            border: Rgb::new(100, 100, 100),
            border_focused: Rgb::new(114, 160, 250),
            header_bg: Rgb::new(0, 0, 0),
            header_fg: Rgb::new(150, 220, 140),
            selected_bg: Rgb::new(60, 60, 80),
            selected_fg: Rgb::new(255, 200, 100),
            status_bar_bg: Rgb::new(0, 0, 0),
            status_bar_fg: Rgb::new(180, 180, 180),
            error: Rgb::new(255, 100, 100),
            success: Rgb::new(100, 230, 100),
            warning: Rgb::new(255, 200, 80),
            muted: Rgb::new(120, 120, 120),
            input_bg: Rgb::new(0, 0, 0),
            input_fg: Rgb::new(220, 220, 220),
            input_cursor: Rgb::new(114, 160, 250),
        }
    }

    pub fn tokyo_night() -> (r: Theme)
        ensures
            r.name@ == "Tokyo Night"@,
            r.transparent == false,
    {
        Theme {
            name: String::from_str("Tokyo Night"),
            transparent: false,
            bg: Rgb::new(26, 27, 38),
            fg: Rgb::new(169, 177, 214),
            accent: Rgb::new(122, 162, 247),
            accent_secondary: Rgb::new(187, 154, 247),
            border: Rgb::new(59, 66, 97),
            border_focused: Rgb::new(122, 162, 247),
            header_bg: Rgb::new(36, 40, 59),
            header_fg: Rgb::new(195, 232, 141),
            selected_bg: Rgb::new(55, 62, 98),
            selected_fg: Rgb::new(224, 175, 104),
            status_bar_bg: Rgb::new(36, 40, 59),
            status_bar_fg: Rgb::new(169, 177, 214),
            error: Rgb::new(247, 118, 142),
            success: Rgb::new(158, 206, 106),
            warning: Rgb::new(224, 175, 104),
            muted: Rgb::new(86, 95, 137),
            input_bg: Rgb::new(36, 40, 59),
            input_fg: Rgb::new(195, 202, 251),
            input_cursor: Rgb::new(122, 162, 247),
        }
    }

    pub fn catppuccin_mocha() -> (r: Theme)
        ensures
            r.name@ == "Catppuccin Mocha"@,
            r.transparent == false,
    {
        Theme {
            name: String::from_str("Catppuccin Mocha"),
            transparent: false,
            bg: Rgb::new(30, 30, 46),
            fg: Rgb::new(205, 214, 244),
            accent: Rgb::new(137, 180, 250),
            accent_secondary: Rgb::new(203, 166, 247),
            border: Rgb::new(69, 71, 90),
            border_focused: Rgb::new(137, 180, 250),
            header_bg: Rgb::new(49, 50, 68),
            header_fg: Rgb::new(166, 227, 161),
            selected_bg: Rgb::new(69, 71, 90),
            selected_fg: Rgb::new(249, 226, 175),
            status_bar_bg: Rgb::new(24, 24, 37),
            status_bar_fg: Rgb::new(186, 194, 222),
            error: Rgb::new(243, 139, 168),
            success: Rgb::new(166, 227, 161),
            warning: Rgb::new(249, 226, 175),
            muted: Rgb::new(108, 112, 134),
            input_bg: Rgb::new(49, 50, 68),
            input_fg: Rgb::new(205, 214, 244),
            input_cursor: Rgb::new(137, 180, 250),
        }
    }

    pub fn dracula() -> (r: Theme)
        ensures
            r.name@ == "Dracula"@,
            r.transparent == false,
    {
        Theme {
            name: String::from_str("Dracula"),
            transparent: false,
            bg: Rgb::new(40, 42, 54),
            fg: Rgb::new(248, 248, 242),
            accent: Rgb::new(139, 233, 253),
            accent_secondary: Rgb::new(189, 147, 249),
            border: Rgb::new(68, 71, 90),
            border_focused: Rgb::new(139, 233, 253),
            header_bg: Rgb::new(55, 58, 77),
            header_fg: Rgb::new(80, 250, 123),
            selected_bg: Rgb::new(68, 71, 90),
            selected_fg: Rgb::new(255, 184, 108),
            status_bar_bg: Rgb::new(33, 34, 44),
            status_bar_fg: Rgb::new(248, 248, 242),
            error: Rgb::new(255, 85, 85),
            success: Rgb::new(80, 250, 123),
            warning: Rgb::new(241, 250, 140),
            muted: Rgb::new(98, 114, 164),
            input_bg: Rgb::new(55, 58, 77),
            input_fg: Rgb::new(248, 248, 242),
            input_cursor: Rgb::new(255, 121, 198),
        }
    }

    pub fn nord() -> (r: Theme)
        ensures
            r.name@ == "Nord"@,
            r.transparent == false,
    {
        Theme {
            name: String::from_str("Nord"),
            transparent: false,
            bg: Rgb::new(46, 52, 64),
            fg: Rgb::new(216, 222, 233),
            accent: Rgb::new(136, 192, 208),
            accent_secondary: Rgb::new(180, 142, 173),
            border: Rgb::new(67, 76, 94),
            border_focused: Rgb::new(136, 192, 208),
            header_bg: Rgb::new(59, 66, 82),
            header_fg: Rgb::new(163, 190, 140),
            selected_bg: Rgb::new(76, 86, 106),
            selected_fg: Rgb::new(235, 203, 139),
            status_bar_bg: Rgb::new(59, 66, 82),
            status_bar_fg: Rgb::new(216, 222, 233),
            error: Rgb::new(191, 97, 106),
            success: Rgb::new(163, 190, 140),
            warning: Rgb::new(235, 203, 139),
            muted: Rgb::new(107, 112, 137),
            input_bg: Rgb::new(59, 66, 82),
            input_fg: Rgb::new(229, 233, 240),
            input_cursor: Rgb::new(136, 192, 208),
        }
    }

    pub fn gruvbox_dark() -> (r: Theme)
        ensures
            r.name@ == "Gruvbox Dark"@,
            r.transparent == false,
    {
        Theme {
            name: String::from_str("Gruvbox Dark"),
            transparent: false,
            bg: Rgb::new(40, 40, 40),
            fg: Rgb::new(235, 219, 178),
            accent: Rgb::new(131, 165, 152),
            accent_secondary: Rgb::new(211, 134, 155),
            border: Rgb::new(80, 73, 69),
            border_focused: Rgb::new(131, 165, 152),
            header_bg: Rgb::new(60, 56, 54),
            header_fg: Rgb::new(184, 187, 38),
            selected_bg: Rgb::new(80, 73, 69),
            selected_fg: Rgb::new(250, 189, 47),
            status_bar_bg: Rgb::new(50, 48, 47),
            status_bar_fg: Rgb::new(235, 219, 178),
            error: Rgb::new(251, 73, 52),
            success: Rgb::new(184, 187, 38),
            warning: Rgb::new(250, 189, 47),
            muted: Rgb::new(146, 131, 116),
            input_bg: Rgb::new(60, 56, 54),
            input_fg: Rgb::new(235, 219, 178),
            input_cursor: Rgb::new(254, 128, 25),
        }
    }

    pub fn cyberpunk() -> (r: Theme)
        ensures
            r.name@ == "Cyberpunk"@,
            r.transparent == false,
    {
        Theme {
            name: String::from_str("Cyberpunk"),
            transparent: false,
            bg: Rgb::new(13, 2, 33),
            fg: Rgb::new(220, 220, 255),
            accent: Rgb::new(0, 255, 255),
            accent_secondary: Rgb::new(255, 0, 255),
            border: Rgb::new(45, 20, 80),
            border_focused: Rgb::new(0, 255, 255),
            header_bg: Rgb::new(30, 10, 60),
            header_fg: Rgb::new(0, 255, 128),
            selected_bg: Rgb::new(50, 0, 100),
            selected_fg: Rgb::new(255, 255, 0),
            status_bar_bg: Rgb::new(20, 5, 50),
            status_bar_fg: Rgb::new(0, 255, 255),
            error: Rgb::new(255, 50, 80),
            success: Rgb::new(0, 255, 128),
            warning: Rgb::new(255, 200, 0),
            muted: Rgb::new(100, 80, 140),
            input_bg: Rgb::new(30, 10, 60),
            input_fg: Rgb::new(220, 220, 255),
            input_cursor: Rgb::new(255, 0, 255),
        }
    }
}

} // verus!
