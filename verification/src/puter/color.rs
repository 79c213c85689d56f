//! The terminal's colors in the palette's, and how a cell looks.
use vstd::prelude::*;

use crate::graphics::{lemma_nearest_unique, Index, Palette, Rgb};
use crate::palette_color::{
    BLACK, BLUE, BROWN, CREAM, CRIMSON, CYAN, GREEN, GUNMETAL, LAVENDER, LIME, ORANGE, PEACH, PINE,
    PLUM, PURPLE, ROSE,
};

verus! {

/// A hue of the terminal; the foreground counts as one.
#[derive(Clone, Copy, Debug, PartialEq, Eq, Structural)]
pub enum Hue {
    Black,
    Red,
    Green,
    Yellow,
    Blue,
    Magenta,
    Cyan,
    White,
    Foreground,
}

#[derive(Clone, Copy, Debug, PartialEq, Eq, Structural)]
pub enum Shade {
    Normal,
    Bright,
    Dim,
}

/// A color that the terminal names.
#[derive(Clone, Copy, Debug, PartialEq, Eq, Structural)]
pub enum NamedColor {
    Shaded(Hue, Shade),
    Background,
    Cursor,
}

/// A color that a program can ask for.
#[derive(Clone, Copy, Debug, PartialEq, Eq, Structural)]
pub enum TermColor {
    Named(NamedColor),
    Indexed(u8),
    Spec(Rgb),
}

/// A shade less.
pub open spec fn dimmer(shade: Shade) -> Shade {
    match shade {
        Shade::Bright => Shade::Normal,
        _ => Shade::Dim,
    }
}

/// A shade more.
pub open spec fn brighter(shade: Shade) -> Shade {
    match shade {
        Shade::Dim => Shade::Normal,
        _ => Shade::Bright,
    }
}

/// A dim color: a named one a shade less, a bright one of the sixteen as the
/// normal one, a mixed one at half its strength.
pub open spec fn dimmed(color: TermColor) -> TermColor {
    match color {
        TermColor::Named(NamedColor::Shaded(hue, shade)) => TermColor::Named(
            NamedColor::Shaded(hue, dimmer(shade)),
        ),
        TermColor::Named(named) => color,
        TermColor::Indexed(index) => if 8 <= index <= 15 {
            TermColor::Indexed((index - 8) as u8)
        } else {
            color
        },
        TermColor::Spec(rgb) => TermColor::Spec(Rgb { r: rgb.r / 2, g: rgb.g / 2, b: rgb.b / 2 }),
    }
}

pub fn dim_color(color: TermColor) -> (r: TermColor)
    ensures
        r == dimmed(color),
{
    match color {
        TermColor::Named(named) => match named {
            NamedColor::Shaded(hue, shade) => {
                let less = match shade {
                    Shade::Bright => Shade::Normal,
                    _ => Shade::Dim,
                };
                TermColor::Named(NamedColor::Shaded(hue, less))
            },
            _ => color,
        },
        TermColor::Indexed(index) => if index >= 8 && index <= 15 {
            TermColor::Indexed(index - 8)
        } else {
            color
        },
        TermColor::Spec(rgb) => TermColor::Spec(Rgb { r: rgb.r / 2, g: rgb.g / 2, b: rgb.b / 2 }),
    }
}

/// Dimming a bright color twice is as far as dimming goes.
pub proof fn lemma_dimming_ends(hue: Hue, shade: Shade)
    ensures
        dimmed(dimmed(dimmed(TermColor::Named(NamedColor::Shaded(hue, shade))))) == dimmed(
            dimmed(TermColor::Named(NamedColor::Shaded(hue, shade))),
        ),
{
}

pub open spec fn hue_index(hue: Hue) -> int {
    match hue {
        Hue::Black => 0,
        Hue::Red => 1,
        Hue::Green => 2,
        Hue::Yellow => 3,
        Hue::Blue => 4,
        Hue::Magenta => 5,
        Hue::Cyan => 6,
        Hue::White => 7,
        Hue::Foreground => 8,
    }
}

fn index_of_hue(hue: Hue) -> (r: u8)
    ensures
        r == hue_index(hue),
{
    match hue {
        Hue::Black => 0,
        Hue::Red => 1,
        Hue::Green => 2,
        Hue::Yellow => 3,
        Hue::Blue => 4,
        Hue::Magenta => 5,
        Hue::Cyan => 6,
        Hue::White => 7,
        Hue::Foreground => 8,
    }
}

/// The sixteen terminal colors.
pub open spec fn ansi(index: int) -> Index {
    if index == 0 {
        BLACK
    } else if index == 1 {
        CRIMSON
    } else if index == 2 {
        GREEN
    } else if index == 3 {
        ORANGE
    } else if index == 4 {
        BLUE
    } else if index == 5 {
        PURPLE
    } else if index == 6 || index == 12 || index == 14 {
        CYAN
    } else if index == 7 || index == 15 {
        CREAM
    } else if index == 8 {
        GUNMETAL
    } else if index == 9 {
        ROSE
    } else if index == 10 {
        LIME
    } else if index == 11 {
        PEACH
    } else {
        LAVENDER
    }
}

fn ansi_color(index: u8) -> (r: Index)
    ensures
        r == ansi(index as int),
{
    match index {
        0 => BLACK,
        1 => CRIMSON,
        2 => GREEN,
        3 => ORANGE,
        4 => BLUE,
        5 => PURPLE,
        6 | 12 | 14 => CYAN,
        7 | 15 => CREAM,
        8 => GUNMETAL,
        9 => ROSE,
        10 => LIME,
        11 => PEACH,
        _ => LAVENDER,
    }
}

/// The dim and glowing colors, for each of the eight hues.
pub open spec fn ansi_dim(index: int) -> Index {
    if index % 8 == 0 || index % 8 == 5 {
        PLUM
    } else if index % 8 == 1 || index % 8 == 3 {
        BROWN
    } else if index % 8 == 2 || index % 8 == 4 {
        PINE
    } else if index % 8 == 6 {
        BLUE
    } else {
        LAVENDER
    }
}

fn ansi_dim_color(index: u8) -> (r: Index)
    ensures
        r == ansi_dim(index as int),
{
    match index % 8 {
        0 | 5 => PLUM,
        1 | 3 => BROWN,
        2 | 4 => PINE,
        6 => BLUE,
        _ => LAVENDER,
    }
}

/// A named color in the palette.
pub open spec fn named(color: NamedColor) -> Index {
    match color {
        NamedColor::Shaded(hue, shade) => if hue is Foreground {
            CREAM
        } else {
            match shade {
                Shade::Normal => ansi(hue_index(hue)),
                Shade::Bright => ansi(hue_index(hue) + 8),
                Shade::Dim => ansi_dim(hue_index(hue)),
            }
        },
        NamedColor::Background => BLACK,
        NamedColor::Cursor => LAVENDER,
    }
}

pub fn named_terminal_palette_index(color: NamedColor) -> (r: Index)
    ensures
        r == named(color),
{
    match color {
        NamedColor::Shaded(hue, shade) => {
            let index: u8 = index_of_hue(hue);
            if index == 8 {
                CREAM
            } else {
                match shade {
                    Shade::Normal => ansi_color(index),
                    Shade::Bright => ansi_color(index + 8),
                    Shade::Dim => ansi_dim_color(index),
                }
            }
        },
        NamedColor::Background => BLACK,
        NamedColor::Cursor => LAVENDER,
    }
}

/// How a named color glows.
pub open spec fn named_glow(color: NamedColor) -> Index {
    match color {
        NamedColor::Shaded(hue, shade) => if hue is Foreground {
            LAVENDER
        } else {
            ansi_dim(hue_index(hue))
        },
        NamedColor::Background => PLUM,
        NamedColor::Cursor => LAVENDER,
    }
}

pub fn named_terminal_glow_palette_index(color: NamedColor) -> (r: Index)
    ensures
        r == named_glow(color),
{
    match color {
        NamedColor::Shaded(hue, _) => {
            let index: u8 = index_of_hue(hue);
            if index == 8 {
                LAVENDER
            } else {
                ansi_dim_color(index)
            }
        },
        NamedColor::Background => PLUM,
        NamedColor::Cursor => LAVENDER,
    }
}

/// The color of the palette that is nearest to another.
pub open spec fn nearest_of(palette: &Palette, color: Rgb) -> Index {
    choose|r: Index| palette.nearest_is(color, r)
}

fn nearest(palette: &Palette, color: Rgb) -> (r: Index)
    ensures
        r == nearest_of(palette, color),
        palette.nearest_is(color, r),
{
    let r: Index = palette.nearest_index(color);
    proof {
        lemma_nearest_unique(palette, color, r, nearest_of(palette, color));
    }
    r
}

/// A step of the color cube: none, or from 95 on in steps of 40.
pub open spec fn cube_value(value: int) -> int {
    if value == 0 {
        0
    } else {
        55 + value * 40
    }
}

fn color_cube_value(value: u8) -> (r: u8)
    requires
        value <= 5,
    ensures
        r == cube_value(value as int),
{
    if value == 0 {
        0
    } else {
        55 + value * 40
    }
}

/// The colors that the sixteen of the palette were drawn with.
pub open spec fn source_rgb(index: int) -> (int, int, int) {
    if index == 0 {
        (140, 143, 174)
    } else if index == 1 {
        (88, 69, 99)
    } else if index == 2 {
        (62, 33, 55)
    } else if index == 3 {
        (154, 99, 72)
    } else if index == 4 {
        (215, 155, 125)
    } else if index == 5 {
        (245, 237, 186)
    } else if index == 6 {
        (192, 199, 65)
    } else if index == 7 {
        (100, 125, 52)
    } else if index == 8 {
        (228, 148, 58)
    } else if index == 9 {
        (157, 48, 59)
    } else if index == 10 {
        (210, 100, 113)
    } else if index == 11 {
        (112, 55, 127)
    } else if index == 12 {
        (126, 196, 193)
    } else if index == 13 {
        (52, 133, 157)
    } else if index == 14 {
        (23, 67, 75)
    } else {
        (31, 14, 28)
    }
}

/// The color that an index above the sixteen stands for: a cube of six steps
/// for each part, and then 24 grays.
pub open spec fn indexed_rgb(index: int) -> (int, int, int) {
    if index < 16 {
        source_rgb(ansi(index) as int)
    } else if index < 232 {
        let place = index - 16;
        (cube_value(place / 36), cube_value((place / 6) % 6), cube_value(place % 6))
    } else {
        let gray = 8 + (index - 232) * 10;
        (gray, gray, gray)
    }
}

fn terminal_palette_rgb(index: Index) -> (r: (u8, u8, u8))
    requires
        index < 16,
    ensures
        (r.0 as int, r.1 as int, r.2 as int) == source_rgb(index as int),
{
    match index {
        0 => (140, 143, 174),
        1 => (88, 69, 99),
        2 => (62, 33, 55),
        3 => (154, 99, 72),
        4 => (215, 155, 125),
        5 => (245, 237, 186),
        6 => (192, 199, 65),
        7 => (100, 125, 52),
        8 => (228, 148, 58),
        9 => (157, 48, 59),
        10 => (210, 100, 113),
        11 => (112, 55, 127),
        12 => (126, 196, 193),
        13 => (52, 133, 157),
        14 => (23, 67, 75),
        _ => (31, 14, 28),
    }
}

pub fn indexed_terminal_rgb(index: u8) -> (r: Rgb)
    ensures
        (r.r as int, r.g as int, r.b as int) == indexed_rgb(index as int),
{
    if index < 16 {
        let (r, g, b) = terminal_palette_rgb(ansi_color(index));
        return Rgb { r, g, b };
    }
    if index < 232 {
        let place: u8 = index - 16;
        return Rgb {
            r: color_cube_value(place / 36),
            g: color_cube_value((place / 6) % 6),
            b: color_cube_value(place % 6),
        };
    }
    let gray: u8 = 8 + (index - 232) * 10;
    Rgb { r: gray, g: gray, b: gray }
}

pub open spec fn as_rgb(parts: (int, int, int)) -> Rgb {
    Rgb { r: parts.0 as u8, g: parts.1 as u8, b: parts.2 as u8 }
}

/// An indexed color in the palette.
pub open spec fn indexed(index: u8, palette: &Palette) -> Index {
    if index < 16 {
        ansi(index as int)
    } else {
        nearest_of(palette, as_rgb(indexed_rgb(index as int)))
    }
}

pub fn indexed_terminal_color(index: u8, palette: &Palette) -> (r: Index)
    ensures
        r == indexed(index, palette),
{
    if index < 16 {
        ansi_color(index)
    } else {
        let rgb = indexed_terminal_rgb(index);
        assert(rgb == as_rgb(indexed_rgb(index as int)));
        nearest(palette, rgb)
    }
}

pub open spec fn indexed_glow(index: u8, palette: &Palette) -> Index {
    if index < 16 {
        ansi_dim(index as int)
    } else {
        nearest_of(palette, as_rgb(indexed_rgb(index as int)))
    }
}

pub fn indexed_terminal_glow_color(index: u8, palette: &Palette) -> (r: Index)
    ensures
        r == indexed_glow(index, palette),
{
    if index < 16 {
        ansi_dim_color(index)
    } else {
        let rgb = indexed_terminal_rgb(index);
        assert(rgb == as_rgb(indexed_rgb(index as int)));
        nearest(palette, rgb)
    }
}

#[derive(Clone, Copy, Debug, PartialEq, Eq, Structural)]
pub enum TextMode {
    Green,
    Orange,
}

/// What the buttons of the front panel set.
#[derive(Clone, Copy, Debug, PartialEq, Eq, Structural)]
pub enum SettingAction {
    Brightness,
    Color,
    Contrast,
}

#[derive(Clone, Copy, Debug, PartialEq, Eq, Structural)]
pub struct DisplaySettings {
    pub high_brightness: bool,
    pub text_mode: TextMode,
    pub high_contrast: bool,
}

/// A light of the front panel.
#[derive(Clone, Copy, Debug, PartialEq, Eq, Structural)]
pub enum LightState {
    Off,
    Red,
    Green,
}

impl DisplaySettings {
    pub fn new() -> (r: Self)
        ensures
            r == (DisplaySettings {
                high_brightness: true,
                text_mode: TextMode::Orange,
                high_contrast: false,
            }),
    {
        DisplaySettings {
            high_brightness: true,
            text_mode: TextMode::Orange,
            high_contrast: false,
        }
    }

    /// The settings after a button.
    pub open spec fn toggled(self, action: SettingAction) -> DisplaySettings {
        match action {
            SettingAction::Brightness => DisplaySettings {
                high_brightness: !self.high_brightness,
                ..self
            },
            SettingAction::Color => DisplaySettings {
                text_mode: match self.text_mode {
                    TextMode::Green => TextMode::Orange,
                    TextMode::Orange => TextMode::Green,
                },
                ..self
            },
            SettingAction::Contrast => DisplaySettings {
                high_contrast: !self.high_contrast,
                ..self
            },
        }
    }

    pub fn toggle(&mut self, action: SettingAction)
        ensures
            *final(self) == old(self).toggled(action),
    {
        match action {
            SettingAction::Brightness => {
                self.high_brightness = !self.high_brightness;
            },
            SettingAction::Color => {
                self.text_mode = match self.text_mode {
                    TextMode::Green => TextMode::Orange,
                    TextMode::Orange => TextMode::Green,
                };
            },
            SettingAction::Contrast => {
                self.high_contrast = !self.high_contrast;
            },
        }
    }

    /// The picture of the case for the settings: in green, in orange, or with
    /// high contrast.
    pub fn case_image(&self) -> (r: usize)
        ensures
            r == (if self.high_contrast {
                2int
            } else if self.text_mode is Green {
                0
            } else {
                1
            }),
    {
        if self.high_contrast {
            return 2;
        }
        match self.text_mode {
            TextMode::Green => 0,
            TextMode::Orange => 1,
        }
    }

    /// The color of plain text.
    pub open spec fn text_shade(self, palette: &Palette) -> Index {
        if self.high_brightness {
            nearest_of(palette, Rgb { r: 255, g: 255, b: 255 })
        } else {
            match self.text_mode {
                TextMode::Green => LIME,
                TextMode::Orange => ORANGE,
            }
        }
    }

    pub fn text_color(&self, palette: &Palette) -> (r: Index)
        ensures
            r == self.text_shade(palette),
    {
        if self.high_brightness {
            return nearest(palette, Rgb { r: 255, g: 255, b: 255 });
        }
        match self.text_mode {
            TextMode::Green => LIME,
            TextMode::Orange => ORANGE,
        }
    }

    pub open spec fn glow_shade(self) -> Index {
        match self.text_mode {
            TextMode::Green => GREEN,
            TextMode::Orange => BROWN,
        }
    }

    pub fn glow_color(&self) -> (r: Index)
        ensures
            r == self.glow_shade(),
    {
        match self.text_mode {
            TextMode::Green => GREEN,
            TextMode::Orange => BROWN,
        }
    }

    /// How a light shows its setting.
    pub open spec fn light(self, setting: SettingAction) -> LightState {
        match setting {
            SettingAction::Brightness => if self.high_brightness {
                LightState::Green
            } else {
                LightState::Off
            },
            SettingAction::Color => match self.text_mode {
                TextMode::Green => LightState::Green,
                TextMode::Orange => LightState::Red,
            },
            SettingAction::Contrast => if self.high_contrast {
                LightState::Red
            } else {
                LightState::Off
            },
        }
    }

    pub fn light_state(&self, setting: SettingAction) -> (r: LightState)
        ensures
            r == self.light(setting),
    {
        match setting {
            SettingAction::Brightness => if self.high_brightness {
                LightState::Green
            } else {
                LightState::Off
            },
            SettingAction::Color => match self.text_mode {
                TextMode::Green => LightState::Green,
                TextMode::Orange => LightState::Red,
            },
            SettingAction::Contrast => if self.high_contrast {
                LightState::Red
            } else {
                LightState::Off
            },
        }
    }

    /// A terminal color in the palette.
    pub open spec fn color_of(self, color: TermColor, palette: &Palette) -> Index {
        match color {
            TermColor::Named(NamedColor::Shaded(Hue::Foreground, shade)) => if shade is Dim {
                self.glow_shade()
            } else {
                self.text_shade(palette)
            },
            TermColor::Named(name) => named(name),
            TermColor::Indexed(index) => indexed(index, palette),
            TermColor::Spec(rgb) => nearest_of(palette, rgb),
        }
    }

    pub fn terminal_color(&self, color: TermColor, palette: &Palette) -> (r: Index)
        ensures
            r == self.color_of(color, palette),
    {
        match color {
            TermColor::Named(name) => match name {
                NamedColor::Shaded(Hue::Foreground, shade) => match shade {
                    Shade::Dim => self.glow_color(),
                    _ => self.text_color(palette),
                },
                _ => named_terminal_palette_index(name),
            },
            TermColor::Indexed(index) => indexed_terminal_color(index, palette),
            TermColor::Spec(rgb) => nearest(palette, rgb),
        }
    }

    /// How a terminal color glows.
    pub open spec fn glow_of(self, color: TermColor, palette: &Palette) -> Index {
        match color {
            TermColor::Named(NamedColor::Shaded(Hue::Foreground, shade)) => if shade is Dim {
                LAVENDER
            } else {
                self.glow_shade()
            },
            TermColor::Named(NamedColor::Background) => self.glow_shade(),
            TermColor::Named(name) => named_glow(name),
            TermColor::Indexed(index) => indexed_glow(index, palette),
            TermColor::Spec(rgb) => nearest_of(palette, rgb),
        }
    }

    pub fn terminal_glow_color(&self, color: TermColor, palette: &Palette) -> (r: Index)
        ensures
            r == self.glow_of(color, palette),
    {
        match color {
            TermColor::Named(name) => match name {
                NamedColor::Shaded(Hue::Foreground, shade) => match shade {
                    Shade::Dim => LAVENDER,
                    _ => self.glow_color(),
                },
                NamedColor::Background => self.glow_color(),
                _ => named_terminal_glow_palette_index(name),
            },
            TermColor::Indexed(index) => indexed_terminal_glow_color(index, palette),
            TermColor::Spec(rgb) => nearest(palette, rgb),
        }
    }

    /// How a color shows on the bright screen: normal colors as bright ones,
    /// bright ones as white with a glow.
    pub open spec fn bright_style(self, color: TermColor, palette: &Palette) -> (
        Index,
        Option<Index>,
    ) {
        match color {
            TermColor::Named(NamedColor::Shaded(hue, shade)) => if hue is Foreground {
                if shade is Dim {
                    (self.color_of(color, palette), None)
                } else {
                    (self.text_shade(palette), Some(self.glow_shade()))
                }
            } else {
                match shade {
                    Shade::Normal => (named(NamedColor::Shaded(hue, brighter(shade))), None),
                    Shade::Bright => (CREAM, Some(named_glow(NamedColor::Shaded(hue, shade)))),
                    Shade::Dim => (self.color_of(color, palette), None),
                }
            },
            TermColor::Indexed(index) => if index <= 7 {
                (ansi(index + 8), None)
            } else if index <= 15 {
                (CREAM, Some(ansi_dim(index as int)))
            } else {
                (self.color_of(color, palette), None)
            },
            _ => (self.color_of(color, palette), None),
        }
    }

    pub fn high_brightness_terminal_style(&self, color: TermColor, palette: &Palette) -> (r: (
        Index,
        Option<Index>,
    ))
        ensures
            r == self.bright_style(color, palette),
    {
        match color {
            TermColor::Named(name) => match name {
                NamedColor::Shaded(Hue::Foreground, shade) => match shade {
                    Shade::Dim => (self.terminal_color(color, palette), None),
                    _ => (self.text_color(palette), Some(self.glow_color())),
                },
                NamedColor::Shaded(hue, shade) => match shade {
                    Shade::Normal => (
                        named_terminal_palette_index(NamedColor::Shaded(hue, Shade::Bright)),
                        None,
                    ),
                    Shade::Bright => (CREAM, Some(named_terminal_glow_palette_index(name))),
                    Shade::Dim => (self.terminal_color(color, palette), None),
                },
                _ => (self.terminal_color(color, palette), None),
            },
            TermColor::Indexed(index) => if index <= 7 {
                (ansi_color(index + 8), None)
            } else if index <= 15 {
                (CREAM, Some(ansi_dim_color(index)))
            } else {
                (self.terminal_color(color, palette), None)
            },
            TermColor::Spec(_) => (self.terminal_color(color, palette), None),
        }
    }
}

/// What a cell of the terminal holds.
#[derive(Clone, Copy, Debug, PartialEq, Eq, Structural)]
pub struct Cell {
    pub c: char,
    pub fg: TermColor,
    pub bg: TermColor,
    pub bold: bool,
    pub dim: bool,
    pub inverse: bool,
    pub underline: bool,
    pub double_underline: bool,
    pub strikeout: bool,
    /// Hidden, or the second half of a wide character.
    pub skipped: bool,
}

/// How a cell looks: its letter, what is behind it, and its glow.
#[derive(Clone, Copy, Debug, PartialEq, Eq, Structural)]
pub struct CellStyle {
    pub fg: Index,
    pub bg: Option<Index>,
    pub glow: Option<Index>,
}

pub open spec fn is_background(color: TermColor) -> bool {
    color == TermColor::Named(NamedColor::Background)
}

/// A cell's colors before it is turned around or selected: of the letter, as
/// the terminal has it; in the palette; and behind it. A dim cell is dim in
/// both, and the plain background is nothing.
pub open spec fn resting(cell: Cell, settings: DisplaySettings, palette: &Palette) -> (
    TermColor,
    Index,
    Option<Index>,
) {
    let fg = if cell.dim {
        dimmed(cell.fg)
    } else {
        cell.fg
    };
    let bg = if cell.dim {
        dimmed(cell.bg)
    } else {
        cell.bg
    };
    (
        fg,
        settings.color_of(fg, palette),
        if is_background(cell.bg) {
            None
        } else {
            Some(settings.color_of(bg, palette))
        },
    )
}

/// The same with letter and background swapped in an inverse cell.
pub open spec fn turned(cell: Cell, settings: DisplaySettings, palette: &Palette) -> (
    TermColor,
    Index,
    Option<Index>,
) {
    let (color, fg, bg) = resting(cell, settings, palette);
    if cell.inverse {
        (
            if is_background(cell.bg) {
                TermColor::Named(NamedColor::Shaded(Hue::Foreground, Shade::Normal))
            } else {
                cell.bg
            },
            match bg {
                Some(bg) => bg,
                None => BLACK,
            },
            Some(fg),
        )
    } else {
        (color, fg, bg)
    }
}

/// How a cell looks; a selected one in the selection's colors, and any other
/// in bright ones on the bright screen.
pub open spec fn style_of(
    cell: Cell,
    selected: bool,
    settings: DisplaySettings,
    palette: &Palette,
) -> CellStyle {
    let (color, fg, bg) = turned(cell, settings, palette);
    if selected {
        CellStyle { fg: CREAM, bg: Some(GUNMETAL), glow: Some(GUNMETAL) }
    } else if settings.high_brightness {
        let (bright, glow) = settings.bright_style(color, palette);
        CellStyle { fg: bright, bg, glow }
    } else {
        CellStyle { fg, bg, glow: Some(settings.glow_of(color, palette)) }
    }
}

fn plain_background(color: TermColor) -> (r: bool)
    ensures
        r == is_background(color),
{
    match color {
        TermColor::Named(NamedColor::Background) => true,
        _ => false,
    }
}

pub fn cell_style(
    cell: Cell,
    selected: bool,
    settings: DisplaySettings,
    palette: &Palette,
) -> (r: CellStyle)
    ensures
        r == style_of(cell, selected, settings, palette),
{
    if selected {
        return CellStyle { fg: CREAM, bg: Some(GUNMETAL), glow: Some(GUNMETAL) };
    }
    let mut color = if cell.dim {
        dim_color(cell.fg)
    } else {
        cell.fg
    };
    let behind = if cell.dim {
        dim_color(cell.bg)
    } else {
        cell.bg
    };
    let mut fg: Index = settings.terminal_color(color, palette);
    let mut bg: Option<Index> = if plain_background(cell.bg) {
        None
    } else {
        Some(settings.terminal_color(behind, palette))
    };
    if cell.inverse {
        let letter: Index = fg;
        color = if plain_background(cell.bg) {
            TermColor::Named(NamedColor::Shaded(Hue::Foreground, Shade::Normal))
        } else {
            cell.bg
        };
        fg = match bg {
            Some(index) => index,
            None => BLACK,
        };
        bg = Some(letter);
    }
    if settings.high_brightness {
        let (bright, glow) = settings.high_brightness_terminal_style(color, palette);
        CellStyle { fg: bright, bg, glow }
    } else {
        CellStyle { fg, bg, glow: Some(settings.terminal_glow_color(color, palette)) }
    }
}

/// A color is dimmed by one shade, down to the dim one; of the sixteen numbered
/// colors the bright ones become their plain ones; one by its parts has each of
/// them halved. Other colors stay.
pub proof fn lemma_dimming_is(hue: Hue, index: u8, rgb: Rgb)
    ensures
        dimmed(TermColor::Named(NamedColor::Shaded(hue, Shade::Bright))) == TermColor::Named(
            NamedColor::Shaded(hue, Shade::Normal),
        ),
        dimmed(TermColor::Named(NamedColor::Shaded(hue, Shade::Normal))) == TermColor::Named(
            NamedColor::Shaded(hue, Shade::Dim),
        ),
        dimmed(TermColor::Named(NamedColor::Shaded(hue, Shade::Dim))) == TermColor::Named(
            NamedColor::Shaded(hue, Shade::Dim),
        ),
        dimmed(TermColor::Named(NamedColor::Background)) == TermColor::Named(NamedColor::Background),
        dimmed(TermColor::Named(NamedColor::Cursor)) == TermColor::Named(NamedColor::Cursor),
        8 <= index < 16 ==> dimmed(TermColor::Indexed(index)) == TermColor::Indexed(
            (index - 8) as u8,
        ),
        index < 8 || index >= 16 ==> dimmed(TermColor::Indexed(index)) == TermColor::Indexed(index),
        dimmed(TermColor::Spec(rgb)) matches TermColor::Spec(half) && 2 * half.r <= rgb.r <= 2
            * half.r + 1 && 2 * half.g <= rgb.g <= 2 * half.g + 1 && 2 * half.b <= rgb.b <= 2
            * half.b + 1,
        brighter(Shade::Dim) == Shade::Normal,
        brighter(Shade::Normal) == Shade::Bright,
        brighter(Shade::Bright) == Shade::Bright,
{
}

/// The sixteen numbered colors and their dim forms, by their places in the palette.
pub proof fn lemma_ansi_colors(i: int)
    ensures
        ansi(0) == 15 && ansi(1) == 9 && ansi(2) == 7 && ansi(3) == 8,
        ansi(4) == 13 && ansi(5) == 11 && ansi(6) == 12 && ansi(7) == 5,
        ansi(8) == 1 && ansi(9) == 10 && ansi(10) == 6 && ansi(11) == 4,
        ansi(12) == 12 && ansi(13) == 0 && ansi(14) == 12 && ansi(15) == 5,
        ansi_dim(0) == 2 && ansi_dim(1) == 3 && ansi_dim(2) == 14 && ansi_dim(3) == 3,
        ansi_dim(4) == 14 && ansi_dim(5) == 2 && ansi_dim(6) == 13 && ansi_dim(7) == 0,
        ansi_dim(i + 8) == ansi_dim(i),
{
}

/// A named color is the numbered one of its hue, eight higher where it is bright and
/// dim where it is dim. Plain text is cream and its ground black.
pub proof fn lemma_named_colors(shade: Shade)
    ensures
        named(NamedColor::Shaded(Hue::Black, Shade::Normal)) == ansi(0),
        named(NamedColor::Shaded(Hue::Red, Shade::Normal)) == ansi(1),
        named(NamedColor::Shaded(Hue::Green, Shade::Normal)) == ansi(2),
        named(NamedColor::Shaded(Hue::Yellow, Shade::Normal)) == ansi(3),
        named(NamedColor::Shaded(Hue::Blue, Shade::Normal)) == ansi(4),
        named(NamedColor::Shaded(Hue::Magenta, Shade::Normal)) == ansi(5),
        named(NamedColor::Shaded(Hue::Cyan, Shade::Normal)) == ansi(6),
        named(NamedColor::Shaded(Hue::White, Shade::Normal)) == ansi(7),
        forall|hue: Hue|
            !(hue is Foreground) ==> #[trigger] named(NamedColor::Shaded(hue, Shade::Bright))
                == ansi(hue_index(hue) + 8) && named(NamedColor::Shaded(hue, Shade::Dim))
                == ansi_dim(hue_index(hue)) && named_glow(NamedColor::Shaded(hue, shade))
                == ansi_dim(hue_index(hue)),
        named(NamedColor::Shaded(Hue::Foreground, shade)) == 5,
        named(NamedColor::Background) == 15,
        named(NamedColor::Cursor) == 0,
        named_glow(NamedColor::Shaded(Hue::Foreground, shade)) == 0,
        named_glow(NamedColor::Background) == 2,
        named_glow(NamedColor::Cursor) == 0,
{
}

/// The numbered colors from sixteen on are a cube of six steps of red, green and
/// blue, and then a ramp of gray.
pub proof fn lemma_cube_and_ramp(r: int, g: int, b: int, k: int)
    requires
        0 <= r < 6,
        0 <= g < 6,
        0 <= b < 6,
        0 <= k < 24,
    ensures
        indexed_rgb(16 + 36 * r + 6 * g + b) == (cube_value(r), cube_value(g), cube_value(b)),
        indexed_rgb(232 + k) == (8 + 10 * k, 8 + 10 * k, 8 + 10 * k),
        cube_value(0) == 0,
        r > 0 ==> cube_value(r) == 95 + 40 * (r - 1),
        cube_value(5) == 255,
{
}

/// Each switch changes its own setting, there and back, and no other.
pub proof fn lemma_switches_are(settings: DisplaySettings, action: SettingAction)
    ensures
        settings.toggled(action).toggled(action) == settings,
        settings.toggled(SettingAction::Brightness).high_brightness != settings.high_brightness,
        settings.toggled(SettingAction::Brightness).high_contrast == settings.high_contrast,
        settings.toggled(SettingAction::Brightness).text_mode == settings.text_mode,
        settings.toggled(SettingAction::Contrast).high_contrast != settings.high_contrast,
        settings.toggled(SettingAction::Contrast).high_brightness == settings.high_brightness,
        settings.toggled(SettingAction::Contrast).text_mode == settings.text_mode,
        settings.toggled(SettingAction::Color).text_mode != settings.text_mode,
        settings.toggled(SettingAction::Color).high_brightness == settings.high_brightness,
        settings.toggled(SettingAction::Color).high_contrast == settings.high_contrast,
{
}

/// The lamps and the text's own colors follow the settings.
pub proof fn lemma_settings_show(settings: DisplaySettings, palette: &Palette)
    ensures
        settings.light(SettingAction::Brightness) is Green <==> settings.high_brightness,
        settings.light(SettingAction::Brightness) is Off <==> !settings.high_brightness,
        settings.light(SettingAction::Contrast) is Red <==> settings.high_contrast,
        settings.light(SettingAction::Contrast) is Off <==> !settings.high_contrast,
        settings.light(SettingAction::Color) is Green <==> settings.text_mode is Green,
        settings.light(SettingAction::Color) is Red <==> settings.text_mode is Orange,
        !settings.high_brightness && settings.text_mode is Green ==> settings.text_shade(palette)
            == 6,
        !settings.high_brightness && settings.text_mode is Orange ==> settings.text_shade(palette)
            == 8,
        settings.high_brightness ==> settings.text_shade(palette) == nearest_of(
            palette,
            Rgb { r: 255, g: 255, b: 255 },
        ),
        settings.text_mode is Green ==> settings.glow_shade() == 7,
        settings.text_mode is Orange ==> settings.glow_shade() == 3,
{
}

/// The colors of a cell. Plain text has the screen's own color, dim text its glow's;
/// a named, a numbered and a mixed color have their own.
pub proof fn lemma_cell_colors(
    settings: DisplaySettings,
    palette: &Palette,
    hue: Hue,
    shade: Shade,
    index: u8,
    rgb: Rgb,
)
    ensures
        settings.color_of(
            TermColor::Named(NamedColor::Shaded(Hue::Foreground, Shade::Dim)),
            palette,
        ) == settings.glow_shade(),
        !(shade is Dim) ==> settings.color_of(
            TermColor::Named(NamedColor::Shaded(Hue::Foreground, shade)),
            palette,
        ) == settings.text_shade(palette),
        !(hue is Foreground) ==> settings.color_of(
            TermColor::Named(NamedColor::Shaded(hue, shade)),
            palette,
        ) == named(NamedColor::Shaded(hue, shade)),
        index < 16 ==> settings.color_of(TermColor::Indexed(index), palette) == ansi(index as int),
        index >= 16 ==> settings.color_of(TermColor::Indexed(index), palette) == nearest_of(
            palette,
            as_rgb(indexed_rgb(index as int)),
        ),
        settings.color_of(TermColor::Spec(rgb), palette) == nearest_of(palette, rgb),
        index < 16 ==> settings.glow_of(TermColor::Indexed(index), palette) == ansi_dim(
            index as int,
        ),
        settings.glow_of(TermColor::Spec(rgb), palette) == nearest_of(palette, rgb),
{
}

/// How a cell is drawn. A selected one is cream on gunmetal. Inverse changes the
/// letter's color and the ground's for each other, where a cell without a ground
/// has a black one. The ground is only painted where the cell has one.
pub proof fn lemma_cell_styles(cell: Cell, settings: DisplaySettings, palette: &Palette)
    ensures
        style_of(cell, true, settings, palette) == (CellStyle { fg: 5, bg: Some(1), glow: Some(1) }),
        ({
            let fg = settings.color_of(
                if cell.dim {
                    dimmed(cell.fg)
                } else {
                    cell.fg
                },
                palette,
            );
            let bg = settings.color_of(
                if cell.dim {
                    dimmed(cell.bg)
                } else {
                    cell.bg
                },
                palette,
            );
            let bare = cell.bg == TermColor::Named(NamedColor::Background);
            let s = style_of(cell, false, settings, palette);
            &&& !settings.high_brightness && !cell.inverse ==> s.fg == fg
            &&& !cell.inverse && bare ==> s.bg is None
            &&& !cell.inverse && !bare ==> s.bg == Some(bg)
            &&& cell.inverse ==> s.bg == Some(fg)
            &&& !settings.high_brightness && cell.inverse && bare ==> s.fg == 15
            &&& !settings.high_brightness && cell.inverse && !bare ==> s.fg == bg
        }),
{
}

/// On a bright screen plain text glows, the plain colors are drawn bright and the
/// bright ones cream with a glow of their own; dim ones stay as they are.
pub proof fn lemma_bright_screen(
    settings: DisplaySettings,
    palette: &Palette,
    hue: Hue,
    shade: Shade,
    index: u8,
)
    ensures
        !(shade is Dim) ==> settings.bright_style(
            TermColor::Named(NamedColor::Shaded(Hue::Foreground, shade)),
            palette,
        ) == (settings.text_shade(palette), Some(settings.glow_shade())),
        !(hue is Foreground) ==> settings.bright_style(
            TermColor::Named(NamedColor::Shaded(hue, Shade::Normal)),
            palette,
        ) == (ansi(hue_index(hue) + 8), None::<Index>),
        !(hue is Foreground) ==> settings.bright_style(
            TermColor::Named(NamedColor::Shaded(hue, Shade::Bright)),
            palette,
        ) == (5u8, Some(ansi_dim(hue_index(hue)))),
        !(hue is Foreground) ==> settings.bright_style(
            TermColor::Named(NamedColor::Shaded(hue, Shade::Dim)),
            palette,
        ) == (ansi_dim(hue_index(hue)), None::<Index>),
        index < 8 ==> settings.bright_style(TermColor::Indexed(index), palette) == (
            ansi(index + 8),
            None::<Index>,
        ),
        8 <= index < 16 ==> settings.bright_style(TermColor::Indexed(index), palette) == (
            5u8,
            Some(ansi_dim(index as int)),
        ),
        index >= 16 ==> settings.bright_style(TermColor::Indexed(index), palette) == (
            settings.color_of(TermColor::Indexed(index), palette),
            None::<Index>,
        ),
{
}

} // verus!
