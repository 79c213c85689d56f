//! What is painted of the puter: the letters on its screen, and the buttons
//! and lights of its case.
use vstd::prelude::*;

use crate::fizzle::Size;
use crate::framebuffer::Framebuffer;
use crate::graphics::{opaque, span, Index, Palette, Rect, Rgba};
use crate::image::{decode_png_with_size, holdable, image_colors, png_image, ImageError, PixelFault};
use crate::palette_color::{
    CREAM, CRIMSON, GREEN, GUNMETAL, LAVENDER, LIME, ORANGE, PEACH, PLUM,
};
use crate::puter::color::{
    cell_style, style_of, Cell, CellStyle, DisplaySettings, LightState, SettingAction,
};
use crate::puter::terminal::{Point, COLUMNS, GLYPH_H, GLYPH_W, LINES, SCREEN_X, SCREEN_Y};
use crate::scene::{fill_area, shape_views, Shape, ShapeView};
use crate::text::font::{ink_of_colors, is_glyph_ink};

verus! {

/// The terminal's letters: 128 cells of six by twelve, row by row.
pub struct GlyphAtlas {
    pub width: usize,
    pub pixels: Vec<bool>,
}

/// The pixel rows that 128 letters take in an atlas that is wide enough for one.
pub open spec fn letter_rows(width: int) -> int {
    (127int / (width / 6) + 1) * GLYPH_H
}

/// Why there is no atlas.
pub enum AtlasError {
    Image(ImageError),
    /// Not even one letter fits across.
    TooNarrow,
    /// Not all 128 letters fit.
    TooSmall,
    /// The file holds fewer pixels than its size says.
    PixelCount,
}

impl GlyphAtlas {
    /// An atlas has room for a letter, and its letters' pixels can be counted.
    pub open spec fn wf(&self) -> bool {
        GLYPH_W <= self.width && letter_rows(self.width as int) * self.width <= usize::MAX
    }

    /// The atlas of a PNG file: its size, and whether each of its colors is ink.
    pub fn load(file: &[u8]) -> (r: Result<GlyphAtlas, AtlasError>)
        ensures
            !holdable(file@) ==> r matches Err(AtlasError::Image(ImageError::TooLarge)),
            match r {
                Ok(atlas) => {
                    &&& atlas.wf()
                    &&& png_image(file@) matches Some(image) && image_colors(image) matches Ok(
                        colors,
                    ) && GLYPH_W <= image.width && letter_rows(image.width as int) <= image.height
                        && image.width * image.height <= colors.len() && atlas.width == image.width
                        && atlas.pixels@ == ink_of_colors(colors)
                },
                Err(AtlasError::Image(ImageError::TooLarge)) => !holdable(file@),
                Err(AtlasError::Image(ImageError::Decode(_))) => png_image(file@) is None,
                Err(AtlasError::Image(ImageError::Pixels(fault))) => png_image(
                    file@,
                ) matches Some(image) && image_colors(image) == Err::<Seq<Rgba>, PixelFault>(fault),
                Err(AtlasError::Image(ImageError::PixelCount(_))) => false,
                Err(AtlasError::TooNarrow) => png_image(file@) matches Some(image) && image_colors(
                    image,
                ) is Ok && image.width < GLYPH_W,
                Err(AtlasError::TooSmall) => png_image(file@) matches Some(image) && image_colors(
                    image,
                ) is Ok && GLYPH_W <= image.width && image.height < letter_rows(image.width as int),
                Err(AtlasError::PixelCount) => png_image(file@) matches Some(image) && image_colors(
                    image,
                ) matches Ok(colors) && GLYPH_W <= image.width && letter_rows(image.width as int)
                    <= image.height && colors.len() < image.width * image.height,
            },
    {
        match decode_png_with_size(file) {
            Err(error) => Err(AtlasError::Image(error)),
            Ok((width, height, colors)) => {
                if width < GLYPH_W {
                    return Err(AtlasError::TooNarrow);
                }
                let rows: usize = (127 / (width / GLYPH_W) + 1) * GLYPH_H;
                if height < rows {
                    return Err(AtlasError::TooSmall);
                }
                assert(width * height <= u32::MAX * u32::MAX) by (nonlinear_arith)
                    requires
                        0 <= width <= u32::MAX,
                        0 <= height <= u32::MAX,
                ;
                if (colors.len() as u128) < width as u128 * height as u128 {
                    return Err(AtlasError::PixelCount);
                }
                assert(rows * width <= width * height) by (nonlinear_arith)
                    requires
                        rows <= height,
                        0 <= width,
                ;
                let mut pixels: Vec<bool> = Vec::new();
                let mut i: usize = 0;
                while i < colors.len()
                    invariant
                        i <= colors@.len(),
                        pixels@ =~= ink_of_colors(colors@).take(i as int),
                    decreases colors@.len() - i,
                {
                    pixels.push(is_glyph_ink(colors[i]));
                    i += 1;
                }
                assert(pixels@ =~= ink_of_colors(colors@));
                Ok(GlyphAtlas { width, pixels })
            },
        }
    }

    /// Whether a letter has ink at a place; `?` stands for what is no ASCII,
    /// and beyond the atlas there is none.
    pub open spec fn on(&self, ch: char, x: int, y: int) -> bool {
        let code = if ch as u32 >= 128 {
            63
        } else {
            ch as int
        };
        let cols = self.width as int / 6;
        let place = ((code / cols) * 12 + y) * self.width + (code % cols) * 6 + x;
        &&& 0 <= x < GLYPH_W
        &&& 0 <= y < GLYPH_H
        &&& place < self.pixels@.len()
        &&& self.pixels@[place]
    }

    pub fn is_on(&self, ch: char, x: usize, y: usize) -> (r: bool)
        requires
            self.wf(),
            x < GLYPH_W,
            y < GLYPH_H,
        ensures
            r == self.on(ch, x as int, y as int),
    {
        let code: usize = if ch as u32 >= 128 {
            63
        } else {
            ch as u32 as usize
        };
        let cols: usize = self.width / GLYPH_W;
        assert(cols >= 1);
        assert(code < 128);
        let column: usize = code % cols;
        let row: usize = code / cols;
        assert(column < cols && row <= code) by (nonlinear_arith)
            requires
                cols >= 1,
                column == code % cols,
                row == code / cols,
        ;
        let sx: usize = column * 6 + x;
        let sy: usize = row * 12 + y;
        proof {
            let rows = letter_rows(self.width as int);
            let last: int = 127int / cols as int;
            assert(row <= last) by (nonlinear_arith)
                requires
                    cols >= 1,
                    row == code / cols,
                    code <= 127,
                    last == 127int / cols as int,
            ;
            assert(sy + 1 <= rows);
            assert(sx < self.width);
            assert(sy * self.width + self.width <= rows * self.width) by (nonlinear_arith)
                requires
                    sy + 1 <= rows,
                    0 <= self.width,
            ;
        }
        let place: usize = sy * self.width + sx;
        if place < self.pixels.len() {
            self.pixels[place]
        } else {
            false
        }
    }
}

/// Paints a letter.
fn draw_glyph(fb: &mut Framebuffer, atlas: &GlyphAtlas, ch: char, x: isize, y: isize, color: Rgba)
    requires
        old(fb).wf(),
        atlas.wf(),
        x <= isize::MAX - GLYPH_W,
        y <= isize::MAX - GLYPH_H,
    ensures
        final(fb).wf(),
        final(fb).same_size(old(fb)),
        forall|px: int, py: int|
            final(fb).has(px, py) ==> #[trigger] final(fb).color_at(px, py) == (if atlas.on(
                ch,
                px - x,
                py - y,
            ) {
                color
            } else {
                old(fb).color_at(px, py)
            }),
{
    let ghost start = *fb;
    let mut gy: usize = 0;
    while gy < GLYPH_H
        invariant
            gy <= GLYPH_H,
            fb.wf(),
            fb.same_size(&start),
            atlas.wf(),
            x <= isize::MAX - GLYPH_W,
            y <= isize::MAX - GLYPH_H,
            forall|px: int, py: int|
                fb.has(px, py) ==> #[trigger] fb.color_at(px, py) == (if py - y < gy && atlas.on(
                    ch,
                    px - x,
                    py - y,
                ) {
                    color
                } else {
                    start.color_at(px, py)
                }),
        decreases GLYPH_H - gy,
    {
        let ghost row = *fb;
        let mut gx: usize = 0;
        while gx < GLYPH_W
            invariant
                gx <= GLYPH_W,
                gy < GLYPH_H,
                fb.wf(),
                fb.same_size(&row),
                atlas.wf(),
                x <= isize::MAX - GLYPH_W,
                y <= isize::MAX - GLYPH_H,
                forall|px: int, py: int|
                    fb.has(px, py) ==> #[trigger] fb.color_at(px, py) == (if py - y == gy && px - x
                        < gx && atlas.on(ch, px - x, py - y) {
                        color
                    } else {
                        row.color_at(px, py)
                    }),
            decreases GLYPH_W - gx,
        {
            if atlas.is_on(ch, gx, gy) {
                let px: isize = x + gx as isize;
                let py: isize = y + gy as isize;
                if px >= 0 && py >= 0 {
                    fb.set_pixel(px as usize, py as usize, color);
                }
            }
            gx += 1;
        }
        gy += 1;
    }
}

/// What the letter of a cell covers, with its bold copy, its underlines and
/// the line through it.
pub open spec fn letter_covers(cell: Cell, atlas: &GlyphAtlas, dx: int, dy: int) -> bool {
    ||| atlas.on(cell.c, dx, dy)
    ||| cell.bold && atlas.on(cell.c, dx - 1, dy)
    ||| cell.underline && 0 <= dx < GLYPH_W && (dy == 11 || cell.double_underline && dy == 9)
    ||| cell.strikeout && 0 <= dx < GLYPH_W && dy == 6
}

pub open spec fn glow_covers(cell: Cell, atlas: &GlyphAtlas, dx: int, dy: int) -> bool {
    ||| atlas.on(cell.c, dx + 1, dy)
    ||| atlas.on(cell.c, dx - 1, dy)
    ||| atlas.on(cell.c, dx, dy + 1)
    ||| atlas.on(cell.c, dx, dy - 1)
}

/// What a cell puts at a place counted from its corner. A space is only its
/// background; glow shows on the bright screen.
pub open spec fn cell_stroke(
    cell: Cell,
    style: CellStyle,
    bright: bool,
    atlas: &GlyphAtlas,
    dx: int,
    dy: int,
) -> Option<Index> {
    if cell.c != ' ' && letter_covers(cell, atlas, dx, dy) {
        Some(style.fg)
    } else if cell.c != ' ' && bright && style.glow is Some && glow_covers(cell, atlas, dx, dy) {
        style.glow
    } else if style.bg is Some && 0 <= dx < GLYPH_W && 0 <= dy < GLYPH_H {
        style.bg
    } else {
        None
    }
}

pub open spec fn over(stroke: Option<Index>, palette: &Palette, base: Rgba) -> Rgba {
    match stroke {
        Some(index) => opaque(palette.color_of(index)),
        None => base,
    }
}

/// Paints a cell with its corner at a place.
pub fn draw_cell(
    fb: &mut Framebuffer,
    cell: Cell,
    style: CellStyle,
    bright: bool,
    atlas: &GlyphAtlas,
    x: isize,
    y: isize,
    palette: &Palette,
)
    requires
        old(fb).wf(),
        atlas.wf(),
        palette.colors().len() > 0,
        isize::MIN < x <= isize::MAX - 16,
        isize::MIN < y <= isize::MAX - 16,
    ensures
        final(fb).wf(),
        final(fb).same_size(old(fb)),
        forall|px: int, py: int|
            final(fb).has(px, py) ==> #[trigger] final(fb).color_at(px, py) == over(
                cell_stroke(cell, style, bright, atlas, px - x, py - y),
                palette,
                old(fb).color_at(px, py),
            ),
{
    let ghost start = *fb;
    if let Some(bg) = style.bg {
        fill_area(fb, x, y, GLYPH_W, GLYPH_H, Rgba::from(palette.color(bg)));
    }
    let ghost backed = *fb;
    if cell.c == ' ' {
        return;
    }
    if bright {
        if let Some(glow) = style.glow {
            let halo: Rgba = Rgba::from(palette.color(glow));
            draw_glyph(fb, atlas, cell.c, x - 1, y, halo);
            let ghost one = *fb;
            draw_glyph(fb, atlas, cell.c, x + 1, y, halo);
            let ghost two = *fb;
            draw_glyph(fb, atlas, cell.c, x, y - 1, halo);
            let ghost three = *fb;
            draw_glyph(fb, atlas, cell.c, x, y + 1, halo);
            assert forall|px: int, py: int| fb.has(px, py) implies #[trigger] fb.color_at(px, py)
                == (if glow_covers(cell, atlas, px - x, py - y) {
                halo
            } else {
                backed.color_at(px, py)
            }) by {
                assert(one.has(px, py) && two.has(px, py) && three.has(px, py));
                assert(three.color_at(px, py) == three.color_at(px, py));
                assert(two.color_at(px, py) == two.color_at(px, py));
                assert(one.color_at(px, py) == one.color_at(px, py));
                assert(px - (x - 1) == px - x + 1 && px - (x + 1) == px - x - 1);
                assert(py - (y - 1) == py - y + 1 && py - (y + 1) == py - y - 1);
            }
        }
    }
    let ghost glowing = *fb;
    let fg: Rgba = Rgba::from(palette.color(style.fg));
    draw_glyph(fb, atlas, cell.c, x, y, fg);
    let ghost lettered = *fb;
    if cell.bold {
        draw_glyph(fb, atlas, cell.c, x + 1, y, fg);
    }
    let ghost bolded = *fb;
    if cell.underline {
        fill_area(fb, x, y + 11, GLYPH_W, 1, fg);
    }
    let ghost underlined = *fb;
    if cell.underline && cell.double_underline {
        fill_area(fb, x, y + 9, GLYPH_W, 1, fg);
    }
    let ghost doubled = *fb;
    if cell.strikeout {
        fill_area(fb, x, y + 6, GLYPH_W, 1, fg);
    }
    assert forall|px: int, py: int| fb.has(px, py) implies #[trigger] fb.color_at(px, py) == over(
        cell_stroke(cell, style, bright, atlas, px - x, py - y),
        palette,
        start.color_at(px, py),
    ) by {
        assert(doubled.has(px, py) && underlined.has(px, py) && bolded.has(px, py)
            && lettered.has(px, py) && glowing.has(px, py) && backed.has(px, py));
        assert(doubled.color_at(px, py) == doubled.color_at(px, py));
        assert(underlined.color_at(px, py) == underlined.color_at(px, py));
        assert(bolded.color_at(px, py) == bolded.color_at(px, py));
        assert(lettered.color_at(px, py) == lettered.color_at(px, py));
        assert(glowing.color_at(px, py) == glowing.color_at(px, py));
        assert(backed.color_at(px, py) == backed.color_at(px, py));
        assert(px - (x + 1) == px - x - 1);
        assert(fb.color_at(px, py) == (if letter_covers(cell, atlas, px - x, py - y) {
            fg
        } else {
            glowing.color_at(px, py)
        }));
    }
}

/// A cell that is shown, where, and whether it is selected.
#[derive(Clone, Copy, Debug, PartialEq, Eq, Structural)]
pub struct ShownCell {
    pub point: Point,
    pub cell: Cell,
    pub selected: bool,
}

pub open spec fn cell_left(point: Point) -> int {
    SCREEN_X + point.column * 6
}

pub open spec fn cell_top(point: Point) -> int {
    SCREEN_Y + point.line * 12
}

/// What a shown cell puts on a pixel.
pub open spec fn shown_stroke(
    shown: ShownCell,
    settings: DisplaySettings,
    atlas: &GlyphAtlas,
    palette: &Palette,
    px: int,
    py: int,
) -> Option<Index> {
    if shown.cell.skipped {
        None
    } else {
        cell_stroke(
            shown.cell,
            style_of(shown.cell, shown.selected, settings, palette),
            settings.high_brightness,
            atlas,
            px - cell_left(shown.point),
            py - cell_top(shown.point),
        )
    }
}

/// What cells put on a pixel: the last one that covers it wins.
pub open spec fn screen_stroke(
    cells: Seq<ShownCell>,
    settings: DisplaySettings,
    atlas: &GlyphAtlas,
    palette: &Palette,
    px: int,
    py: int,
) -> Option<Index>
    decreases cells.len(),
{
    if cells.len() == 0 {
        None
    } else {
        match shown_stroke(cells.last(), settings, atlas, palette, px, py) {
            Some(index) => Some(index),
            None => screen_stroke(cells.drop_last(), settings, atlas, palette, px, py),
        }
    }
}

/// Whether the cursor covers a pixel.
pub open spec fn cursor_covers(cursor: Option<Point>, px: int, py: int) -> bool {
    match cursor {
        Some(point) => cell_left(point) <= px < cell_left(point) + GLYPH_W && cell_top(point) <= py
            < cell_top(point) + GLYPH_H,
        None => false,
    }
}

pub open spec fn on_grid(point: Point) -> bool {
    point.line <= LINES && point.column <= COLUMNS
}

/// Paints the terminal's screen: its cells, and the cursor over them.
pub fn draw_screen(
    fb: &mut Framebuffer,
    cells: &Vec<ShownCell>,
    cursor: Option<Point>,
    settings: DisplaySettings,
    atlas: &GlyphAtlas,
    palette: &Palette,
)
    requires
        old(fb).wf(),
        atlas.wf(),
        palette.colors().len() > 0,
        forall|i: int| 0 <= i < cells@.len() ==> on_grid((#[trigger] cells@[i]).point),
        cursor matches Some(point) ==> on_grid(point),
    ensures
        final(fb).wf(),
        final(fb).same_size(old(fb)),
        forall|px: int, py: int|
            final(fb).has(px, py) ==> #[trigger] final(fb).color_at(px, py) == (if cursor_covers(
                cursor,
                px,
                py,
            ) {
                opaque(palette.color_of(LAVENDER))
            } else {
                over(
                    screen_stroke(cells@, settings, atlas, palette, px, py),
                    palette,
                    old(fb).color_at(px, py),
                )
            }),
{
    let ghost start = *fb;
    let mut i: usize = 0;
    assert(cells@.take(0) =~= Seq::empty());
    while i < cells.len()
        invariant
            i <= cells@.len(),
            fb.wf(),
            fb.same_size(&start),
            atlas.wf(),
            palette.colors().len() > 0,
            forall|j: int| 0 <= j < cells@.len() ==> on_grid((#[trigger] cells@[j]).point),
            forall|px: int, py: int|
                fb.has(px, py) ==> #[trigger] fb.color_at(px, py) == over(
                    screen_stroke(cells@.take(i as int), settings, atlas, palette, px, py),
                    palette,
                    start.color_at(px, py),
                ),
        decreases cells@.len() - i,
    {
        let ghost before = *fb;
        let shown = cells[i];
        assert(on_grid(cells@[i as int].point));
        assert(cells@.take(i + 1).drop_last() =~= cells@.take(i as int));
        assert(cells@.take(i + 1).last() == shown);
        if !shown.cell.skipped {
            let x: isize = (SCREEN_X + shown.point.column * GLYPH_W) as isize;
            let y: isize = (SCREEN_Y + shown.point.line * GLYPH_H) as isize;
            let style = cell_style(shown.cell, shown.selected, settings, palette);
            draw_cell(fb, shown.cell, style, settings.high_brightness, atlas, x, y, palette);
        }
        assert forall|px: int, py: int| fb.has(px, py) implies #[trigger] fb.color_at(px, py)
            == over(
            screen_stroke(cells@.take(i + 1), settings, atlas, palette, px, py),
            palette,
            start.color_at(px, py),
        ) by {
            assert(before.has(px, py));
            assert(before.color_at(px, py) == before.color_at(px, py));
        }
        i += 1;
    }
    assert(cells@.take(cells@.len() as int) =~= cells@);
    let ghost written = *fb;
    if let Some(point) = cursor {
        let x: isize = (SCREEN_X + point.column * GLYPH_W) as isize;
        let y: isize = (SCREEN_Y + point.line * GLYPH_H) as isize;
        fill_area(fb, x, y, GLYPH_W, GLYPH_H, Rgba::from(palette.color(LAVENDER)));
    }
    assert forall|px: int, py: int| fb.has(px, py) implies #[trigger] fb.color_at(px, py) == (
    if cursor_covers(cursor, px, py) {
        opaque(palette.color_of(LAVENDER))
    } else {
        over(
            screen_stroke(cells@, settings, atlas, palette, px, py),
            palette,
            start.color_at(px, py),
        )
    }) by {
        assert(written.has(px, py));
        assert(written.color_at(px, py) == written.color_at(px, py));
    }
}

/// What a button of the front panel does.
#[derive(Clone, Copy, Debug, PartialEq, Eq, Structural)]
pub enum ButtonKind {
    Setting(SettingAction),
    Power,
    Lock,
}

pub const BUTTON_COUNT: usize = 5;

pub const BUTTON_W: usize = 19;

pub const BUTTON_H: usize = 16;

/// The buttons by their number.
pub open spec fn button_kind(index: int) -> ButtonKind {
    if index == 0 {
        ButtonKind::Setting(SettingAction::Brightness)
    } else if index == 1 {
        ButtonKind::Setting(SettingAction::Color)
    } else if index == 2 {
        ButtonKind::Setting(SettingAction::Contrast)
    } else if index == 3 {
        ButtonKind::Power
    } else {
        ButtonKind::Lock
    }
}

pub fn kind_of_button(index: usize) -> (r: ButtonKind)
    ensures
        r == button_kind(index as int),
{
    match index {
        0 => ButtonKind::Setting(SettingAction::Brightness),
        1 => ButtonKind::Setting(SettingAction::Color),
        2 => ButtonKind::Setting(SettingAction::Contrast),
        3 => ButtonKind::Power,
        _ => ButtonKind::Lock,
    }
}

/// Where a button is on the widget: three side by side for the settings, and
/// power and lock farther right.
pub open spec fn button_place(index: int) -> (int, int) {
    if index < 3 {
        (71 + index * 19, 205)
    } else if index == 3 {
        (215, 204)
    } else {
        (195, 204)
    }
}

pub open spec fn button_height(index: int) -> int {
    if index < 3 {
        16
    } else {
        18
    }
}

fn place_of_button(index: usize) -> (r: (usize, usize))
    requires
        index < BUTTON_COUNT,
    ensures
        (r.0 as int, r.1 as int) == button_place(index as int),
{
    if index < 3 {
        (71 + index * 19, 205)
    } else if index == 3 {
        (215, 204)
    } else {
        (195, 204)
    }
}

/// Whether a place presses a button: its own, two pixels to the left.
pub open spec fn presses(index: int, x: int, y: int) -> bool {
    let (left, top) = button_place(index);
    0 <= index < BUTTON_COUNT && left - 2 <= x < left + 17 && top <= y < top + button_height(index)
}

/// The button at a place; of two that share it the one with the lower number.
pub open spec fn pressed_button(x: int, y: int, r: Option<usize>) -> bool {
    match r {
        Some(index) => presses(index as int, x, y) && forall|j: int|
            0 <= j < index ==> !#[trigger] presses(j, x, y),
        None => forall|j: int| !#[trigger] presses(j, x, y),
    }
}

pub fn button_at(x: isize, y: isize) -> (r: Option<usize>)
    ensures
        pressed_button(x as int, y as int, r),
{
    let mut i: usize = 0;
    while i < BUTTON_COUNT
        invariant
            i <= BUTTON_COUNT,
            forall|j: int| 0 <= j < i ==> !#[trigger] presses(j, x as int, y as int),
        decreases BUTTON_COUNT - i,
    {
        let (left, top) = place_of_button(i);
        let height: usize = if i < 3 {
            16
        } else {
            18
        };
        if x >= left as isize - 2 && x < left as isize + 17 && y >= top as isize && y < (top
            + height) as isize {
            assert(presses(i as int, x as int, y as int));
            return Some(i);
        }
        assert(!presses(i as int, x as int, y as int));
        i += 1;
    }
    None
}

/// A light's colors: its shell, its core and its top.
pub open spec fn light_colors(state: LightState) -> (Index, Index, Index) {
    match state {
        LightState::Off => (GUNMETAL, PLUM, PEACH),
        LightState::Red => (CRIMSON, ORANGE, ORANGE),
        LightState::Green => (GREEN, LIME, LIME),
    }
}

/// A light with its corner at a place.
pub open spec fn light_shapes(x: int, state: LightState) -> Seq<ShapeView> {
    let (shell, core, top) = light_colors(state);
    seq![
        ShapeView::Fill { x, y: 223, w: 4, h: 5, color: shell },
        ShapeView::Fill { x, y: 223, w: 4, h: 1, color: top },
        ShapeView::Fill { x: x + 1, y: 225, w: 2, h: 2, color: core },
    ]
}

fn push_light(out: &mut Vec<Shape>, x: isize, state: LightState)
    requires
        0 <= x <= span(),
    ensures
        shape_views(final(out)@) == shape_views(old(out)@) + light_shapes(x as int, state),
{
    let ghost start = out@;
    let (shell, core, top) = match state {
        LightState::Off => (GUNMETAL, PLUM, PEACH),
        LightState::Red => (CRIMSON, ORANGE, ORANGE),
        LightState::Green => (GREEN, LIME, LIME),
    };
    out.push(Shape::Fill { x, y: 223, w: 4, h: 5, color: shell });
    out.push(Shape::Fill { x, y: 223, w: 4, h: 1, color: top });
    out.push(Shape::Fill { x: x + 1, y: 225, w: 2, h: 2, color: core });
    assert(shape_views(out@) =~= shape_views(start) + light_shapes(x as int, state));
}

/// The sprites of the case by their places: the buttons, the pressed buttons,
/// power, and lock.
pub const BUTTON_SPRITES: usize = 0;

pub const PRESSED_SPRITES: usize = 1;

pub const POWER_SPRITE: usize = 2;

pub const LOCK_SPRITE: usize = 3;

/// A button for a setting, from one of the sheets of buttons.
pub open spec fn mode_button(sheet: usize, index: int) -> ShapeView {
    ShapeView::Picture {
        sprite: sheet as int,
        src: Rect { x: (3 + index * 19) as usize, y: 0, w: BUTTON_W, h: BUTTON_H },
        x: button_place(index).0,
        y: button_place(index).1,
    }
}

fn mode_button_shape(sheet: usize, index: usize) -> (r: Shape)
    requires
        index < 3,
    ensures
        r@ == mode_button(sheet, index as int),
{
    let (left, top) = place_of_button(index);
    Shape::Picture {
        sprite: sheet,
        src: Rect::new(3 + index * 19, 0, BUTTON_W, BUTTON_H),
        x: left as isize,
        y: top as isize,
    }
}

pub open spec fn icon(sprite: usize, size: Size, index: int) -> ShapeView {
    ShapeView::Picture {
        sprite: sprite as int,
        src: Rect { x: 0, y: 0, w: size.w, h: size.h },
        x: button_place(index).0,
        y: button_place(index).1,
    }
}

/// What is on the case: the strip for the controls, the buttons, and the
/// lights that show the settings.
pub open spec fn case_view(settings: DisplaySettings, power: Size, lock: Size) -> Seq<ShapeView> {
    seq![
        ShapeView::Fill { x: 100, y: 201, w: 119, h: 21, color: CREAM },
        mode_button(BUTTON_SPRITES, 0),
        mode_button(BUTTON_SPRITES, 1),
        mode_button(BUTTON_SPRITES, 2),
    ] + light_shapes(88, settings.light(SettingAction::Brightness)) + light_shapes(
        97,
        settings.light(SettingAction::Color),
    ) + light_shapes(106, settings.light(SettingAction::Contrast)) + seq![
        icon(POWER_SPRITE, power, 3),
        icon(LOCK_SPRITE, lock, 4),
    ]
}

pub fn case_shapes(settings: DisplaySettings, power: Size, lock: Size) -> (r: Vec<Shape>)
    ensures
        shape_views(r@) == case_view(settings, power, lock),
{
    let mut out: Vec<Shape> = Vec::new();
    out.push(Shape::Fill { x: 100, y: 201, w: 119, h: 21, color: CREAM });
    out.push(mode_button_shape(BUTTON_SPRITES, 0));
    out.push(mode_button_shape(BUTTON_SPRITES, 1));
    out.push(mode_button_shape(BUTTON_SPRITES, 2));
    let ghost head = shape_views(out@);
    assert(head =~= seq![
        ShapeView::Fill { x: 100, y: 201, w: 119, h: 21, color: CREAM },
        mode_button(BUTTON_SPRITES, 0),
        mode_button(BUTTON_SPRITES, 1),
        mode_button(BUTTON_SPRITES, 2),
    ]);
    push_light(&mut out, 88, settings.light_state(SettingAction::Brightness));
    push_light(&mut out, 97, settings.light_state(SettingAction::Color));
    push_light(&mut out, 106, settings.light_state(SettingAction::Contrast));
    let ghost lit = out@;
    out.push(
        Shape::Picture {
            sprite: POWER_SPRITE,
            src: Rect::new(0, 0, power.w, power.h),
            x: 215,
            y: 204,
        },
    );
    out.push(
        Shape::Picture {
            sprite: LOCK_SPRITE,
            src: Rect::new(0, 0, lock.w, lock.h),
            x: 195,
            y: 204,
        },
    );
    assert(shape_views(out@) =~= shape_views(lit) + seq![
        icon(POWER_SPRITE, power, 3),
        icon(LOCK_SPRITE, lock, 4),
    ]);
    out
}

/// A setting's button while it is held down; power and lock look as always.
pub fn pressed_shapes(index: usize) -> (r: Vec<Shape>)
    ensures
        shape_views(r@) == (if index < 3 {
            seq![mode_button(PRESSED_SPRITES, index as int)]
        } else {
            Seq::empty()
        }),
{
    let mut out: Vec<Shape> = Vec::new();
    if index < 3 {
        out.push(mode_button_shape(PRESSED_SPRITES, index));
        assert(shape_views(out@) =~= seq![mode_button(PRESSED_SPRITES, index as int)]);
    } else {
        assert(shape_views(out@) =~= Seq::empty());
    }
    out
}

/// The letters of an atlas stand in the order of their codes, row by row in cells
/// of six by twelve; what is no ASCII is drawn as a question mark.
pub proof fn lemma_letters_stand(atlas: &GlyphAtlas, ch: char, col: int, row: int, x: int, y: int)
    requires
        atlas.width >= 6,
        0 <= col < atlas.width as int / 6,
        0 <= row,
        (ch as u32) < 128,
        ch as int == row * (atlas.width as int / 6) + col,
    ensures
        0 <= x < 6 && 0 <= y < 12 ==> ({
            let at = (12 * row + y) * atlas.width + 6 * col + x;
            atlas.on(ch, x, y) <==> at < atlas.pixels@.len() && atlas.pixels@[at]
        }),
        !(0 <= x < 6 && 0 <= y < 12) ==> !atlas.on(ch, x, y),
        forall|c: char| c as u32 >= 128 ==> #[trigger] atlas.on(c, x, y) == atlas.on('?', x, y),
{
    let cols = atlas.width as int / 6;
    vstd::arithmetic::div_mod::lemma_fundamental_div_mod_converse(ch as int, cols, row, col);
    assert(row * 12 == 12 * row && col * 6 == 6 * col);
}

/// What a letter covers: its own strokes, one column more to the right where it is
/// bold, the row at its foot where it is underlined and one above for a second
/// line, and the row through its middle where it is struck out.
pub proof fn lemma_letters_cover(cell: Cell, atlas: &GlyphAtlas, dx: int, dy: int)
    ensures
        atlas.on(cell.c, dx, dy) ==> letter_covers(cell, atlas, dx, dy),
        cell.bold && atlas.on(cell.c, dx - 1, dy) ==> letter_covers(cell, atlas, dx, dy),
        cell.underline && 0 <= dx < 6 ==> letter_covers(cell, atlas, dx, 11),
        cell.underline && cell.double_underline && 0 <= dx < 6 ==> letter_covers(cell, atlas, dx, 9),
        cell.strikeout && 0 <= dx < 6 ==> letter_covers(cell, atlas, dx, 6),
        !cell.bold && !cell.underline && !cell.strikeout ==> letter_covers(cell, atlas, dx, dy)
            == atlas.on(cell.c, dx, dy),
        dy != 6 && dy != 9 && dy != 11 && letter_covers(cell, atlas, dx, dy) ==> atlas.on(
            cell.c,
            dx,
            dy,
        ) || cell.bold && atlas.on(cell.c, dx - 1, dy),
        glow_covers(cell, atlas, dx, dy) <==> atlas.on(cell.c, dx - 1, dy) || atlas.on(
            cell.c,
            dx + 1,
            dy,
        ) || atlas.on(cell.c, dx, dy - 1) || atlas.on(cell.c, dx, dy + 1),
{
}

/// A cell shows its letter before its glow and that before its ground; a space has
/// only a ground, and only a bright screen glows.
pub proof fn lemma_cell_layers(
    cell: Cell,
    style: CellStyle,
    bright: bool,
    atlas: &GlyphAtlas,
    dx: int,
    dy: int,
)
    ensures
        ({
            let s = cell_stroke(cell, style, bright, atlas, dx, dy);
            let letter = cell.c != ' ' && letter_covers(cell, atlas, dx, dy);
            let glow = cell.c != ' ' && bright && glow_covers(cell, atlas, dx, dy);
            &&& letter ==> s == Some(style.fg)
            &&& !letter && glow && style.glow is Some ==> s == style.glow
            &&& !letter && (!glow || style.glow is None) && 0 <= dx < 6 && 0 <= dy < 12 ==> s
                == style.bg
            &&& !letter && (!glow || style.glow is None) && !(0 <= dx < 6 && 0 <= dy < 12) ==> s
                is None
        }),
{
}

/// The cells stand beside and below each other from the screen's corner; a later
/// one covers an earlier, and one that is left out shows nothing.
pub proof fn lemma_cells_stand(
    cells: Seq<ShownCell>,
    shown: ShownCell,
    settings: DisplaySettings,
    atlas: &GlyphAtlas,
    palette: &Palette,
    px: int,
    py: int,
)
    ensures
        cell_left(shown.point) == 30 + 6 * shown.point.column,
        cell_top(shown.point) == 32 + 12 * shown.point.line,
        shown.cell.skipped ==> shown_stroke(shown, settings, atlas, palette, px, py) is None,
        screen_stroke(Seq::empty(), settings, atlas, palette, px, py) is None,
        shown_stroke(shown, settings, atlas, palette, px, py) matches Some(index) ==> screen_stroke(
            cells.push(shown),
            settings,
            atlas,
            palette,
            px,
            py,
        ) == Some(index),
        shown_stroke(shown, settings, atlas, palette, px, py) is None ==> screen_stroke(
            cells.push(shown),
            settings,
            atlas,
            palette,
            px,
            py,
        ) == screen_stroke(cells, settings, atlas, palette, px, py),
        cursor_covers(Some(shown.point), px, py) <==> 0 <= px - (30 + 6 * shown.point.column) < 6
            && 0 <= py - (32 + 12 * shown.point.line) < 12,
        !cursor_covers(None, px, py),
{
    assert(cells.push(shown).drop_last() =~= cells);
}

/// The buttons of the case: brightness, color and contrast side by side, and power
/// right of the lock. No two of them share a place.
pub proof fn lemma_case_buttons(i: int, j: int, x: int, y: int)
    ensures
        button_kind(0) == ButtonKind::Setting(SettingAction::Brightness),
        button_kind(1) == ButtonKind::Setting(SettingAction::Color),
        button_kind(2) == ButtonKind::Setting(SettingAction::Contrast),
        button_kind(3) == ButtonKind::Power,
        button_kind(4) == ButtonKind::Lock,
        presses(0, x, y) <==> 69 <= x < 88 && 205 <= y < 221,
        presses(1, x, y) <==> 88 <= x < 107 && 205 <= y < 221,
        presses(2, x, y) <==> 107 <= x < 126 && 205 <= y < 221,
        presses(3, x, y) <==> 213 <= x < 232 && 204 <= y < 222,
        presses(4, x, y) <==> 193 <= x < 212 && 204 <= y < 222,
        presses(i, x, y) && presses(j, x, y) ==> i == j,
        presses(i, x, y) ==> 0 <= i < 5,
{
}

/// The lamps show their state: gray when off, else red or green.
pub proof fn lemma_lamps_are(x: int, state: LightState)
    ensures
        light_shapes(x, state).len() == 3,
        state is Off ==> light_colors(state) == (1u8, 2u8, 4u8),
        state is Red ==> light_colors(state) == (9u8, 8u8, 8u8),
        state is Green ==> light_colors(state) == (7u8, 6u8, 6u8),
        ({
            let (shell, core, top) = light_colors(state);
            &&& light_shapes(x, state)[0] == (ShapeView::Fill { x, y: 223, w: 4, h: 5, color: shell })
            &&& light_shapes(x, state)[1] == (ShapeView::Fill { x, y: 223, w: 4, h: 1, color: top })
            &&& light_shapes(x, state)[2] == (ShapeView::Fill {
                x: x + 1,
                y: 225,
                w: 2,
                h: 2,
                color: core,
            })
        }),
{
}

/// The case's picture: its panel, the three buttons, each with its lamp above the
/// settings' own, and the two icons.
pub proof fn lemma_case_is(settings: DisplaySettings, power: Size, lock: Size, i: int)
    requires
        0 <= i < 3,
    ensures
        ({
            let s = case_view(settings, power, lock);
            &&& s.len() == 15
            &&& s[0] == (ShapeView::Fill { x: 100, y: 201, w: 119, h: 21, color: 5 })
            &&& s[1 + i] == (ShapeView::Picture {
                sprite: 0,
                src: Rect { x: (3 + 19 * i) as usize, y: 0, w: 19, h: 16 },
                x: 71 + 19 * i,
                y: 205,
            })
            &&& s.subrange(4, 7) == light_shapes(88, settings.light(SettingAction::Brightness))
            &&& s.subrange(7, 10) == light_shapes(97, settings.light(SettingAction::Color))
            &&& s.subrange(10, 13) == light_shapes(106, settings.light(SettingAction::Contrast))
            &&& s[13] == (ShapeView::Picture {
                sprite: 2,
                src: Rect { x: 0, y: 0, w: power.w, h: power.h },
                x: 215,
                y: 204,
            })
            &&& s[14] == (ShapeView::Picture {
                sprite: 3,
                src: Rect { x: 0, y: 0, w: lock.w, h: lock.h },
                x: 195,
                y: 204,
            })
        }),
{
    let s = case_view(settings, power, lock);
    assert(s.subrange(4, 7) =~= light_shapes(88, settings.light(SettingAction::Brightness)));
    assert(s.subrange(7, 10) =~= light_shapes(97, settings.light(SettingAction::Color)));
    assert(s.subrange(10, 13) =~= light_shapes(106, settings.light(SettingAction::Contrast)));
}

/// An atlas has as many rows of letters as a hundred and twenty-eight letters of six
/// columns take, each of twelve pixel rows: one row less would not hold them.
pub proof fn lemma_letter_rows_are(width: int, rows: int)
    requires
        width >= 6,
        letter_rows(width) == 12 * rows,
    ensures
        rows * (width / 6) >= 128,
        (rows - 1) * (width / 6) < 128,
{
    let across = width / 6;
    vstd::arithmetic::div_mod::lemma_fundamental_div_mod(127, across);
    vstd::arithmetic::div_mod::lemma_mod_bound(127, across);
    let q = 127int / across;
    assert(rows == q + 1);
    assert((q + 1) * across == across * q + across) by (nonlinear_arith);
    assert(q * across == across * q) by (nonlinear_arith);
}

} // verus!
