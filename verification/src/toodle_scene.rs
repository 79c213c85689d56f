//! How the to-do notebook is drawn.
use vstd::prelude::*;

use crate::chars::{decimal, decimal_chars, from_chars};
use crate::framebuffer::{drawn, Framebuffer};
use crate::graphics::{
    opaque, see_through, shown_extent, span, Index, Paint, Palette, Rect, Rgb, Rgba, Sprite, Swap, TRANSPARENT,
};
use crate::palette_color::{BLACK, CRIMSON, GUNMETAL, PINE};
use crate::scene::{shape_views, Shape, ShapeView};
use crate::stretch::BACKGROUND;
use crate::text::font::BitmapFont;
use crate::todo::LINE_COUNT;
use crate::toodle::{
    card, check_y, done_count, page_color, page_index, page_swap, page_total, section_color,
    NotebookView, PageCard, PageColor, PageRef, Toodle, CHECK_X, ERASER_X, ERASER_Y, PAGE_OFFSET_X,
    SHADOW_X_OFFSET, SHADOW_Y_OFFSET,
};

verus! {

pub const PAGE_IMAGES: usize = 4;

pub const CHECK_VARIANTS: usize = 4;

pub const GOLDSTAR_Y: usize = 24;

/// What a picture with other colors shows on a pixel. Holes stay holes.
pub open spec fn recolored(
    sprite: &Sprite,
    src: Rect,
    x: int,
    y: int,
    paint: spec_fn(Index) -> Paint,
    palette: &Palette,
    px: int,
    py: int,
) -> Option<Rgb> {
    let (col, row) = (px - x, py - y);
    if 0 <= col < shown_extent(src.x as int, src.w as int, sprite.width as int) && 0 <= row
        < shown_extent(src.y as int, src.h as int, sprite.height as int) && sprite.index_at(
        src.x + col,
        src.y + row,
    ) != TRANSPARENT {
        palette.resolved_paint(
            paint(sprite.index_at(src.x + col, src.y + row)),
            px as nat,
            py as nat,
        )
    } else {
        None
    }
}

pub open spec fn whole(sprite: &Sprite) -> Rect {
    Rect { x: 0, y: 0, w: sprite.width, h: sprite.height }
}

/// Whether a remap paints as a function says.
pub open spec fn paints_as(swap: &Swap, paint: spec_fn(Index) -> Paint) -> bool {
    forall|i: Index| i != TRANSPARENT ==> #[trigger] swap.paint_of(i) == paint(i)
}

proof fn lemma_drawn_recolored(
    sprite: &Sprite,
    src: Rect,
    x: int,
    y: int,
    swap: &Swap,
    paint: spec_fn(Index) -> Paint,
    palette: &Palette,
    px: int,
    py: int,
)
    requires
        paints_as(swap, paint),
        0 <= px,
        0 <= py,
    ensures
        drawn(sprite, src, x, y, 1, None, palette, Some(swap), px, py) == recolored(
            sprite,
            src,
            x,
            y,
            paint,
            palette,
            px,
            py,
        ),
{
    assert((px - x) / 1 == px - x && (py - y) / 1 == py - y);
    assert((px - x) * 1 == px - x && (py - y) * 1 == py - y);
    let index = sprite.index_at(src.x + (px - x), src.y + (py - y));
    assert(px / 1 == px && py / 1 == py);
    if index != TRANSPARENT {
        assert(swap.paint_of(index) == paint(index));
    }
}

/// Draws a picture with other colors.
fn draw_recolored(
    fb: &mut Framebuffer,
    sprite: &Sprite,
    src: Rect,
    x: usize,
    y: usize,
    palette: &Palette,
    swap: &Swap,
    Ghost(paint): Ghost<spec_fn(Index) -> Paint>,
)
    requires
        old(fb).wf(),
        sprite.wf(),
        sprite.width <= span(),
        sprite.height <= span(),
        x <= isize::MAX / 128,
        y <= isize::MAX / 128,
        palette.wf(),
        palette.colors().len() > 0,
        paints_as(swap, paint),
    ensures
        final(fb).wf(),
        final(fb).same_size(old(fb)),
        forall|px: int, py: int|
            final(fb).has(px, py) ==> #[trigger] final(fb).color_at(px, py) == over(
                recolored(sprite, src, x as int, y as int, paint, palette, px, py),
                old(fb).color_at(px, py),
            ),
{
    assert(sprite.width * 1 == sprite.width) by (nonlinear_arith);
    assert(sprite.height * 1 == sprite.height) by (nonlinear_arith);
    fb.draw_sprite_full(sprite, src, x as isize, y as isize, 1, None, palette, Some(swap));
    proof {
        assert forall|px: int, py: int| fb.has(px, py) implies #[trigger] fb.color_at(px, py)
            == over(
            recolored(sprite, src, x as int, y as int, paint, palette, px, py),
            old(fb).color_at(px, py),
        ) by {
            lemma_drawn_recolored(sprite, src, x as int, y as int, swap, paint, palette, px, py);
        }
    }
}

/// A color over another, if there is one.
pub open spec fn over(color: Option<Rgb>, base: Rgba) -> Rgba {
    match color {
        Some(color) => opaque(color),
        None => base,
    }
}

/// The paint of a shadow.
pub open spec fn shadow_paint() -> spec_fn(Index) -> Paint {
    |i: Index| Paint::Solid(PINE)
}

/// The colors of a page.
pub open spec fn page_paint(color: PageColor, second_line: bool) -> spec_fn(Index) -> Paint {
    |i: Index|
        Paint::Solid(
            if i < 16 {
                page_index(color, second_line, i)
            } else {
                i
            },
        )
}

pub open spec fn plain_paint() -> spec_fn(Index) -> Paint {
    |i: Index| Paint::Solid(i)
}

pub open spec fn check_paint(hovered: bool) -> spec_fn(Index) -> Paint {
    |i: Index|
        Paint::Solid(
            if hovered {
                GUNMETAL
            } else {
                i
            },
        )
}

/// The pictures of the notebook.
pub struct PageArt<'a> {
    pub pages: &'a Vec<Sprite>,
    pub checkboxes: &'a Sprite,
    pub checks: &'a Sprite,
    pub pencil_shadow: &'a Sprite,
    pub palette: &'a Palette,
}

pub open spec fn drawable(sprite: &Sprite) -> bool {
    sprite.wf() && sprite.width <= span() && sprite.height <= span()
}

impl<'a> PageArt<'a> {
    pub open spec fn wf(&self) -> bool {
        &&& self.pages@.len() == PAGE_IMAGES
        &&& forall|i: int| 0 <= i < PAGE_IMAGES ==> drawable(#[trigger] &self.pages@[i])
        &&& drawable(self.checkboxes)
        &&& drawable(self.checks)
        &&& drawable(self.pencil_shadow)
        &&& self.palette.wf()
        &&& self.palette.colors().len() > 0
    }
}

/// The color of a page's shadow on a pixel.
pub open spec fn shadow_of(page: PageCard, art: PageArt<'_>, px: int, py: int) -> Option<Rgb> {
    let image = &art.pages@[page.image as int];
    recolored(
        image,
        whole(image),
        page.x + SHADOW_X_OFFSET,
        page.y + SHADOW_Y_OFFSET,
        shadow_paint(),
        art.palette,
        px,
        py,
    )
}

/// The color of a page on a pixel; one that lies below another has its boxes
/// on it.
pub open spec fn page_of(page: PageCard, art: PageArt<'_>, front: bool, px: int, py: int) -> Option<
    Rgb,
> {
    let image = &art.pages@[page.image as int];
    let boxes = recolored(
        art.checkboxes,
        whole(art.checkboxes),
        page.x as int,
        page.y as int,
        plain_paint(),
        art.palette,
        px,
        py,
    );
    if !front && boxes is Some {
        boxes
    } else {
        recolored(
            image,
            whole(image),
            page.x as int,
            page.y as int,
            page_paint(page_color(page.section as int), false),
            art.palette,
            px,
            py,
        )
    }
}

pub open spec fn in_stack(page: PageCard) -> bool {
    page.image < PAGE_IMAGES && page.x <= span() && page.y <= span()
}

pub fn draw_page_shadow(fb: &mut Framebuffer, page: PageCard, art: &PageArt<'_>)
    requires
        old(fb).wf(),
        art.wf(),
        in_stack(page),
    ensures
        final(fb).wf(),
        final(fb).same_size(old(fb)),
        forall|px: int, py: int|
            final(fb).has(px, py) ==> #[trigger] final(fb).color_at(px, py) == over(
                shadow_of(page, *art, px, py),
                old(fb).color_at(px, py),
            ),
{
    let image = &art.pages[page.image];
    assert(drawable(&art.pages@[page.image as int]));
    let swap = Swap::uniform(Paint::Solid(PINE));
    draw_recolored(
        fb,
        image,
        Rect::new(0, 0, image.width, image.height),
        page.x + SHADOW_X_OFFSET,
        page.y + SHADOW_Y_OFFSET,
        art.palette,
        &swap,
        Ghost(shadow_paint()),
    );
}

fn swap_for(color: PageColor, second_line: bool) -> (r: Swap)
    ensures
        paints_as(&r, page_paint(color, second_line)),
{
    let indices = page_swap(color, second_line);
    let swap = Swap::from_indices(indices.as_slice());
    proof {
        let paint = page_paint(color, second_line);
        assert forall|i: Index| i != TRANSPARENT implies #[trigger] swap.paint_of(i) == paint(
            i,
        ) by {
            if i < 16 {
                assert(swap.paints()[i as int] == Paint::Solid(indices@[i as int]));
            }
        }
    }
    swap
}

/// Draws a page in its priority's colors, and its boxes if it is not the front
/// one.
pub fn draw_page_image(fb: &mut Framebuffer, page: PageCard, art: &PageArt<'_>, front: bool)
    requires
        old(fb).wf(),
        art.wf(),
        in_stack(page),
    ensures
        final(fb).wf(),
        final(fb).same_size(old(fb)),
        forall|px: int, py: int|
            final(fb).has(px, py) ==> #[trigger] final(fb).color_at(px, py) == over(
                page_of(page, *art, front, px, py),
                old(fb).color_at(px, py),
            ),
{
    let image = &art.pages[page.image];
    assert(drawable(&art.pages@[page.image as int]));
    let color = section_color(page.section);
    let swap = swap_for(color, false);
    draw_recolored(
        fb,
        image,
        Rect::new(0, 0, image.width, image.height),
        page.x,
        page.y,
        art.palette,
        &swap,
        Ghost(page_paint(color, false)),
    );
    let ghost bare = *fb;
    if !front {
        let plain = Swap::identity();
        draw_recolored(
            fb,
            art.checkboxes,
            Rect::new(0, 0, art.checkboxes.width, art.checkboxes.height),
            page.x,
            page.y,
            art.palette,
            &plain,
            Ghost(plain_paint()),
        );
    }
    proof {
        assert forall|px: int, py: int| fb.has(px, py) implies #[trigger] fb.color_at(px, py)
            == over(page_of(page, *art, front, px, py), old(fb).color_at(px, py)) by {
            assert(bare.has(px, py));
            assert(bare.color_at(px, py) == bare.color_at(px, py));
        }
    }
}

/// What the first `n` pages of the stack leave of their shadows on a pixel.
pub open spec fn shadows_over(
    v: NotebookView,
    n: int,
    art: PageArt<'_>,
    base: Rgba,
    px: int,
    py: int,
) -> Rgba
    decreases n,
{
    if n <= 0 {
        base
    } else {
        over(
            shadow_of(card(v, page_total(v.lists) - n), art, px, py),
            shadows_over(v, n - 1, art, base, px, py),
        )
    }
}

/// What the first `n` pages of the stack, from the lowest on, show on a pixel.
pub open spec fn pages_over(
    v: NotebookView,
    n: int,
    art: PageArt<'_>,
    base: Rgba,
    px: int,
    py: int,
) -> Rgba
    decreases n,
{
    if n <= 0 {
        base
    } else {
        let depth = page_total(v.lists) - n;
        over(
            page_of(card(v, depth), art, depth == 0, px, py),
            pages_over(v, n - 1, art, base, px, py),
        )
    }
}

impl Toodle {
    /// Draws the stack of pages on an empty canvas: all shadows, then the
    /// pages from the lowest to the front one.
    #[verifier::spinoff_prover]
    pub fn build_page_art(&self, fb: &mut Framebuffer, art: &PageArt<'_>)
        requires
            old(fb).wf(),
            self.wf(),
            art.wf(),
        ensures
            final(fb).wf(),
            final(fb).same_size(old(fb)),
            forall|px: int, py: int|
                final(fb).has(px, py) ==> #[trigger] final(fb).color_at(px, py) == pages_over(
                    self@,
                    page_total(self@.lists),
                    *art,
                    shadows_over(
                        self@,
                        page_total(self@.lists),
                        *art,
                        see_through(art.palette.color_of(BACKGROUND)),
                        px,
                        py,
                    ),
                    px,
                    py,
                ),
    {
        fb.clear(art.palette.color(BACKGROUND).transparent());
        let ghost empty = see_through(art.palette.color_of(BACKGROUND));
        let total: usize = self.logical_page_count();
        let pages = self.page_stack();
        let mut i: usize = 0;
        while i < pages.len()
            invariant
                fb.wf(),
                fb.same_size(old(fb)),
                art.wf(),
                i <= pages@.len(),
                total <= 16,
                pages@.len() == total,
                total == page_total(self@.lists),
                forall|k: int|
                    0 <= k < pages@.len() ==> #[trigger] pages@[k] == card(
                        self@,
                        pages@.len() - 1 - k,
                    ),
                forall|px: int, py: int|
                    fb.has(px, py) ==> #[trigger] fb.color_at(px, py) == shadows_over(
                        self@,
                        i as int,
                        *art,
                        empty,
                        px,
                        py,
                    ),
            decreases pages@.len() - i,
        {
            let ghost before = *fb;
            assert(pages@[i as int] == card(self@, total - 1 - i));
            draw_page_shadow(fb, pages[i], art);
            proof {
                assert forall|px: int, py: int| fb.has(px, py) implies #[trigger] fb.color_at(
                    px,
                    py,
                ) == shadows_over(self@, i + 1, *art, empty, px, py) by {
                    assert(before.has(px, py));
                    assert(before.color_at(px, py) == before.color_at(px, py));
                }
            }
            i += 1;
        }
        let mut k: usize = 0;
        while k < pages.len()
            invariant
                fb.wf(),
                fb.same_size(old(fb)),
                art.wf(),
                k <= pages@.len(),
                total <= 16,
                pages@.len() == total,
                total == page_total(self@.lists),
                forall|j: int|
                    0 <= j < pages@.len() ==> #[trigger] pages@[j] == card(
                        self@,
                        pages@.len() - 1 - j,
                    ),
                forall|px: int, py: int|
                    fb.has(px, py) ==> #[trigger] fb.color_at(px, py) == pages_over(
                        self@,
                        k as int,
                        *art,
                        shadows_over(self@, total as int, *art, empty, px, py),
                        px,
                        py,
                    ),
            decreases pages@.len() - k,
        {
            let ghost before = *fb;
            assert(pages@[k as int] == card(self@, total - 1 - k));
            draw_page_image(fb, pages[k], art, k + 1 == total);
            proof {
                assert forall|px: int, py: int| fb.has(px, py) implies #[trigger] fb.color_at(
                    px,
                    py,
                ) == pages_over(
                    self@,
                    k + 1,
                    *art,
                    shadows_over(self@, total as int, *art, empty, px, py),
                    px,
                    py,
                ) by {
                    assert(before.has(px, py));
                    assert(before.color_at(px, py) == before.color_at(px, py));
                }
            }
            k += 1;
        }
    }
}

/// The rows of the sheet of boxes that show one line's box.
pub open spec fn box_band(boxes: &Sprite, line: int) -> Rect {
    Rect { x: 0, y: (check_y(line) - 11) as usize, w: boxes.width, h: 22 }
}

/// Draws a line's box out of the sheet of boxes: only the rows around the
/// line, so that its neighbours stay as they are.
pub fn draw_checkbox_box(fb: &mut Framebuffer, line: usize, art: &PageArt<'_>)
    requires
        old(fb).wf(),
        art.wf(),
        line < LINE_COUNT,
    ensures
        final(fb).wf(),
        final(fb).same_size(old(fb)),
        forall|px: int, py: int|
            final(fb).has(px, py) ==> #[trigger] final(fb).color_at(px, py) == over(
                recolored(
                    art.checkboxes,
                    box_band(art.checkboxes, line as int),
                    PAGE_OFFSET_X as int,
                    check_y(line as int) - 11,
                    plain_paint(),
                    art.palette,
                    px,
                    py,
                ),
                old(fb).color_at(px, py),
            ),
{
    let top: usize = 60 + 22 * line;
    let swap = Swap::identity();
    draw_recolored(
        fb,
        art.checkboxes,
        Rect::new(0, top, art.checkboxes.width, 22),
        PAGE_OFFSET_X,
        top,
        art.palette,
        &swap,
        Ghost(plain_paint()),
    );
}

/// Draws the check mark of a line of the front page; the sheet has several,
/// and the priority and the line pick one. Under the eraser it is gray.
pub fn draw_check(
    fb: &mut Framebuffer,
    section: usize,
    line: usize,
    hovered: bool,
    art: &PageArt<'_>,
)
    requires
        old(fb).wf(),
        art.wf(),
        section < 4,
        line < LINE_COUNT,
    ensures
        final(fb).wf(),
        final(fb).same_size(old(fb)),
        forall|px: int, py: int|
            final(fb).has(px, py) ==> #[trigger] final(fb).color_at(px, py) == over(
                recolored(
                    art.checks,
                    Rect { x: ((section + line) % 4 * 16) as usize, y: 0, w: 16, h: 16 },
                    PAGE_OFFSET_X + CHECK_X - 1,
                    check_y(line as int) - 4,
                    check_paint(hovered),
                    art.palette,
                    px,
                    py,
                ),
                old(fb).color_at(px, py),
            ),
{
    let src = Rect::new((section + line) % CHECK_VARIANTS * 16, 0, 16, 16);
    let swap = if hovered {
        Swap::uniform(Paint::Solid(GUNMETAL))
    } else {
        Swap::identity()
    };
    draw_recolored(
        fb,
        art.checks,
        src,
        PAGE_OFFSET_X + CHECK_X - 1,
        67 + 22 * line,
        art.palette,
        &swap,
        Ghost(check_paint(hovered)),
    );
}

/// Draws the shadow of the pencil in the colors of a page.
pub fn draw_pencil_shadow(
    fb: &mut Framebuffer,
    x: usize,
    y: usize,
    color: PageColor,
    second_line: bool,
    art: &PageArt<'_>,
)
    requires
        old(fb).wf(),
        art.wf(),
        x <= isize::MAX / 128,
        y <= isize::MAX / 128,
    ensures
        final(fb).wf(),
        final(fb).same_size(old(fb)),
        forall|px: int, py: int|
            final(fb).has(px, py) ==> #[trigger] final(fb).color_at(px, py) == over(
                recolored(
                    art.pencil_shadow,
                    whole(art.pencil_shadow),
                    x as int,
                    y as int,
                    page_paint(color, second_line),
                    art.palette,
                    px,
                    py,
                ),
                old(fb).color_at(px, py),
            ),
{
    let swap = swap_for(color, second_line);
    draw_recolored(
        fb,
        art.pencil_shadow,
        Rect::new(0, 0, art.pencil_shadow.width, art.pencil_shadow.height),
        x,
        y,
        art.palette,
        &swap,
        Ghost(page_paint(color, second_line)),
    );
}

/// How a line of the front page looks.
#[derive(Clone, Copy, Debug, PartialEq, Eq, Structural)]
pub struct LineLook {
    /// A box stands before it.
    pub boxed: bool,
    pub checked: bool,
    /// The dice has landed on it: it is written twice, side by side.
    pub bold: bool,
    pub ink: Index,
    /// It is being edited, so that a selection shows.
    pub edited: bool,
}

/// The picture of a priority.
#[derive(Clone, Copy, Debug, PartialEq, Eq, Structural)]
pub enum PriorityIcon {
    Urgent,
    Frog,
    Snail,
}

pub open spec fn icon_of(color: PageColor) -> Option<PriorityIcon> {
    match color {
        PageColor::Pink => Some(PriorityIcon::Urgent),
        PageColor::Yellow => None,
        PageColor::Green => Some(PriorityIcon::Frog),
        PageColor::Blue => Some(PriorityIcon::Snail),
    }
}

/// Where the pencil and its shadow go.
#[derive(Clone, Copy, Debug, PartialEq, Eq, Structural)]
pub struct PencilPlace {
    pub x: usize,
    pub y: usize,
    /// Whether there is room for a shadow.
    pub shadow: bool,
    pub second_line: bool,
    pub color: PageColor,
}

proof fn lemma_number_is_short(n: nat)
    requires
        n <= u64::MAX,
    ensures
        decimal(n).len() <= 20,
{
    reveal_with_fuel(decimal, 21);
}

/// Half of what is left of a room.
pub open spec fn room(outer: int, inner: int) -> int {
    if outer < inner {
        0
    } else {
        (outer - inner) / 2
    }
}

impl Toodle {
    pub open spec fn looks(&self, line: int) -> LineLook {
        let item = self@.front_item(line);
        let edited = self@.focus == Some(line);
        let (section, page) = self@.front();
        let bold = self@.highlight == Some((section, page, line));
        LineLook {
            boxed: item.is_checkbox && (edited || item.checked || item.text.len() > 0),
            checked: item.checked,
            bold,
            ink: if bold {
                CRIMSON
            } else if item.checked && self@.hovered {
                GUNMETAL
            } else {
                BLACK
            },
            edited,
        }
    }

    /// How a line of the front page is drawn.
    pub fn line_look(&self, line: usize) -> (r: LineLook)
        requires
            self.wf(),
            line < LINE_COUNT,
        ensures
            r == self.looks(line as int),
    {
        let PageRef { section, page } = self.front_page_ref();
        let item = self.todos[section].item(page, line);
        let edited = match self.focused_line {
            Some(focused) => focused == line,
            None => false,
        };
        let bold = match self.highlighted {
            Some((s, p, l)) => s == section && p == page && l == line,
            None => false,
        };
        LineLook {
            boxed: item.renders_checkbox(edited),
            checked: item.checked,
            bold,
            ink: if bold {
                CRIMSON
            } else if item.checked && self.eraser_hovered {
                GUNMETAL
            } else {
                BLACK
            },
            edited,
        }
    }

    pub fn priority_icon(&self) -> (r: Option<PriorityIcon>)
        requires
            self.wf(),
        ensures
            r == icon_of(page_color(self@.top().0)),
    {
        match section_color(self.current_page_ref().section) {
            PageColor::Pink => Some(PriorityIcon::Urgent),
            PageColor::Yellow => None,
            PageColor::Green => Some(PriorityIcon::Frog),
            PageColor::Blue => Some(PriorityIcon::Snail),
        }
    }

    /// Where the picture of the priority goes: beside the eraser.
    pub fn priority_icon_place(&self) -> (r: (usize, usize))
        requires
            self.wf(),
        ensures
            r.0 == ERASER_X + self.art.eraser.w + 64,
            r.1 == ERASER_Y + 4,
    {
        (ERASER_X + self.art.eraser.w + 64, ERASER_Y + 4)
    }

    /// The number on the gold star, and the corner of the star.
    pub open spec fn star_x(&self) -> int {
        PAGE_OFFSET_X + self.art.page.w - self.art.goldstar.w
    }

    pub open spec fn star_number(&self) -> int {
        self@.counts[self@.top().0] + done_count(self@.lists[self@.top().0])
    }

    /// The gold star with its number in the middle.
    pub open spec fn star_view(&self, font: &BitmapFont) -> Seq<ShapeView> {
        let number = decimal(self.star_number() as nat);
        seq![
            ShapeView::Picture {
                sprite: 0,
                src: Rect { x: 0, y: 0, w: self.art.goldstar.w, h: self.art.goldstar.h },
                x: self.star_x(),
                y: GOLDSTAR_Y as int,
            },
            ShapeView::Text {
                font: 0,
                text: number,
                x: self.star_x() + room(self.art.goldstar.w as int, font.width_of(number)),
                y: GOLDSTAR_Y + room(self.art.goldstar.h as int, font.spec.cell_h as int),
                color: BLACK,
            },
        ]
    }

    pub fn goldstar_shapes(&self, font: &BitmapFont) -> (r: Vec<Shape>)
        requires
            self.wf(),
            font.wf(),
            self.star_number() <= usize::MAX,
        ensures
            shape_views(r@) == self.star_view(font),
    {
        let star_x: isize = PAGE_OFFSET_X as isize + self.art.page.w as isize
            - self.art.goldstar.w as isize;
        let count: usize = self.goldstar_count();
        let digits = decimal_chars(count as u64);
        proof {
            lemma_number_is_short(count as nat);
        }
        let number = from_chars(&digits);
        let text_w: usize = font.text_width(number.as_str());
        let wide: usize = if self.art.goldstar.w < text_w {
            0
        } else {
            (self.art.goldstar.w - text_w) / 2
        };
        let text_h: usize = font.cell_h();
        let high: usize = if self.art.goldstar.h < text_h {
            0
        } else {
            (self.art.goldstar.h - text_h) / 2
        };
        let mut out: Vec<Shape> = Vec::new();
        out.push(
            Shape::Picture {
                sprite: 0,
                src: Rect::new(0, 0, self.art.goldstar.w, self.art.goldstar.h),
                x: star_x,
                y: GOLDSTAR_Y as isize,
            },
        );
        out.push(
            Shape::Text {
                font: 0,
                text: number,
                x: star_x + wide as isize,
                y: (GOLDSTAR_Y + high) as isize,
                color: BLACK,
            },
        );
        assert(shape_views(out@) =~= self.star_view(font));
        out
    }

    /// Where the pencil goes while a line is edited.
    pub open spec fn pencil_goes(
        &self,
        cursor_x: usize,
        cursor_y: usize,
        lines: usize,
        r: Option<PencilPlace>,
    ) -> bool {
        r == (match self@.focus {
            None => None::<PencilPlace>,
            Some(line) => Some(
                PencilPlace {
                    x: cursor_x,
                    y: if cursor_y > 24 {
                        (cursor_y - 24) as usize
                    } else {
                        0
                    },
                    shadow: if line == 4 {
                        self@.top_item(line).text.len() <= 17
                    } else if line == 5 {
                        self@.top_item(line).text.len() <= 14
                    } else {
                        true
                    },
                    second_line: line == LINE_COUNT - 1 || lines > 1,
                    color: page_color(self@.top().0),
                },
            ),
        })
    }

    /// Where the pencil goes while a line is edited: its tip at the cursor,
    /// which stands at a place in a text of some lines. The last line's shadow
    /// falls as that of a second line does.
    pub fn focused_pencil_position(&self, cursor_x: usize, cursor_y: usize, lines: usize) -> (r:
        Option<PencilPlace>)
        requires
            self.wf(),
        ensures
            self.pencil_goes(cursor_x, cursor_y, lines, r),
    {
        match self.focused_line {
            None => None,
            Some(line) => Some(
                PencilPlace {
                    x: cursor_x,
                    y: if cursor_y > 24 {
                        cursor_y - 24
                    } else {
                        0
                    },
                    shadow: self.should_draw_pencil_shadow(line),
                    second_line: line == LINE_COUNT - 1 || lines > 1,
                    color: section_color(self.current_page_ref().section),
                },
            ),
        }
    }
}

/// A picture in other colors has each of its pixels at its own place in the color
/// that is given for it; what is transparent, or outside of the picture, shows
/// nothing.
pub proof fn lemma_recolored_is(
    sprite: &Sprite,
    src: Rect,
    x: int,
    y: int,
    paint: spec_fn(Index) -> Paint,
    palette: &Palette,
    col: int,
    row: int,
)
    ensures
        ({
            let inside = 0 <= col < src.w && src.x + col < sprite.width && 0 <= row < src.h && src.y
                + row < sprite.height;
            let index = sprite.index_at(src.x + col, src.y + row);
            let color = recolored(sprite, src, x, y, paint, palette, x + col, y + row);
            &&& !inside ==> color is None
            &&& inside && index == 255 ==> color is None
            &&& inside && index != 255 ==> color == palette.resolved_paint(
                paint(index),
                (x + col) as nat,
                (y + row) as nat,
            )
        }),
{
}

/// The colors that the parts of the notebook are drawn in: a shadow all in pine, a
/// page in those of its section, a check mark in gunmetal while the eraser waits for
/// it.
pub proof fn lemma_notebook_paints(i: Index, color: PageColor, second_line: bool)
    ensures
        shadow_paint()(i) == Paint::Solid(14),
        plain_paint()(i) == Paint::Solid(i),
        check_paint(true)(i) == Paint::Solid(1),
        check_paint(false)(i) == Paint::Solid(i),
        i < 16 ==> page_paint(color, second_line)(i) == Paint::Solid(
            page_index(color, second_line, i),
        ),
        i >= 16 ==> page_paint(color, second_line)(i) == Paint::Solid(i),
{
}

/// The stack is painted from its last page to its first, all shadows before all
/// pages; each page's shadow lies one column to the right and four rows below it.
pub proof fn lemma_stack_is(
    v: NotebookView,
    n: int,
    art: PageArt<'_>,
    base: Rgba,
    px: int,
    py: int,
)
    requires
        0 <= n < page_total(v.lists),
    ensures
        shadows_over(v, 0, art, base, px, py) == base,
        pages_over(v, 0, art, base, px, py) == base,
        ({
            let depth = page_total(v.lists) - n - 1;
            let page = card(v, depth);
            let image = &art.pages@[page.image as int];
            let shadow = recolored(
                image,
                Rect { x: 0, y: 0, w: image.width, h: image.height },
                page.x + 1,
                page.y + 4,
                |i: Index| Paint::Solid(14u8),
                art.palette,
                px,
                py,
            );
            &&& shadow matches Some(color) ==> shadows_over(v, n + 1, art, base, px, py) == opaque(
                color,
            )
            &&& shadow is None ==> shadows_over(v, n + 1, art, base, px, py) == shadows_over(
                v,
                n,
                art,
                base,
                px,
                py,
            )
            &&& page_of(page, art, depth == 0, px, py) matches Some(color) ==> pages_over(
                v,
                n + 1,
                art,
                base,
                px,
                py,
            ) == opaque(color)
            &&& page_of(page, art, depth == 0, px, py) is None ==> pages_over(
                v,
                n + 1,
                art,
                base,
                px,
                py,
            ) == pages_over(v, n, art, base, px, py)
        }),
{
    let depth = page_total(v.lists) - n - 1;
    assert(shadow_paint() =~= (|i: Index| Paint::Solid(14u8)));
    assert(card(v, page_total(v.lists) - (n + 1)) == card(v, depth));
}

/// A page is drawn in its section's color; those behind the front one have their
/// boxes drawn over it.
pub proof fn lemma_page_of_is(page: PageCard, art: PageArt<'_>, px: int, py: int)
    ensures
        ({
            let image = &art.pages@[page.image as int];
            let paper = recolored(
                image,
                Rect { x: 0, y: 0, w: image.width, h: image.height },
                page.x as int,
                page.y as int,
                page_paint(page_color(page.section as int), false),
                art.palette,
                px,
                py,
            );
            let boxes = recolored(
                art.checkboxes,
                Rect { x: 0, y: 0, w: art.checkboxes.width, h: art.checkboxes.height },
                page.x as int,
                page.y as int,
                plain_paint(),
                art.palette,
                px,
                py,
            );
            &&& page_of(page, art, true, px, py) == paper
            &&& boxes is Some ==> page_of(page, art, false, px, py) == boxes
            &&& boxes is None ==> page_of(page, art, false, px, py) == paper
        }),
{
}

/// A line shows a box when it has one and is edited, checked or written on. It is
/// drawn in crimson and bold where the dice fell on it, in gunmetal where the eraser
/// waits for it, and else in black.
pub proof fn lemma_lines_look(notebook: &Toodle, line: int)
    ensures
        ({
            let item = notebook@.front_item(line);
            let (section, page) = notebook@.front();
            let look = notebook.looks(line);
            let rolled = notebook@.highlight == Some((section, page, line));
            &&& look.checked == item.checked
            &&& look.edited <==> notebook@.focus == Some(line)
            &&& look.boxed <==> item.is_checkbox && (notebook@.focus == Some(line) || item.checked
                || item.text.len() > 0)
            &&& look.bold <==> rolled
            &&& rolled ==> look.ink == 9
            &&& !rolled && item.checked && notebook@.hovered ==> look.ink == 1
            &&& !rolled && !(item.checked && notebook@.hovered) ==> look.ink == 15
        }),
{
}

/// The icons of the pages, and where a line's box is cut from the sheet of boxes.
pub proof fn lemma_icons_and_bands(color: PageColor, boxes: &Sprite, line: int)
    requires
        0 <= line < 6,
    ensures
        icon_of(PageColor::Pink) == Some(PriorityIcon::Urgent),
        icon_of(PageColor::Green) == Some(PriorityIcon::Frog),
        icon_of(PageColor::Blue) == Some(PriorityIcon::Snail),
        icon_of(PageColor::Yellow) is None,
        box_band(boxes, line).x == 0,
        box_band(boxes, line).y == 60 + 22 * line,
        box_band(boxes, line).w == boxes.width,
        box_band(boxes, line).h == 22,
{
}

/// The star stands at the page's right edge and has in its middle how much was done
/// today: what was before, and what is checked now.
pub proof fn lemma_star_is(notebook: &Toodle, font: &BitmapFont)
    ensures
        ({
            let section = notebook@.top().0;
            let number = notebook@.counts[section] + crate::todo::done_texts(
                notebook@.lists[section],
            ).len();
            let s = notebook.star_view(font);
            &&& notebook.star_number() == number
            &&& notebook.star_x() + notebook.art.goldstar.w == 14 + notebook.art.page.w
            &&& s.len() == 2
            &&& s[0] == (ShapeView::Picture {
                sprite: 0,
                src: Rect { x: 0, y: 0, w: notebook.art.goldstar.w, h: notebook.art.goldstar.h },
                x: notebook.star_x(),
                y: 24,
            })
            &&& s[1] matches ShapeView::Text { font: f, text, x, y, color } && f == 0 && text
                == decimal(number as nat) && color == 15 && x == notebook.star_x() + room(
                notebook.art.goldstar.w as int,
                font.width_of(text),
            ) && y == 24 + room(notebook.art.goldstar.h as int, font.spec.cell_h as int)
        }),
        forall|outer: int, inner: int|
            inner <= outer ==> 2 * (#[trigger] room(outer, inner)) <= outer - inner <= 2 * room(
                outer,
                inner,
            ) + 1,
{
}

/// Without a focused line there is no pencil. With one its tip is at the cursor, the
/// pencil twenty-four rows higher but not above the page, in the color of the page on
/// top; its shadow is that of a second line on the last line or in a text of more than
/// one.
pub proof fn lemma_pencil_goes(
    notebook: &Toodle,
    cursor_x: usize,
    cursor_y: usize,
    lines: usize,
    r: Option<PencilPlace>,
)
    requires
        notebook.pencil_goes(cursor_x, cursor_y, lines, r),
    ensures
        notebook@.focus is None <==> r is None,
        r matches Some(pencil) ==> {
            let line = notebook@.focus->0;
            &&& pencil.x == cursor_x
            &&& cursor_y >= 24 ==> pencil.y + 24 == cursor_y
            &&& cursor_y < 24 ==> pencil.y == 0
            &&& pencil.second_line <==> line == 5 || lines >= 2
            &&& line < 4 ==> pencil.shadow
            &&& line == 4 ==> (pencil.shadow <==> notebook@.top_item(4).text.len() <= 17)
            &&& line == 5 ==> (pencil.shadow <==> notebook@.top_item(5).text.len() <= 14)
            &&& pencil.color == page_color(notebook@.top().0)
        },
{
}

} // verus!
