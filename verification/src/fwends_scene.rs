//! How the chat with the fwends is drawn.
use vstd::prelude::*;

use crate::chars::{same_text, string_views};
use crate::chat::{model_views, Model, ModelView};
use crate::framebuffer::{drawn, Framebuffer};
use crate::fwends::{
    chat_room, content, input_top, layout_views, lemma_content_is_last, lemma_lines_fit,
    lemma_stacked_height, less, Fwends, LayoutView, CHAT_Y, LINE_H, SMOL_ICON_SIZE, W,
};
use crate::graphics::{
    lemma_place, opaque, span, Index, Paint, Palette, Rect, Rgb, Rgba, Sprite, Swap, TRANSPARENT,
};
use crate::palette_color::{BLACK, CRIMSON, LIME, PEACH, PLUM, ROSE};
use crate::scene::{in_ellipse, lemma_ellipse_terms};
use crate::stretch::{draw_mapped, mapped, sources};
use crate::text::font::{draws, BitmapFont};

verus! {

/// The icon of the first of some fwends that has a name.
pub open spec fn icon_of(models: Seq<ModelView>, name: Seq<char>) -> Option<int>
    decreases models.len(),
{
    if models.len() == 0 {
        None
    } else if models[0].name == name {
        Some(models[0].icon)
    } else {
        icon_of(models.skip(1), name)
    }
}

/// Where a fwend's small icon is on the sheet of two columns.
pub open spec fn icon_rect(models: Seq<ModelView>, name: Seq<char>) -> Option<Rect> {
    match icon_of(models, name) {
        Some(icon) => Some(
            Rect {
                x: (icon % 2 * 11) as usize,
                y: (icon / 2 * 11) as usize,
                w: SMOL_ICON_SIZE,
                h: SMOL_ICON_SIZE,
            },
        ),
        None => None,
    }
}

pub fn smol_icon_rect(models: &Vec<Model>, name: &str) -> (r: Option<Rect>)
    requires
        forall|i: int| 0 <= i < models@.len() ==> (#[trigger] models@[i]).icon_index <= span(),
    ensures
        r == icon_rect(model_views(models@), name@),
{
    let ghost all = model_views(models@);
    let mut i: usize = 0;
    assert(all.skip(0) =~= all);
    while i < models.len()
        invariant
            i <= models@.len(),
            all == model_views(models@),
            forall|j: int| 0 <= j < models@.len() ==> (#[trigger] models@[j]).icon_index <= span(),
            icon_of(all, name@) == icon_of(all.skip(i as int), name@),
        decreases models@.len() - i,
    {
        assert(all.skip(i as int)[0] == models@[i as int]@);
        if same_text(models[i].name.as_str(), name) {
            let index: usize = models[i].icon_index;
            return Some(
                Rect::new(index % 2 * 11, index / 2 * 11, SMOL_ICON_SIZE, SMOL_ICON_SIZE),
            );
        }
        assert(all.skip(i as int).skip(1) =~= all.skip(i + 1));
        i += 1;
    }
    None
}

/// What a color of the lamp is in shadow.
pub open spec fn in_shadow(index: Index) -> Index {
    if index == ROSE || index == PEACH {
        CRIMSON
    } else if index == PLUM {
        BLACK
    } else if index == CRIMSON {
        PLUM
    } else {
        index
    }
}

/// The shadow that falls on a pixel of the lamp.
pub open spec fn lamp_shadow(
    lamp: &Sprite,
    lamp_x: int,
    lamp_y: int,
    px: int,
    py: int,
    palette: &Palette,
) -> Option<Rgb> {
    if lamp_x <= px < lamp_x + lamp.width && lamp_y <= py < lamp_y + lamp.height {
        palette.resolved(in_shadow(lamp.index_at(px - lamp_x, py - lamp_y)), px as nat, py as nat)
    } else {
        None
    }
}

pub fn lamp_shadow_color(
    lamp: &Sprite,
    lamp_x: usize,
    lamp_y: usize,
    x: usize,
    y: usize,
    palette: &Palette,
) -> (r: Option<Rgb>)
    requires
        lamp.wf(),
        palette.wf(),
        palette.colors().len() > 0,
    ensures
        r == lamp_shadow(lamp, lamp_x as int, lamp_y as int, x as int, y as int, palette),
{
    if x < lamp_x || y < lamp_y || x - lamp_x >= lamp.width || y - lamp_y >= lamp.height {
        return None;
    }
    proof {
        lemma_place(lamp.width as int, lamp.height as int, x - lamp_x, y - lamp_y);
    }
    let index: Index = lamp.at(x - lamp_x, y - lamp_y);
    let mapped: Index = if index == ROSE || index == PEACH {
        CRIMSON
    } else if index == PLUM {
        BLACK
    } else if index == CRIMSON {
        PLUM
    } else {
        index
    };
    palette.resolve(mapped, x, y)
}

/// Half of a width, rounded up, and at least one.
pub open spec fn radius_of(diameter: int) -> int {
    if diameter < 2 {
        1
    } else {
        (diameter + 1) / 2
    }
}

fn in_oval(dx: i128, dy: i128, rx: i128, ry: i128) -> (r: bool)
    requires
        0 < rx,
        0 < ry,
        rx * ry <= isize::MAX / 2,
        -rx <= dx <= rx,
        -ry <= dy <= ry,
    ensures
        r == in_ellipse(dx as int, dy as int, rx as int, ry as int),
{
    proof {
        lemma_ellipse_terms(dx as int, dy as int, rx as int, ry as int);
    }
    let (dx2, dy2): (i128, i128) = (dx * dx, dy * dy);
    let (rx2, ry2): (i128, i128) = (rx * rx, ry * ry);
    dx2 * ry2 + dy2 * rx2 <= rx2 * ry2
}

proof fn lemma_oval_is_bounded(dx: int, dy: int, rx: int, ry: int)
    requires
        in_ellipse(dx, dy, rx, ry),
    ensures
        -rx <= dx <= rx,
        -ry <= dy <= ry,
{
    assert(-rx <= dx <= rx && -ry <= dy <= ry) by (nonlinear_arith)
        requires
            rx > 0,
            ry > 0,
            (dx * dx) * (ry * ry) + (dy * dy) * (rx * rx) <= (rx * rx) * (ry * ry),
    {
        if dx > rx || dx < -rx {
            assert(dx * dx > rx * rx);
            assert((dx * dx) * (ry * ry) > (rx * rx) * (ry * ry));
            assert((dy * dy) * (rx * rx) >= 0);
        }
        if dy > ry || dy < -ry {
            assert(dy * dy > ry * ry);
            assert((dy * dy) * (rx * rx) > (ry * ry) * (rx * rx));
            assert((dx * dx) * (ry * ry) >= 0);
        }
    }
}

/// Draws the shadow of a fwend onto the lamp behind it: an ellipse, only where
/// the lamp is.
#[verifier::spinoff_prover]
pub fn draw_lamp_masked_ellipse(
    fb: &mut Framebuffer,
    center_x: usize,
    center_y: usize,
    diameter_w: usize,
    diameter_h: usize,
    palette: &Palette,
    lamp: &Sprite,
    lamp_x: usize,
    lamp_y: usize,
)
    requires
        old(fb).wf(),
        lamp.wf(),
        palette.wf(),
        palette.colors().len() > 0,
        diameter_w <= isize::MAX / 8,
        diameter_h <= isize::MAX / 8,
        radius_of(diameter_w as int) * radius_of(diameter_h as int) <= isize::MAX / 2,
        center_x <= isize::MAX / 8,
        center_y <= isize::MAX / 8,
    ensures
        final(fb).wf(),
        final(fb).same_size(old(fb)),
        forall|px: int, py: int|
            final(fb).has(px, py) ==> #[trigger] final(fb).color_at(px, py) == (if in_ellipse(
                px - center_x,
                py - center_y,
                radius_of(diameter_w as int),
                radius_of(diameter_h as int),
            ) {
                match lamp_shadow(lamp, lamp_x as int, lamp_y as int, px, py, palette) {
                    Some(color) => opaque(color),
                    None => old(fb).color_at(px, py),
                }
            } else {
                old(fb).color_at(px, py)
            }),
{
    let rx: usize = if diameter_w < 2 {
        1
    } else {
        (diameter_w + 1) / 2
    };
    let ry: usize = if diameter_h < 2 {
        1
    } else {
        (diameter_h + 1) / 2
    };
    let left: usize = if center_x > rx {
        center_x - rx
    } else {
        0
    };
    let top: usize = if center_y > ry {
        center_y - ry
    } else {
        0
    };
    let mut y: usize = top;
    proof {
        assert forall|px: int, py: int| py < top && fb.has(px, py) implies !#[trigger] in_ellipse(
            px - center_x,
            py - center_y,
            rx as int,
            ry as int,
        ) by {
            if in_ellipse(px - center_x, py - center_y, rx as int, ry as int) {
                lemma_oval_is_bounded(px - center_x, py - center_y, rx as int, ry as int);
            }
        }
    }
    while y <= center_y + ry
        invariant
            fb.wf(),
            fb.same_size(old(fb)),
            lamp.wf(),
            palette.wf(),
            palette.colors().len() > 0,
            center_x <= isize::MAX / 8,
            center_y <= isize::MAX / 8,
            0 < rx <= isize::MAX / 8,
            0 < ry <= isize::MAX / 8,
            rx * ry <= isize::MAX / 2,
            left == (if center_x > rx {
                center_x - rx
            } else {
                0
            }),
            top == (if center_y > ry {
                center_y - ry
            } else {
                0
            }),
            top <= y <= center_y + ry + 1,
            forall|px: int, py: int|
                fb.has(px, py) ==> #[trigger] fb.color_at(px, py) == (if py < y && in_ellipse(
                    px - center_x,
                    py - center_y,
                    rx as int,
                    ry as int,
                ) {
                    match lamp_shadow(lamp, lamp_x as int, lamp_y as int, px, py, palette) {
                        Some(color) => opaque(color),
                        None => old(fb).color_at(px, py),
                    }
                } else {
                    old(fb).color_at(px, py)
                }),
        decreases center_y + ry + 1 - y,
    {
        let ghost before = *fb;
        let mut x: usize = left;
        proof {
            assert forall|px: int| 0 <= px < left implies !#[trigger] in_ellipse(
                px - center_x,
                y - center_y,
                rx as int,
                ry as int,
            ) by {
                if in_ellipse(px - center_x, y - center_y, rx as int, ry as int) {
                    lemma_oval_is_bounded(px - center_x, y - center_y, rx as int, ry as int);
                }
            }
        }
        while x <= center_x + rx
            invariant
                fb.wf(),
                fb.same_size(&before),
                lamp.wf(),
                palette.wf(),
                palette.colors().len() > 0,
                center_x <= isize::MAX / 8,
                center_y <= isize::MAX / 8,
                0 < rx <= isize::MAX / 8,
                0 < ry <= isize::MAX / 8,
                rx * ry <= isize::MAX / 2,
                left == (if center_x > rx {
                    center_x - rx
                } else {
                    0
                }),
                top == (if center_y > ry {
                    center_y - ry
                } else {
                    0
                }),
                top <= y <= center_y + ry,
                left <= x <= center_x + rx + 1,
                forall|px: int, py: int|
                    fb.has(px, py) ==> #[trigger] fb.color_at(px, py) == (if px < x && py == y
                        && in_ellipse(px - center_x, py - center_y, rx as int, ry as int) {
                        match lamp_shadow(lamp, lamp_x as int, lamp_y as int, px, py, palette) {
                            Some(color) => opaque(color),
                            None => before.color_at(px, py),
                        }
                    } else {
                        before.color_at(px, py)
                    }),
            decreases center_x + rx + 1 - x,
        {
            let dx: i128 = x as i128 - center_x as i128;
            let dy: i128 = y as i128 - center_y as i128;
            if in_oval(dx, dy, rx as i128, ry as i128) {
                if let Some(color) = lamp_shadow_color(lamp, lamp_x, lamp_y, x, y, palette) {
                    fb.set_pixel(x, y, Rgba::from(color));
                }
            }
            x += 1;
        }
        proof {
            assert forall|px: int, py: int| fb.has(px, py) implies #[trigger] fb.color_at(px, py)
                == (if py < y + 1 && in_ellipse(
                px - center_x,
                py - center_y,
                rx as int,
                ry as int,
            ) {
                match lamp_shadow(lamp, lamp_x as int, lamp_y as int, px, py, palette) {
                    Some(color) => opaque(color),
                    None => old(fb).color_at(px, py),
                }
            } else {
                old(fb).color_at(px, py)
            }) by {
                assert(before.has(px, py));
                assert(before.color_at(px, py) == before.color_at(px, py));
                if in_ellipse(px - center_x, py - center_y, rx as int, ry as int) {
                    lemma_oval_is_bounded(px - center_x, py - center_y, rx as int, ry as int);
                }
            }
        }
        y += 1;
    }
    proof {
        assert forall|px: int, py: int| fb.has(px, py) && in_ellipse(
            px - center_x,
            py - center_y,
            rx as int,
            ry as int,
        ) implies #[trigger] fb.color_at(px, py) == fb.color_at(px, py) && py < y by {
            lemma_oval_is_bounded(px - center_x, py - center_y, rx as int, ry as int);
        }
    }
}

/// The shadow of the pencil on the yellow note: the tints of the page become
/// the note's.
pub fn yellow_swap() -> (r: Swap)
    ensures
        forall|i: Index|
            i != TRANSPARENT ==> #[trigger] r.paint_of(i) == (if i == LIME || i == ROSE {
                Paint::Solid(PEACH)
            } else {
                Paint::Solid(i)
            }),
{
    let swap = Swap::identity().set(LIME, Paint::Solid(PEACH)).set(ROSE, Paint::Solid(PEACH));
    assert forall|i: Index| i != TRANSPARENT implies #[trigger] swap.paint_of(i) == (if i == LIME
        || i == ROSE {
        Paint::Solid(PEACH)
    } else {
        Paint::Solid(i)
    }) by {
        if i < swap.paints().len() {
            assert(swap.paints()[i as int] == swap.paint_of(i));
        }
    }
    swap
}

/// The columns and rows that a message's picture is stretched over.
pub struct Sources {
    pub columns: Vec<usize>,
    pub rows: Vec<usize>,
}

/// What a chat is drawn with.
pub struct ChatArt<'a> {
    pub bubble: &'a Sprite,
    pub sticky: &'a Sprite,
    pub icons: &'a Sprite,
    pub palette: &'a Palette,
}

impl<'a> ChatArt<'a> {
    pub open spec fn wf(&self) -> bool {
        &&& self.bubble.wf()
        &&& self.sticky.wf()
        &&& self.icons.wf()
        &&& self.icons.width <= span()
        &&& self.icons.height <= span()
        &&& self.palette.wf()
        &&& self.palette.colors().len() > 0
    }

    pub open spec fn picture(&self, layout: LayoutView) -> &'a Sprite {
        if layout.style.sticky {
            self.sticky
        } else {
            self.bubble
        }
    }
}

/// What is on a pixel once the first `n` lines of a text are drawn over it.
/// Lines that do not lie wholly between `top` and `bottom` are left out.
pub open spec fn lines_over(
    font: &BitmapFont,
    lines: Seq<Seq<char>>,
    n: int,
    x: int,
    y: int,
    top: int,
    bottom: int,
    ink: Rgba,
    base: Rgba,
    px: int,
    py: int,
) -> Rgba
    decreases n,
{
    if n <= 0 {
        base
    } else {
        let line_y = y + 16 * (n - 1);
        if top <= line_y && line_y + font.spec.cell_h <= bottom && draws(
            font,
            lines[n - 1],
            lines[n - 1].len() as int,
            x,
            line_y,
            0,
            isize::MAX as int,
            px,
            py,
        ) {
            ink
        } else {
            lines_over(font, lines, n - 1, x, y, top, bottom, ink, base, px, py)
        }
    }
}

fn draw_lines(
    fb: &mut Framebuffer,
    font: &BitmapFont,
    lines: &Vec<String>,
    x: isize,
    y: isize,
    top: isize,
    bottom: isize,
    ink: Rgba,
)
    requires
        old(fb).wf(),
        font.wf(),
        0 <= x <= 4 * span() + 3,
        -(isize::MAX / 8) <= y,
        y + 16 * lines@.len() <= isize::MAX / 8,
        0 <= top <= bottom <= isize::MAX / 8,
        forall|i: int| 0 <= i < lines@.len() ==> (#[trigger] lines@[i])@.len() <= isize::MAX / 256,
    ensures
        final(fb).wf(),
        final(fb).same_size(old(fb)),
        forall|px: int, py: int|
            final(fb).has(px, py) ==> #[trigger] final(fb).color_at(px, py) == lines_over(
                font,
                string_views(lines@),
                lines@.len() as int,
                x as int,
                y as int,
                top as int,
                bottom as int,
                ink,
                old(fb).color_at(px, py),
                px,
                py,
            ),
{
    let ghost all = string_views(lines@);
    let mut line_y: isize = y;
    let mut i: usize = 0;
    while i < lines.len()
        invariant
            fb.wf(),
            fb.same_size(old(fb)),
            font.wf(),
            all == string_views(lines@),
            i <= lines@.len(),
            line_y == y + 16 * i,
            0 <= x <= 4 * span() + 3,
            -(isize::MAX / 8) <= y,
            y + 16 * lines@.len() <= isize::MAX / 8,
            0 <= top <= bottom <= isize::MAX / 8,
            forall|j: int| 0 <= j < lines@.len() ==> (#[trigger] lines@[j])@.len() <= isize::MAX / 256,
            forall|px: int, py: int|
                fb.has(px, py) ==> #[trigger] fb.color_at(px, py) == lines_over(
                    font,
                    all,
                    i as int,
                    x as int,
                    y as int,
                    top as int,
                    bottom as int,
                    ink,
                    old(fb).color_at(px, py),
                    px,
                    py,
                ),
        decreases lines@.len() - i,
    {
        let ghost before = *fb;
        assert(font.spec.cell_h <= span());
        assert(all[i as int] == lines@[i as int]@);
        if line_y >= top && line_y + font.cell_h() as isize <= bottom {
            font.draw_text_at(fb, lines[i].as_str(), x, line_y, ink);
        }
        proof {
            assert forall|px: int, py: int| fb.has(px, py) implies #[trigger] fb.color_at(px, py)
                == lines_over(
                font,
                all,
                i + 1,
                x as int,
                y as int,
                top as int,
                bottom as int,
                ink,
                old(fb).color_at(px, py),
                px,
                py,
            ) by {
                assert(before.has(px, py));
                assert(before.color_at(px, py) == before.color_at(px, py));
            }
        }
        line_y = line_y + LINE_H as isize;
        i += 1;
    }
}

impl Fwends {
    /// Where a message starts in the widget: the messages stand on the input,
    /// as long as there is room above them.
    pub open spec fn message_top(&self, i: int) -> int {
        CHAT_Y + less(chat_room(self.height as int), content(self.placed())) + self.placed()[i].y
            - self.scroll_y
    }

    pub open spec fn chat_bottom(&self) -> int {
        CHAT_Y + chat_room(self.height as int)
    }

    /// Whether anything of a message shows.
    pub open spec fn shows(&self, i: int) -> bool {
        self.message_top(i) < self.chat_bottom() && self.message_top(i) + self.placed()[i].h
            > CHAT_Y
    }

    /// What is on a pixel once a message is drawn over it: its picture, then
    /// the icon of who said it, then its lines.
    pub open spec fn message_over(
        &self,
        i: int,
        art: ChatArt<'_>,
        columns: Seq<usize>,
        rows: Seq<usize>,
        base: Rgba,
        px: int,
        py: int,
    ) -> Rgba {
        let layout = self.placed()[i];
        let top = self.message_top(i);
        if !self.shows(i) {
            base
        } else {
            let boxed = match mapped(
                art.picture(layout),
                columns,
                rows,
                layout.x,
                top,
                CHAT_Y as int,
                self.chat_bottom(),
                art.palette,
                px,
                py,
            ) {
                Some(color) => opaque(color),
                None => base,
            };
            let icon = match layout.author {
                Some(name) => match icon_rect(model_views(self.models@), name) {
                    Some(src) => drawn(
                        art.icons,
                        src,
                        layout.x + layout.w + 2,
                        top + layout.h - 14,
                        1,
                        Some(
                            Rect {
                                x: 0,
                                y: CHAT_Y,
                                w: W,
                                h: chat_room(self.height as int) as usize,
                            },
                        ),
                        art.palette,
                        None,
                        px,
                        py,
                    ),
                    None => None,
                },
                None => None,
            };
            lines_over(
                &self.font,
                layout.lines,
                layout.lines.len() as int,
                layout.x + layout.style.pad_left,
                top + layout.style.pad_top,
                CHAT_Y as int,
                self.chat_bottom(),
                opaque(art.palette.color_of(BLACK)),
                match icon {
                    Some(color) => opaque(color),
                    None => boxed,
                },
                px,
                py,
            )
        }
    }

    /// Whether the columns and rows of a message are those of its picture.
    pub open spec fn stretched(&self, i: int, art: ChatArt<'_>, source: Sources) -> bool {
        &&& source.columns@.len() == self.placed()[i].w
        &&& source.rows@.len() == self.placed()[i].h
        &&& sources(art.picture(self.placed()[i]), source.columns@, source.rows@)
    }

    /// Draws one message.
    #[verifier::spinoff_prover]
    #[verifier::rlimit(30)]
    pub fn draw_message(&self, fb: &mut Framebuffer, i: usize, art: &ChatArt<'_>, source: &Sources)
        requires
            old(fb).wf(),
            self.wf(),
            art.wf(),
            i < self.placed().len(),
            self.stretched(i as int, *art, *source),
        ensures
            final(fb).wf(),
            final(fb).same_size(old(fb)),
            forall|px: int, py: int|
                final(fb).has(px, py) ==> #[trigger] final(fb).color_at(px, py)
                    == self.message_over(
                    i as int,
                    *art,
                    source.columns@,
                    source.rows@,
                    old(fb).color_at(px, py),
                    px,
                    py,
                ),
    {
        proof {
            self.lemma_bounds();
            lemma_stacked_height(&self.font, self.art.left(), self.shown());
            lemma_lines_fit(&self.font, self.art.left(), self.shown(), i as int);
            lemma_content_is_last(&self.font, self.art.left(), self.shown(), i as int);
            assert(layout_views(self.layouts@).len() == self.layouts@.len());
        }
        let layout = &self.layouts[i];
        assert(layout@ == self.placed()[i as int]);
        let room: usize = self.chat_h();
        let high: usize = self.content_height();
        let free: usize = if room < high {
            0
        } else {
            room - high
        };
        let bottom: isize = (CHAT_Y + room) as isize;
        let top: isize = (CHAT_Y + free + layout.y) as isize - self.scroll_y as isize;
        assert(top == self.message_top(i as int));
        if top >= bottom || top + layout.h as isize <= CHAT_Y as isize {
            return;
        }
        let picture = if layout.style.sticky {
            art.sticky
        } else {
            art.bubble
        };
        draw_mapped(
            fb,
            picture,
            &source.columns,
            &source.rows,
            layout.x as isize,
            top,
            CHAT_Y as isize,
            bottom,
            art.palette,
        );
        let ghost boxed = *fb;
        if let Some(name) = &layout.author {
            if let Some(src) = smol_icon_rect(&self.models, name.as_str()) {
                let clip = Rect::new(0, CHAT_Y, W, room);
                assert(art.icons.width * 1 == art.icons.width) by (nonlinear_arith);
                assert(art.icons.height * 1 == art.icons.height) by (nonlinear_arith);
                fb.draw_sprite_full(
                    art.icons,
                    src,
                    (layout.x + layout.w + 2) as isize,
                    top + layout.h as isize - 14,
                    1,
                    Some(clip),
                    art.palette,
                    None,
                );
            }
        }
        let ghost iconed = *fb;
        let ink = Rgba::from(art.palette.color(BLACK));
        proof {
            assert forall|j: int| 0 <= j < layout.lines@.len() implies (
            #[trigger] layout.lines@[j])@.len() <= isize::MAX / 256 by {
                assert(layout@.lines[j] == layout.lines@[j]@);
            }
            assert(layout@.lines.len() == layout.lines@.len());
        }
        draw_lines(
            fb,
            &self.font,
            &layout.lines,
            (layout.x + layout.style.pad_left) as isize,
            top + layout.style.pad_top as isize,
            CHAT_Y as isize,
            bottom,
            ink,
        );
        proof {
            assert forall|px: int, py: int| fb.has(px, py) implies #[trigger] fb.color_at(px, py)
                == self.message_over(
                i as int,
                *art,
                source.columns@,
                source.rows@,
                old(fb).color_at(px, py),
                px,
                py,
            ) by {
                assert(iconed.has(px, py) && boxed.has(px, py));
                assert(iconed.color_at(px, py) == iconed.color_at(px, py));
                assert(boxed.color_at(px, py) == boxed.color_at(px, py));
            }
        }
    }

    /// What is on a pixel once the first `n` messages are drawn over it.
    pub open spec fn messages_over(
        &self,
        n: int,
        art: ChatArt<'_>,
        all: Seq<Sources>,
        base: Rgba,
        px: int,
        py: int,
    ) -> Rgba
        decreases n,
    {
        if n <= 0 {
            base
        } else {
            self.message_over(
                n - 1,
                art,
                all[n - 1].columns@,
                all[n - 1].rows@,
                self.messages_over(n - 1, art, all, base, px, py),
                px,
                py,
            )
        }
    }

    /// Draws the chat.
    pub fn draw_messages(&self, fb: &mut Framebuffer, art: &ChatArt<'_>, all: &Vec<Sources>)
        requires
            old(fb).wf(),
            self.wf(),
            art.wf(),
            all@.len() == self.placed().len(),
            forall|i: int|
                0 <= i < all@.len() ==> self.stretched(i, *art, #[trigger] all@[i]),
        ensures
            final(fb).wf(),
            final(fb).same_size(old(fb)),
            forall|px: int, py: int|
                final(fb).has(px, py) ==> #[trigger] final(fb).color_at(px, py)
                    == self.messages_over(
                    all@.len() as int,
                    *art,
                    all@,
                    old(fb).color_at(px, py),
                    px,
                    py,
                ),
    {
        let mut i: usize = 0;
        while i < all.len()
            invariant
                fb.wf(),
                fb.same_size(old(fb)),
                self.wf(),
                art.wf(),
                i <= all@.len(),
                all@.len() == self.placed().len(),
                forall|j: int|
                    0 <= j < all@.len() ==> self.stretched(j, *art, #[trigger] all@[j]),
                forall|px: int, py: int|
                    fb.has(px, py) ==> #[trigger] fb.color_at(px, py) == self.messages_over(
                        i as int,
                        *art,
                        all@,
                        old(fb).color_at(px, py),
                        px,
                        py,
                    ),
            decreases all@.len() - i,
        {
            let ghost before = *fb;
            self.draw_message(fb, i, art, &all[i]);
            proof {
                assert forall|px: int, py: int| fb.has(px, py) implies #[trigger] fb.color_at(
                    px,
                    py,
                ) == self.messages_over(i + 1, *art, all@, old(fb).color_at(px, py), px, py) by {
                    assert(before.has(px, py));
                    assert(before.color_at(px, py) == before.color_at(px, py));
                }
            }
            i += 1;
        }
    }

    /// Where the picture of the chosen fwend stands: in the middle of its
    /// room, at the bottom.
    pub fn avatar_place(&self, avatar: &Sprite) -> (r: (usize, usize))
        requires
            self.base_wf(),
        ensures
            r.0 == 104 + less(self.art.slot_w as int, avatar.width as int) / 2,
            r.1 == input_top(self.height as int) + 10 + less(
                self.art.slot_h as int,
                avatar.height as int,
            ),
    {
        let wide: usize = if self.art.slot_w < avatar.width {
            0
        } else {
            self.art.slot_w - avatar.width
        };
        let high: usize = if self.art.slot_h < avatar.height {
            0
        } else {
            self.art.slot_h - avatar.height
        };
        (104 + wide / 2, self.input_y() + 10 + high)
    }

    /// Draws the chosen fwend, and its shadow on the lamp.
    pub fn draw_selected_fwend(&self, fb: &mut Framebuffer, avatar: &Sprite, palette: &Palette)
        requires
            old(fb).wf(),
            self.base_wf(),
            avatar.wf(),
            avatar.width <= isize::MAX / 16,
            avatar.height <= isize::MAX / 16,
            radius_of(avatar.width + 10) * radius_of(avatar.height + 9) <= isize::MAX / 2,
            palette.wf(),
            palette.colors().len() > 0,
        ensures
            final(fb).wf(),
            final(fb).same_size(old(fb)),
            ({
                let x = 104 + less(self.art.slot_w as int, avatar.width as int) / 2;
                let y = input_top(self.height as int) + 10 + less(
                    self.art.slot_h as int,
                    avatar.height as int,
                );
                let tall = if avatar.height < 1 {
                    1
                } else {
                    avatar.height as int
                };
                forall|px: int, py: int|
                    final(fb).has(px, py) ==> #[trigger] final(fb).color_at(px, py) == (
                    match drawn(
                        avatar,
                        Rect { x: 0, y: 0, w: avatar.width, h: avatar.height },
                        x,
                        y,
                        1,
                        None,
                        palette,
                        None,
                        px,
                        py,
                    ) {
                        Some(color) => opaque(color),
                        None => if in_ellipse(
                            px - (x + avatar.width / 2),
                            py - (y + avatar.height / 2),
                            radius_of(avatar.width + 10),
                            radius_of(tall + 8),
                        ) {
                            match lamp_shadow(
                                &self.lamp_image(),
                                self.lamp_place().0,
                                self.lamp_place().1,
                                px,
                                py,
                                palette,
                            ) {
                                Some(color) => opaque(color),
                                None => old(fb).color_at(px, py),
                            }
                        } else {
                            old(fb).color_at(px, py)
                        },
                    })
            }),
    {
        let (x, y) = self.avatar_place(avatar);
        let (lamp_x, lamp_y) = self.lamp_position();
        let tall: usize = if avatar.height < 1 {
            1
        } else {
            avatar.height
        };
        proof {
            let (a, b, c) = (
                radius_of(avatar.width + 10),
                radius_of(tall + 8),
                radius_of(avatar.height + 9),
            );
            assert(a * b <= a * c) by (nonlinear_arith)
                requires
                    0 <= a,
                    b <= c,
            ;
        }
        draw_lamp_masked_ellipse(
            fb,
            x + avatar.width / 2,
            y + avatar.height / 2,
            avatar.width + 10,
            tall + 8,
            palette,
            self.shown_lamp(),
            lamp_x,
            lamp_y,
        );
        let ghost shaded = *fb;
        assert(avatar.width * 1 == avatar.width) by (nonlinear_arith);
        assert(avatar.height * 1 == avatar.height) by (nonlinear_arith);
        fb.draw_sprite(avatar, x as isize, y as isize, 1, palette);
        proof {
            assert forall|px: int, py: int| fb.has(px, py) implies shaded.has(px, py)
                && shaded.color_at(px, py) == #[trigger] shaded.color_at(px, py) by {}
        }
    }

    /// Whether the pencil lies on the input: while it can be written on.
    pub fn pencil_shows(&self) -> (r: bool)
        ensures
            r == (self.focused && self.awaiting is None),
    {
        self.focused && self.awaiting.is_none()
    }

    /// What the input says in place of the text.
    pub fn input_notice(&self) -> (r: Option<&'static str>)
        ensures
            match r {
                Some(text) => self.awaiting is Some && text@ == "wait a sec..."@,
                None => self.awaiting is None,
            },
    {
        if self.awaiting.is_some() {
            Some("wait a sec...")
        } else {
            None
        }
    }
}

/// Where the pencil goes so that its tip is at the cursor.
pub fn pencil_place(cursor_x: isize, cursor_y: isize) -> (r: (isize, isize))
    ensures
        r.0 == (if cursor_x > 0 {
            cursor_x as int
        } else {
            0
        }),
        r.1 == (if cursor_y > 24 {
            cursor_y - 24
        } else {
            0
        }),
{
    (
        if cursor_x > 0 {
            cursor_x
        } else {
            0
        },
        if cursor_y > 24 {
            cursor_y - 24
        } else {
            0
        },
    )
}

/// An author's icon is that of the first model of that name, from a sheet of two by
/// two; one that no model has has none.
pub proof fn lemma_icons_are(models: Seq<ModelView>, name: Seq<char>, i: int)
    requires
        0 <= i <= models.len(),
        forall|j: int| 0 <= j < i ==> (#[trigger] models[j]).name != name,
    ensures
        i == models.len() ==> icon_of(models, name) is None && icon_rect(models, name) is None,
        i < models.len() && models[i].name == name ==> icon_of(models, name) == Some(models[i].icon),
        i < models.len() && models[i].name == name && 0 <= models[i].icon < 4 ==> (icon_rect(
            models,
            name,
        ) matches Some(r) && r.w == 11 && r.h == 11 && (r.x == 0 || r.x == 11) && (r.y == 0 || r.y
            == 11) && models[i].icon == (if r.x == 11 {
            1int
        } else {
            0
        }) + (if r.y == 11 {
            2int
        } else {
            0
        })),
    decreases models.len(),
{
    if models.len() > 0 && i > 0 {
        let rest = models.skip(1);
        assert(models[0].name != name);
        assert forall|j: int| 0 <= j < i - 1 implies (#[trigger] rest[j]).name != name by {
            assert(rest[j] == models[j + 1]);
        }
        lemma_icons_are(rest, name, i - 1);
        if i < models.len() {
            assert(rest[i - 1] == models[i]);
        }
    }
}

/// In the lamp's shadow rose and peach become crimson, crimson plum and plum black;
/// the other colors stay.
pub proof fn lemma_shadow_colors(i: Index)
    ensures
        in_shadow(10) == 9,
        in_shadow(4) == 9,
        in_shadow(2) == 15,
        in_shadow(9) == 2,
        i != 10 && i != 4 && i != 2 && i != 9 ==> in_shadow(i) == i,
{
}

/// A radius is half the diameter, rounded up, and never nothing.
pub proof fn lemma_radius_is(diameter: int)
    ensures
        radius_of(diameter) >= 1,
        diameter >= 1 ==> diameter <= 2 * radius_of(diameter) <= diameter + 1,
{
}

/// A message is shown at its place in the chat, which ends at the bottom where it
/// does not fill its room, as far as it is scrolled; and only where it reaches into
/// the chat.
pub proof fn lemma_shown_places(chat: &Fwends, i: int)
    requires
        0 <= i < chat.placed().len(),
        chat.height >= 140,
    ensures
        ({
            let last = chat.placed()[chat.placed().len() - 1];
            let room = chat.height - 140;
            let own = chat.placed()[i];
            &&& last.y + last.h <= room ==> chat.message_top(i) == 8 + (room - (last.y + last.h))
                + own.y - chat.scroll_y
            &&& last.y + last.h > room ==> chat.message_top(i) == 8 + own.y - chat.scroll_y
            &&& chat.shows(i) <==> chat.message_top(i) < 8 + room && chat.message_top(i) + own.h > 8
        }),
{
}

/// The lines of a message stand sixteen rows apart, a later one over an earlier;
/// one that does not fit between the chat's edges is left out.
pub proof fn lemma_lines_stand(
    font: &BitmapFont,
    lines: Seq<Seq<char>>,
    n: int,
    x: int,
    y: int,
    top: int,
    bottom: int,
    ink: Rgba,
    base: Rgba,
    px: int,
    py: int,
)
    requires
        0 <= n < lines.len(),
    ensures
        lines_over(font, lines, 0, x, y, top, bottom, ink, base, px, py) == base,
        ({
            let line_y = y + 16 * n;
            let below = lines_over(font, lines, n, x, y, top, bottom, ink, base, px, py);
            let own = lines_over(font, lines, n + 1, x, y, top, bottom, ink, base, px, py);
            let inked = draws(
                font,
                lines[n],
                lines[n].len() as int,
                x,
                line_y,
                0,
                isize::MAX as int,
                px,
                py,
            );
            &&& line_y < top || line_y + font.spec.cell_h > bottom ==> own == below
            &&& top <= line_y && line_y + font.spec.cell_h <= bottom && inked ==> own == ink
            &&& !inked ==> own == below
        }),
{
}

/// The messages are painted in order, each over those before it.
pub proof fn lemma_messages_over_are(
    chat: &Fwends,
    n: int,
    art: ChatArt<'_>,
    all: Seq<Sources>,
    base: Rgba,
    px: int,
    py: int,
)
    requires
        0 <= n < chat.placed().len(),
    ensures
        chat.messages_over(0, art, all, base, px, py) == base,
        !chat.shows(n) ==> chat.messages_over(n + 1, art, all, base, px, py) == chat.messages_over(
            n,
            art,
            all,
            base,
            px,
            py,
        ),
        chat.messages_over(n + 1, art, all, base, px, py) == chat.message_over(
            n,
            art,
            all[n].columns@,
            all[n].rows@,
            chat.messages_over(n, art, all, base, px, py),
            px,
            py,
        ),
        chat.placed()[n].style.sticky ==> art.picture(chat.placed()[n]) == art.sticky,
        !chat.placed()[n].style.sticky ==> art.picture(chat.placed()[n]) == art.bubble,
{
}

/// Over the lamp the shadow has the lamp's own pixels in their shadow colors, and
/// beside it none.
pub proof fn lemma_lamp_shadow_is(
    lamp: &Sprite,
    x: int,
    y: int,
    col: int,
    row: int,
    palette: &Palette,
)
    ensures
        0 <= col < lamp.width && 0 <= row < lamp.height ==> lamp_shadow(
            lamp,
            x,
            y,
            x + col,
            y + row,
            palette,
        ) == palette.resolved(
            in_shadow(lamp.index_at(col, row)),
            (x + col) as nat,
            (y + row) as nat,
        ),
        !(0 <= col < lamp.width && 0 <= row < lamp.height) ==> lamp_shadow(
            lamp,
            x,
            y,
            x + col,
            y + row,
            palette,
        ) is None,
{
}

/// A message that is shown is its lines in black over its author's icon, at its right
/// lower corner, over its box; the text begins at the box's margins.
pub proof fn lemma_message_over_is(
    chat: &Fwends,
    i: int,
    art: ChatArt<'_>,
    columns: Seq<usize>,
    rows: Seq<usize>,
    base: Rgba,
    px: int,
    py: int,
)
    requires
        chat.shows(i),
        chat.height >= 140,
        chat.height <= isize::MAX,
    ensures
        ({
            let m = chat.placed()[i];
            let top = chat.message_top(i);
            let bottom = chat.height - 132;
            let shape = mapped(
                if m.style.sticky {
                    art.sticky
                } else {
                    art.bubble
                },
                columns,
                rows,
                m.x,
                top,
                8,
                bottom,
                art.palette,
                px,
                py,
            );
            let boxed = match shape {
                Some(color) => opaque(color),
                None => base,
            };
            &&& m.author is None ==> chat.message_over(i, art, columns, rows, base, px, py)
                == lines_over(
                &chat.font,
                m.lines,
                m.lines.len() as int,
                m.x + m.style.pad_left,
                top + m.style.pad_top,
                8,
                bottom,
                opaque(art.palette.color_of(15)),
                boxed,
                px,
                py,
            )
            &&& m.author matches Some(name) ==> (icon_rect(
                model_views(chat.models@),
                name,
            ) matches Some(src) ==> chat.message_over(i, art, columns, rows, base, px, py)
                == lines_over(
                &chat.font,
                m.lines,
                m.lines.len() as int,
                m.x + m.style.pad_left,
                top + m.style.pad_top,
                8,
                bottom,
                opaque(art.palette.color_of(15)),
                match drawn(
                    art.icons,
                    src,
                    m.x + m.w + 2,
                    top + m.h - 14,
                    1,
                    Some(Rect { x: 0, y: 8, w: 363, h: (chat.height - 140) as usize }),
                    art.palette,
                    None,
                    px,
                    py,
                ) {
                    Some(color) => opaque(color),
                    None => boxed,
                },
                px,
                py,
            ))
        }),
{
}

} // verus!
