//! Pictures described as lists of shapes, and their painting.
use vstd::prelude::*;

use crate::framebuffer::{drawn, Framebuffer};
use crate::graphics::{opaque, span, Index, Palette, Rect, Rgba, Sprite};
use crate::text::center::{centered, draw_text_centered, draw_text_centered_tight, tight_place};
use crate::text::font::{draws, ink_box, BitmapFont, TextInkBounds};

verus! {

/// Something to paint. Fonts and sprites are named by their place in an `Art`.
pub enum Shape {
    /// A rectangle of one color.
    Fill { x: isize, y: isize, w: usize, h: usize, color: Index },
    /// A filled ellipse around a center.
    Disc { x: isize, y: isize, radius_x: isize, radius_y: isize, color: Index },
    /// A text from a top left corner on.
    Text { font: usize, text: String, x: isize, y: isize, color: Index },
    /// A text in the middle of a band of columns, by its advances.
    Centered { font: usize, text: String, left: isize, width: usize, y: isize, color: Index },
    /// A text in the middle of a band of columns, by its ink.
    Tight { font: usize, text: String, left: isize, width: usize, y: isize, color: Index },
    /// The part of a sprite that `src` covers.
    Picture { sprite: usize, src: Rect, x: isize, y: isize },
}

#[verifier::ext_equal]
pub enum ShapeView {
    Fill { x: int, y: int, w: int, h: int, color: Index },
    Disc { x: int, y: int, radius_x: int, radius_y: int, color: Index },
    Text { font: int, text: Seq<char>, x: int, y: int, color: Index },
    Centered { font: int, text: Seq<char>, left: int, width: int, y: int, color: Index },
    Tight { font: int, text: Seq<char>, left: int, width: int, y: int, color: Index },
    Picture { sprite: int, src: Rect, x: int, y: int },
}

impl View for Shape {
    type V = ShapeView;

    open spec fn view(&self) -> ShapeView {
        match *self {
            Shape::Fill { x, y, w, h, color } => ShapeView::Fill {
                x: x as int,
                y: y as int,
                w: w as int,
                h: h as int,
                color,
            },
            Shape::Disc { x, y, radius_x, radius_y, color } => ShapeView::Disc {
                x: x as int,
                y: y as int,
                radius_x: radius_x as int,
                radius_y: radius_y as int,
                color,
            },
            Shape::Text { font, text, x, y, color } => ShapeView::Text {
                font: font as int,
                text: text@,
                x: x as int,
                y: y as int,
                color,
            },
            Shape::Centered { font, text, left, width, y, color } => ShapeView::Centered {
                font: font as int,
                text: text@,
                left: left as int,
                width: width as int,
                y: y as int,
                color,
            },
            Shape::Tight { font, text, left, width, y, color } => ShapeView::Tight {
                font: font as int,
                text: text@,
                left: left as int,
                width: width as int,
                y: y as int,
                color,
            },
            Shape::Picture { sprite, src, x, y } => ShapeView::Picture {
                sprite: sprite as int,
                src,
                x: x as int,
                y: y as int,
            },
        }
    }
}

pub open spec fn shape_views(shapes: Seq<Shape>) -> Seq<ShapeView> {
    Seq::new(shapes.len(), |i: int| shapes[i]@)
}

/// The fonts, sprites and colors that shapes refer to.
pub struct Art<'a> {
    pub fonts: &'a Vec<BitmapFont>,
    pub sprites: &'a Vec<Sprite>,
    pub palette: &'a Palette,
}

impl<'a> Art<'a> {
    pub open spec fn wf(&self) -> bool {
        &&& self.palette.wf()
        &&& self.palette.colors().len() > 0
        &&& forall|i: int| 0 <= i < self.fonts@.len() ==> (#[trigger] self.fonts@[i]).wf()
        &&& forall|i: int| 0 <= i < self.sprites@.len() ==> (#[trigger] self.sprites@[i]).wf()
    }
}

/// Whether a point lies in an ellipse around the origin.
pub open spec fn in_ellipse(dx: int, dy: int, rx: int, ry: int) -> bool {
    rx > 0 && ry > 0 && (dx * dx) * (ry * ry) + (dy * dy) * (rx * rx) <= (rx * rx) * (ry * ry)
}

/// What a shape puts on a pixel.
pub open spec fn stroke(shape: ShapeView, art: Art<'_>, px: int, py: int) -> Option<Rgba> {
    match shape {
        ShapeView::Fill { x, y, w, h, color } => if x <= px < x + w && y <= py < y + h {
            Some(opaque(art.palette.color_of(color)))
        } else {
            None
        },
        ShapeView::Disc { x, y, radius_x, radius_y, color } => if in_ellipse(
            px - x,
            py - y,
            radius_x,
            radius_y,
        ) {
            Some(opaque(art.palette.color_of(color)))
        } else {
            None
        },
        ShapeView::Text { font, text, x, y, color } => if draws(
            &art.fonts@[font],
            text,
            text.len() as int,
            x,
            y,
            0,
            isize::MAX as int,
            px,
            py,
        ) {
            Some(opaque(art.palette.color_of(color)))
        } else {
            None
        },
        ShapeView::Centered { font, text, left, width, y, color } => if draws(
            &art.fonts@[font],
            text,
            text.len() as int,
            centered(left, width, art.fonts@[font].width_of(text)),
            y,
            0,
            isize::MAX as int,
            px,
            py,
        ) {
            Some(opaque(art.palette.color_of(color)))
        } else {
            None
        },
        ShapeView::Tight { font, text, left, width, y, color } => if exists|b: TextInkBounds|
            #[trigger]
            ink_box(&art.fonts@[font], text, b) && draws(
                &art.fonts@[font],
                text,
                text.len() as int,
                tight_place(b, left, width, y).0,
                tight_place(b, left, width, y).1,
                0,
                isize::MAX as int,
                px,
                py,
            ) {
            Some(opaque(art.palette.color_of(color)))
        } else {
            None
        },
        ShapeView::Picture { sprite, src, x, y } => match drawn(
            &art.sprites@[sprite],
            src,
            x,
            y,
            1,
            None,
            art.palette,
            None,
            px,
            py,
        ) {
            Some(color) => Some(opaque(color)),
            None => None,
        },
    }
}

/// Whether the machine can measure an ellipse around a center, if there is any:
/// its box, and what its equation compares.
pub open spec fn measurable_ellipse(x: int, y: int, rx: int, ry: int) -> bool {
    rx > 0 && ry > 0 ==> {
        &&& rx * ry <= isize::MAX / 2
        &&& isize::MIN <= x - rx
        &&& x + rx <= isize::MAX
        &&& isize::MIN <= y - ry
        &&& y + ry <= isize::MAX
    }
}

/// Whether a shape's fonts and sprites exist and its coordinates stay within
/// what pixel arithmetic can hold.
pub open spec fn paintable(shape: ShapeView, art: Art<'_>) -> bool {
    match shape {
        ShapeView::Fill { .. } => true,
        ShapeView::Disc { x, y, radius_x, radius_y, .. } => measurable_ellipse(
            x,
            y,
            radius_x,
            radius_y,
        ),
        ShapeView::Text { font, text, x, y, .. } => {
            &&& 0 <= font < art.fonts@.len()
            &&& x + 255 * text.len() + 2 * span() + 2 <= isize::MAX
            &&& x - span() - 1 >= isize::MIN
            &&& isize::MIN + span() + 1 <= y <= isize::MAX - span() - 1
        },
        ShapeView::Centered { font, text, left, width, y, .. } => {
            &&& 0 <= font < art.fonts@.len()
            &&& left + width + 255 * text.len() + 2 * span() + 2 <= isize::MAX
            &&& left - span() - 1 >= isize::MIN
            &&& isize::MIN + span() + 1 <= y <= isize::MAX - span() - 1
        },
        ShapeView::Tight { font, text, left, width, y, .. } => {
            &&& 0 <= font < art.fonts@.len()
            &&& left + width + 510 * text.len() + 4 * span() + 4 <= isize::MAX
            &&& left - 255 * text.len() - 2 * span() - 2 >= isize::MIN
            &&& isize::MIN + span() + 1 <= y <= isize::MAX - span() - 1
        },
        ShapeView::Picture { sprite, x, y, .. } => {
            &&& 0 <= sprite < art.sprites@.len()
            &&& x + art.sprites@[sprite].width <= isize::MAX
            &&& y + art.sprites@[sprite].height <= isize::MAX
            &&& art.sprites@[sprite].width <= isize::MAX
            &&& art.sprites@[sprite].height <= isize::MAX
        },
    }
}

/// A pixel's color after a list of shapes: the last one that covers it wins.
pub open spec fn painted(
    shapes: Seq<ShapeView>,
    art: Art<'_>,
    base: Rgba,
    px: int,
    py: int,
) -> Rgba
    decreases shapes.len(),
{
    if shapes.len() == 0 {
        base
    } else {
        match stroke(shapes.last(), art, px, py) {
            Some(color) => color,
            None => painted(shapes.drop_last(), art, base, px, py),
        }
    }
}

/// Fills the part of a rectangle that lies on the canvas.
pub fn fill_area(fb: &mut Framebuffer, x: isize, y: isize, w: usize, h: usize, color: Rgba)
    requires
        old(fb).wf(),
    ensures
        final(fb).wf(),
        final(fb).same_size(old(fb)),
        forall|px: int, py: int|
            final(fb).has(px, py) ==> #[trigger] final(fb).color_at(px, py) == (if x <= px < x + w
                && y <= py < y + h {
                color
            } else {
                old(fb).color_at(px, py)
            }),
{
    let right: i128 = x as i128 + w as i128;
    let bottom: i128 = y as i128 + h as i128;
    if right <= 0 || bottom <= 0 || h == 0 {
        return;
    }
    let left: usize = if x > 0 {
        x as usize
    } else {
        0
    };
    let top: usize = if y > 0 {
        y as usize
    } else {
        0
    };
    let width: usize = if x > 0 {
        w
    } else {
        right as usize
    };
    let height: usize = if y > 0 {
        h
    } else {
        bottom as usize
    };
    fb.fill_rect(left, top, width, height, color);
}

proof fn lemma_square_order(a: int, b: int, k: int)
    requires
        k >= 0,
        -b <= a <= b,
    ensures
        (a * a) * k <= (b * b) * k,
        0 <= (a * a) * k,
{
    assert(a * a <= b * b) by (nonlinear_arith)
        requires
            -b <= a <= b,
    ;
    assert(0 <= a * a) by (nonlinear_arith);
    assert((a * a) * k <= (b * b) * k && 0 <= (a * a) * k) by (nonlinear_arith)
        requires
            0 <= a * a <= b * b,
            k >= 0,
    ;
}

/// What the equation of a measurable ellipse compares fits a wide number.
pub proof fn lemma_ellipse_terms(dx: int, dy: int, rx: int, ry: int)
    requires
        0 < rx,
        0 < ry,
        rx * ry <= isize::MAX / 2,
        -rx <= dx <= rx,
        -ry <= dy <= ry,
    ensures
        rx <= rx * ry,
        ry <= rx * ry,
        0 < rx * rx <= (rx * rx) * (ry * ry),
        0 < ry * ry <= (rx * rx) * (ry * ry),
        0 <= dx * dx <= rx * rx,
        0 <= dy * dy <= ry * ry,
        0 <= (dx * dx) * (ry * ry) <= (rx * rx) * (ry * ry),
        0 <= (dy * dy) * (rx * rx) <= (rx * rx) * (ry * ry),
        (rx * rx) * (ry * ry) <= 0x1000_0000_0000_0000_0000_0000_0000_0000,
{
    let most: int = isize::MAX / 2;
    assert(rx <= rx * ry && ry <= rx * ry) by (nonlinear_arith)
        requires
            0 < rx,
            0 < ry,
    ;
    assert((rx * rx) * (ry * ry) == (rx * ry) * (rx * ry)) by (nonlinear_arith);
    assert((rx * ry) * (rx * ry) <= most * most) by (nonlinear_arith)
        requires
            0 <= rx * ry <= most,
    ;
    assert(most * most <= 0x1000_0000_0000_0000_0000_0000_0000_0000) by (nonlinear_arith)
        requires
            0 <= most <= 0x4000_0000_0000_0000,
    ;
    assert(0 < rx * rx && 0 < ry * ry) by (nonlinear_arith)
        requires
            0 < rx,
            0 < ry,
    ;
    assert(rx * rx <= (rx * rx) * (ry * ry) && ry * ry <= (rx * rx) * (ry * ry))
        by (nonlinear_arith)
        requires
            0 < rx * rx,
            0 < ry * ry,
    ;
    lemma_square_order(dx, rx, 1);
    lemma_square_order(dy, ry, 1);
    lemma_square_order(dx, rx, ry * ry);
    lemma_square_order(dy, ry, rx * rx);
    assert((ry * ry) * (rx * rx) == (rx * rx) * (ry * ry)) by (nonlinear_arith);
}

proof fn lemma_outside_row(dx: int, dy: int, rx: int, ry: int)
    requires
        rx > 0,
        ry > 0,
        dy < -ry || dy > ry,
    ensures
        !in_ellipse(dx, dy, rx, ry),
{
    let a = if dy > 0 {
        dy
    } else {
        -dy
    };
    assert(dy * dy == a * a) by (nonlinear_arith)
        requires
            a == dy || a == -dy,
    ;
    assert(a * a > ry * ry) by (nonlinear_arith)
        requires
            a > ry > 0,
    ;
    assert((a * a) * (rx * rx) > (ry * ry) * (rx * rx)) by (nonlinear_arith)
        requires
            a * a > ry * ry,
            rx > 0,
    ;
    assert((ry * ry) * (rx * rx) == (rx * rx) * (ry * ry)) by (nonlinear_arith);
    assert(0 <= (dx * dx) * (ry * ry)) by (nonlinear_arith);
}

/// Fills the ellipse around a center; without a width or height, nothing.
#[verifier::spinoff_prover]
#[verifier::rlimit(60)]
pub fn draw_filled_ellipse(
    fb: &mut Framebuffer,
    center_x: isize,
    center_y: isize,
    radius_x: isize,
    radius_y: isize,
    color: Rgba,
)
    requires
        old(fb).wf(),
        measurable_ellipse(
            center_x as int,
            center_y as int,
            radius_x as int,
            radius_y as int,
        ),
    ensures
        final(fb).wf(),
        final(fb).same_size(old(fb)),
        forall|px: int, py: int|
            final(fb).has(px, py) ==> #[trigger] final(fb).color_at(px, py) == (if in_ellipse(
                px - center_x,
                py - center_y,
                radius_x as int,
                radius_y as int,
            ) {
                color
            } else {
                old(fb).color_at(px, py)
            }),
{
    if radius_x <= 0 || radius_y <= 0 {
        return;
    }
    let rx: i128 = radius_x as i128;
    let ry: i128 = radius_y as i128;
    proof {
        lemma_ellipse_terms(0, 0, rx as int, ry as int);
    }
    let rx_sq: i128 = rx * rx;
    let ry_sq: i128 = ry * ry;
    let whole: i128 = rx_sq * ry_sq;
    proof {
        assert forall|px: int, py: int| py - center_y < -radius_y implies !#[trigger] in_ellipse(
            px - center_x,
            py - center_y,
            radius_x as int,
            radius_y as int,
        ) by {
            lemma_outside_row(px - center_x, py - center_y, radius_x as int, radius_y as int);
        }
    }
    let mut dy: isize = -radius_y;
    while dy <= radius_y
        invariant
            fb.wf(),
            fb.same_size(old(fb)),
            0 < radius_x <= isize::MAX / 2,
            0 < radius_y <= isize::MAX / 2,
            isize::MIN <= center_x - radius_x,
            center_x + radius_x <= isize::MAX,
            isize::MIN <= center_y - radius_y,
            center_y + radius_y <= isize::MAX,
            -radius_y <= dy <= radius_y + 1,
            rx_sq == radius_x * radius_x,
            ry_sq == radius_y * radius_y,
            0 < rx_sq <= whole,
            0 < ry_sq <= whole,
            whole == rx_sq * ry_sq,
            0 < whole <= 0x1000_0000_0000_0000_0000_0000_0000_0000,
            forall|px: int, py: int|
                fb.has(px, py) ==> #[trigger] fb.color_at(px, py) == (if py - center_y < dy
                    && in_ellipse(
                    px - center_x,
                    py - center_y,
                    radius_x as int,
                    radius_y as int,
                ) {
                    color
                } else {
                    old(fb).color_at(px, py)
                }),
        decreases radius_y + 1 - dy,
    {
        let row: i128 = dy as i128;
        proof {
            lemma_square_order(row as int, radius_y as int, rx_sq as int);
            lemma_square_order(row as int, radius_y as int, 1);
            assert(ry_sq * rx_sq == whole) by (nonlinear_arith)
                requires
                    whole == rx_sq * ry_sq,
            ;
        }
        let y_term: i128 = (row * row) * rx_sq;
        let mut dx: i128 = 0;
        let mut growing = true;
        proof {
            assert((0int * 0int) * ry_sq == 0) by (nonlinear_arith);
        }
        while growing
            invariant
                0 <= dx <= radius_x,
                0 < radius_x <= isize::MAX / 2,
                rx_sq == radius_x * radius_x,
                rx_sq <= whole,
                0 < ry_sq <= whole,
                0 <= y_term <= whole,
                whole == rx_sq * ry_sq,
                0 < whole <= 0x1000_0000_0000_0000_0000_0000_0000_0000,
                (dx * dx) * ry_sq + y_term <= whole,
                !growing ==> dx == radius_x || ((dx + 1) * (dx + 1)) * ry_sq + y_term > whole,
            decreases radius_x - dx + (if growing {
                1int
            } else {
                0
            }),
        {
            if dx >= radius_x as i128 {
                growing = false;
            } else {
                proof {
                    lemma_square_order(dx + 1, radius_x as int, ry_sq as int);
                    lemma_square_order(dx + 1, radius_x as int, 1);
                }
                if ((dx + 1) * (dx + 1)) * ry_sq + y_term <= whole {
                    dx += 1;
                } else {
                    growing = false;
                }
            }
        }
        let ghost before = *fb;
        fill_area(fb, center_x - dx as isize, center_y + dy, 2 * dx as usize + 1, 1, color);
        proof {
            assert forall|px: int, py: int| fb.has(px, py) implies #[trigger] fb.color_at(px, py)
                == (if py - center_y < dy + 1 && in_ellipse(
                px - center_x,
                py - center_y,
                radius_x as int,
                radius_y as int,
            ) {
                color
            } else {
                old(fb).color_at(px, py)
            }) by {
                assert(before.has(px, py));
                assert(before.color_at(px, py) == before.color_at(px, py));
                if py - center_y == dy {
                    lemma_row(
                        px - center_x,
                        dy as int,
                        radius_x as int,
                        radius_y as int,
                        dx as int,
                    );
                }
            }
        }
        dy += 1;
    }
    proof {
        assert forall|px: int, py: int| fb.has(px, py) implies #[trigger] fb.color_at(px, py) == (
        if in_ellipse(px - center_x, py - center_y, radius_x as int, radius_y as int) {
            color
        } else {
            old(fb).color_at(px, py)
        }) by {
            if py - center_y > radius_y {
                lemma_outside_row(
                    px - center_x,
                    py - center_y,
                    radius_x as int,
                    radius_y as int,
                );
            }
        }
    }
}

proof fn lemma_row(px: int, dy: int, rx: int, ry: int, dx: int)
    requires
        0 < rx,
        0 < ry,
        0 <= dx <= rx,
        -ry <= dy <= ry,
        (dx * dx) * (ry * ry) + (dy * dy) * (rx * rx) <= (rx * rx) * (ry * ry),
        dx == rx || ((dx + 1) * (dx + 1)) * (ry * ry) + (dy * dy) * (rx * rx) > (rx * rx) * (ry
            * ry),
    ensures
        in_ellipse(px, dy, rx, ry) <==> -dx <= px <= dx,
{
    assert(ry * ry > 0) by (nonlinear_arith)
        requires
            ry > 0,
    ;
    if -dx <= px <= dx {
        lemma_square_order(px, dx, ry * ry);
    } else {
        let a = if px > 0 {
            px
        } else {
            -px
        };
        assert(px * px == a * a) by (nonlinear_arith)
            requires
                a == px || a == -px,
        ;
        lemma_square_order(dx + 1, a, ry * ry);
        if dx == rx {
            assert((dx + 1) * (dx + 1) > rx * rx) by (nonlinear_arith)
                requires
                    dx == rx,
                    rx > 0,
            ;
            assert(((dx + 1) * (dx + 1)) * (ry * ry) > (rx * rx) * (ry * ry)) by (nonlinear_arith)
                requires
                    (dx + 1) * (dx + 1) > rx * rx,
                    ry * ry > 0,
            ;
            assert(0 <= (dy * dy) * (rx * rx)) by (nonlinear_arith);
        }
    }
}

pub fn draw_filled_circle(
    fb: &mut Framebuffer,
    center_x: isize,
    center_y: isize,
    radius: isize,
    color: Rgba,
)
    requires
        old(fb).wf(),
        measurable_ellipse(center_x as int, center_y as int, radius as int, radius as int),
    ensures
        final(fb).wf(),
        final(fb).same_size(old(fb)),
        forall|px: int, py: int|
            final(fb).has(px, py) ==> #[trigger] final(fb).color_at(px, py) == (if in_ellipse(
                px - center_x,
                py - center_y,
                radius as int,
                radius as int,
            ) {
                color
            } else {
                old(fb).color_at(px, py)
            }),
{
    draw_filled_ellipse(fb, center_x, center_y, radius, radius, color);
}

/// Paints one shape.
pub fn paint_shape(fb: &mut Framebuffer, shape: &Shape, art: &Art<'_>)
    requires
        old(fb).wf(),
        art.wf(),
        paintable(shape@, *art),
    ensures
        final(fb).wf(),
        final(fb).same_size(old(fb)),
        forall|px: int, py: int|
            final(fb).has(px, py) ==> #[trigger] final(fb).color_at(px, py) == (match stroke(
                shape@,
                *art,
                px,
                py,
            ) {
                Some(color) => color,
                None => old(fb).color_at(px, py),
            }),
{
    match shape {
        Shape::Fill { x, y, w, h, color } => {
            let rgba = Rgba::from(art.palette.color(*color));
            fill_area(fb, *x, *y, *w, *h, rgba);
        },
        Shape::Disc { x, y, radius_x, radius_y, color } => {
            let rgba = Rgba::from(art.palette.color(*color));
            draw_filled_ellipse(fb, *x, *y, *radius_x, *radius_y, rgba);
        },
        Shape::Text { font, text, x, y, color } => {
            let rgba = Rgba::from(art.palette.color(*color));
            art.fonts[*font].draw_text_at(fb, text.as_str(), *x, *y, rgba);
        },
        Shape::Centered { font, text, left, width, y, color } => {
            let rgba = Rgba::from(art.palette.color(*color));
            draw_text_centered(fb, &art.fonts[*font], text.as_str(), *left, *width, *y, rgba);
        },
        Shape::Tight { font, text, left, width, y, color } => {
            let rgba = Rgba::from(art.palette.color(*color));
            draw_text_centered_tight(
                fb,
                &art.fonts[*font],
                text.as_str(),
                *left,
                *width,
                *y,
                rgba,
            );
            proof {
                let face = &art.fonts@[*font as int];
                if exists|b: TextInkBounds| #[trigger] ink_box(face, text@, b) {
                    let b = choose|b: TextInkBounds| #[trigger] ink_box(face, text@, b);
                    assert(ink_box(face, text@, b));
                }
            }
        },
        Shape::Picture { sprite, src, x, y } => {
            fb.draw_sprite_region(&art.sprites[*sprite], *src, *x, *y, 1, art.palette);
        },
    }
}

/// Paints shapes one over another.
pub fn paint(fb: &mut Framebuffer, shapes: &Vec<Shape>, art: &Art<'_>)
    requires
        old(fb).wf(),
        art.wf(),
        forall|i: int| 0 <= i < shapes@.len() ==> paintable((#[trigger] shapes@[i])@, *art),
    ensures
        final(fb).wf(),
        final(fb).same_size(old(fb)),
        forall|px: int, py: int|
            final(fb).has(px, py) ==> #[trigger] final(fb).color_at(px, py) == painted(
                shape_views(shapes@),
                *art,
                old(fb).color_at(px, py),
                px,
                py,
            ),
{
    let mut i: usize = 0;
    while i < shapes.len()
        invariant
            i <= shapes@.len(),
            fb.wf(),
            fb.same_size(old(fb)),
            art.wf(),
            forall|i: int| 0 <= i < shapes@.len() ==> paintable((#[trigger] shapes@[i])@, *art),
            forall|px: int, py: int|
                fb.has(px, py) ==> #[trigger] fb.color_at(px, py) == painted(
                    shape_views(shapes@.take(i as int)),
                    *art,
                    old(fb).color_at(px, py),
                    px,
                    py,
                ),
        decreases shapes@.len() - i,
    {
        let ghost before = *fb;
        paint_shape(fb, &shapes[i], art);
        proof {
            let now = shape_views(shapes@.take(i + 1));
            assert(now.drop_last() =~= shape_views(shapes@.take(i as int)));
            assert(now.last() == shapes@[i as int]@);
            assert forall|px: int, py: int| fb.has(px, py) implies #[trigger] fb.color_at(px, py)
                == painted(now, *art, old(fb).color_at(px, py), px, py) by {
                assert(before.has(px, py));
                assert(before.color_at(px, py) == before.color_at(px, py));
            }
        }
        i += 1;
    }
    assert(shapes@.take(shapes@.len() as int) =~= shapes@);
}

/// A point is in an ellipse up to its radii on the axes, evenly on all sides; one
/// with equal radii is a circle.
pub proof fn lemma_ellipse_is(dx: int, dy: int, rx: int, ry: int)
    requires
        rx > 0,
        ry > 0,
    ensures
        in_ellipse(dx, 0, rx, ry) <==> -rx <= dx <= rx,
        in_ellipse(0, dy, rx, ry) <==> -ry <= dy <= ry,
        in_ellipse(dx, dy, rx, ry) == in_ellipse(-dx, dy, rx, ry),
        in_ellipse(dx, dy, rx, ry) == in_ellipse(dx, -dy, rx, ry),
        in_ellipse(dx, dy, rx, ry) == in_ellipse(dy, dx, ry, rx),
        in_ellipse(dx, dy, rx, rx) <==> dx * dx + dy * dy <= rx * rx,
        !in_ellipse(dx, dy, 0, ry),
        !in_ellipse(dx, dy, rx, 0),
{
    assert((-dx) * (-dx) == dx * dx) by (nonlinear_arith);
    assert((-dy) * (-dy) == dy * dy) by (nonlinear_arith);
    let (a, b) = (rx * rx, ry * ry);
    assert(a > 0 && b > 0) by (nonlinear_arith)
        requires
            rx > 0,
            ry > 0,
            a == rx * rx,
            b == ry * ry,
    ;
    let (u, v) = (dx * dx, dy * dy);
    assert((0int * 0) * a == 0 && (0int * 0) * b == 0) by (nonlinear_arith);
    assert(u * b <= a * b <==> u <= a) by (nonlinear_arith)
        requires
            b > 0,
    ;
    assert(v * a <= a * b <==> v <= b) by (nonlinear_arith)
        requires
            a > 0,
    ;
    assert(u * a + v * a <= a * a <==> u + v <= a) by (nonlinear_arith)
        requires
            a > 0,
    ;
    assert(u <= a <==> -rx <= dx <= rx) by (nonlinear_arith)
        requires
            u == dx * dx,
            a == rx * rx,
            rx > 0,
    ;
    assert(v <= b <==> -ry <= dy <= ry) by (nonlinear_arith)
        requires
            v == dy * dy,
            b == ry * ry,
            ry > 0,
    ;
    assert(a * b == b * a) by (nonlinear_arith);
}

/// Shapes are painted one over the other, the last one uppermost; where one has no
/// color what is below it shows.
pub proof fn lemma_painted_is(
    shapes: Seq<ShapeView>,
    shape: ShapeView,
    art: Art<'_>,
    base: Rgba,
    px: int,
    py: int,
)
    ensures
        painted(Seq::empty(), art, base, px, py) == base,
        stroke(shape, art, px, py) matches Some(color) ==> painted(
            shapes.push(shape),
            art,
            base,
            px,
            py,
        ) == color,
        stroke(shape, art, px, py) is None ==> painted(shapes.push(shape), art, base, px, py)
            == painted(shapes, art, base, px, py),
{
    assert(shapes.push(shape).drop_last() =~= shapes);
}

/// Each shape has its color in its own place and none outside of it. A text of
/// which the middle is given stands as far from both sides.
pub proof fn lemma_strokes_are(
    art: Art<'_>,
    x: int,
    y: int,
    w: int,
    h: int,
    font: int,
    text: Seq<char>,
    color: Index,
    px: int,
    py: int,
)
    ensures
        stroke(ShapeView::Fill { x, y, w, h, color }, art, px, py) == if 0 <= px - x < w && 0 <= py
            - y < h {
            Some(opaque(art.palette.color_of(color)))
        } else {
            None
        },
        stroke(ShapeView::Disc { x, y, radius_x: w, radius_y: h, color }, art, px, py)
            == if in_ellipse(px - x, py - y, w, h) {
            Some(opaque(art.palette.color_of(color)))
        } else {
            None
        },
        ({
            let own = art.fonts@[font].width_of(text);
            let left = if own < w {
                x + (w - own) / 2
            } else {
                x
            };
            stroke(
                ShapeView::Centered { font, text, left: x, width: w, y, color },
                art,
                px,
                py,
            ) == stroke(ShapeView::Text { font, text, x: left, y, color }, art, px, py)
        }),
        forall|b: TextInkBounds| #[trigger]
            ink_box(&art.fonts@[font], text, b) && stroke(
                ShapeView::Tight { font, text, left: x, width: w, y, color },
                art,
                px,
                py,
            ) is Some ==> stroke(
                ShapeView::Tight { font, text, left: x, width: w, y, color },
                art,
                px,
                py,
            ) == stroke(
                ShapeView::Text {
                    font,
                    text,
                    x: tight_place(b, x, w, y).0,
                    y: tight_place(b, x, w, y).1,
                    color,
                },
                art,
                px,
                py,
            ),
{
    assert forall|b: TextInkBounds, c: TextInkBounds| #[trigger]
        ink_box(&art.fonts@[font], text, b) && #[trigger] ink_box(
            &art.fonts@[font],
            text,
            c,
        ) implies b == c by {
        crate::text::center::lemma_tight_unique(
            b,
            c,
            |i: int, j: int| crate::text::font::inked(&art.fonts@[font], text, i, j),
        );
    }
}

} // verus!
