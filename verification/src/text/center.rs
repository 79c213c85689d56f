//! Text centered in a band of columns.
use vstd::prelude::*;

use crate::framebuffer::Framebuffer;
use crate::graphics::{span, Rgba};
use crate::text::font::{draws, ink_box, inked, tight, BitmapFont, TextInkBounds};

verus! {

/// The column at which something of the given width starts so that it stands
/// in the middle of a band; its left edge when it is too wide.
pub open spec fn centered(left: int, width: int, content: int) -> int {
    if content < width {
        left + (width - content) / 2
    } else {
        left
    }
}

pub fn center_x(left: isize, width: usize, content: usize) -> (r: isize)
    requires
        left + width <= isize::MAX,
    ensures
        r == centered(left as int, width as int, content as int),
        left <= r,
{
    if content < width {
        left + ((width - content) / 2) as isize
    } else {
        left
    }
}

/// Draws a text in the middle of the columns `left..left + width`, measured by
/// its advances, from row `y` down.
pub fn draw_text_centered(
    fb: &mut Framebuffer,
    font: &BitmapFont,
    text: &str,
    left: isize,
    width: usize,
    y: isize,
    color: Rgba,
)
    requires
        font.wf(),
        old(fb).wf(),
        left + width + 255 * text@.len() + 2 * span() + 2 <= isize::MAX,
        left - span() - 1 >= isize::MIN,
        y + span() + 1 <= isize::MAX,
        y - span() - 1 >= isize::MIN,
    ensures
        final(fb).wf(),
        final(fb).same_size(old(fb)),
        forall|px: int, py: int|
            final(fb).has(px, py) ==> #[trigger] final(fb).color_at(px, py) == (if draws(
                font,
                text@,
                text@.len() as int,
                centered(left as int, width as int, font.width_of(text@)),
                y as int,
                0,
                isize::MAX as int,
                px,
                py,
            ) {
                color
            } else {
                old(fb).color_at(px, py)
            }),
{
    let x: isize = center_x(left, width, font.text_width(text));
    font.draw_text_at(fb, text, x, y, color);
}

/// Where a text is drawn so that its ink, rather than its cells, is centered:
/// the ink's top at row `y`, and nothing off the canvas's top or left edge.
pub open spec fn tight_place(bounds: TextInkBounds, left: int, width: int, y: int) -> (int, int) {
    let ink_w = if bounds.max_x > bounds.min_x {
        bounds.max_x - bounds.min_x
    } else {
        0
    };
    let x = centered(left, width, ink_w) - bounds.min_x;
    let top = y - bounds.min_y;
    (
        if x > 0 {
            x
        } else {
            0
        },
        if top > 0 {
            top
        } else {
            0
        },
    )
}

/// Draws a text with its ink in the middle of the columns `left..left + width`
/// and its top at row `y`; a text without ink is not drawn.
pub fn draw_text_centered_tight(
    fb: &mut Framebuffer,
    font: &BitmapFont,
    text: &str,
    left: isize,
    width: usize,
    y: isize,
    color: Rgba,
)
    requires
        font.wf(),
        old(fb).wf(),
        left + width + 510 * text@.len() + 4 * span() + 4 <= isize::MAX,
        left - 255 * text@.len() - 2 * span() - 2 >= isize::MIN,
        y + span() + 1 <= isize::MAX,
        y - span() - 1 >= isize::MIN,
    ensures
        final(fb).wf(),
        final(fb).same_size(old(fb)),
        (exists|bounds: TextInkBounds| #[trigger] ink_box(font, text@, bounds)) || *final(fb)
            == *old(fb),
        (forall|x: int, y: int| !#[trigger] inked(font, text@, x, y)) ==> *final(fb) == *old(fb),
        forall|bounds: TextInkBounds|
            #[trigger] ink_box(font, text@, bounds) ==> {
                let (at_x, at_y) = tight_place(bounds, left as int, width as int, y as int);
                forall|px: int, py: int|
                    final(fb).has(px, py) ==> #[trigger] final(fb).color_at(px, py) == (if draws(
                        font,
                        text@,
                        text@.len() as int,
                        at_x,
                        at_y,
                        0,
                        isize::MAX as int,
                        px,
                        py,
                    ) {
                        color
                    } else {
                        old(fb).color_at(px, py)
                    })
            },
{
    let ghost ink = |x: int, y: int| inked(font, text@, x, y);
    match font.text_ink_bounds(text) {
        None => {
            proof {
                assert forall|bounds: TextInkBounds| #[trigger] ink_box(
                    font,
                    text@,
                    bounds,
                ) implies false by {
                    let row = choose|row: int| #[trigger] ink(bounds.min_x as int, row);
                    assert(ink(bounds.min_x as int, row));
                    assert(!inked(font, text@, bounds.min_x as int, row));
                }
            }
        },
        Some(bounds) => {
            proof {
                font.lemma_ink_range(text@, bounds);
                assert forall|other: TextInkBounds| #[trigger] ink_box(
                    font,
                    text@,
                    other,
                ) implies other == bounds by {
                    lemma_tight_unique(bounds, other, ink);
                }
                let row = choose|row: int| #[trigger] ink(bounds.min_x as int, row);
                assert(inked(font, text@, bounds.min_x as int, row));
            }
            let x: isize = center_x(left, width, bounds.width()) - bounds.min_x;
            let top: isize = y - bounds.min_y as isize;
            let at_x: isize = if x > 0 {
                x
            } else {
                0
            };
            let at_y: isize = if top > 0 {
                top
            } else {
                0
            };
            font.draw_text_at(fb, text, at_x, at_y, color);
        },
    }
}

/// Ink has one box around it.
pub proof fn lemma_tight_unique(
    a: TextInkBounds,
    b: TextInkBounds,
    ink: spec_fn(int, int) -> bool,
)
    requires
        tight(a, ink),
        tight(b, ink),
    ensures
        a == b,
{
    let ya = choose|y: int| #[trigger] ink(a.min_x as int, y);
    let yb = choose|y: int| #[trigger] ink(b.min_x as int, y);
    assert(ink(a.min_x as int, ya) && ink(b.min_x as int, yb));
    let ya = choose|y: int| #[trigger] ink(a.max_x - 1, y);
    let yb = choose|y: int| #[trigger] ink(b.max_x - 1, y);
    assert(ink(a.max_x - 1, ya) && ink(b.max_x - 1, yb));
    let xa = choose|x: int| #[trigger] ink(x, a.min_y as int);
    let xb = choose|x: int| #[trigger] ink(x, b.min_y as int);
    assert(ink(xa, a.min_y as int) && ink(xb, b.min_y as int));
    let xa = choose|x: int| #[trigger] ink(x, a.max_y - 1);
    let xb = choose|x: int| #[trigger] ink(x, b.max_y - 1);
    assert(ink(xa, a.max_y - 1) && ink(xb, b.max_y - 1));
}

/// What is narrower than its room stands in the middle of it, and where the room
/// cannot be halved one column to the left; what is not stands at the left edge.
pub proof fn lemma_centered_is(left: int, width: int, content: int)
    ensures
        content < width ==> ({
            let before = centered(left, width, content) - left;
            let after = left + width - (centered(left, width, content) + content);
            before >= 0 && (after == before || after == before + 1)
        }),
        content >= width ==> centered(left, width, content) == left,
{
}

/// A text set by its ink has that in the middle of its room, and its top at the
/// given row, as far as neither lies outside of the picture.
pub proof fn lemma_tight_place_is(bounds: TextInkBounds, left: int, width: int, y: int)
    requires
        bounds.min_x < bounds.max_x,
    ensures
        ({
            let (x, top) = tight_place(bounds, left, width, y);
            let ink_left = centered(left, width, bounds.max_x - bounds.min_x);
            &&& x >= 0 && top >= 0
            &&& ink_left >= bounds.min_x ==> x + bounds.min_x == ink_left
            &&& ink_left < bounds.min_x ==> x == 0
            &&& y >= bounds.min_y ==> top + bounds.min_y == y
            &&& y < bounds.min_y ==> top == 0
        }),
{
}

} // verus!
