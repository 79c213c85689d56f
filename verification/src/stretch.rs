//! Pictures stretched over an area: each pixel shows a column and a row of the
//! source.
use vstd::prelude::*;

use crate::framebuffer::Framebuffer;
use crate::graphics::{
    in_rect, lemma_place, opaque, see_through, Index, Paint, Palette, Rect, Rgb, Rgba, Sprite,
    TRANSPARENT,
};
use crate::layout::{at_least_zero, desk_column, stretched_desk_source_x, DESK_Y};
use crate::palette_color::{CRIMSON, CYAN, PINE, ROSE};

verus! {

/// What a stretched picture shows on a pixel. The pixel's distance from the
/// corner `(x, y)` picks a column and a row of the source; nothing shows above
/// `top` or from `bottom` on.
pub open spec fn mapped(
    image: &Sprite,
    columns: Seq<usize>,
    rows: Seq<usize>,
    x: int,
    y: int,
    top: int,
    bottom: int,
    palette: &Palette,
    px: int,
    py: int,
) -> Option<Rgb> {
    if x <= px < x + columns.len() && y <= py < y + rows.len() && top <= py < bottom {
        palette.resolved(
            image.index_at(columns[px - x] as int, rows[py - y] as int),
            px as nat,
            py as nat,
        )
    } else {
        None
    }
}

/// Whether the columns and rows are those of a picture.
pub open spec fn sources(image: &Sprite, columns: Seq<usize>, rows: Seq<usize>) -> bool {
    &&& forall|i: int| 0 <= i < columns.len() ==> #[trigger] columns[i] < image.width
    &&& forall|i: int| 0 <= i < rows.len() ==> #[trigger] rows[i] < image.height
}

/// Draws a picture whose columns and rows are picked one by one, between the
/// lines `top` and `bottom`.
#[verifier::spinoff_prover]
pub fn draw_mapped(
    fb: &mut Framebuffer,
    image: &Sprite,
    columns: &Vec<usize>,
    rows: &Vec<usize>,
    x: isize,
    y: isize,
    top: isize,
    bottom: isize,
    palette: &Palette,
)
    requires
        old(fb).wf(),
        image.wf(),
        palette.wf(),
        palette.colors().len() > 0,
        sources(image, columns@, rows@),
        x + columns@.len() <= isize::MAX,
        y + rows@.len() <= isize::MAX,
        columns@.len() <= isize::MAX,
        rows@.len() <= isize::MAX,
    ensures
        final(fb).wf(),
        final(fb).same_size(old(fb)),
        forall|px: int, py: int|
            final(fb).has(px, py) ==> #[trigger] final(fb).color_at(px, py) == (match mapped(
                image,
                columns@,
                rows@,
                x as int,
                y as int,
                top as int,
                bottom as int,
                palette,
                px,
                py,
            ) {
                Some(color) => opaque(color),
                None => old(fb).color_at(px, py),
            }),
{
    let w: usize = columns.len();
    let h: usize = rows.len();
    let mut dy: usize = 0;
    while dy < h
        invariant
            fb.wf(),
            fb.same_size(old(fb)),
            image.wf(),
            palette.wf(),
            palette.colors().len() > 0,
            sources(image, columns@, rows@),
            w == columns@.len(),
            h == rows@.len(),
            x + w <= isize::MAX,
            y + h <= isize::MAX,
            w <= isize::MAX,
            h <= isize::MAX,
            dy <= h,
            forall|px: int, py: int|
                fb.has(px, py) ==> #[trigger] fb.color_at(px, py) == (match mapped(
                    image,
                    columns@,
                    rows@.take(dy as int),
                    x as int,
                    y as int,
                    top as int,
                    bottom as int,
                    palette,
                    px,
                    py,
                ) {
                    Some(color) => opaque(color),
                    None => old(fb).color_at(px, py),
                }),
        decreases h - dy,
    {
        let py: isize = y + dy as isize;
        let ghost before = *fb;
        if py >= top && py < bottom && py >= 0 {
            let mut dx: usize = 0;
            while dx < w
                invariant
                    fb.wf(),
                    fb.same_size(&before),
                    image.wf(),
                    palette.wf(),
                    palette.colors().len() > 0,
                    sources(image, columns@, rows@),
                    w == columns@.len(),
                    h == rows@.len(),
                    x + w <= isize::MAX,
                    w <= isize::MAX,
                    dy < h,
                    py == y + dy,
                    py >= 0,
                    dx <= w,
                    forall|qx: int, qy: int|
                        fb.has(qx, qy) ==> #[trigger] fb.color_at(qx, qy) == (if qy == py && x <= qx
                            < x + dx {
                            match palette.resolved(
                                image.index_at(columns@[qx - x] as int, rows@[dy as int] as int),
                                qx as nat,
                                qy as nat,
                            ) {
                                Some(color) => opaque(color),
                                None => before.color_at(qx, qy),
                            }
                        } else {
                            before.color_at(qx, qy)
                        }),
                decreases w - dx,
            {
                let px: isize = x + dx as isize;
                if px >= 0 {
                    proof {
                        assert(columns@[dx as int] < image.width);
                        assert(rows@[dy as int] < image.height);
                        lemma_place(
                            image.width as int,
                            image.height as int,
                            columns@[dx as int] as int,
                            rows@[dy as int] as int,
                        );
                    }
                    let index: Index = image.at(columns[dx], rows[dy]);
                    if let Some(color) = palette.resolve(index, px as usize, py as usize) {
                        fb.set_pixel(px as usize, py as usize, Rgba::from(color));
                    }
                }
                dx += 1;
            }
        }
        proof {
            let now = rows@.take(dy + 1);
            let was = rows@.take(dy as int);
            assert forall|qx: int, qy: int| fb.has(qx, qy) implies #[trigger] fb.color_at(qx, qy)
                == (match mapped(
                image,
                columns@,
                now,
                x as int,
                y as int,
                top as int,
                bottom as int,
                palette,
                qx,
                qy,
            ) {
                Some(color) => opaque(color),
                None => old(fb).color_at(qx, qy),
            }) by {
                assert(before.has(qx, qy));
                assert(before.color_at(qx, qy) == before.color_at(qx, qy));
                if y <= qy < y + dy {
                    assert(now[qy - y] == was[qy - y]);
                }
            }
        }
        dy += 1;
    }
    assert(rows@.take(h as int) =~= rows@);
}

/// The color under everything.
pub const BACKGROUND: Index = CYAN;

/// The desk's tints stand for the background, which is a hole in the window,
/// and for its shadow, which stays visible so that widgets still cast onto
/// what is below.
pub open spec fn desk_paint(index: Index) -> Paint {
    if index == ROSE {
        Paint::Solid(TRANSPARENT)
    } else if index == CRIMSON {
        Paint::Solid(PINE)
    } else {
        Paint::Solid(index)
    }
}

pub fn desk_background_paint(index: Index) -> (r: Paint)
    ensures
        r == desk_paint(index),
{
    if index == ROSE {
        Paint::Solid(TRANSPARENT)
    } else if index == CRIMSON {
        Paint::Solid(PINE)
    } else {
        Paint::Solid(index)
    }
}

/// The line at which the desk starts: its lower edge is below the window's, so
/// that its lowest rows are cut off.
pub open spec fn desk_top(height: int, desk_h: int) -> int {
    at_least_zero(height - DESK_Y - desk_h)
}

/// What the desk shows on a pixel of a window.
pub open spec fn desk_color(
    desk: &Sprite,
    palette: &Palette,
    width: int,
    height: int,
    px: int,
    py: int,
) -> Option<Rgb> {
    let top = desk_top(height, desk.height as int);
    if desk.width > 0 && top <= py < top + desk.height {
        palette.resolved_paint(
            desk_paint(desk.index_at(desk_column(px, width, desk.width as int), py - top)),
            px as nat,
            py as nat,
        )
    } else {
        None
    }
}

fn smaller(a: usize, b: usize) -> (r: usize)
    ensures
        r == (if a < b {
            a
        } else {
            b
        }),
{
    if a < b {
        a
    } else {
        b
    }
}

fn larger(a: usize, b: usize) -> (r: usize)
    ensures
        r == (if a > b {
            a
        } else {
            b
        }),
{
    if a > b {
        a
    } else {
        b
    }
}

/// Draws the part of the desk that lies in a rectangle.
#[verifier::spinoff_prover]
pub fn draw_stretched_desk_region(
    fb: &mut Framebuffer,
    desk: &Sprite,
    palette: &Palette,
    rect: Rect,
)
    requires
        old(fb).wf(),
        old(fb).height <= isize::MAX - 2000,
        desk.wf(),
        palette.wf(),
        palette.colors().len() > 0,
    ensures
        final(fb).wf(),
        final(fb).same_size(old(fb)),
        forall|px: int, py: int|
            final(fb).has(px, py) ==> #[trigger] final(fb).color_at(px, py) == (if in_rect(
                rect,
                px,
                py,
            ) {
                match desk_color(
                    desk,
                    palette,
                    old(fb).width as int,
                    old(fb).height as int,
                    px,
                    py,
                ) {
                    Some(color) => opaque(color),
                    None => old(fb).color_at(px, py),
                }
            } else {
                old(fb).color_at(px, py)
            }),
{
    let width: usize = fb.width;
    let height: usize = fb.height;
    let low: usize = (height as isize - DESK_Y) as usize;
    let top: usize = if low > desk.height {
        low - desk.height
    } else {
        0
    };
    let x0: usize = smaller(rect.x, width);
    let x1: usize = smaller(rect.x.saturating_add(rect.w), width);
    let y0: usize = smaller(larger(rect.y, top), height);
    let y1: usize = smaller(
        smaller(rect.y.saturating_add(rect.h), top.saturating_add(desk.height)),
        height,
    );
    if x0 >= x1 || y0 >= y1 || desk.width == 0 || desk.height == 0 {
        return;
    }
    let mut y: usize = y0;
    while y < y1
        invariant
            fb.wf(),
            fb.same_size(old(fb)),
            width == old(fb).width,
            height == old(fb).height,
            desk.wf(),
            palette.wf(),
            palette.colors().len() > 0,
            desk.width > 0,
            top == desk_top(height as int, desk.height as int),
            top <= y0 <= y <= y1 <= height,
            y1 <= top + desk.height,
            x0 < x1 <= width,
            forall|px: int, py: int|
                fb.has(px, py) ==> #[trigger] fb.color_at(px, py) == (if x0 <= px < x1 && y0 <= py
                    < y {
                    match desk_color(desk, palette, width as int, height as int, px, py) {
                        Some(color) => opaque(color),
                        None => old(fb).color_at(px, py),
                    }
                } else {
                    old(fb).color_at(px, py)
                }),
        decreases y1 - y,
    {
        let ghost before = *fb;
        let mut x: usize = x0;
        while x < x1
            invariant
                fb.wf(),
                fb.same_size(&before),
                width == before.width,
                desk.wf(),
                palette.wf(),
                palette.colors().len() > 0,
                desk.width > 0,
                top == desk_top(height as int, desk.height as int),
                top <= y < top + desk.height,
                x0 <= x <= x1 <= width,
                forall|px: int, py: int|
                    fb.has(px, py) ==> #[trigger] fb.color_at(px, py) == (if x0 <= px < x && py
                        == y {
                        match desk_color(desk, palette, width as int, height as int, px, py) {
                            Some(color) => opaque(color),
                            None => before.color_at(px, py),
                        }
                    } else {
                        before.color_at(px, py)
                    }),
            decreases x1 - x,
        {
            let source_x: usize = stretched_desk_source_x(x, width, desk.width);
            let source_y: usize = y - top;
            proof {
                lemma_place(
                    desk.width as int,
                    desk.height as int,
                    source_x as int,
                    source_y as int,
                );
            }
            let paint = desk_background_paint(desk.at(source_x, source_y));
            if let Some(color) = palette.resolve_paint(paint, x, y) {
                fb.set_pixel(x, y, Rgba::from(color));
            }
            x += 1;
        }
        proof {
            assert forall|px: int, py: int| fb.has(px, py) implies #[trigger] fb.color_at(px, py)
                == (if x0 <= px < x1 && y0 <= py < y + 1 {
                match desk_color(desk, palette, width as int, height as int, px, py) {
                    Some(color) => opaque(color),
                    None => old(fb).color_at(px, py),
                }
            } else {
                old(fb).color_at(px, py)
            }) by {
                assert(before.has(px, py));
                assert(before.color_at(px, py) == before.color_at(px, py));
            }
        }
        y += 1;
    }
}

/// The part of a rectangle that lies on the picture is cleared to a hole, and
/// the desk is drawn over it.
pub fn render_background_rect(fb: &mut Framebuffer, desk: &Sprite, palette: &Palette, rect: Rect)
    requires
        old(fb).wf(),
        old(fb).height <= isize::MAX - 2000,
        desk.wf(),
        palette.wf(),
        palette.colors().len() > 0,
    ensures
        final(fb).wf(),
        final(fb).same_size(old(fb)),
        forall|px: int, py: int|
            final(fb).has(px, py) ==> #[trigger] final(fb).color_at(px, py) == (if in_rect(
                rect,
                px,
                py,
            ) {
                match desk_color(
                    desk,
                    palette,
                    old(fb).width as int,
                    old(fb).height as int,
                    px,
                    py,
                ) {
                    Some(color) => opaque(color),
                    None => see_through(palette.color_of(BACKGROUND)),
                }
            } else {
                old(fb).color_at(px, py)
            }),
{
    if rect.h > 0 {
        fb.fill_rect(rect.x, rect.y, rect.w, rect.h, palette.color(BACKGROUND).transparent());
    }
    let ghost filled = *fb;
    draw_stretched_desk_region(fb, desk, palette, rect);
    proof {
        assert forall|px: int, py: int| fb.has(px, py) implies filled.has(px, py)
            && filled.color_at(px, py) == #[trigger] filled.color_at(px, py) by {}
    }
}

/// A picture is spread out by the columns and rows that are given for it, in their
/// order, between the rows that are shown.
pub proof fn lemma_mapped_is(
    image: &Sprite,
    columns: Seq<usize>,
    rows: Seq<usize>,
    x: int,
    y: int,
    top: int,
    bottom: int,
    palette: &Palette,
    i: int,
    j: int,
)
    requires
        0 <= i < columns.len(),
        0 <= j < rows.len(),
        0 <= x,
        0 <= y,
    ensures
        top <= y + j < bottom ==> mapped(
            image,
            columns,
            rows,
            x,
            y,
            top,
            bottom,
            palette,
            x + i,
            y + j,
        ) == palette.resolved(
            image.index_at(columns[i] as int, rows[j] as int),
            (x + i) as nat,
            (y + j) as nat,
        ),
        !(top <= y + j < bottom) ==> mapped(
            image,
            columns,
            rows,
            x,
            y,
            top,
            bottom,
            palette,
            x + i,
            y + j,
        ) is None,
        forall|px: int, py: int|
            !(x <= px < x + columns.len() && y <= py < y + rows.len()) ==> (#[trigger] mapped(
                image,
                columns,
                rows,
                x,
                y,
                top,
                bottom,
                palette,
                px,
                py,
            )) is None,
{
}

/// Of the desk's colors the rose is cut out, the crimson becomes pine, and the rest
/// stay. It stands with thirty-nine of its rows below the screen.
pub proof fn lemma_desk_is(index: Index, height: int, desk_h: int)
    ensures
        desk_paint(10) == Paint::Solid(255),
        desk_paint(9) == Paint::Solid(14),
        index != 9 && index != 10 ==> desk_paint(index) == Paint::Solid(index),
        desk_h <= height + 39 ==> desk_top(height, desk_h) + desk_h == height + 39,
        desk_h > height + 39 ==> desk_top(height, desk_h) == 0,
{
}

/// A pixel of the desk has the color of its stretched column, in the row counted
/// from the desk's top; above and below the desk there is none.
pub proof fn lemma_desk_color_is(
    desk: &Sprite,
    palette: &Palette,
    width: int,
    height: int,
    px: int,
    row: int,
)
    requires
        desk.width > 0,
    ensures
        ({
            let top = desk_top(height, desk.height as int);
            let color = desk_color(desk, palette, width, height, px, top + row);
            let column = desk_column(px, width, desk.width as int);
            &&& !(0 <= row < desk.height) ==> color is None
            &&& 0 <= row < desk.height ==> color == palette.resolved_paint(
                desk_paint(desk.index_at(column, row)),
                px as nat,
                (top + row) as nat,
            )
        }),
{
}

} // verus!
