//! A picture in memory, one color per pixel, and what is drawn on it.
use vstd::arithmetic::div_mod::lemma_fundamental_div_mod;
use vstd::arithmetic::div_mod::lemma_fundamental_div_mod_converse;
use vstd::prelude::*;
use vstd::slice::slice_subrange;

use crate::graphics::{
    in_rect, lemma_place, lemma_place_unique, opaque, place, shown, shown_extent, Paint, Palette, Rect,
    Rgb, Rgba, Sprite, Swap,
};

verus! {

/// Pixels as bytes, four to a pixel in the order blue, green, red, alpha.
pub struct Framebuffer {
    pub width: usize,
    pub height: usize,
    pub pixels: Vec<u8>,
}

pub const BYTES_PER_PIXEL: usize = 4;

/// The color that four bytes hold.
pub open spec fn color_in(bytes: Seq<u8>, offset: int) -> Rgba {
    Rgba { b: bytes[offset], g: bytes[offset + 1], r: bytes[offset + 2], a: bytes[offset + 3] }
}

/// What a sprite's pixel shows in a cell, through a draw's remap if it has one.
pub open spec fn sprite_color(
    sprite: &Sprite,
    palette: &Palette,
    swap: Option<&Swap>,
    x: int,
    y: int,
    cell_x: nat,
    cell_y: nat,
) -> Option<Rgb> {
    let index = sprite.index_at(x, y);
    match swap {
        Some(swap) => palette.resolved_paint(swap.paint_of(index), cell_x, cell_y),
        None => palette.resolved(index, cell_x, cell_y),
    }
}

/// What a draw puts on a pixel. The sprite's part inside `src` is laid out in
/// blocks of `scale` pixels from `(dest_x, dest_y)`; a block shows only when
/// its corner is on the picture's side of both axes and inside the clip.
pub open spec fn drawn(
    sprite: &Sprite,
    src: Rect,
    dest_x: int,
    dest_y: int,
    scale: int,
    clip: Option<Rect>,
    palette: &Palette,
    swap: Option<&Swap>,
    px: int,
    py: int,
) -> Option<Rgb> {
    let width = shown_extent(src.x as int, src.w as int, sprite.width as int);
    let height = shown_extent(src.y as int, src.h as int, sprite.height as int);
    let col = (px - dest_x) / scale;
    let row = (py - dest_y) / scale;
    let left = dest_x + col * scale;
    let top = dest_y + row * scale;
    if scale > 0 && 0 <= col < width && 0 <= row < height && left >= 0 && top >= 0 && (
    clip matches Some(c) ==> in_rect(c, left, top)) {
        sprite_color(
            sprite,
            palette,
            swap,
            src.x + col,
            src.y + row,
            (left / scale) as nat,
            (top / scale) as nat,
        )
    } else {
        None
    }
}

proof fn lemma_block(p: int, dest: int, i: int, scale: int)
    requires
        scale > 0,
    ensures
        dest + i * scale <= p < dest + i * scale + scale <==> (p - dest) / scale == i,
{
    let d = p - dest;
    lemma_fundamental_div_mod(d, scale);
    if dest + i * scale <= p < dest + i * scale + scale {
        lemma_fundamental_div_mod_converse(d, scale, i, d - i * scale);
        assert(i * scale == scale * i) by (nonlinear_arith);
    }
    if d / scale == i {
        assert(scale * (d / scale) == i * scale) by (nonlinear_arith)
            requires
                d / scale == i,
        ;
        assert(0 <= d % scale < scale) by (nonlinear_arith)
            requires
                scale > 0,
        ;
    }
}

impl Framebuffer {
    /// A framebuffer has four bytes for each pixel.
    pub open spec fn wf(&self) -> bool {
        self.pixels@.len() == self.width * self.height * 4
    }

    pub open spec fn color_at(&self, x: int, y: int) -> Rgba {
        color_in(self.pixels@, place(self.width as int, x, y) * 4)
    }

    /// A pixel of the picture.
    pub open spec fn has(&self, x: int, y: int) -> bool {
        0 <= x < self.width && 0 <= y < self.height
    }

    pub open spec fn same_size(&self, other: &Framebuffer) -> bool {
        self.width == other.width && self.height == other.height
    }

    proof fn lemma_offset(&self, x: int, y: int)
        requires
            self.wf(),
            self.has(x, y),
        ensures
            0 <= place(self.width as int, x, y) * 4 <= self.pixels@.len() - 4,
            self.pixels@.len() <= usize::MAX,
            0 <= y * self.width,
    {
        lemma_place(self.width as int, self.height as int, x, y);
        assert(self.pixels.len() == self.pixels@.len());
        assert(0 <= y * self.width) by (nonlinear_arith)
            requires
                0 <= y,
        ;
    }

    /// A picture of one color.
    pub fn new(width: usize, height: usize, fill: Rgba) -> (r: Self)
        requires
            width * height * 4 <= usize::MAX,
        ensures
            r.wf(),
            r.width == width,
            r.height == height,
            forall|x: int, y: int| r.has(x, y) ==> #[trigger] r.color_at(x, y) == fill,
    {
        proof {
            assert(0 <= width * height <= width * height * 4) by (nonlinear_arith);
        }
        let len: usize = width * height * 4;
        let pixels: Vec<u8> = vec![0; len];
        let mut fb = Framebuffer { width, height, pixels };
        fb.clear(fill);
        fb
    }

    /// The bytes of `width` pixels of row `y`, from column `x` on.
    pub fn row_bytes(&self, y: usize, x: usize, width: usize) -> (r: &[u8])
        requires
            self.wf(),
            place(self.width as int, x as int, y as int) * 4 + width * 4 <= self.pixels@.len(),
        ensures
            r@ == self.pixels@.subrange(
                place(self.width as int, x as int, y as int) * 4,
                place(self.width as int, x as int, y as int) * 4 + width * 4,
            ),
    {
        proof {
            assert(self.pixels.len() == self.pixels@.len());
            assert(0 <= y * self.width) by (nonlinear_arith);
        }
        let start: usize = (y * self.width + x) * 4;
        let end: usize = start + width * 4;
        slice_subrange(self.pixels.as_slice(), start, end)
    }

    /// All bytes, row by row.
    pub fn ximage_bytes(&self) -> (r: &[u8])
        ensures
            r@ == self.pixels@,
    {
        self.pixels.as_slice()
    }

    fn put(&mut self, x: usize, y: usize, color: Rgba)
        requires
            old(self).wf(),
            old(self).has(x as int, y as int),
        ensures
            final(self).wf(),
            final(self).same_size(old(self)),
            forall|px: int, py: int|
                final(self).has(px, py) ==> #[trigger] final(self).color_at(px, py) == (if px == x
                    && py == y {
                    color
                } else {
                    old(self).color_at(px, py)
                }),
    {
        proof {
            self.lemma_offset(x as int, y as int);
        }
        let offset: usize = (y * self.width + x) * 4;
        self.pixels[offset] = color.b;
        self.pixels[offset + 1] = color.g;
        self.pixels[offset + 2] = color.r;
        self.pixels[offset + 3] = color.a;
        assert forall|px: int, py: int| self.has(px, py) implies #[trigger] self.color_at(px, py)
            == (if px == x && py == y {
            color
        } else {
            old(self).color_at(px, py)
        }) by {
            old(self).lemma_offset(px, py);
            if place(self.width as int, px, py) == place(self.width as int, x as int, y as int) {
                lemma_place_unique(self.width as int, x as int, y as int, px, py);
            }
        }
    }

    pub fn clear(&mut self, color: Rgba)
        requires
            old(self).wf(),
        ensures
            final(self).wf(),
            final(self).same_size(old(self)),
            forall|x: int, y: int|
                final(self).has(x, y) ==> #[trigger] final(self).color_at(x, y) == color,
    {
        let width: usize = self.width;
        let height: usize = self.height;
        self.fill_rect(0, 0, width, height, color);
    }

    /// Covers the whole picture with `sprite` scaled up, its last row and
    /// column repeated past its extent. A checker goes by the cell of the
    /// picture, also where the sprite is repeated. Holes keep what was there.
    pub fn clear_scaled(&mut self, sprite: &Sprite, scale: usize, palette: &Palette)
        requires
            old(self).wf(),
            sprite.wf(),
            palette.wf(),
            palette.colors().len() > 0,
            scale > 0,
            sprite.width > 0,
            sprite.height > 0,
        ensures
            final(self).wf(),
            final(self).same_size(old(self)),
            forall|px: int, py: int|
                final(self).has(px, py) ==> #[trigger] final(self).color_at(px, py) == (
                match scaled_color(sprite, scale as int, palette, px, py) {
                    Some(color) => opaque(color),
                    None => old(self).color_at(px, py),
                }),
    {
        let mut y: usize = 0;
        while y < self.height
            invariant
                self.wf(),
                self.same_size(old(self)),
                sprite.wf(),
                palette.wf(),
                palette.colors().len() > 0,
                scale > 0,
                sprite.width > 0,
                sprite.height > 0,
                y <= self.height,
                forall|px: int, py: int|
                    self.has(px, py) ==> #[trigger] self.color_at(px, py) == (if py < y {
                        match scaled_color(sprite, scale as int, palette, px, py) {
                            Some(color) => opaque(color),
                            None => old(self).color_at(px, py),
                        }
                    } else {
                        old(self).color_at(px, py)
                    }),
            decreases self.height - y,
        {
            let sy: usize = if y / scale < sprite.height - 1 {
                y / scale
            } else {
                sprite.height - 1
            };
            let mut x: usize = 0;
            while x < self.width
                invariant
                    self.wf(),
                    self.same_size(old(self)),
                    sprite.wf(),
                    palette.wf(),
                    palette.colors().len() > 0,
                    scale > 0,
                    sprite.width > 0,
                    sprite.height > 0,
                    y < self.height,
                    x <= self.width,
                    sy == last_at(y as int, scale as int, sprite.height as int),
                    sy < sprite.height,
                    forall|px: int, py: int|
                        self.has(px, py) ==> #[trigger] self.color_at(px, py) == (if py < y || py
                            == y && px < x {
                            match scaled_color(sprite, scale as int, palette, px, py) {
                                Some(color) => opaque(color),
                                None => old(self).color_at(px, py),
                            }
                        } else {
                            old(self).color_at(px, py)
                        }),
                decreases self.width - x,
            {
                let sx: usize = if x / scale < sprite.width - 1 {
                    x / scale
                } else {
                    sprite.width - 1
                };
                proof {
                    lemma_place(sprite.width as int, sprite.height as int, sx as int, sy as int);
                }
                if let Some(color) = palette.resolve(sprite.at(sx, sy), x / scale, y / scale) {
                    self.put(x, y, Rgba::from(color));
                }
                x += 1;
            }
            y += 1;
        }
    }

    /// Writes one pixel, if the picture has it.
    pub fn set_pixel(&mut self, x: usize, y: usize, color: Rgba)
        requires
            old(self).wf(),
        ensures
            final(self).wf(),
            final(self).same_size(old(self)),
            forall|px: int, py: int|
                final(self).has(px, py) ==> #[trigger] final(self).color_at(px, py) == (if px == x
                    && py == y {
                    color
                } else {
                    old(self).color_at(px, py)
                }),
    {
        if x < self.width && y < self.height {
            self.put(x, y, color);
        }
    }

    /// Fills the part of a rectangle that the picture has: all its rows, and at
    /// least the first one.
    pub fn fill_rect(&mut self, x: usize, y: usize, w: usize, h: usize, color: Rgba)
        requires
            old(self).wf(),
        ensures
            final(self).wf(),
            final(self).same_size(old(self)),
            forall|px: int, py: int|
                final(self).has(px, py) ==> #[trigger] final(self).color_at(px, py) == (if x <= px
                    < x + w && (py == y || y <= py < y + h) {
                    color
                } else {
                    old(self).color_at(px, py)
                }),
    {
        if x >= self.width || y >= self.height {
            return;
        }
        let width: usize = if w < self.width - x {
            w
        } else {
            self.width - x
        };
        let height: usize = if h == 0 {
            1
        } else if h < self.height - y {
            h
        } else {
            self.height - y
        };
        let mut row: usize = 0;
        while row < height
            invariant
                self.wf(),
                self.same_size(old(self)),
                row <= height,
                x + width <= self.width,
                y + height <= self.height,
                forall|px: int, py: int|
                    self.has(px, py) ==> #[trigger] self.color_at(px, py) == (if x <= px < x + width
                        && y <= py < y + row {
                        color
                    } else {
                        old(self).color_at(px, py)
                    }),
            decreases height - row,
        {
            let mut col: usize = 0;
            while col < width
                invariant
                    self.wf(),
                    self.same_size(old(self)),
                    row < height,
                    col <= width,
                    x + width <= self.width,
                    y + height <= self.height,
                    forall|px: int, py: int|
                        self.has(px, py) ==> #[trigger] self.color_at(px, py) == (if x <= px < x
                            + width && y <= py < y + row || x <= px < x + col && py == y + row {
                            color
                        } else {
                            old(self).color_at(px, py)
                        }),
                decreases width - col,
            {
                self.put(x + col, y + row, color);
                col += 1;
            }
            row += 1;
        }
    }

    pub fn draw_sprite(
        &mut self,
        sprite: &Sprite,
        dest_x: isize,
        dest_y: isize,
        scale: usize,
        palette: &Palette,
    )
        requires
            old(self).wf(),
            sprite.wf(),
            palette.wf(),
            palette.colors().len() > 0,
            dest_x + sprite.width * scale <= isize::MAX,
            dest_y + sprite.height * scale <= isize::MAX,
            sprite.width * scale <= isize::MAX,
            sprite.height * scale <= isize::MAX,
        ensures
            final(self).wf(),
            final(self).same_size(old(self)),
            forall|px: int, py: int|
                final(self).has(px, py) ==> #[trigger] final(self).color_at(px, py) == (match drawn(
                    sprite,
                    Rect { x: 0, y: 0, w: sprite.width, h: sprite.height },
                    dest_x as int,
                    dest_y as int,
                    scale as int,
                    None,
                    palette,
                    None,
                    px,
                    py,
                ) {
                    Some(color) => opaque(color),
                    None => old(self).color_at(px, py),
                }),
    {
        let src = Rect::new(0, 0, sprite.width, sprite.height);
        self.draw_sprite_full(sprite, src, dest_x, dest_y, scale, None, palette, None);
    }

    pub fn draw_sprite_swapped(
        &mut self,
        sprite: &Sprite,
        dest_x: isize,
        dest_y: isize,
        scale: usize,
        palette: &Palette,
        swap: &Swap,
    )
        requires
            old(self).wf(),
            sprite.wf(),
            palette.wf(),
            palette.colors().len() > 0,
            dest_x + sprite.width * scale <= isize::MAX,
            dest_y + sprite.height * scale <= isize::MAX,
            sprite.width * scale <= isize::MAX,
            sprite.height * scale <= isize::MAX,
        ensures
            final(self).wf(),
            final(self).same_size(old(self)),
            forall|px: int, py: int|
                final(self).has(px, py) ==> #[trigger] final(self).color_at(px, py) == (match drawn(
                    sprite,
                    Rect { x: 0, y: 0, w: sprite.width, h: sprite.height },
                    dest_x as int,
                    dest_y as int,
                    scale as int,
                    None,
                    palette,
                    Some(swap),
                    px,
                    py,
                ) {
                    Some(color) => opaque(color),
                    None => old(self).color_at(px, py),
                }),
    {
        let src = Rect::new(0, 0, sprite.width, sprite.height);
        self.draw_sprite_full(sprite, src, dest_x, dest_y, scale, None, palette, Some(swap));
    }

    /// Draws every visible pixel of the sprite as `paint`: shadows,
    /// silhouettes.
    pub fn draw_sprite_silhouette(
        &mut self,
        sprite: &Sprite,
        dest_x: isize,
        dest_y: isize,
        scale: usize,
        palette: &Palette,
        paint: Paint,
    )
        requires
            old(self).wf(),
            sprite.wf(),
            palette.wf(),
            palette.colors().len() > 0,
            dest_x + sprite.width * scale <= isize::MAX,
            dest_y + sprite.height * scale <= isize::MAX,
            sprite.width * scale <= isize::MAX,
            sprite.height * scale <= isize::MAX,
        ensures
            final(self).wf(),
            final(self).same_size(old(self)),
            exists|swap: Swap| #[trigger]
                swap.uniform_paint() == Some(paint) && forall|px: int, py: int|
                    final(self).has(px, py) ==> #[trigger] final(self).color_at(px, py) == (
                    match drawn(
                        sprite,
                        Rect { x: 0, y: 0, w: sprite.width, h: sprite.height },
                        dest_x as int,
                        dest_y as int,
                        scale as int,
                        None,
                        palette,
                        Some(&swap),
                        px,
                        py,
                    ) {
                        Some(color) => opaque(color),
                        None => old(self).color_at(px, py),
                    }),
    {
        let swap = Swap::uniform(paint);
        self.draw_sprite_swapped(sprite, dest_x, dest_y, scale, palette, &swap);
        assert(swap.uniform_paint() == Some(paint));
    }

    pub fn draw_sprite_region(
        &mut self,
        sprite: &Sprite,
        src: Rect,
        dest_x: isize,
        dest_y: isize,
        scale: usize,
        palette: &Palette,
    )
        requires
            old(self).wf(),
            sprite.wf(),
            palette.wf(),
            palette.colors().len() > 0,
            dest_x + sprite.width * scale <= isize::MAX,
            dest_y + sprite.height * scale <= isize::MAX,
            sprite.width * scale <= isize::MAX,
            sprite.height * scale <= isize::MAX,
        ensures
            final(self).wf(),
            final(self).same_size(old(self)),
            forall|px: int, py: int|
                final(self).has(px, py) ==> #[trigger] final(self).color_at(px, py) == (match drawn(
                    sprite,
                    src,
                    dest_x as int,
                    dest_y as int,
                    scale as int,
                    None,
                    palette,
                    None,
                    px,
                    py,
                ) {
                    Some(color) => opaque(color),
                    None => old(self).color_at(px, py),
                }),
    {
        self.draw_sprite_full(sprite, src, dest_x, dest_y, scale, None, palette, None);
    }

    /// Draws the part of a sprite that `src` covers, scaled up, within `clip`
    /// and through `swap` when they are given.
    #[verifier::spinoff_prover]
    #[verifier::rlimit(60)]
    pub fn draw_sprite_full(
        &mut self,
        sprite: &Sprite,
        src: Rect,
        dest_x: isize,
        dest_y: isize,
        scale: usize,
        clip: Option<Rect>,
        palette: &Palette,
        swap: Option<&Swap>,
    )
        requires
            old(self).wf(),
            sprite.wf(),
            palette.wf(),
            palette.colors().len() > 0,
            dest_x + sprite.width * scale <= isize::MAX,
            dest_y + sprite.height * scale <= isize::MAX,
            sprite.width * scale <= isize::MAX,
            sprite.height * scale <= isize::MAX,
        ensures
            final(self).wf(),
            final(self).same_size(old(self)),
            forall|px: int, py: int|
                final(self).has(px, py) ==> #[trigger] final(self).color_at(px, py) == (match drawn(
                    sprite,
                    src,
                    dest_x as int,
                    dest_y as int,
                    scale as int,
                    clip,
                    palette,
                    swap,
                    px,
                    py,
                ) {
                    Some(color) => opaque(color),
                    None => old(self).color_at(px, py),
                }),
    {
        if scale == 0 {
            return;
        }
        let width: usize = shown(src.x, src.w, sprite.width);
        let height: usize = shown(src.y, src.h, sprite.height);
        let mut y: usize = 0;
        while y < height
            invariant
                self.wf(),
                self.same_size(old(self)),
                sprite.wf(),
                palette.wf(),
                palette.colors().len() > 0,
                scale > 0,
                dest_x + sprite.width * scale <= isize::MAX,
                dest_y + sprite.height * scale <= isize::MAX,
                sprite.width * scale <= isize::MAX,
                sprite.height * scale <= isize::MAX,
                width == shown_extent(src.x as int, src.w as int, sprite.width as int),
                height == shown_extent(src.y as int, src.h as int, sprite.height as int),
                y <= height,
                forall|px: int, py: int|
                    self.has(px, py) ==> #[trigger] self.color_at(px, py) == (if (py - dest_y)
                        / scale as int >= y {
                        old(self).color_at(px, py)
                    } else {
                        match drawn(
                            sprite,
                            src,
                            dest_x as int,
                            dest_y as int,
                            scale as int,
                            clip,
                            palette,
                            swap,
                            px,
                            py,
                        ) {
                            Some(color) => opaque(color),
                            None => old(self).color_at(px, py),
                        }
                    }),
            decreases height - y,
        {
            let mut x: usize = 0;
            while x < width
                invariant
                    self.wf(),
                    self.same_size(old(self)),
                    sprite.wf(),
                    palette.wf(),
                    palette.colors().len() > 0,
                    scale > 0,
                    dest_x + sprite.width * scale <= isize::MAX,
                    dest_y + sprite.height * scale <= isize::MAX,
                    sprite.width * scale <= isize::MAX,
                    sprite.height * scale <= isize::MAX,
                    width == shown_extent(src.x as int, src.w as int, sprite.width as int),
                    height == shown_extent(src.y as int, src.h as int, sprite.height as int),
                    y < height,
                    x <= width,
                    forall|px: int, py: int|
                        self.has(px, py) ==> #[trigger] self.color_at(px, py) == (if (py - dest_y)
                            / scale as int > y || (py - dest_y) / scale as int == y && (px - dest_x)
                            / scale as int >= x {
                            old(self).color_at(px, py)
                        } else {
                            match drawn(
                                sprite,
                                src,
                                dest_x as int,
                                dest_y as int,
                                scale as int,
                                clip,
                                palette,
                                swap,
                                px,
                                py,
                            ) {
                                Some(color) => opaque(color),
                                None => old(self).color_at(px, py),
                            }
                        }),
                decreases width - x,
            {
                proof {
                    lemma_place(
                        sprite.width as int,
                        sprite.height as int,
                        src.x + x,
                        src.y + y,
                    );
                    assert(0 <= x * scale <= sprite.width * scale) by (nonlinear_arith)
                        requires
                            0 <= x <= sprite.width,
                            scale > 0,
                    ;
                    assert(0 <= y * scale <= sprite.height * scale) by (nonlinear_arith)
                        requires
                            0 <= y <= sprite.height,
                            scale > 0,
                    ;
                }
                let ghost before = *self;
                let dx: isize = dest_x + (x * scale) as isize;
                let dy: isize = dest_y + (y * scale) as isize;
                let inside = dx >= 0 && dy >= 0 && (match clip {
                    Some(c) => c.contains_point(dx as usize, dy as usize),
                    None => true,
                });
                if inside {
                    let cell_x: usize = dx as usize / scale;
                    let cell_y: usize = dy as usize / scale;
                    let index = sprite.at(src.x + x, src.y + y);
                    let color = match swap {
                        Some(swap) => palette.resolve_paint(swap.paint(index), cell_x, cell_y),
                        None => palette.resolve(index, cell_x, cell_y),
                    };
                    if let Some(color) = color {
                        self.fill_rect(dx as usize, dy as usize, scale, scale, Rgba::from(color));
                    }
                }
                proof {
                    assert forall|px: int, py: int| self.has(px, py) implies #[trigger] self.color_at(
                        px,
                        py,
                    ) == (if (py - dest_y) / scale as int > y || (py - dest_y) / scale as int == y
                        && (px - dest_x) / scale as int >= x + 1 {
                        old(self).color_at(px, py)
                    } else {
                        match drawn(
                            sprite,
                            src,
                            dest_x as int,
                            dest_y as int,
                            scale as int,
                            clip,
                            palette,
                            swap,
                            px,
                            py,
                        ) {
                            Some(color) => opaque(color),
                            None => old(self).color_at(px, py),
                        }
                    }) by {
                        lemma_block(px, dest_x as int, x as int, scale as int);
                        lemma_block(py, dest_y as int, y as int, scale as int);
                        assert(before.has(px, py));
                        assert(before.color_at(px, py) == before.color_at(px, py));
                    }
                }
                x += 1;
            }
            proof {
                assert forall|px: int, py: int| self.has(px, py) implies #[trigger] self.color_at(
                    px,
                    py,
                ) == (if (py - dest_y) / scale as int >= y + 1 {
                    old(self).color_at(px, py)
                } else {
                    match drawn(
                        sprite,
                        src,
                        dest_x as int,
                        dest_y as int,
                        scale as int,
                        clip,
                        palette,
                        swap,
                        px,
                        py,
                    ) {
                        Some(color) => opaque(color),
                        None => old(self).color_at(px, py),
                    }
                }) by {
                    lemma_block(px, dest_x as int, width as int, scale as int);
                }
            }
            y += 1;
        }
    }

    /// Copies the visible pixels of another picture to `(dest_x, dest_y)`.
    pub fn blit_from(&mut self, src: &Self, dest_x: usize, dest_y: usize)
        requires
            old(self).wf(),
            src.wf(),
        ensures
            final(self).wf(),
            final(self).same_size(old(self)),
            forall|px: int, py: int|
                final(self).has(px, py) ==> #[trigger] final(self).color_at(px, py) == (if src.has(
                    px - dest_x,
                    py - dest_y,
                ) && src.color_at(px - dest_x, py - dest_y).a != 0 {
                    src.color_at(px - dest_x, py - dest_y)
                } else {
                    old(self).color_at(px, py)
                }),
    {
        if dest_x >= self.width || dest_y >= self.height {
            return;
        }
        let copy_width: usize = if src.width < self.width - dest_x {
            src.width
        } else {
            self.width - dest_x
        };
        let copy_height: usize = if src.height < self.height - dest_y {
            src.height
        } else {
            self.height - dest_y
        };
        let mut y: usize = 0;
        while y < copy_height
            invariant
                self.wf(),
                self.same_size(old(self)),
                src.wf(),
                y <= copy_height,
                copy_width <= src.width,
                copy_height <= src.height,
                copy_width + dest_x <= self.width,
                copy_height + dest_y <= self.height,
                forall|px: int, py: int|
                    self.has(px, py) ==> #[trigger] self.color_at(px, py) == (if 0 <= px - dest_x
                        < copy_width && 0 <= py - dest_y < y && src.color_at(
                        px - dest_x,
                        py - dest_y,
                    ).a != 0 {
                        src.color_at(px - dest_x, py - dest_y)
                    } else {
                        old(self).color_at(px, py)
                    }),
            decreases copy_height - y,
        {
            let mut x: usize = 0;
            while x < copy_width
                invariant
                    self.wf(),
                    self.same_size(old(self)),
                    src.wf(),
                    y < copy_height,
                    x <= copy_width,
                    copy_width <= src.width,
                    copy_height <= src.height,
                    copy_width + dest_x <= self.width,
                    copy_height + dest_y <= self.height,
                    forall|px: int, py: int|
                        self.has(px, py) ==> #[trigger] self.color_at(px, py) == (if 0 <= px
                            - dest_x < copy_width && (0 <= py - dest_y < y || py - dest_y == y && px
                            - dest_x < x) && src.color_at(px - dest_x, py - dest_y).a != 0 {
                            src.color_at(px - dest_x, py - dest_y)
                        } else {
                            old(self).color_at(px, py)
                        }),
                decreases copy_width - x,
            {
                let color = src.pixel(x, y);
                if color.a != 0 {
                    self.put(dest_x + x, dest_y + y, color);
                }
                x += 1;
            }
            y += 1;
        }
    }

    /// The color of a pixel.
    pub fn pixel(&self, x: usize, y: usize) -> (r: Rgba)
        requires
            self.wf(),
            self.has(x as int, y as int),
        ensures
            r == self.color_at(x as int, y as int),
    {
        proof {
            self.lemma_offset(x as int, y as int);
        }
        let offset: usize = (y * self.width + x) * 4;
        Rgba {
            b: self.pixels[offset],
            g: self.pixels[offset + 1],
            r: self.pixels[offset + 2],
            a: self.pixels[offset + 3],
        }
    }
}

/// The row or column of a sprite that a scaled position shows.
pub open spec fn last_at(p: int, scale: int, extent: int) -> int {
    if p / scale < extent - 1 {
        p / scale
    } else {
        extent - 1
    }
}

/// What covering a picture with a scaled sprite shows on a pixel.
pub open spec fn scaled_color(
    sprite: &Sprite,
    scale: int,
    palette: &Palette,
    px: int,
    py: int,
) -> Option<Rgb> {
    let sx = last_at(px, scale, sprite.width as int);
    let sy = last_at(py, scale, sprite.height as int);
    palette.resolved(sprite.index_at(sx, sy), (px / scale) as nat, (py / scale) as nat)
}

/// A pixel takes four bytes: blue, green, red and how solid it is.
pub proof fn lemma_pixel_bytes(bytes: Seq<u8>, offset: int)
    ensures
        color_in(bytes, offset).b == bytes[offset],
        color_in(bytes, offset).g == bytes[offset + 1],
        color_in(bytes, offset).r == bytes[offset + 2],
        color_in(bytes, offset).a == bytes[offset + 3],
{
}

/// A part of a picture is drawn from its left upper corner on, each pixel as a
/// square of the scale's size and in its own color. Nothing is drawn outside of it,
/// nor where a square's corner is outside of the clip.
pub proof fn lemma_drawn_is(
    sprite: &Sprite,
    src: Rect,
    dest_x: int,
    dest_y: int,
    scale: int,
    clip: Rect,
    palette: &Palette,
    swap: Option<&Swap>,
    col: int,
    row: int,
    dx: int,
    dy: int,
)
    requires
        scale > 0,
        0 <= dx < scale,
        0 <= dy < scale,
        dest_x >= 0,
        dest_y >= 0,
    ensures
        ({
            let px = dest_x + col * scale + dx;
            let py = dest_y + row * scale + dy;
            let inside = 0 <= col < src.w && src.x + col < sprite.width && 0 <= row < src.h && src.y
                + row < sprite.height;
            let corner_in = clip.x <= px - dx < clip.x + clip.w && clip.y <= py - dy < clip.y
                + clip.h;
            let color = sprite_color(
                sprite,
                palette,
                swap,
                src.x + col,
                src.y + row,
                ((px - dx) / scale) as nat,
                ((py - dy) / scale) as nat,
            );
            &&& inside ==> drawn(
                sprite,
                src,
                dest_x,
                dest_y,
                scale,
                None,
                palette,
                swap,
                px,
                py,
            ) == color
            &&& inside && corner_in ==> drawn(
                sprite,
                src,
                dest_x,
                dest_y,
                scale,
                Some(clip),
                palette,
                swap,
                px,
                py,
            ) == color
            &&& !inside || !corner_in ==> drawn(
                sprite,
                src,
                dest_x,
                dest_y,
                scale,
                Some(clip),
                palette,
                swap,
                px,
                py,
            ) is None
            &&& !inside ==> drawn(
                sprite,
                src,
                dest_x,
                dest_y,
                scale,
                None,
                palette,
                swap,
                px,
                py,
            ) is None
        }),
{
    lemma_cell(col, scale, dx);
    lemma_cell(row, scale, dy);
    assert(0 <= col ==> col * scale >= 0) by (nonlinear_arith)
        requires
            scale > 0,
    ;
    assert(0 <= row ==> row * scale >= 0) by (nonlinear_arith)
        requires
            scale > 0,
    ;
}

proof fn lemma_cell(col: int, scale: int, d: int)
    requires
        scale > 0,
        0 <= d < scale,
    ensures
        (col * scale + d) / scale == col,
{
    vstd::arithmetic::div_mod::lemma_fundamental_div_mod_converse(col * scale + d, scale, col, d);
}

/// A pixel of a picture has its own color, or the one that a swap gives it.
pub proof fn lemma_sprite_color_is(
    sprite: &Sprite,
    palette: &Palette,
    swap: &Swap,
    x: int,
    y: int,
    cell_x: nat,
    cell_y: nat,
)
    ensures
        sprite_color(sprite, palette, None, x, y, cell_x, cell_y) == palette.resolved(
            sprite.index_at(x, y),
            cell_x,
            cell_y,
        ),
        sprite_color(sprite, palette, Some(swap), x, y, cell_x, cell_y) == palette.resolved_paint(
            swap.paint_of(sprite.index_at(x, y)),
            cell_x,
            cell_y,
        ),
{
}

/// A picture that fills a screen repeats its last column and row where it ends.
pub proof fn lemma_scaled_color_is(
    sprite: &Sprite,
    scale: int,
    palette: &Palette,
    col: int,
    row: int,
    dx: int,
    dy: int,
)
    requires
        scale > 0,
        0 <= col < sprite.width,
        0 <= row < sprite.height,
        0 <= dx < scale,
        0 <= dy < scale,
    ensures
        scaled_color(sprite, scale, palette, col * scale + dx, row * scale + dy)
            == palette.resolved(sprite.index_at(col, row), col as nat, row as nat),
        last_at((sprite.width + col) * scale + dx, scale, sprite.width as int) == sprite.width - 1,
{
    lemma_cell(col, scale, dx);
    lemma_cell(row, scale, dy);
    lemma_cell(sprite.width + col, scale, dx);
}

/// A pixel's color stands in the four bytes at its place: blue, green, red and alpha,
/// row after row from the top and from left to right.
pub proof fn lemma_pixels_stand(fb: &Framebuffer, x: int, y: int)
    ensures
        ({
            let at = 4 * x + 4 * (y * fb.width);
            &&& fb.color_at(x, y).b == fb.pixels@[at]
            &&& fb.color_at(x, y).g == fb.pixels@[at + 1]
            &&& fb.color_at(x, y).r == fb.pixels@[at + 2]
            &&& fb.color_at(x, y).a == fb.pixels@[at + 3]
        }),
{
}

/// Pictures of the same size have as many columns and rows, and the same pixels lie on
/// them.
pub proof fn lemma_same_size_is(a: &Framebuffer, b: &Framebuffer, x: int, y: int)
    ensures
        a.same_size(b) <==> a.width == b.width && a.height == b.height,
        a.same_size(b) ==> (a.has(x, y) <==> 0 <= x < b.width && 0 <= y < b.height),
{
}

} // verus!
