//! Bitmap fonts: glyphs cut from atlases, measured and drawn.
use vstd::prelude::*;

use crate::chars::{string_views, to_chars};
use crate::framebuffer::Framebuffer;
use crate::graphics::{span, Rgba};
use crate::image::{
    decode_png_with_size, holdable, image_colors, png_image, ImageError, PixelFault,
};
use crate::text_wrap::{
    lemma_narrow_lines_fit, lemma_run_fits, lines_fit, run_width, wrap_measured, wrapped_lines,
    Measured,
};

verus! {

/// One bitmap covering a block of codepoints from `first_codepoint` on, and
/// the file it lies in.
pub struct FontAtlas {
    pub first_codepoint: usize,
    pub path: String,
}

/// The geometry of a font: how its atlases are divided into cells, and how far
/// each codepoint advances.
pub struct FontSpec {
    pub atlases: Vec<FontAtlas>,
    pub block: usize,
    pub cell_w: usize,
    pub cell_h: usize,
    pub cols: usize,
    pub x_origin: usize,
    pub advance: Vec<u8>,
}

impl FontSpec {
    /// A font has columns, cells of a drawable size, and an advance for every
    /// codepoint that its atlases cover.
    pub open spec fn wf(&self) -> bool {
        &&& self.cols > 0
        &&& self.cell_w <= span()
        &&& self.cell_h <= span()
        &&& self.x_origin <= span()
        &&& forall|i: int|
            0 <= i < self.atlases@.len() ==> (#[trigger] self.atlases@[i]).first_codepoint
                + self.block <= self.advance@.len()
    }

    /// The rows of cells that a whole block takes.
    pub open spec fn block_rows(&self) -> int {
        (self.block + self.cols - 1) / self.cols as int
    }

    /// Whether an atlas of the given size has a cell for the whole block.
    pub open spec fn fits(&self, width: int, height: int) -> bool {
        width >= self.cols * self.cell_w && height >= self.block_rows() * self.cell_h
    }
}

/// The ink of a loaded atlas.
pub struct LoadedAtlas {
    pub first_codepoint: usize,
    pub width: usize,
    pub pixels: Vec<bool>,
}

/// A color counts as ink when its samples add up to at least half of white.
pub open spec fn inky(color: Rgba) -> bool {
    color.r + color.g + color.b >= 384
}

pub fn is_glyph_ink(color: Rgba) -> (r: bool)
    ensures
        r == inky(color),
{
    let luminance: u16 = color.r as u16 + color.g as u16 + color.b as u16;
    luminance >= 384
}

/// A character's cell in an atlas, and how far it advances.
pub struct Glyph<'a> {
    pub atlas: &'a LoadedAtlas,
    pub cell_x: usize,
    pub cell_y: usize,
    pub cell_w: usize,
    pub cell_h: usize,
    pub x_origin: usize,
    pub advance: usize,
}

/// What a glyph is: its ink, cell size, origin and advance.
pub struct GlyphView {
    pub pixels: Seq<bool>,
    pub width: int,
    pub cell_x: int,
    pub cell_y: int,
    pub cell_w: int,
    pub cell_h: int,
    pub x_origin: int,
    pub advance: int,
}

impl GlyphView {
    pub open spec fn on(self, x: int, y: int) -> bool {
        self.pixels[(self.cell_y + y) * self.width + self.cell_x + x]
    }

    /// A pixel of the cell that has ink.
    pub open spec fn ink(self, x: int, y: int) -> bool {
        0 <= x < self.cell_w && 0 <= y < self.cell_h && self.on(x, y)
    }

    /// The cell lies within the atlas.
    pub open spec fn wf(self) -> bool {
        &&& 0 <= self.cell_x
        &&& 0 <= self.cell_y
        &&& 0 <= self.cell_w <= span()
        &&& 0 <= self.cell_h <= span()
        &&& 0 <= self.x_origin <= span()
        &&& 0 <= self.advance <= 255
        &&& self.cell_x + self.cell_w <= self.width
        &&& (self.cell_y + self.cell_h) * self.width <= self.pixels.len()
    }
}

impl<'a> View for Glyph<'a> {
    type V = GlyphView;

    open spec fn view(&self) -> GlyphView {
        GlyphView {
            pixels: self.atlas.pixels@,
            width: self.atlas.width as int,
            cell_x: self.cell_x as int,
            cell_y: self.cell_y as int,
            cell_w: self.cell_w as int,
            cell_h: self.cell_h as int,
            x_origin: self.x_origin as int,
            advance: self.advance as int,
        }
    }
}

impl<'a> Glyph<'a> {
    pub fn is_on(&self, x: usize, y: usize) -> (r: bool)
        requires
            self@.wf(),
            x < self.cell_w,
            y < self.cell_h,
        ensures
            r == self@.on(x as int, y as int),
            r == self@.ink(x as int, y as int),
    {
        let len: usize = self.atlas.pixels.len();
        proof {
            let w = self.atlas.width as int;
            let row = self.cell_y + y;
            assert(0 <= row * w && row * w + w <= (self.cell_y + self.cell_h) * w)
                by (nonlinear_arith)
                requires
                    0 <= row < self.cell_y + self.cell_h,
                    w >= 0,
            ;
            assert(row <= row * w) by (nonlinear_arith)
                requires
                    row >= 0,
                    w >= 1,
            ;
        }
        self.atlas.pixels[(self.cell_y + y) * self.atlas.width + self.cell_x + x]
    }
}

pub struct BitmapFont {
    pub spec: FontSpec,
    pub atlases: Vec<LoadedAtlas>,
    pub fallback: Option<Box<BitmapFont>>,
}

/// Whether an atlas covers a codepoint.
pub open spec fn covers(atlas: LoadedAtlas, block: int, code: int) -> bool {
    atlas.first_codepoint <= code < atlas.first_codepoint + block
}

/// The first atlas that covers a codepoint.
pub open spec fn first_covering(atlases: Seq<LoadedAtlas>, block: int, code: int) -> Option<int>
    decreases atlases.len(),
{
    if atlases.len() == 0 {
        None
    } else {
        match first_covering(atlases.drop_last(), block, code) {
            Some(i) => Some(i),
            None => if covers(atlases.last(), block, code) {
                Some(atlases.len() - 1)
            } else {
                None
            },
        }
    }
}

proof fn lemma_first_covering(atlases: Seq<LoadedAtlas>, block: int, code: int, i: int)
    requires
        0 <= i < atlases.len(),
        covers(atlases[i], block, code),
        first_covering(atlases.take(i), block, code) is None,
    ensures
        first_covering(atlases, block, code) == Some(i),
    decreases atlases.len(),
{
    if i == atlases.len() - 1 {
        assert(atlases.drop_last() =~= atlases.take(i));
    } else {
        assert(atlases.drop_last().take(i) =~= atlases.take(i));
        lemma_first_covering(atlases.drop_last(), block, code, i);
    }
}

proof fn lemma_first_covering_valid(atlases: Seq<LoadedAtlas>, block: int, code: int)
    ensures
        first_covering(atlases, block, code) matches Some(i) ==> 0 <= i < atlases.len() && covers(
            atlases[i],
            block,
            code,
        ),
    decreases atlases.len(),
{
    if atlases.len() > 0 {
        lemma_first_covering_valid(atlases.drop_last(), block, code);
    }
}

impl BitmapFont {
    /// A font without its fallback fits its atlases: every cell of a block
    /// lies within the atlas, and has an advance.
    pub open spec fn own_wf(&self) -> bool {
        &&& self.spec.cols > 0
        &&& self.spec.cell_w <= span()
        &&& self.spec.cell_h <= span()
        &&& self.spec.x_origin <= span()
        &&& forall|i: int|
            0 <= i < self.atlases@.len() ==> {
                let atlas = #[trigger] self.atlases@[i];
                &&& atlas.first_codepoint + self.spec.block <= self.spec.advance@.len()
                &&& atlas.width >= self.spec.cols * self.spec.cell_w
                &&& self.spec.block_rows() * self.spec.cell_h <= usize::MAX
                &&& self.spec.block_rows() * self.spec.cell_h * atlas.width <= atlas.pixels@.len()
            }
    }

    /// A font and every font that it falls back to fit their atlases.
    pub open spec fn chain_wf(&self) -> bool
        decreases *self,
    {
        &&& self.own_wf()
        &&& match self.fallback {
            Some(font) => font.chain_wf(),
            None => true,
        }
    }

    /// Such a font that also has the glyph `?`, which stands in for what none
    /// of the fonts has.
    pub open spec fn wf(&self) -> bool {
        self.chain_wf() && first_covering(self.atlases@, self.spec.block as int, 63) is Some
    }

    /// The font's own glyph for a codepoint.
    pub open spec fn located(&self, code: int) -> Option<GlyphView> {
        match first_covering(self.atlases@, self.spec.block as int, code) {
            Some(i) => {
                let atlas = self.atlases@[i];
                let local = code - atlas.first_codepoint;
                Some(
                    GlyphView {
                        pixels: atlas.pixels@,
                        width: atlas.width as int,
                        cell_x: (local % self.spec.cols as int) * self.spec.cell_w,
                        cell_y: (local / self.spec.cols as int) * self.spec.cell_h,
                        cell_w: self.spec.cell_w as int,
                        cell_h: self.spec.cell_h as int,
                        x_origin: self.spec.x_origin as int,
                        advance: self.spec.advance@[code] as int,
                    },
                )
            },
            None => None,
        }
    }

    /// The glyph of the first font in the chain that has the codepoint.
    pub open spec fn resolved(&self, code: int) -> Option<GlyphView>
        decreases *self,
    {
        match self.located(code) {
            Some(glyph) => Some(glyph),
            None => match self.fallback {
                Some(font) => font.resolved(code),
                None => None,
            },
        }
    }

    /// The glyph that a character is drawn with.
    pub open spec fn glyph_of(&self, ch: char) -> GlyphView {
        match self.resolved(ch as int) {
            Some(glyph) => glyph,
            None => self.located(63)->0,
        }
    }

    /// How far a text advances.
    pub open spec fn width_of(&self, text: Seq<char>) -> int
        decreases text.len(),
    {
        if text.len() == 0 {
            0
        } else {
            self.width_of(text.drop_last()) + self.glyph_of(text.last()).advance
        }
    }

    proof fn lemma_located(&self, code: int)
        requires
            self.own_wf(),
            0 <= code,
        ensures
            self.located(code) matches Some(glyph) ==> glyph.wf() && glyph.cell_y <= usize::MAX,
    {
        lemma_first_covering_valid(self.atlases@, self.spec.block as int, code);
        if let Some(i) = first_covering(self.atlases@, self.spec.block as int, code) {
            let atlas = self.atlases@[i];
            let glyph = self.located(code)->0;
            let local = code - atlas.first_codepoint;
            let cols = self.spec.cols as int;
            let block = self.spec.block as int;
            let rows = self.spec.block_rows();
            let col = local % cols;
            let row = local / cols;
            assert(0 <= col < cols) by (nonlinear_arith)
                requires
                    cols > 0,
                    col == local % cols,
            ;
            assert(0 <= row && row + 1 <= rows) by (nonlinear_arith)
                requires
                    cols > 0,
                    0 <= local < block,
                    row == local / cols,
                    rows == (block + cols - 1) / cols,
            ;
            let cw = self.spec.cell_w as int;
            let ch = self.spec.cell_h as int;
            assert(0 <= col * cw && col * cw + cw <= cols * cw) by (nonlinear_arith)
                requires
                    0 <= col < cols,
                    cw >= 0,
            ;
            assert(0 <= row * ch && row * ch + ch <= rows * ch) by (nonlinear_arith)
                requires
                    0 <= row < rows,
                    ch >= 0,
            ;
            let w = atlas.width as int;
            assert((row * ch + ch) * w <= rows * ch * w) by (nonlinear_arith)
                requires
                    row * ch + ch <= rows * ch,
                    w >= 0,
            ;
        }
    }

    proof fn lemma_resolved(&self, code: int)
        requires
            self.chain_wf(),
            0 <= code,
        ensures
            self.resolved(code) matches Some(glyph) ==> glyph.wf(),
        decreases *self,
    {
        self.lemma_located(code);
        if let Some(font) = self.fallback {
            font.lemma_resolved(code);
        }
    }

    /// Every character has a glyph that lies within its atlas.
    pub proof fn lemma_glyph(&self, ch: char)
        requires
            self.wf(),
        ensures
            self.glyph_of(ch).wf(),
    {
        self.lemma_resolved(ch as int);
        self.lemma_located(63);
    }

    /// A text is never wider than 255 pixels a character.
    pub proof fn lemma_width(&self, text: Seq<char>)
        requires
            self.wf(),
        ensures
            0 <= self.width_of(text) <= 255 * text.len(),
        decreases text.len(),
    {
        if text.len() > 0 {
            self.lemma_width(text.drop_last());
            self.lemma_glyph(text.last());
        }
    }

    proof fn lemma_width_prefix(&self, text: Seq<char>, n: int)
        requires
            self.wf(),
            0 <= n <= text.len(),
        ensures
            0 <= self.width_of(text.take(n)) <= 255 * n,
    {
        self.lemma_width(text.take(n));
    }

    fn locate(&self, code: usize) -> (r: Option<Glyph<'_>>)
        requires
            self.own_wf(),
        ensures
            match r {
                Some(glyph) => self.located(code as int) == Some(glyph@),
                None => self.located(code as int) is None,
            },
    {
        let mut i: usize = 0;
        while i < self.atlases.len()
            invariant
                i <= self.atlases@.len(),
                self.own_wf(),
                first_covering(
                    self.atlases@.take(i as int),
                    self.spec.block as int,
                    code as int,
                ) is None,
            decreases self.atlases@.len() - i,
        {
            let atlas = &self.atlases[i];
            assert(self.atlases@.take(i + 1).drop_last() =~= self.atlases@.take(i as int));
            if code >= atlas.first_codepoint && code - atlas.first_codepoint < self.spec.block {
                let local: usize = code - atlas.first_codepoint;
                proof {
                    lemma_first_covering(
                        self.atlases@,
                        self.spec.block as int,
                        code as int,
                        i as int,
                    );
                    self.lemma_located(code as int);
                }
                return Some(
                    Glyph {
                        atlas,
                        cell_x: (local % self.spec.cols) * self.spec.cell_w,
                        cell_y: (local / self.spec.cols) * self.spec.cell_h,
                        cell_w: self.spec.cell_w,
                        cell_h: self.spec.cell_h,
                        x_origin: self.spec.x_origin,
                        advance: self.spec.advance[code] as usize,
                    },
                );
            }
            i += 1;
        }
        assert(self.atlases@.take(self.atlases@.len() as int) =~= self.atlases@);
        None
    }
}

/// Where a glyph pixel of a text falls, with the text starting at column 0:
/// the pixel `(gx, gy)` of the cell of character `i`.
pub open spec fn ink_of(
    font: &BitmapFont,
    text: Seq<char>,
    i: int,
    gx: int,
    gy: int,
    x: int,
    y: int,
) -> bool {
    &&& 0 <= i < text.len()
    &&& font.glyph_of(text[i]).ink(gx, gy)
    &&& x == font.width_of(text.take(i)) + gx - font.glyph_of(text[i]).x_origin
    &&& y == gy
}

/// Whether a text has ink at a place.
pub open spec fn inked(font: &BitmapFont, text: Seq<char>, x: int, y: int) -> bool {
    exists|i: int, gx: int, gy: int| #[trigger] ink_of(font, text, i, gx, gy, x, y)
}

/// The smallest box around a text's ink; the upper bounds are exclusive.
#[derive(Clone, Copy, PartialEq, Eq, Structural, Debug)]
pub struct TextInkBounds {
    pub min_x: isize,
    pub min_y: usize,
    pub max_x: isize,
    pub max_y: usize,
}

impl TextInkBounds {
    pub fn width(&self) -> (r: usize)
        requires
            self.max_x - self.min_x <= isize::MAX,
        ensures
            r == (if self.max_x > self.min_x {
                self.max_x - self.min_x
            } else {
                0
            }),
    {
        if self.max_x > self.min_x {
            (self.max_x - self.min_x) as usize
        } else {
            0
        }
    }

    pub fn height(&self) -> (r: usize)
        ensures
            r == (if self.max_y > self.min_y {
                self.max_y - self.min_y
            } else {
                0
            }),
    {
        if self.max_y > self.min_y {
            self.max_y - self.min_y
        } else {
            0
        }
    }
}

/// Whether a box holds a set of places and none of its sides can move in.
pub open spec fn tight(b: TextInkBounds, ink: spec_fn(int, int) -> bool) -> bool {
    &&& forall|x: int, y: int| #[trigger]
        ink(x, y) ==> b.min_x <= x < b.max_x && b.min_y <= y < b.max_y
    &&& exists|y: int| #[trigger] ink(b.min_x as int, y)
    &&& exists|y: int| #[trigger] ink(b.max_x - 1, y)
    &&& exists|x: int| #[trigger] ink(x, b.min_y as int)
    &&& exists|x: int| #[trigger] ink(x, b.max_y - 1)
}

/// Whether a box is the box around a text's ink.
pub open spec fn ink_box(font: &BitmapFont, text: Seq<char>, b: TextInkBounds) -> bool {
    tight(b, |x: int, y: int| inked(font, text, x, y))
}

/// The ink that a scan has met: all of the characters before `i`, the rows of
/// its cell before `gy`, and that row up to `gx`.
spec fn met(
    font: &BitmapFont,
    text: Seq<char>,
    i: int,
    gx: int,
    gy: int,
    x: int,
    y: int,
) -> bool {
    exists|j: int, cx: int, cy: int| #[trigger]
        ink_of(font, text, j, cx, cy, x, y) && (j < i || j == i && (cy < gy || cy == gy && cx
            < gx))
}

spec fn bounds_of(bounds: Option<TextInkBounds>, ink: spec_fn(int, int) -> bool) -> bool {
    match bounds {
        Some(b) => tight(b, ink),
        None => forall|x: int, y: int| !#[trigger] ink(x, y),
    }
}

proof fn lemma_bounds_same(
    bounds: Option<TextInkBounds>,
    a: spec_fn(int, int) -> bool,
    b: spec_fn(int, int) -> bool,
)
    requires
        bounds_of(bounds, a),
        forall|x: int, y: int| #[trigger] a(x, y) <==> b(x, y),
    ensures
        bounds_of(bounds, b),
{
    if let Some(c) = bounds {
        let y1 = choose|y: int| #[trigger] a(c.min_x as int, y);
        assert(b(c.min_x as int, y1));
        let y2 = choose|y: int| #[trigger] a(c.max_x - 1, y);
        assert(b(c.max_x - 1, y2));
        let x1 = choose|x: int| #[trigger] a(x, c.min_y as int);
        assert(b(x1, c.min_y as int));
        let x2 = choose|x: int| #[trigger] a(x, c.max_y - 1);
        assert(b(x2, c.max_y - 1));
        assert forall|x: int, y: int| #[trigger] b(x, y) implies c.min_x <= x < c.max_x && c.min_y
            <= y < c.max_y by {
            assert(a(x, y));
        }
    } else {
        assert forall|x: int, y: int| !#[trigger] b(x, y) by {
            assert(!a(x, y));
        }
    }
}

/// A box grown to hold one more place.
fn grow(bounds: Option<TextInkBounds>, x: isize, y: usize) -> (r: TextInkBounds)
    requires
        x < isize::MAX,
        y < usize::MAX,
    ensures
        match bounds {
            None => r.min_x == x && r.max_x == x + 1 && r.min_y == y && r.max_y == y + 1,
            Some(b) => {
                &&& r.min_x == (if x < b.min_x {
                    x
                } else {
                    b.min_x
                })
                &&& r.max_x == (if x + 1 > b.max_x {
                    (x + 1) as isize
                } else {
                    b.max_x
                })
                &&& r.min_y == (if y < b.min_y {
                    y
                } else {
                    b.min_y
                })
                &&& r.max_y == (if y + 1 > b.max_y {
                    (y + 1) as usize
                } else {
                    b.max_y
                })
            },
        },
{
    match bounds {
        None => TextInkBounds { min_x: x, min_y: y, max_x: x + 1, max_y: y + 1 },
        Some(b) => TextInkBounds {
            min_x: if x < b.min_x {
                x
            } else {
                b.min_x
            },
            min_y: if y < b.min_y {
                y
            } else {
                b.min_y
            },
            max_x: if x + 1 > b.max_x {
                x + 1
            } else {
                b.max_x
            },
            max_y: if y + 1 > b.max_y {
                y + 1
            } else {
                b.max_y
            },
        },
    }
}

proof fn lemma_grow(
    bounds: Option<TextInkBounds>,
    a: spec_fn(int, int) -> bool,
    b: spec_fn(int, int) -> bool,
    x: int,
    y: int,
    r: TextInkBounds,
)
    requires
        bounds_of(bounds, a),
        forall|px: int, py: int| #[trigger] b(px, py) <==> a(px, py) || (px == x && py == y),
        match bounds {
            None => r.min_x == x && r.max_x == x + 1 && r.min_y == y && r.max_y == y + 1,
            Some(c) => {
                &&& r.min_x == (if x < c.min_x {
                    x
                } else {
                    c.min_x as int
                })
                &&& r.max_x == (if x + 1 > c.max_x {
                    x + 1
                } else {
                    c.max_x as int
                })
                &&& r.min_y == (if y < c.min_y {
                    y
                } else {
                    c.min_y as int
                })
                &&& r.max_y == (if y + 1 > c.max_y {
                    y + 1
                } else {
                    c.max_y as int
                })
            },
        },
    ensures
        tight(r, b),
{
    assert(b(x, y));
    if let Some(c) = bounds {
        let y1 = choose|y: int| #[trigger] a(c.min_x as int, y);
        assert(b(c.min_x as int, y1));
        let y2 = choose|y: int| #[trigger] a(c.max_x - 1, y);
        assert(b(c.max_x - 1, y2));
        let x1 = choose|x: int| #[trigger] a(x, c.min_y as int);
        assert(b(x1, c.min_y as int));
        let x2 = choose|x: int| #[trigger] a(x, c.max_y - 1);
        assert(b(x2, c.max_y - 1));
        if x < c.min_x {
            assert(b(r.min_x as int, y));
        }
        if x + 1 > c.max_x {
            assert(b(r.max_x - 1, y));
        }
        if y < c.min_y {
            assert(b(x, r.min_y as int));
        }
        if y + 1 > c.max_y {
            assert(b(x, r.max_y - 1));
        }
    } else {
        assert(b(r.min_x as int, y));
        assert(b(r.max_x - 1, y));
        assert(b(x, r.min_y as int));
        assert(b(x, r.max_y - 1));
    }
}

/// Whether a draw puts ink on a pixel: a glyph pixel of one of the first
/// `count` characters of a text started at `(x, y)` falls there, inside the
/// columns `left..right`, and its glyph starts before `right`.
pub open spec fn draws(
    font: &BitmapFont,
    text: Seq<char>,
    count: int,
    x: int,
    y: int,
    left: int,
    right: int,
    px: int,
    py: int,
) -> bool {
    left <= px < right && exists|i: int, gx: int, gy: int| #[trigger]
        ink_of(font, text, i, gx, gy, px - x, py - y) && i < count && x + font.width_of(
            text.take(i),
        ) < right
}

impl BitmapFont {
    /// This font's glyph for a codepoint, or that of the first fallback which
    /// has one.
    fn resolve(&self, code: usize) -> (r: Option<Glyph<'_>>)
        requires
            self.chain_wf(),
        ensures
            match r {
                Some(glyph) => self.resolved(code as int) == Some(glyph@),
                None => self.resolved(code as int) is None,
            },
        decreases *self,
    {
        match self.locate(code) {
            Some(glyph) => Some(glyph),
            None => match &self.fallback {
                Some(font) => font.resolve(code),
                None => None,
            },
        }
    }

    /// The glyph a character is drawn with; `?` when no font has its own.
    pub fn glyph(&self, ch: char) -> (r: Glyph<'_>)
        requires
            self.wf(),
        ensures
            r@ == self.glyph_of(ch),
            r@.wf(),
    {
        proof {
            self.lemma_glyph(ch);
        }
        let code: usize = ch as u32 as usize;
        match self.resolve(code) {
            Some(glyph) => glyph,
            None => {
                let question = self.locate(63);
                question.unwrap()
            },
        }
    }

    pub fn cell_h(&self) -> (r: usize)
        ensures
            r == self.spec.cell_h,
    {
        self.spec.cell_h
    }

    pub fn advance(&self, ch: char) -> (r: usize)
        requires
            self.wf(),
        ensures
            r == self.glyph_of(ch).advance,
            r <= 255,
    {
        self.glyph(ch).advance
    }

    pub fn text_width(&self, text: &str) -> (r: usize)
        requires
            self.wf(),
            255 * text@.len() <= usize::MAX,
        ensures
            r == self.width_of(text@),
    {
        let chars = to_chars(text);
        let mut width: usize = 0;
        let mut i: usize = 0;
        while i < chars.len()
            invariant
                self.wf(),
                chars@ == text@,
                i <= chars@.len(),
                255 * text@.len() <= usize::MAX,
                width == self.width_of(text@.take(i as int)),
            decreases chars@.len() - i,
        {
            proof {
                assert(text@.take(i + 1).drop_last() =~= text@.take(i as int));
                self.lemma_width_prefix(text@, i as int);
            }
            width = width + self.advance(chars[i]);
            i += 1;
        }
        assert(text@.take(text@.len() as int) =~= text@);
        width
    }

    /// The box around a text's ink, if it has any.
    #[verifier::spinoff_prover]
    #[verifier::rlimit(60)]
    pub fn text_ink_bounds(&self, text: &str) -> (r: Option<TextInkBounds>)
        requires
            self.wf(),
            255 * text@.len() + 2 * span() + 2 <= isize::MAX,
        ensures
            match r {
                Some(b) => ink_box(self, text@, b) && b.max_x - b.min_x <= isize::MAX,
                None => forall|x: int, y: int| !#[trigger] inked(self, text@, x, y),
            },
    {
        let chars = to_chars(text);
        let ghost limit = 255 * text@.len() + span() + 1;
        let mut bounds: Option<TextInkBounds> = None;
        let mut cursor: isize = 0;
        let mut i: usize = 0;
        let ghost mut ink = |x: int, y: int| met(self, text@, 0, 0, 0, x, y);
        while i < chars.len()
            invariant
                self.wf(),
                chars@ == text@,
                i <= chars@.len(),
                255 * text@.len() + 2 * span() + 2 <= isize::MAX,
                limit == 255 * text@.len() + span() + 1,
                cursor == self.width_of(text@.take(i as int)),
                ink == (|x: int, y: int| met(self, text@, i as int, 0, 0, x, y)),
                bounds_of(bounds, ink),
                bounds matches Some(b) ==> -span() <= b.min_x && b.max_x <= limit,
            decreases chars@.len() - i,
        {
            let glyph = self.glyph(chars[i]);
            proof {
                self.lemma_width_prefix(text@, i as int);
                self.lemma_width_prefix(text@, i + 1);
                assert(text@.take(i + 1).drop_last() =~= text@.take(i as int));
            }
            let mut gy: usize = 0;
            while gy < glyph.cell_h
                invariant
                    self.wf(),
                    chars@ == text@,
                    i < chars@.len(),
                    glyph@ == self.glyph_of(text@[i as int]),
                    glyph@.wf(),
                    gy <= glyph.cell_h,
                    255 * text@.len() + 2 * span() + 2 <= isize::MAX,
                    limit == 255 * text@.len() + span() + 1,
                    cursor == self.width_of(text@.take(i as int)),
                    0 <= cursor <= 255 * i,
                    ink == (|x: int, y: int| met(self, text@, i as int, 0, gy as int, x, y)),
                    bounds_of(bounds, ink),
                    bounds matches Some(b) ==> -span() <= b.min_x && b.max_x <= limit,
                decreases glyph.cell_h - gy,
            {
                let mut gx: usize = 0;
                while gx < glyph.cell_w
                    invariant
                        self.wf(),
                        chars@ == text@,
                        i < chars@.len(),
                        glyph@ == self.glyph_of(text@[i as int]),
                        glyph@.wf(),
                        gy < glyph.cell_h,
                        gx <= glyph.cell_w,
                        255 * text@.len() + 2 * span() + 2 <= isize::MAX,
                        limit == 255 * text@.len() + span() + 1,
                        cursor == self.width_of(text@.take(i as int)),
                        0 <= cursor <= 255 * i,
                        ink == (|x: int, y: int|
                            met(self, text@, i as int, gx as int, gy as int, x, y)),
                        bounds_of(bounds, ink),
                        bounds matches Some(b) ==> -span() <= b.min_x && b.max_x <= limit,
                    decreases glyph.cell_w - gx,
                {
                    let ghost now = |x: int, y: int|
                        met(self, text@, i as int, gx + 1, gy as int, x, y);
                    let ghost x0 = cursor + gx - glyph.x_origin;
                    if glyph.is_on(gx, gy) {
                        let x: isize = cursor + gx as isize - glyph.x_origin as isize;
                        let grown = grow(bounds, x, gy);
                        proof {
                            assert(ink_of(
                                self,
                                text@,
                                i as int,
                                gx as int,
                                gy as int,
                                x as int,
                                gy as int,
                            ));
                            assert forall|px: int, py: int| #[trigger] now(px, py) <==> ink(px, py)
                                || (px == x && py == gy) by {
                                lemma_met_step(
                                    self,
                                    text@,
                                    i as int,
                                    gx as int,
                                    gy as int,
                                    px,
                                    py,
                                );
                            }
                            lemma_grow(bounds, ink, now, x as int, gy as int, grown);
                        }
                        bounds = Some(grown);
                    } else {
                        proof {
                            assert forall|px: int, py: int| #[trigger] ink(px, py) <==> now(
                                px,
                                py,
                            ) by {
                                lemma_met_step(
                                    self,
                                    text@,
                                    i as int,
                                    gx as int,
                                    gy as int,
                                    px,
                                    py,
                                );
                            }
                            lemma_bounds_same(bounds, ink, now);
                        }
                    }
                    gx += 1;
                    proof {
                        ink = now;
                    }
                }
                proof {
                    let now = |x: int, y: int| met(self, text@, i as int, 0, gy + 1, x, y);
                    assert forall|px: int, py: int| #[trigger] ink(px, py) <==> now(px, py) by {
                        lemma_met_row(self, text@, i as int, gx as int, gy as int, px, py);
                    }
                    lemma_bounds_same(bounds, ink, now);
                    ink = now;
                }
                gy += 1;
            }
            proof {
                let now = |x: int, y: int| met(self, text@, i + 1, 0, 0, x, y);
                assert forall|px: int, py: int| #[trigger] ink(px, py) <==> now(px, py) by {
                    lemma_met_char(self, text@, i as int, gy as int, px, py);
                }
                lemma_bounds_same(bounds, ink, now);
                ink = now;
            }
            cursor = cursor + glyph.advance as isize;
            i += 1;
        }
        proof {
            let all = |x: int, y: int| inked(self, text@, x, y);
            assert forall|px: int, py: int| #[trigger] ink(px, py) <==> all(px, py) by {
                if inked(self, text@, px, py) {
                    let (j, cx, cy) = choose|j: int, cx: int, cy: int| #[trigger]
                        ink_of(self, text@, j, cx, cy, px, py);
                    assert(ink_of(self, text@, j, cx, cy, px, py) && j < i);
                }
            }
            lemma_bounds_same(bounds, ink, all);
            if bounds is None {
                assert forall|x: int, y: int| !#[trigger] inked(self, text@, x, y) by {
                    assert(!all(x, y));
                }
            }
        }
        bounds
    }

    /// Wraps a text to lines no wider than `max_width`.
    pub fn wrap_lines(&self, text: &str, max_width: usize) -> (r: Vec<String>)
        requires
            self.wf(),
            lines_fit(self.run_of(text@), max_width as nat),
        ensures
            string_views(r@) == wrapped_lines(self.run_of(text@), max_width as nat),
    {
        let chars = to_chars(text);
        let mut run: Vec<Measured> = Vec::new();
        let mut i: usize = 0;
        while i < chars.len()
            invariant
                self.wf(),
                chars@ == text@,
                i <= chars@.len(),
                run@ =~= self.run_of(text@).take(i as int),
            decreases chars@.len() - i,
        {
            run.push((chars[i], self.advance(chars[i])));
            i += 1;
        }
        proof {
            assert(run@ =~= self.run_of(text@));
        }
        wrap_measured(&run, max_width)
    }

    /// The characters of a text with their advances.
    pub open spec fn run_of(&self, text: Seq<char>) -> Seq<Measured> {
        Seq::new(text.len(), |i: int| (text[i], self.glyph_of(text[i]).advance as usize))
    }

    /// The machine can wrap a text that it can measure, and any text where the
    /// limit leaves room for two characters.
    pub proof fn lemma_lines_fit(&self, text: Seq<char>, max_width: nat)
        requires
            self.wf(),
            max_width + 510 <= usize::MAX || 255 * text.len() <= usize::MAX,
        ensures
            lines_fit(self.run_of(text), max_width),
    {
        let run = self.run_of(text);
        if max_width + 510 <= usize::MAX {
            assert forall|i: int| 0 <= i < run.len() implies (#[trigger] run[i]).1 <= 255 by {
                self.lemma_glyph(text[i]);
            }
            lemma_narrow_lines_fit(run, max_width, 255);
        } else {
            self.lemma_run_width(text);
            lemma_run_fits(run, max_width);
        }
    }

    proof fn lemma_run_width(&self, text: Seq<char>)
        requires
            self.wf(),
        ensures
            run_width(self.run_of(text)) == self.width_of(text),
            run_width(self.run_of(text)) <= 255 * text.len(),
        decreases text.len(),
    {
        self.lemma_width(text);
        if text.len() > 0 {
            self.lemma_run_width(text.drop_last());
            self.lemma_glyph(text.last());
            assert(self.run_of(text).drop_last() =~= self.run_of(text.drop_last()));
        }
    }

    pub fn draw_text(&self, fb: &mut Framebuffer, text: &str, x: usize, y: usize, color: Rgba)
        requires
            self.wf(),
            old(fb).wf(),
            x + 255 * text@.len() + 2 * span() + 2 <= isize::MAX,
            y + span() + 1 <= isize::MAX,
        ensures
            final(fb).wf(),
            final(fb).same_size(old(fb)),
            forall|px: int, py: int|
                final(fb).has(px, py) ==> #[trigger] final(fb).color_at(px, py) == (if draws(
                    self,
                    text@,
                    text@.len() as int,
                    x as int,
                    y as int,
                    0,
                    isize::MAX as int,
                    px,
                    py,
                ) {
                    color
                } else {
                    old(fb).color_at(px, py)
                }),
    {
        self.draw_text_limited(fb, text, x, y, color, usize::MAX);
    }

    /// Draws a text that may lie partly off the canvas.
    pub fn draw_text_at(&self, fb: &mut Framebuffer, text: &str, x: isize, y: isize, color: Rgba)
        requires
            self.wf(),
            old(fb).wf(),
            x + 255 * text@.len() + 2 * span() + 2 <= isize::MAX,
            x - span() - 1 >= isize::MIN,
            y + span() + 1 <= isize::MAX,
            y - span() - 1 >= isize::MIN,
        ensures
            final(fb).wf(),
            final(fb).same_size(old(fb)),
            forall|px: int, py: int|
                final(fb).has(px, py) ==> #[trigger] final(fb).color_at(px, py) == (if draws(
                    self,
                    text@,
                    text@.len() as int,
                    x as int,
                    y as int,
                    0,
                    isize::MAX as int,
                    px,
                    py,
                ) {
                    color
                } else {
                    old(fb).color_at(px, py)
                }),
    {
        let chars = to_chars(text);
        let count: usize = chars.len();
        self.draw_run(fb, &chars, count, x, y, color, 0, isize::MAX as usize);
    }

    /// Draws at most the first `max_chars` characters.
    pub fn draw_text_limited(
        &self,
        fb: &mut Framebuffer,
        text: &str,
        x: usize,
        y: usize,
        color: Rgba,
        max_chars: usize,
    )
        requires
            self.wf(),
            old(fb).wf(),
            x + 255 * text@.len() + 2 * span() + 2 <= isize::MAX,
            y + span() + 1 <= isize::MAX,
        ensures
            final(fb).wf(),
            final(fb).same_size(old(fb)),
            forall|px: int, py: int|
                final(fb).has(px, py) ==> #[trigger] final(fb).color_at(px, py) == (if draws(
                    self,
                    text@,
                    if max_chars < text@.len() {
                        max_chars as int
                    } else {
                        text@.len() as int
                    },
                    x as int,
                    y as int,
                    0,
                    isize::MAX as int,
                    px,
                    py,
                ) {
                    color
                } else {
                    old(fb).color_at(px, py)
                }),
    {
        let chars = to_chars(text);
        let count: usize = if max_chars < chars.len() {
            max_chars
        } else {
            chars.len()
        };
        self.draw_run(fb, &chars, count, x as isize, y as isize, color, 0, isize::MAX as usize);
    }

    /// Draws a text that may start left of the visible part, keeping only the
    /// pixels in the columns `clip_x..clip_x + clip_w`.
    pub fn draw_text_clipped(
        &self,
        fb: &mut Framebuffer,
        text: &str,
        x: isize,
        y: usize,
        color: Rgba,
        clip_x: usize,
        clip_w: usize,
    )
        requires
            self.wf(),
            old(fb).wf(),
            x + 255 * text@.len() + 2 * span() + 2 <= isize::MAX,
            x - span() - 1 >= isize::MIN,
            y + span() + 1 <= isize::MAX,
            clip_x + clip_w <= isize::MAX,
        ensures
            final(fb).wf(),
            final(fb).same_size(old(fb)),
            forall|px: int, py: int|
                final(fb).has(px, py) ==> #[trigger] final(fb).color_at(px, py) == (if draws(
                    self,
                    text@,
                    text@.len() as int,
                    x as int,
                    y as int,
                    clip_x as int,
                    clip_x + clip_w,
                    px,
                    py,
                ) {
                    color
                } else {
                    old(fb).color_at(px, py)
                }),
    {
        let chars = to_chars(text);
        let count: usize = chars.len();
        self.draw_run(fb, &chars, count, x, y as isize, color, clip_x, clip_x + clip_w);
    }

    /// Draws the first `count` characters from column `x` on, until one would
    /// start at `right` or later.
    #[verifier::spinoff_prover]
    #[verifier::rlimit(60)]
    fn draw_run(
        &self,
        fb: &mut Framebuffer,
        chars: &Vec<char>,
        count: usize,
        x: isize,
        y: isize,
        color: Rgba,
        left: usize,
        right: usize,
    )
        requires
            self.wf(),
            old(fb).wf(),
            count <= chars@.len(),
            x + 255 * chars@.len() + 2 * span() + 2 <= isize::MAX,
            x - span() - 1 >= isize::MIN,
            y + span() + 1 <= isize::MAX,
            y - span() - 1 >= isize::MIN,
            right <= isize::MAX,
        ensures
            final(fb).wf(),
            final(fb).same_size(old(fb)),
            forall|px: int, py: int|
                final(fb).has(px, py) ==> #[trigger] final(fb).color_at(px, py) == (if draws(
                    self,
                    chars@,
                    count as int,
                    x as int,
                    y as int,
                    left as int,
                    right as int,
                    px,
                    py,
                ) {
                    color
                } else {
                    old(fb).color_at(px, py)
                }),
    {
        let ghost text = chars@;
        let mut cursor: isize = x;
        let mut i: usize = 0;
        while i < count
            invariant_except_break
                i <= count,
                forall|px: int, py: int|
                    fb.has(px, py) ==> #[trigger] fb.color_at(px, py) == (if draws(
                        self,
                        text,
                        i as int,
                        x as int,
                        y as int,
                        left as int,
                        right as int,
                        px,
                        py,
                    ) {
                        color
                    } else {
                        old(fb).color_at(px, py)
                    }),
            invariant
                self.wf(),
                text == chars@,
                fb.wf(),
                fb.same_size(old(fb)),
                count <= chars@.len(),
                x + 255 * chars@.len() + 2 * span() + 2 <= isize::MAX,
                x - span() - 1 >= isize::MIN,
                y + span() + 1 <= isize::MAX,
                y - span() - 1 >= isize::MIN,
                right <= isize::MAX,
                i <= count,
                cursor == x + self.width_of(text.take(i as int)),
            ensures
                forall|px: int, py: int|
                    fb.has(px, py) ==> #[trigger] fb.color_at(px, py) == (if draws(
                        self,
                        text,
                        count as int,
                        x as int,
                        y as int,
                        left as int,
                        right as int,
                        px,
                        py,
                    ) {
                        color
                    } else {
                        old(fb).color_at(px, py)
                    }),
            decreases count - i,
        {
            if cursor >= right as isize {
                proof {
                    assert forall|px: int, py: int| fb.has(px, py) implies draws(
                        self,
                        text,
                        i as int,
                        x as int,
                        y as int,
                        left as int,
                        right as int,
                        px,
                        py,
                    ) == draws(
                        self,
                        text,
                        count as int,
                        x as int,
                        y as int,
                        left as int,
                        right as int,
                        px,
                        py,
                    ) by {
                        lemma_draws_stop(
                            self,
                            text,
                            i as int,
                            count as int,
                            x as int,
                            y as int,
                            left as int,
                            right as int,
                            px,
                            py,
                        );
                    }
                }
                break;
            }
            let glyph = self.glyph(chars[i]);
            proof {
                self.lemma_width_prefix(text, i as int);
                self.lemma_width_prefix(text, i + 1);
                assert(text.take(i + 1).drop_last() =~= text.take(i as int));
            }
            let ghost before = *fb;
            Self::draw_glyph(fb, &glyph, cursor, y, color, left, right);
            proof {
                assert forall|px: int, py: int| fb.has(px, py) implies #[trigger] fb.color_at(px, py)
                    == (if draws(
                    self,
                    text,
                    i + 1,
                    x as int,
                    y as int,
                    left as int,
                    right as int,
                    px,
                    py,
                ) {
                    color
                } else {
                    old(fb).color_at(px, py)
                }) by {
                    lemma_draws_step(
                        self,
                        text,
                        i as int,
                        x as int,
                        y as int,
                        left as int,
                        right as int,
                        px,
                        py,
                    );
                    assert(before.has(px, py));
                    assert(before.color_at(px, py) == (if draws(
                        self,
                        text,
                        i as int,
                        x as int,
                        y as int,
                        left as int,
                        right as int,
                        px,
                        py,
                    ) {
                        color
                    } else {
                        old(fb).color_at(px, py)
                    }));
                }
            }
            cursor = cursor + glyph.advance as isize;
            i += 1;
        }
    }

    /// Draws a glyph's ink, keeping to the columns `clip_left..clip_right`.
    #[verifier::spinoff_prover]
    fn draw_glyph(
        fb: &mut Framebuffer,
        glyph: &Glyph<'_>,
        x: isize,
        y: isize,
        color: Rgba,
        clip_left: usize,
        clip_right: usize,
    )
        requires
            old(fb).wf(),
            glyph@.wf(),
            x + span() + 1 <= isize::MAX,
            x - span() - 1 >= isize::MIN,
            y + span() + 1 <= isize::MAX,
            y - span() - 1 >= isize::MIN,
            clip_right <= isize::MAX,
        ensures
            final(fb).wf(),
            final(fb).same_size(old(fb)),
            forall|px: int, py: int|
                final(fb).has(px, py) ==> #[trigger] final(fb).color_at(px, py) == (if clip_left
                    <= px < clip_right && glyph@.ink(px - x + glyph@.x_origin, py - y) {
                    color
                } else {
                    old(fb).color_at(px, py)
                }),
    {
        let mut gy: usize = 0;
        while gy < glyph.cell_h
            invariant
                fb.wf(),
                fb.same_size(old(fb)),
                glyph@.wf(),
                x + span() + 1 <= isize::MAX,
                x - span() - 1 >= isize::MIN,
                y + span() + 1 <= isize::MAX,
                y - span() - 1 >= isize::MIN,
                clip_right <= isize::MAX,
                gy <= glyph.cell_h,
                forall|px: int, py: int|
                    fb.has(px, py) ==> #[trigger] fb.color_at(px, py) == (if clip_left <= px
                        < clip_right && glyph@.ink(px - x + glyph@.x_origin, py - y) && py - y
                        < gy {
                        color
                    } else {
                        old(fb).color_at(px, py)
                    }),
            decreases glyph.cell_h - gy,
        {
            let mut gx: usize = 0;
            while gx < glyph.cell_w
                invariant
                    fb.wf(),
                    fb.same_size(old(fb)),
                    glyph@.wf(),
                    x + span() + 1 <= isize::MAX,
                    x - span() - 1 >= isize::MIN,
                    y + span() + 1 <= isize::MAX,
                    y - span() - 1 >= isize::MIN,
                    clip_right <= isize::MAX,
                    gy < glyph.cell_h,
                    gx <= glyph.cell_w,
                    forall|px: int, py: int|
                        fb.has(px, py) ==> #[trigger] fb.color_at(px, py) == (if clip_left <= px
                            < clip_right && glyph@.ink(px - x + glyph@.x_origin, py - y) && (py - y
                            < gy || py - y == gy && px - x + glyph@.x_origin < gx) {
                            color
                        } else {
                            old(fb).color_at(px, py)
                        }),
                decreases glyph.cell_w - gx,
            {
                if glyph.is_on(gx, gy) {
                    let dest: isize = x + (gx as isize - glyph.x_origin as isize);
                    let row: isize = y + gy as isize;
                    if row >= 0 && dest >= 0 && dest as usize >= clip_left && (dest as usize)
                        < clip_right {
                        fb.set_pixel(dest as usize, row as usize, color);
                    }
                }
                gx += 1;
            }
            gy += 1;
        }
    }
}

proof fn lemma_met_step(
    font: &BitmapFont,
    text: Seq<char>,
    i: int,
    gx: int,
    gy: int,
    x: int,
    y: int,
)
    ensures
        met(font, text, i, gx + 1, gy, x, y) <==> met(font, text, i, gx, gy, x, y) || ink_of(
            font,
            text,
            i,
            gx,
            gy,
            x,
            y,
        ),
{
    if met(font, text, i, gx + 1, gy, x, y) {
        let (j, cx, cy) = choose|j: int, cx: int, cy: int| #[trigger]
            ink_of(font, text, j, cx, cy, x, y) && (j < i || j == i && (cy < gy || cy == gy && cx
                < gx + 1));
        assert(ink_of(font, text, j, cx, cy, x, y));
    }
    if met(font, text, i, gx, gy, x, y) {
        let (j, cx, cy) = choose|j: int, cx: int, cy: int| #[trigger]
            ink_of(font, text, j, cx, cy, x, y) && (j < i || j == i && (cy < gy || cy == gy && cx
                < gx));
        assert(ink_of(font, text, j, cx, cy, x, y));
    }
}

proof fn lemma_met_row(
    font: &BitmapFont,
    text: Seq<char>,
    i: int,
    gx: int,
    gy: int,
    x: int,
    y: int,
)
    requires
        0 <= i < text.len(),
        gx == font.glyph_of(text[i]).cell_w,
    ensures
        met(font, text, i, gx, gy, x, y) <==> met(font, text, i, 0, gy + 1, x, y),
{
    if met(font, text, i, gx, gy, x, y) {
        let (j, cx, cy) = choose|j: int, cx: int, cy: int| #[trigger]
            ink_of(font, text, j, cx, cy, x, y) && (j < i || j == i && (cy < gy || cy == gy && cx
                < gx));
        assert(ink_of(font, text, j, cx, cy, x, y));
    }
    if met(font, text, i, 0, gy + 1, x, y) {
        let (j, cx, cy) = choose|j: int, cx: int, cy: int| #[trigger]
            ink_of(font, text, j, cx, cy, x, y) && (j < i || j == i && (cy < gy + 1 || cy == gy + 1
                && cx < 0));
        assert(ink_of(font, text, j, cx, cy, x, y));
    }
}

proof fn lemma_met_char(font: &BitmapFont, text: Seq<char>, i: int, gy: int, x: int, y: int)
    requires
        0 <= i < text.len(),
        gy == font.glyph_of(text[i]).cell_h,
    ensures
        met(font, text, i, 0, gy, x, y) <==> met(font, text, i + 1, 0, 0, x, y),
{
    if met(font, text, i, 0, gy, x, y) {
        let (j, cx, cy) = choose|j: int, cx: int, cy: int| #[trigger]
            ink_of(font, text, j, cx, cy, x, y) && (j < i || j == i && (cy < gy || cy == gy && cx
                < 0));
        assert(ink_of(font, text, j, cx, cy, x, y));
    }
    if met(font, text, i + 1, 0, 0, x, y) {
        let (j, cx, cy) = choose|j: int, cx: int, cy: int| #[trigger]
            ink_of(font, text, j, cx, cy, x, y) && (j < i + 1 || j == i + 1 && (cy < 0 || cy == 0
                && cx < 0));
        assert(ink_of(font, text, j, cx, cy, x, y));
    }
}

proof fn lemma_draws_step(
    font: &BitmapFont,
    text: Seq<char>,
    i: int,
    x: int,
    y: int,
    left: int,
    right: int,
    px: int,
    py: int,
)
    requires
        0 <= i < text.len(),
        x + font.width_of(text.take(i)) < right,
    ensures
        draws(font, text, i + 1, x, y, left, right, px, py) <==> draws(
            font,
            text,
            i,
            x,
            y,
            left,
            right,
            px,
            py,
        ) || left <= px < right && font.glyph_of(text[i]).ink(
            px - (x + font.width_of(text.take(i))) + font.glyph_of(text[i]).x_origin,
            py - y,
        ),
{
    let gx0 = px - (x + font.width_of(text.take(i))) + font.glyph_of(text[i]).x_origin;
    if draws(font, text, i + 1, x, y, left, right, px, py) {
        let (j, gx, gy) = choose|j: int, gx: int, gy: int| #[trigger]
            ink_of(font, text, j, gx, gy, px - x, py - y) && j < i + 1 && x + font.width_of(
                text.take(j),
            ) < right;
        assert(ink_of(font, text, j, gx, gy, px - x, py - y));
        if j == i {
            assert(gx == gx0 && gy == py - y);
        }
    }
    if draws(font, text, i, x, y, left, right, px, py) {
        let (j, gx, gy) = choose|j: int, gx: int, gy: int| #[trigger]
            ink_of(font, text, j, gx, gy, px - x, py - y) && j < i && x + font.width_of(
                text.take(j),
            ) < right;
        assert(ink_of(font, text, j, gx, gy, px - x, py - y) && j < i + 1);
    }
    if left <= px < right && font.glyph_of(text[i]).ink(gx0, py - y) {
        assert(ink_of(font, text, i, gx0, py - y, px - x, py - y) && i < i + 1);
    }
}

proof fn lemma_draws_stop(
    font: &BitmapFont,
    text: Seq<char>,
    i: int,
    count: int,
    x: int,
    y: int,
    left: int,
    right: int,
    px: int,
    py: int,
)
    requires
        font.wf(),
        0 <= i <= count <= text.len(),
        x + font.width_of(text.take(i)) >= right,
    ensures
        draws(font, text, i, x, y, left, right, px, py) == draws(
            font,
            text,
            count,
            x,
            y,
            left,
            right,
            px,
            py,
        ),
{
    if draws(font, text, count, x, y, left, right, px, py) {
        let (j, gx, gy) = choose|j: int, gx: int, gy: int| #[trigger]
            ink_of(font, text, j, gx, gy, px - x, py - y) && j < count && x + font.width_of(
                text.take(j),
            ) < right;
        if j >= i {
            lemma_width_grows(font, text, i, j);
        }
        assert(ink_of(font, text, j, gx, gy, px - x, py - y) && j < i);
    }
    if draws(font, text, i, x, y, left, right, px, py) {
        let (j, gx, gy) = choose|j: int, gx: int, gy: int| #[trigger]
            ink_of(font, text, j, gx, gy, px - x, py - y) && j < i && x + font.width_of(
                text.take(j),
            ) < right;
        assert(ink_of(font, text, j, gx, gy, px - x, py - y) && j < count);
    }
}

proof fn lemma_width_grows(font: &BitmapFont, text: Seq<char>, i: int, j: int)
    requires
        font.wf(),
        0 <= i <= j <= text.len(),
    ensures
        font.width_of(text.take(i)) <= font.width_of(text.take(j)),
    decreases j - i,
{
    if i < j {
        lemma_width_grows(font, text, i, j - 1);
        assert(text.take(j).drop_last() =~= text.take(j - 1));
        font.lemma_glyph(text[j - 1]);
    }
}

/// Why a font could not be loaded; the number is the atlas it came from.
pub enum FontError {
    Image(usize, ImageError),
    TooSmall(usize),
    PixelCount(usize),
}

/// The ink of a picture's colors.
pub open spec fn ink_of_colors(colors: Seq<Rgba>) -> Seq<bool> {
    Seq::new(colors.len(), |i: int| inky(colors[i]))
}

/// Whether a file's picture is an atlas for a font: it can be held, decodes, has
/// a cell for the whole block, and has all its pixels.
pub open spec fn atlas_file(spec: FontSpec, file: Seq<u8>) -> bool {
    &&& holdable(file)
    &&& png_image(file) matches Some(image) && image_colors(image) matches Ok(colors) && spec.fits(
        image.width as int,
        image.height as int,
    ) && image.width * image.height <= colors.len()
}

/// Whether a loaded atlas is what a file's picture gives.
pub open spec fn atlas_from(first_codepoint: usize, file: Seq<u8>, atlas: LoadedAtlas) -> bool {
    png_image(file) matches Some(image) && image_colors(image) matches Ok(colors)
        && atlas.first_codepoint == first_codepoint && atlas.width == image.width && atlas.pixels@
        == ink_of_colors(colors)
}

/// Whether loading fails at an atlas, in the way the error says.
pub open spec fn atlas_fault(spec: FontSpec, files: Seq<Vec<u8>>, error: FontError) -> bool {
    &&& error.at() < files.len()
    &&& file_fault(spec, files[error.at() as int]@, error)
}

/// Whether a file's picture is no atlas for the reason that the error says.
pub open spec fn file_fault(spec: FontSpec, file: Seq<u8>, error: FontError) -> bool {
    match error {
        FontError::Image(_, ImageError::TooLarge) => !holdable(file),
        FontError::Image(_, ImageError::Decode(_)) => holdable(file) && png_image(file) is None,
        FontError::Image(_, ImageError::Pixels(fault)) => {
            &&& holdable(file)
            &&& png_image(file) matches Some(image) && image_colors(image) == Err::<
                Seq<Rgba>,
                PixelFault,
            >(fault)
        },
        FontError::Image(_, ImageError::PixelCount(_)) => false,
        FontError::TooSmall(_) => {
            &&& holdable(file)
            &&& png_image(file) matches Some(image) && image_colors(image) is Ok && !spec.fits(
                image.width as int,
                image.height as int,
            )
        },
        FontError::PixelCount(_) => {
            &&& holdable(file)
            &&& png_image(file) matches Some(image) && image_colors(image) matches Ok(colors)
                && spec.fits(image.width as int, image.height as int) && colors.len() < image.width
                * image.height
        },
    }
}

impl FontError {
    /// The atlas that the error is about.
    pub open spec fn at(self) -> usize {
        match self {
            FontError::Image(i, _) => i,
            FontError::TooSmall(i) => i,
            FontError::PixelCount(i) => i,
        }
    }
}

impl FontSpec {
    /// Whether the atlases have the glyph `?`.
    pub open spec fn has_question(&self) -> bool {
        exists|i: int|
            0 <= i < self.atlases@.len() && (#[trigger] self.atlases@[i]).first_codepoint <= 63
                < self.atlases@[i].first_codepoint + self.block
    }

    /// The size that an atlas must have can be counted.
    pub open spec fn countable(&self) -> bool {
        self.cols * self.cell_w <= usize::MAX && self.block_rows() * self.cell_h <= usize::MAX
    }
}

impl BitmapFont {
    /// A text's ink lies within a cell's width of its advance.
    pub proof fn lemma_ink_range(&self, text: Seq<char>, bounds: TextInkBounds)
        requires
            self.wf(),
            ink_box(self, text, bounds),
        ensures
            -span() <= bounds.min_x < bounds.max_x <= 255 * text.len() + span() + 1,
            bounds.min_y < bounds.max_y <= span(),
    {
        let ink = |x: int, y: int| inked(self, text, x, y);
        assert forall|x: int, y: int| #[trigger] ink(x, y) implies -span() <= x < 255 * text.len()
            + span() + 1 && 0 <= y < span() by {
            let (i, gx, gy) = choose|i: int, gx: int, gy: int| #[trigger]
                ink_of(self, text, i, gx, gy, x, y);
            self.lemma_width_prefix(text, i);
            self.lemma_glyph(text[i]);
        }
        let y1 = choose|y: int| #[trigger] ink(bounds.min_x as int, y);
        assert(ink(bounds.min_x as int, y1));
        let y2 = choose|y: int| #[trigger] ink(bounds.max_x - 1, y);
        assert(ink(bounds.max_x - 1, y2));
        let x2 = choose|x: int| #[trigger] ink(x, bounds.max_y - 1);
        assert(ink(x2, bounds.max_y - 1));
    }

    /// Whether a font is what a spec and its atlases' files give.
    pub open spec fn loaded_from(&self, spec: FontSpec, files: Seq<Vec<u8>>) -> bool {
        &&& self.spec == spec
        &&& self.atlases@.len() == files.len()
        &&& forall|i: int|
            0 <= i < files.len() ==> atlas_from(
                spec.atlases@[i].first_codepoint,
                files[i]@,
                #[trigger] self.atlases@[i],
            )
    }

    /// Loads a font from the files of its atlases, in their order.
    pub fn load(spec: FontSpec, files: &Vec<Vec<u8>>) -> (r: Result<BitmapFont, FontError>)
        requires
            spec.wf(),
            spec.countable(),
            files@.len() == spec.atlases@.len(),
        ensures
            match r {
                Ok(font) => {
                    &&& font.loaded_from(spec, files@)
                    &&& font.fallback is None
                    &&& font.chain_wf()
                    &&& spec.has_question() ==> font.wf()
                    &&& forall|i: int|
                        0 <= i < files@.len() ==> atlas_file(spec, #[trigger] files@[i]@)
                },
                Err(error) => atlas_fault(spec, files@, error) && forall|i: int|
                    0 <= i < error.at() ==> atlas_file(spec, #[trigger] files@[i]@),
            },
    {
        Self::load_inner(spec, files, None)
    }

    /// Loads a font that looks up what it lacks in another, also loaded here.
    pub fn load_with_fallback(
        spec: FontSpec,
        files: &Vec<Vec<u8>>,
        fallback: FontSpec,
        fallback_files: &Vec<Vec<u8>>,
    ) -> (r: Result<BitmapFont, FontError>)
        requires
            spec.wf(),
            spec.countable(),
            files@.len() == spec.atlases@.len(),
            fallback.wf(),
            fallback.countable(),
            fallback_files@.len() == fallback.atlases@.len(),
        ensures
            match r {
                Ok(font) => {
                    &&& font.loaded_from(spec, files@)
                    &&& font.fallback matches Some(other) && other.loaded_from(
                        fallback,
                        fallback_files@,
                    ) && other.fallback is None
                    &&& font.chain_wf()
                    &&& spec.has_question() ==> font.wf()
                    &&& forall|i: int|
                        0 <= i < files@.len() ==> atlas_file(spec, #[trigger] files@[i]@)
                    &&& forall|i: int|
                        0 <= i < fallback_files@.len() ==> atlas_file(
                            fallback,
                            #[trigger] fallback_files@[i]@,
                        )
                },
                Err(error) => {
                    ||| atlas_fault(fallback, fallback_files@, error) && forall|i: int|
                        0 <= i < error.at() ==> atlas_file(
                            fallback,
                            #[trigger] fallback_files@[i]@,
                        )
                    ||| (forall|i: int|
                        0 <= i < fallback_files@.len() ==> atlas_file(
                            fallback,
                            #[trigger] fallback_files@[i]@,
                        )) && atlas_fault(spec, files@, error) && forall|i: int|
                        0 <= i < error.at() ==> atlas_file(spec, #[trigger] files@[i]@)
                },
            },
    {
        match Self::load(fallback, fallback_files) {
            Ok(font) => Self::load_inner(spec, files, Some(Box::new(font))),
            Err(error) => Err(error),
        }
    }

    fn load_inner(
        spec: FontSpec,
        files: &Vec<Vec<u8>>,
        fallback: Option<Box<BitmapFont>>,
    ) -> (r: Result<BitmapFont, FontError>)
        requires
            spec.wf(),
            spec.countable(),
            files@.len() == spec.atlases@.len(),
            fallback matches Some(font) ==> font.chain_wf(),
        ensures
            match r {
                Ok(font) => {
                    &&& font.loaded_from(spec, files@)
                    &&& font.fallback == fallback
                    &&& font.chain_wf()
                    &&& spec.has_question() ==> font.wf()
                    &&& forall|i: int|
                        0 <= i < files@.len() ==> atlas_file(spec, #[trigger] files@[i]@)
                },
                Err(error) => atlas_fault(spec, files@, error) && forall|i: int|
                    0 <= i < error.at() ==> atlas_file(spec, #[trigger] files@[i]@),
            },
    {
        proof {
            let (b, c) = (spec.block as int, spec.cols as int);
            let q = b / c;
            assert(if b % c > 0 {
                q + 1 == (b + c - 1) / c && q + 1 <= b
            } else {
                q == (b + c - 1) / c && q <= b
            }) by (nonlinear_arith)
                requires
                    b >= 0,
                    c > 0,
                    q == b / c,
            ;
        }
        let rows: usize = if spec.block % spec.cols > 0 {
            spec.block / spec.cols + 1
        } else {
            spec.block / spec.cols
        };
        let mut atlases: Vec<LoadedAtlas> = Vec::new();
        let mut i: usize = 0;
        while i < files.len()
            invariant
                i <= files@.len(),
                spec.wf(),
                spec.countable(),
                files@.len() == spec.atlases@.len(),
                rows == spec.block_rows(),
                atlases@.len() == i,
                forall|j: int|
                    0 <= j < i ==> atlas_from(
                        spec.atlases@[j].first_codepoint,
                        files@[j]@,
                        #[trigger] atlases@[j],
                    ),
                forall|j: int| 0 <= j < i ==> atlas_file(spec, #[trigger] files@[j]@),
            decreases files@.len() - i,
        {
            match decode_png_with_size(&files[i]) {
                Err(error) => {
                    return Err(FontError::Image(i, error));
                },
                Ok((width, height, colors)) => {
                    if width < spec.cols * spec.cell_w || height < rows * spec.cell_h {
                        return Err(FontError::TooSmall(i));
                    }
                    let mut pixels: Vec<bool> = Vec::new();
                    let mut j: usize = 0;
                    while j < colors.len()
                        invariant
                            j <= colors@.len(),
                            pixels@ =~= ink_of_colors(colors@).take(j as int),
                        decreases colors@.len() - j,
                    {
                        pixels.push(is_glyph_ink(colors[j]));
                        j += 1;
                    }
                    assert(pixels@ =~= ink_of_colors(colors@));
                    assert(width * height <= u32::MAX * u32::MAX) by (nonlinear_arith)
                        requires
                            0 <= width <= u32::MAX,
                            0 <= height <= u32::MAX,
                    ;
                    if colors.len() as u128 >= width as u128 * height as u128 {
                        atlases.push(
                            LoadedAtlas {
                                first_codepoint: spec.atlases[i].first_codepoint,
                                width,
                                pixels,
                            },
                        );
                    } else {
                        return Err(FontError::PixelCount(i));
                    }
                },
            }
            i += 1;
        }
        let font = BitmapFont { spec, atlases, fallback };
        proof {
            assert forall|j: int| 0 <= j < font.atlases@.len() implies {
                let atlas = #[trigger] font.atlases@[j];
                &&& atlas.first_codepoint + font.spec.block <= font.spec.advance@.len()
                &&& atlas.width >= font.spec.cols * font.spec.cell_w
                &&& font.spec.block_rows() * font.spec.cell_h <= usize::MAX
                &&& font.spec.block_rows() * font.spec.cell_h * atlas.width <= atlas.pixels@.len()
            } by {
                assert(atlas_file(spec, files@[j]@));
                let image = png_image(files@[j]@)->0;
                let tall = spec.block_rows() * spec.cell_h;
                assert(tall * image.width <= image.width * image.height) by (nonlinear_arith)
                    requires
                        tall <= image.height,
                        0 <= image.width,
                ;
            }
            if spec.has_question() {
                let k = choose|k: int|
                    0 <= k < spec.atlases@.len() && (#[trigger] spec.atlases@[k]).first_codepoint
                        <= 63 < spec.atlases@[k].first_codepoint + spec.block;
                assert(covers(font.atlases@[k], spec.block as int, 63));
                lemma_first_covering_exists(font.atlases@, spec.block as int, 63, k);
            }
        }
        Ok(font)
    }
}

proof fn lemma_first_covering_exists(atlases: Seq<LoadedAtlas>, block: int, code: int, k: int)
    requires
        0 <= k < atlases.len(),
        covers(atlases[k], block, code),
    ensures
        first_covering(atlases, block, code) is Some,
    decreases atlases.len(),
{
    if k < atlases.len() - 1 {
        lemma_first_covering_exists(atlases.drop_last(), block, code, k);
    }
}

/// The width of a text is that of its parts together, each character by its own
/// glyph's advance.
pub proof fn lemma_text_width_adds_up(font: &BitmapFont, a: Seq<char>, b: Seq<char>, c: char)
    ensures
        font.width_of(Seq::empty()) == 0,
        font.width_of(seq![c]) == font.glyph_of(c).advance,
        font.width_of(a + b) == font.width_of(a) + font.width_of(b),
    decreases b.len(),
{
    assert(seq![c].drop_last() =~= Seq::<char>::empty());
    assert(font.width_of(Seq::<char>::empty()) == 0);
    if b.len() == 0 {
        assert(a + b =~= a);
    } else {
        lemma_text_width_adds_up(font, a, b.drop_last(), c);
        assert((a + b).drop_last() =~= a + b.drop_last());
    }
}

/// A pixel of a font's picture is ink when its parts are half of what they can be
/// together, or more.
pub proof fn lemma_ink_is_bright(color: Rgba)
    ensures
        inky(color) <==> color.r + color.g + color.b >= 384,
        inky(Rgba { r: 255, g: 255, b: 255, a: color.a }),
        !inky(Rgba { r: 0, g: 0, b: 0, a: color.a }),
{
}

/// The first atlas that has a character counts.
pub proof fn lemma_first_atlas_counts(atlases: Seq<LoadedAtlas>, block: int, code: int, i: int)
    requires
        0 <= i <= atlases.len(),
        forall|j: int|
            0 <= j < i ==> !((#[trigger] atlases[j]).first_codepoint <= code < atlases[j].first_codepoint
                + block),
    ensures
        i == atlases.len() ==> first_covering(atlases, block, code) is None,
        i < atlases.len() && atlases[i].first_codepoint <= code < atlases[i].first_codepoint + block
            ==> first_covering(atlases, block, code) == Some(i),
    decreases atlases.len(),
{
    if atlases.len() > 0 {
        let short = atlases.drop_last();
        let n = if i == atlases.len() {
            i - 1
        } else {
            i
        };
        assert forall|j: int| 0 <= j < n implies !((#[trigger] short[j]).first_codepoint <= code
            < short[j].first_codepoint + block) by {
            assert(short[j] == atlases[j]);
        }
        lemma_first_atlas_counts(short, block, code, n);
        if n < short.len() {
            assert(short[n] == atlases[n]);
        }
        if i == atlases.len() {
            assert(atlases.last() == atlases[i - 1]);
        }
    }
}

/// The glyphs of an atlas stand in their characters' order, row by row, each in a
/// cell of the font's size. A character's advance is its own.
pub proof fn lemma_glyph_cells(font: &BitmapFont, code: int, i: int, col: int, row: int)
    requires
        first_covering(font.atlases@, font.spec.block as int, code) == Some(i),
        font.spec.cols > 0,
        0 <= col < font.spec.cols,
        0 <= row,
        code - font.atlases@[i].first_codepoint == row * font.spec.cols + col,
    ensures
        font.located(code) matches Some(glyph) && glyph.cell_x == col * font.spec.cell_w
            && glyph.cell_y == row * font.spec.cell_h && glyph.cell_w == font.spec.cell_w
            && glyph.cell_h == font.spec.cell_h && glyph.x_origin == font.spec.x_origin
            && glyph.advance == font.spec.advance@[code] && glyph.pixels == font.atlases@[i].pixels@
            && glyph.width == font.atlases@[i].width,
{
    let local = code - font.atlases@[i].first_codepoint;
    vstd::arithmetic::div_mod::lemma_fundamental_div_mod_converse(
        local,
        font.spec.cols as int,
        row,
        col,
    );
}

/// A character is drawn by the font's own glyph, else by its fallback's, else as a
/// question mark.
pub proof fn lemma_glyphs_fall_back(font: &BitmapFont, ch: char)
    ensures
        font.located(ch as int) matches Some(glyph) ==> font.glyph_of(ch) == glyph,
        font.located(ch as int) is None && font.fallback is None ==> font.glyph_of(ch)
            == font.located('?' as int)->0,
        font.located(ch as int) is None ==> (font.fallback matches Some(other) ==> (other.resolved(
            ch as int,
        ) matches Some(glyph) ==> font.glyph_of(ch) == glyph) && (other.resolved(ch as int) is None
            ==> font.glyph_of(ch) == font.located('?' as int)->0)),
{
}

/// A text's ink is that of its glyphs, each as far to the right as the text before
/// it is wide, less the font's own origin.
pub proof fn lemma_ink_follows_text(
    font: &BitmapFont,
    text: Seq<char>,
    i: int,
    gx: int,
    gy: int,
    x: int,
    y: int,
)
    requires
        0 <= i < text.len(),
    ensures
        font.glyph_of(text[i]).ink(gx, gy) ==> inked(
            font,
            text,
            font.width_of(text.take(i)) + gx - font.glyph_of(text[i]).x_origin,
            gy,
        ),
        inked(font, text, x, y) ==> exists|k: int, cx: int, cy: int|
            #![trigger ink_of(font, text, k, cx, cy, x, y)]
            0 <= k < text.len() && font.glyph_of(text[k]).ink(cx, cy) && x + font.glyph_of(
                text[k],
            ).x_origin == font.width_of(text.take(k)) + cx && y == cy,
        draws(font, text, text.len() as int, 0, 0, -span(), isize::MAX as int, x, y) ==> inked(
            font,
            text,
            x,
            y,
        ),
{
    if font.glyph_of(text[i]).ink(gx, gy) {
        assert(ink_of(
            font,
            text,
            i,
            gx,
            gy,
            font.width_of(text.take(i)) + gx - font.glyph_of(text[i]).x_origin,
            gy,
        ));
    }
    if inked(font, text, x, y) {
        let (k, cx, cy) = choose|k: int, cx: int, cy: int| #[trigger]
            ink_of(font, text, k, cx, cy, x, y);
        assert(ink_of(font, text, k, cx, cy, x, y));
    }
}

/// A text is drawn where its ink lies from its corner, between the clip's sides.
pub proof fn lemma_draws_ink(
    font: &BitmapFont,
    text: Seq<char>,
    x: int,
    y: int,
    left: int,
    right: int,
    px: int,
    py: int,
)
    ensures
        draws(font, text, text.len() as int, x, y, left, right, px, py) ==> left <= px < right
            && inked(font, text, px - x, py - y),
        left <= px < right && inked(font, text, px - x, py - y) && (forall|i: int|
            0 <= i < text.len() ==> x + font.width_of(#[trigger] text.take(i)) < right) ==> draws(
            font,
            text,
            text.len() as int,
            x,
            y,
            left,
            right,
            px,
            py,
        ),
{
    if inked(font, text, px - x, py - y) {
        let (k, cx, cy) = choose|k: int, cx: int, cy: int| #[trigger]
            ink_of(font, text, k, cx, cy, px - x, py - y);
        assert(ink_of(font, text, k, cx, cy, px - x, py - y));
        if forall|i: int|
            0 <= i < text.len() ==> x + font.width_of(#[trigger] text.take(i)) < right {
            assert(x + font.width_of(text.take(k)) < right);
        }
    }
    if draws(font, text, text.len() as int, x, y, left, right, px, py) {
        let (k, cx, cy) = choose|k: int, cx: int, cy: int| #[trigger]
            ink_of(font, text, k, cx, cy, px - x, py - y) && k < text.len() && x + font.width_of(
                text.take(k),
            ) < right;
        assert(ink_of(font, text, k, cx, cy, px - x, py - y));
    }
}

/// A text is measured character by character.
pub proof fn lemma_run_is(font: &BitmapFont, text: Seq<char>, i: int)
    requires
        0 <= i < text.len(),
    ensures
        font.run_of(text).len() == text.len(),
        font.run_of(text)[i].0 == text[i],
        font.run_of(text)[i].1 == font.glyph_of(text[i]).advance as usize,
{
}

/// A font's picture must hold all its cells: as many columns as are given, and as
/// many rows as the characters fill.
pub proof fn lemma_atlases_fit(spec: FontSpec, width: int, height: int)
    requires
        spec.cols > 0,
    ensures
        spec.block_rows() * spec.cols >= spec.block,
        (spec.block_rows() - 1) * spec.cols < spec.block,
        spec.fits(width, height) <==> width >= spec.cols * spec.cell_w && height
            >= spec.block_rows() * spec.cell_h,
{
    let top = spec.block + spec.cols - 1;
    let q = top / spec.cols as int;
    vstd::arithmetic::div_mod::lemma_fundamental_div_mod(top, spec.cols as int);
    vstd::arithmetic::div_mod::lemma_mod_bound(top, spec.cols as int);
    assert(q * spec.cols == spec.cols * q) by (nonlinear_arith);
    assert((q - 1) * spec.cols == q * spec.cols - spec.cols) by (nonlinear_arith);
}

/// Ink is within a glyph's cell only, and there where the atlas has it: as far right
/// and down from the cell's corner as the place is from the glyph's.
pub proof fn lemma_ink_is(glyph: GlyphView, x: int, y: int)
    ensures
        glyph.ink(x, y) ==> 0 <= x < glyph.cell_w && 0 <= y < glyph.cell_h,
        0 <= x < glyph.cell_w && 0 <= y < glyph.cell_h ==> glyph.ink(x, y) == glyph.pixels[(
        glyph.cell_y + y) * glyph.width + (glyph.cell_x + x)],
{
}

/// No two kinds of fault are told of one file, and none of a file that holds an atlas.
pub proof fn lemma_faults_are_apart(spec: FontSpec, file: Seq<u8>, a: FontError)
    requires
        file_fault(spec, file, a),
    ensures
        !atlas_file(spec, file),
        a matches FontError::Image(_, ImageError::TooLarge) <==> !holdable(file),
        a matches FontError::Image(_, ImageError::Decode(_)) <==> holdable(file) && png_image(file)
            is None,
        a matches FontError::Image(_, ImageError::Pixels(_)) <==> holdable(file) && (png_image(
            file,
        ) matches Some(image) && image_colors(image) is Err),
        a is TooSmall <==> holdable(file) && (png_image(file) matches Some(image) && image_colors(
            image,
        ) is Ok && !spec.fits(image.width as int, image.height as int)),
{
}

} // verus!
