//! ASCII fonts: 128 glyphs in one atlas, with `?` for everything else.
use vstd::prelude::*;

use crate::chars::string_views;
use crate::framebuffer::Framebuffer;
use crate::graphics::{span, Rgba};
use crate::text::font;
use crate::text::font::{
    atlas_fault, atlas_file, draws, first_covering, ink_box, inked, FontError, TextInkBounds,
};
use crate::text_wrap::{lines_fit, wrapped_lines};

verus! {

/// The codepoints that an ASCII font has.
pub const GLYPHS: usize = 128;

/// The geometry of an ASCII font, and the file its atlas lies in.
pub struct FontSpec {
    pub atlas_path: String,
    pub cell_w: usize,
    pub cell_h: usize,
    pub cols: usize,
    pub x_origin: usize,
    pub advance: Vec<u8>,
}

impl FontSpec {
    /// A font has columns, cells of a drawable size, and 128 advances.
    pub open spec fn wf(&self) -> bool {
        &&& self.cols > 0
        &&& self.cell_w <= span()
        &&& self.cell_h <= span()
        &&& self.x_origin <= span()
        &&& self.advance@.len() == GLYPHS
        &&& self.cols * self.cell_w <= usize::MAX
    }

    /// The same geometry as a font of one atlas from codepoint zero on.
    pub open spec fn same_geometry(&self, spec: font::FontSpec) -> bool {
        &&& spec.atlases@.len() == 1
        &&& spec.atlases@[0].first_codepoint == 0
        &&& spec.atlases@[0].path@ == self.atlas_path@
        &&& spec.block == GLYPHS
        &&& spec.cell_w == self.cell_w
        &&& spec.cell_h == self.cell_h
        &&& spec.cols == self.cols
        &&& spec.x_origin == self.x_origin
        &&& spec.advance@ == self.advance@
    }
}

/// The glyph a character is drawn with: its own when it is ASCII, else `?`.
pub open spec fn code_of(ch: char) -> char {
    if (ch as u32) < 128 {
        ch
    } else {
        '?'
    }
}

pub fn glyph_code(ch: char) -> (r: usize)
    ensures
        r == code_of(ch) as u32,
        r < GLYPHS,
{
    let code: u32 = ch as u32;
    if code < 128 {
        code as usize
    } else {
        63
    }
}

pub struct BitmapFont {
    pub font: font::BitmapFont,
}

impl BitmapFont {
    pub open spec fn wf(&self) -> bool {
        &&& self.font.wf()
        &&& self.font.fallback is None
        &&& self.font.atlases@.len() == 1
        &&& self.font.atlases@[0].first_codepoint == 0
        &&& self.font.spec.block == GLYPHS
        &&& self.font.spec.advance@.len() == GLYPHS
    }

    /// Every character is drawn as the ASCII character that stands for it, and
    /// advances as the table says.
    pub proof fn lemma_stands_for(&self, ch: char)
        requires
            self.wf(),
        ensures
            self.font.glyph_of(ch) == self.font.glyph_of(code_of(ch)),
            self.font.glyph_of(ch).advance == self.font.spec.advance@[code_of(ch) as int],
    {
        reveal_with_fuel(first_covering, 2);
        reveal_with_fuel(font::BitmapFont::resolved, 2);
        assert(self.font.atlases@.drop_last() =~= Seq::empty());
    }

    /// Loads a font from its atlas's file.
    pub fn load(spec: FontSpec, file: Vec<u8>) -> (r: Result<BitmapFont, FontError>)
        requires
            spec.wf(),
        ensures
            match r {
                Ok(loaded) => {
                    &&& loaded.wf()
                    &&& spec.same_geometry(loaded.font.spec)
                    &&& atlas_file(loaded.font.spec, file@)
                    &&& font::atlas_from(0, file@, loaded.font.atlases@[0])
                },
                Err(error) => error.at() == 0 && forall|full: font::FontSpec|
                    spec.same_geometry(full) ==> #[trigger] font::file_fault(full, file@, error),
            },
    {
        let FontSpec { atlas_path, cell_w, cell_h, cols, x_origin, advance } = spec;
        let mut atlases: Vec<font::FontAtlas> = Vec::new();
        atlases.push(font::FontAtlas { first_codepoint: 0, path: atlas_path });
        let full = font::FontSpec {
            atlases,
            block: GLYPHS,
            cell_w,
            cell_h,
            cols,
            x_origin,
            advance,
        };
        let mut files: Vec<Vec<u8>> = Vec::new();
        files.push(file);
        proof {
            let (rows, c, h) = (full.block_rows(), cols as int, cell_h as int);
            assert(rows <= 128) by (nonlinear_arith)
                requires
                    c > 0,
                    rows == (128 + c - 1) / c,
            ;
            assert(rows * h <= 128 * span()) by (nonlinear_arith)
                requires
                    rows <= 128,
                    0 <= h <= span(),
            ;
            assert(full.atlases@[0].first_codepoint == 0);
            assert(spec.same_geometry(full));
            assert(full.has_question());
            assert(files@[0]@ == file@);
        }
        match font::BitmapFont::load(full, &files) {
            Ok(font) => {
                proof {
                    assert(atlas_file(full, files@[0]@));
                    assert(font::atlas_from(0, files@[0]@, font.atlases@[0]));
                }
                Ok(BitmapFont { font })
            },
            Err(error) => {
                proof {
                    assert(atlas_fault(full, files@, error));
                    assert forall|other: font::FontSpec| spec.same_geometry(
                        other,
                    ) implies #[trigger] font::file_fault(other, file@, error) by {
                        assert(other.block_rows() == full.block_rows());
                    }
                }
                Err(error)
            },
        }
    }

    pub fn cell_h(&self) -> (r: usize)
        ensures
            r == self.font.spec.cell_h,
    {
        self.font.cell_h()
    }

    pub fn advance(&self, ch: char) -> (r: usize)
        requires
            self.wf(),
        ensures
            r == self.font.spec.advance@[code_of(ch) as int],
    {
        self.font.spec.advance[glyph_code(ch)] as usize
    }

    pub fn text_width(&self, text: &str) -> (r: usize)
        requires
            self.wf(),
            255 * text@.len() <= usize::MAX,
        ensures
            r == self.font.width_of(text@),
    {
        self.font.text_width(text)
    }

    pub fn text_ink_bounds(&self, text: &str) -> (r: Option<TextInkBounds>)
        requires
            self.wf(),
            255 * text@.len() + 2 * span() + 2 <= isize::MAX,
        ensures
            match r {
                Some(b) => ink_box(&self.font, text@, b) && b.max_x - b.min_x <= isize::MAX,
                None => forall|x: int, y: int| !#[trigger] inked(&self.font, text@, x, y),
            },
    {
        self.font.text_ink_bounds(text)
    }

    pub fn wrap_lines(&self, text: &str, max_width: usize) -> (r: Vec<String>)
        requires
            self.wf(),
            lines_fit(self.font.run_of(text@), max_width as nat),
        ensures
            string_views(r@) == wrapped_lines(self.font.run_of(text@), max_width as nat),
    {
        self.font.wrap_lines(text, max_width)
    }

    pub fn draw_text(&self, fb: &mut Framebuffer, text: &str, x: usize, y: usize, color: Rgba)
        requires
            self.wf(),
            old(fb).wf(),
            x + 255 * text@.len() + 2 * span() + 2 <= isize::MAX,
            y + span() + 1 <= isize::MAX,
        ensures
            final(fb).wf(),
            final(fb).same_size(old(fb)),
            forall|px: int, py: int|
                final(fb).has(px, py) ==> #[trigger] final(fb).color_at(px, py) == (if draws(
                    &self.font,
                    text@,
                    text@.len() as int,
                    x as int,
                    y as int,
                    0,
                    isize::MAX as int,
                    px,
                    py,
                ) {
                    color
                } else {
                    old(fb).color_at(px, py)
                }),
    {
        self.font.draw_text(fb, text, x, y, color);
    }

    /// Draws a text that may start left of the visible part, keeping only the
    /// pixels in the columns `clip_x..clip_x + clip_w`.
    pub fn draw_text_clipped(
        &self,
        fb: &mut Framebuffer,
        text: &str,
        x: isize,
        y: usize,
        color: Rgba,
        clip_x: usize,
        clip_w: usize,
    )
        requires
            self.wf(),
            old(fb).wf(),
            x + 255 * text@.len() + 2 * span() + 2 <= isize::MAX,
            x - span() - 1 >= isize::MIN,
            y + span() + 1 <= isize::MAX,
            clip_x + clip_w <= isize::MAX,
        ensures
            final(fb).wf(),
            final(fb).same_size(old(fb)),
            forall|px: int, py: int|
                final(fb).has(px, py) ==> #[trigger] final(fb).color_at(px, py) == (if draws(
                    &self.font,
                    text@,
                    text@.len() as int,
                    x as int,
                    y as int,
                    clip_x as int,
                    clip_x + clip_w,
                    px,
                    py,
                ) {
                    color
                } else {
                    old(fb).color_at(px, py)
                }),
    {
        self.font.draw_text_clipped(fb, text, x, y, color, clip_x, clip_w);
    }

    /// Draws at most the first `max_chars` characters.
    pub fn draw_text_limited(
        &self,
        fb: &mut Framebuffer,
        text: &str,
        x: usize,
        y: usize,
        color: Rgba,
        max_chars: usize,
    )
        requires
            self.wf(),
            old(fb).wf(),
            x + 255 * text@.len() + 2 * span() + 2 <= isize::MAX,
            y + span() + 1 <= isize::MAX,
        ensures
            final(fb).wf(),
            final(fb).same_size(old(fb)),
            forall|px: int, py: int|
                final(fb).has(px, py) ==> #[trigger] final(fb).color_at(px, py) == (if draws(
                    &self.font,
                    text@,
                    if max_chars < text@.len() {
                        max_chars as int
                    } else {
                        text@.len() as int
                    },
                    x as int,
                    y as int,
                    0,
                    isize::MAX as int,
                    px,
                    py,
                ) {
                    color
                } else {
                    old(fb).color_at(px, py)
                }),
    {
        self.font.draw_text_limited(fb, text, x, y, color, max_chars);
    }
}

/// A font of the same geometry has one atlas, from codepoint zero on, in the same file,
/// a hundred and twenty-eight characters, and the same cells, columns and advances.
pub proof fn lemma_geometry_is(spec: FontSpec, full: font::FontSpec)
    requires
        spec.same_geometry(full),
    ensures
        full.atlases@.len() == 1,
        full.atlases@[0].first_codepoint == 0,
        full.atlases@[0].path@ == spec.atlas_path@,
        full.block == 128,
        full.cell_w == spec.cell_w,
        full.cell_h == spec.cell_h,
        full.cols == spec.cols,
        full.x_origin == spec.x_origin,
        full.advance@ == spec.advance@,
{
}

/// A character of the first hundred and twenty-eight is its own, and any other is a
/// question mark.
pub proof fn lemma_codes_are(ch: char)
    ensures
        ch as u32 <= 127 ==> code_of(ch) == ch,
        ch as u32 > 127 ==> code_of(ch) as u32 == 63,
{
}

} // verus!
