//! Colors, palettes and indexed sprites.
use vstd::prelude::*;

verus! {

/// A length in pixels of which the machine can still add up thousands.
pub open spec fn span() -> int {
    isize::MAX / 0x8000
}

/// A palette index stored in sprite pixels. `TRANSPARENT` is the only value
/// that stands for no color.
pub type Index = u8;

pub const TRANSPARENT: Index = 0xFF;

#[derive(Clone, Copy, PartialEq, Eq, Structural, Debug)]
pub struct Rgb {
    pub r: u8,
    pub g: u8,
    pub b: u8,
}

#[derive(Clone, Copy, PartialEq, Eq, Structural, Debug)]
pub struct Rgba {
    pub r: u8,
    pub g: u8,
    pub b: u8,
    pub a: u8,
}

impl Rgb {
    /// The color with nothing of it showing.
    pub fn transparent(self) -> (r: Rgba)
        ensures
            r == see_through(self),
    {
        Rgba { r: self.r, g: self.g, b: self.b, a: 0 }
    }
}

pub open spec fn see_through(color: Rgb) -> Rgba {
    Rgba { r: color.r, g: color.g, b: color.b, a: 0 }
}

/// A color that covers what is under it.
pub open spec fn opaque(color: Rgb) -> Rgba {
    Rgba { r: color.r, g: color.g, b: color.b, a: 255 }
}

impl From<Rgb> for Rgba {
    fn from(color: Rgb) -> (r: Self) {
        Rgba { r: color.r, g: color.g, b: color.b, a: 255 }
    }
}

impl vstd::std_specs::convert::FromSpecImpl<Rgb> for Rgba {
    open spec fn obeys_from_spec() -> bool {
        true
    }

    open spec fn from_spec(color: Rgb) -> Self {
        opaque(color)
    }
}

pub open spec fn rgb_of(color: Rgba) -> Rgb {
    Rgb { r: color.r, g: color.g, b: color.b }
}

impl Rgba {
    pub fn rgb(self) -> (r: Rgb)
        ensures
            r == rgb_of(self),
    {
        Rgb { r: self.r, g: self.g, b: self.b }
    }
}

/// What a palette slot becomes when it is painted. A checker picks by the
/// parity of the destination cell.
#[derive(Clone, Copy, PartialEq, Eq, Structural, Debug)]
pub enum Paint {
    Solid(Index),
    Checker(Index, Index),
    Transparent,
}

pub open spec fn picked(paint: Paint, cell_x: nat, cell_y: nat) -> Option<Index> {
    match paint {
        Paint::Solid(index) => Some(index),
        Paint::Checker(even, odd) => Some(
            if (cell_x + cell_y) % 2 == 0 {
                even
            } else {
                odd
            },
        ),
        Paint::Transparent => None,
    }
}

impl Paint {
    pub fn pick(self, cell_x: usize, cell_y: usize) -> (r: Option<Index>)
        ensures
            r == picked(self, cell_x as nat, cell_y as nat),
    {
        match self {
            Paint::Solid(index) => Some(index),
            Paint::Checker(even, odd) => Some(
                if cell_x % 2 == cell_y % 2 {
                    even
                } else {
                    odd
                },
            ),
            Paint::Transparent => None,
        }
    }
}

/// A remap of indices for one draw. Indices without an entry pass through.
pub struct Swap {
    paints: Vec<Paint>,
    uniform: Option<Paint>,
}

impl Swap {
    pub closed spec fn paints(&self) -> Seq<Paint> {
        self.paints@
    }

    pub closed spec fn uniform_paint(&self) -> Option<Paint> {
        self.uniform
    }

    /// What an index is painted as.
    pub open spec fn paint_of(&self, index: Index) -> Paint {
        if index == TRANSPARENT {
            Paint::Transparent
        } else {
            match self.uniform_paint() {
                Some(paint) => paint,
                None => if index < self.paints().len() {
                    self.paints()[index as int]
                } else {
                    Paint::Solid(index)
                },
            }
        }
    }

    /// Every index as itself.
    pub fn identity() -> (r: Self)
        ensures
            r.paints() == Seq::<Paint>::empty(),
            r.uniform_paint() is None,
            forall|i: Index| i != TRANSPARENT ==> #[trigger] r.paint_of(i) == Paint::Solid(i),
    {
        Swap { paints: Vec::new(), uniform: None }
    }

    /// Every visible pixel as `paint`.
    pub fn uniform(paint: Paint) -> (r: Self)
        ensures
            r.paints() == Seq::<Paint>::empty(),
            r.uniform_paint() == Some(paint),
            forall|i: Index| i != TRANSPARENT ==> #[trigger] r.paint_of(i) == paint,
    {
        Swap { paints: Vec::new(), uniform: Some(paint) }
    }

    /// Index `i` as `indices[i]`.
    pub fn from_indices(indices: &[Index]) -> (r: Self)
        ensures
            r.paints() == Seq::new(indices@.len(), |i: int| Paint::Solid(indices@[i])),
            r.uniform_paint() is None,
    {
        let mut paints: Vec<Paint> = Vec::new();
        let mut i: usize = 0;
        while i < indices.len()
            invariant
                i <= indices@.len(),
                paints@ =~= Seq::new(i as nat, |j: int| Paint::Solid(indices@[j])),
            decreases indices@.len() - i,
        {
            paints.push(Paint::Solid(indices[i]));
            i += 1;
        }
        Swap { paints, uniform: None }
    }

    /// The same remap but for one index.
    pub fn set(self, index: Index, paint: Paint) -> (r: Self)
        ensures
            r.uniform_paint() == self.uniform_paint(),
            r.paints().len() == (if self.paints().len() <= index {
                index as nat + 1
            } else {
                self.paints().len()
            }),
            forall|i: int|
                0 <= i < r.paints().len() ==> #[trigger] r.paints()[i] == (if i == index {
                    paint
                } else if i < self.paints().len() {
                    self.paints()[i]
                } else {
                    Paint::Solid(i as u8)
                }),
    {
        let mut paints = self.paints;
        let ghost start = paints@;
        let slot: usize = index as usize;
        while paints.len() <= slot
            invariant
                slot == index,
                paints@.len() <= start.len() || paints@.len() <= slot + 1,
                paints@.len() >= start.len(),
                forall|i: int|
                    0 <= i < paints@.len() ==> #[trigger] paints@[i] == (if i < start.len() {
                        start[i]
                    } else {
                        Paint::Solid(i as u8)
                    }),
            decreases slot + 1 - paints@.len(),
        {
            let next: Index = paints.len() as u8;
            paints.push(Paint::Solid(next));
        }
        paints[slot] = paint;
        Swap { paints, uniform: self.uniform }
    }

    pub fn paint(&self, index: Index) -> (r: Paint)
        ensures
            r == self.paint_of(index),
    {
        if index == TRANSPARENT {
            return Paint::Transparent;
        }
        if let Some(uniform) = self.uniform {
            return uniform;
        }
        if (index as usize) < self.paints.len() {
            self.paints[index as usize]
        } else {
            Paint::Solid(index)
        }
    }
}

/// The squared distance between two colors.
pub open spec fn distance(a: Rgb, b: Rgb) -> int {
    (a.r - b.r) * (a.r - b.r) + (a.g - b.g) * (a.g - b.g) + (a.b - b.b) * (a.b - b.b)
}

pub fn color_distance(a: Rgb, b: Rgb) -> (r: u32)
    ensures
        r == distance(a, b),
{
    let dr: i32 = a.r as i32 - b.r as i32;
    let dg: i32 = a.g as i32 - b.g as i32;
    let db: i32 = a.b as i32 - b.b as i32;
    assert(0 <= dr * dr <= 65025) by (nonlinear_arith)
        requires
            -255 <= dr <= 255,
    ;
    assert(0 <= dg * dg <= 65025) by (nonlinear_arith)
        requires
            -255 <= dg <= 255,
    ;
    assert(0 <= db * db <= 65025) by (nonlinear_arith)
        requires
            -255 <= db <= 255,
    ;
    (dr * dr + dg * dg + db * db) as u32
}

/// A list of colors, each slot of which can be remapped for a theme.
pub struct Palette {
    colors: Vec<Rgb>,
    remap: Vec<Paint>,
}

/// The place of an index in a palette of `len` colors; past the end it wraps
/// around.
pub open spec fn wrapped(index: int, len: int) -> int {
    if index < len {
        index
    } else {
        index % len
    }
}

/// Whether `i` is the first of the colors nearest to `color`.
pub open spec fn first_nearest(colors: Seq<Rgb>, color: Rgb, i: int) -> bool {
    &&& 0 <= i < colors.len()
    &&& forall|j: int|
        0 <= j < colors.len() ==> distance(colors[i], color) <= distance(
            #[trigger] colors[j],
            color,
        )
    &&& forall|j: int|
        0 <= j < i ==> distance(colors[i], color) < distance(#[trigger] colors[j], color)
}

/// The index that a position is stored as.
pub open spec fn as_index(i: int) -> Index {
    (i % 256) as u8
}

impl Palette {
    pub closed spec fn colors(&self) -> Seq<Rgb> {
        self.colors@
    }

    pub closed spec fn remap(&self) -> Seq<Paint> {
        self.remap@
    }

    /// A palette has a remap entry for each color.
    pub open spec fn wf(&self) -> bool {
        self.remap().len() == self.colors().len()
    }

    pub open spec fn color_of(&self, index: Index) -> Rgb {
        self.colors()[wrapped(index as int, self.colors().len() as int)]
    }

    /// What an index shows in a cell, after the palette's remap.
    pub open spec fn resolved(&self, index: Index, cell_x: nat, cell_y: nat) -> Option<Rgb> {
        if index == TRANSPARENT {
            None
        } else {
            match picked(
                self.remap()[wrapped(index as int, self.colors().len() as int)],
                cell_x,
                cell_y,
            ) {
                Some(i) => Some(self.color_of(i)),
                None => None,
            }
        }
    }

    /// What a paint shows in a cell, after the palette's remap.
    pub open spec fn resolved_paint(&self, paint: Paint, cell_x: nat, cell_y: nat) -> Option<
        Rgb,
    > {
        match picked(paint, cell_x, cell_y) {
            Some(i) => self.resolved(i, cell_x, cell_y),
            None => None,
        }
    }

    /// The index of the first nearest color; 0 without colors.
    pub open spec fn nearest_is(&self, color: Rgb, r: Index) -> bool {
        if self.colors().len() == 0 {
            r == 0
        } else {
            exists|i: int| #[trigger]
                first_nearest(self.colors(), color, i) && r == as_index(i)
        }
    }

    /// The palette of the given colors, each slot showing its own color.
    pub fn from_colors(colors: Vec<Rgb>) -> (r: Self)
        ensures
            r.wf(),
            r.colors() == colors@,
            r.remap() == Seq::new(colors@.len(), |i: int| Paint::Solid(as_index(i))),
    {
        let mut remap: Vec<Paint> = Vec::new();
        let mut i: usize = 0;
        while i < colors.len()
            invariant
                i <= colors@.len(),
                remap@ =~= Seq::new(i as nat, |j: int| Paint::Solid(as_index(j))),
            decreases colors@.len() - i,
        {
            let index: Index = (i % 256) as u8;
            remap.push(Paint::Solid(index));
            i += 1;
        }
        Palette { colors, remap }
    }

    pub fn len(&self) -> (r: usize)
        ensures
            r == self.colors().len(),
    {
        self.colors.len()
    }

    pub fn color(&self, index: Index) -> (r: Rgb)
        requires
            self.colors().len() > 0,
        ensures
            r == self.color_of(index),
    {
        self.colors[Self::wrap(index as usize, self.colors.len())]
    }

    /// Like `index % len`, without the division for indices in range.
    pub fn wrap(index: usize, len: usize) -> (r: usize)
        requires
            len > 0,
        ensures
            r == wrapped(index as int, len as int),
            r < len,
    {
        if index < len {
            index
        } else {
            index % len
        }
    }

    /// Makes a slot show another color, a checker or nothing.
    pub fn set_remap(&mut self, index: Index, paint: Paint)
        requires
            old(self).wf(),
            old(self).colors().len() > 0,
        ensures
            final(self).wf(),
            final(self).colors() == old(self).colors(),
            final(self).remap() == old(self).remap().update(
                index as int % old(self).colors().len() as int,
                paint,
            ),
    {
        let slot: usize = index as usize % self.colors.len();
        self.remap[slot] = paint;
    }

    pub fn resolve(&self, index: Index, cell_x: usize, cell_y: usize) -> (r: Option<Rgb>)
        requires
            self.wf(),
            index != TRANSPARENT ==> self.colors().len() > 0,
        ensures
            r == self.resolved(index, cell_x as nat, cell_y as nat),
    {
        if index == TRANSPARENT {
            return None;
        }
        let paint = self.remap[Self::wrap(index as usize, self.colors.len())];
        match paint.pick(cell_x, cell_y) {
            Some(i) => Some(self.color(i)),
            None => None,
        }
    }

    pub fn resolve_paint(&self, paint: Paint, cell_x: usize, cell_y: usize) -> (r: Option<Rgb>)
        requires
            self.wf(),
            self.colors().len() > 0,
        ensures
            r == self.resolved_paint(paint, cell_x as nat, cell_y as nat),
    {
        match paint.pick(cell_x, cell_y) {
            Some(index) => self.resolve(index, cell_x, cell_y),
            None => None,
        }
    }

    pub fn nearest_index(&self, color: Rgb) -> (r: Index)
        ensures
            self.nearest_is(color, r),
    {
        if self.colors.len() == 0 {
            return 0;
        }
        let mut best: usize = 0;
        let mut best_distance: u32 = color_distance(self.colors[0], color);
        let mut i: usize = 1;
        while i < self.colors.len()
            invariant
                1 <= i <= self.colors@.len(),
                best < i,
                best_distance == distance(self.colors@[best as int], color),
                forall|j: int|
                    0 <= j < i ==> best_distance <= distance(#[trigger] self.colors@[j], color),
                forall|j: int|
                    0 <= j < best ==> best_distance < distance(#[trigger] self.colors@[j], color),
            decreases self.colors@.len() - i,
        {
            let d: u32 = color_distance(self.colors[i], color);
            if d < best_distance {
                best = i;
                best_distance = d;
            }
            i += 1;
        }
        assert(first_nearest(self.colors(), color, best as int));
        (best % 256) as u8
    }

    pub fn nearest(&self, color: Rgb) -> (r: Rgb)
        requires
            self.colors().len() > 0,
        ensures
            exists|i: Index| #[trigger] self.nearest_is(color, i) && r == self.color_of(i),
    {
        self.color(self.nearest_index(color))
    }

    /// The first slot that holds exactly this color.
    pub fn exact_index(&self, color: Rgb) -> (r: Option<Index>)
        ensures
            match r {
                Some(index) => exists|i: int|
                    0 <= i < self.colors().len() && #[trigger] self.colors()[i] == color && (
                    forall|j: int| 0 <= j < i ==> #[trigger] self.colors()[j] != color) && index
                        == as_index(i),
                None => forall|j: int|
                    0 <= j < self.colors().len() ==> #[trigger] self.colors()[j] != color,
            },
    {
        let mut i: usize = 0;
        while i < self.colors.len()
            invariant
                i <= self.colors@.len(),
                forall|j: int| 0 <= j < i ==> #[trigger] self.colors@[j] != color,
            decreases self.colors@.len() - i,
        {
            if self.colors[i] == color {
                assert(self.colors()[i as int] == color);
                return Some((i % 256) as u8);
            }
            i += 1;
        }
        None
    }

    pub fn closest_to_white_index(&self) -> (r: Index)
        ensures
            self.nearest_is(Rgb { r: 255, g: 255, b: 255 }, r),
    {
        self.nearest_index(Rgb { r: 255, g: 255, b: 255 })
    }

    pub fn closest_to_white(&self) -> (r: Rgb)
        requires
            self.colors().len() > 0,
        ensures
            exists|i: Index| #[trigger]
                self.nearest_is(Rgb { r: 255, g: 255, b: 255 }, i) && r == self.color_of(i),
    {
        self.nearest(Rgb { r: 255, g: 255, b: 255 })
    }

    /// For each color of this palette, its nearest index in another.
    pub fn mapping_to(&self, other: &Self) -> (r: Vec<Index>)
        ensures
            r@.len() == self.colors().len(),
            forall|i: int|
                0 <= i < r@.len() ==> other.nearest_is(self.colors()[i], #[trigger] r@[i]),
    {
        let mut out: Vec<Index> = Vec::new();
        let mut i: usize = 0;
        while i < self.colors.len()
            invariant
                i <= self.colors@.len(),
                out@.len() == i,
                forall|j: int|
                    0 <= j < i ==> other.nearest_is(self.colors@[j], #[trigger] out@[j]),
            decreases self.colors@.len() - i,
        {
            out.push(other.nearest_index(self.colors[i]));
            i += 1;
        }
        out
    }
}

/// At most one index is the nearest, so a mapping between two palettes is
/// decided by their colors.
pub proof fn lemma_nearest_unique(palette: &Palette, color: Rgb, a: Index, b: Index)
    requires
        palette.nearest_is(color, a),
        palette.nearest_is(color, b),
    ensures
        a == b,
{
    if palette.colors().len() > 0 {
        let i = choose|i: int| #[trigger]
            first_nearest(palette.colors(), color, i) && a == as_index(i);
        let j = choose|j: int| #[trigger]
            first_nearest(palette.colors(), color, j) && b == as_index(j);
        if i < j {
            assert(distance(palette.colors()[j], color) < distance(palette.colors()[i], color));
        } else if j < i {
            assert(distance(palette.colors()[i], color) < distance(palette.colors()[j], color));
        }
    }
}

/// A color that a palette holds is its own nearest: asking for it by distance
/// or exactly gives the same slot.
pub proof fn lemma_exact_is_nearest(palette: &Palette, i: int)
    requires
        0 <= i < palette.colors().len(),
        forall|j: int| 0 <= j < i ==> palette.colors()[j] != palette.colors()[i],
    ensures
        palette.nearest_is(palette.colors()[i], as_index(i)),
{
    let color = palette.colors()[i];
    assert forall|a: Rgb, b: Rgb| distance(a, b) >= 0 && (distance(a, b) == 0 ==> a == b) by {
        lemma_distance_zero(a, b);
    }
    assert(distance(color, color) == 0);
    assert(first_nearest(palette.colors(), color, i)) by {
        assert forall|j: int| 0 <= j < i implies distance(palette.colors()[i], color) < distance(
            #[trigger] palette.colors()[j],
            color,
        ) by {
            lemma_distance_zero(palette.colors()[j], color);
        }
    }
}

proof fn lemma_distance_zero(a: Rgb, b: Rgb)
    ensures
        distance(a, b) >= 0,
        distance(a, b) == 0 ==> a == b,
{
    let dr = a.r - b.r;
    let dg = a.g - b.g;
    let db = a.b - b.b;
    assert(dr * dr >= 0 && (dr * dr == 0 ==> dr == 0)) by (nonlinear_arith);
    assert(dg * dg >= 0 && (dg * dg == 0 ==> dg == 0)) by (nonlinear_arith);
    assert(db * db >= 0 && (db * db == 0 ==> db == 0)) by (nonlinear_arith);
}

#[derive(Clone, Copy, PartialEq, Eq, Structural, Debug)]
pub struct Rect {
    pub x: usize,
    pub y: usize,
    pub w: usize,
    pub h: usize,
}

pub open spec fn in_rect(rect: Rect, x: int, y: int) -> bool {
    rect.x <= x < rect.x + rect.w && rect.y <= y < rect.y + rect.h
}

impl Rect {
    pub fn new(x: usize, y: usize, w: usize, h: usize) -> (r: Self)
        ensures
            r == (Rect { x, y, w, h }),
    {
        Rect { x, y, w, h }
    }

    /// Whether a point lies inside.
    pub open spec fn holds(&self, x: i16, y: i16, r: bool) -> bool {
        r == in_rect(
            *self,
            if x < 0 {
                0
            } else {
                x as int
            },
            if y < 0 {
                0
            } else {
                y as int
            },
        )
    }

    /// Whether a point lies inside, with negative coordinates taken as zero.
    pub fn contains(self, x: i16, y: i16) -> (r: bool)
        ensures
            self.holds(x, y, r),
    {
        let px: usize = if x < 0 {
            0
        } else {
            x as usize
        };
        let py: usize = if y < 0 {
            0
        } else {
            y as usize
        };
        self.contains_point(px, py)
    }

    pub fn contains_point(self, x: usize, y: usize) -> (r: bool)
        ensures
            r == in_rect(self, x as int, y as int),
    {
        x >= self.x && x - self.x < self.w && y >= self.y && y - self.y < self.h
    }

    /// The point relative to the rectangle's corner.
    pub fn local(self, x: i16, y: i16) -> (r: (i16, i16))
        requires
            self.x <= i16::MAX,
            self.y <= i16::MAX,
            x - self.x >= i16::MIN,
            y - self.y >= i16::MIN,
        ensures
            r.0 == x - self.x,
            r.1 == y - self.y,
    {
        (x - self.x as i16, y - self.y as i16)
    }
}

/// The place of a pixel in row-major order.
pub open spec fn place(width: int, x: int, y: int) -> int {
    y * width + x
}

pub proof fn lemma_place(width: int, height: int, x: int, y: int)
    requires
        0 <= x < width,
        0 <= y < height,
    ensures
        0 <= place(width, x, y) < width * height,
{
    assert(0 <= y * width + x < width * height) by (nonlinear_arith)
        requires
            0 <= x < width,
            0 <= y < height,
    ;
}

pub proof fn lemma_place_unique(width: int, x: int, y: int, px: int, py: int)
    requires
        0 <= x < width,
        0 <= px < width,
        place(width, x, y) == place(width, px, py),
    ensures
        x == px,
        y == py,
{
    assert(y == py && x == px) by (nonlinear_arith)
        requires
            0 <= x < width,
            0 <= px < width,
            y * width + x == py * width + px,
    ;
}

/// Indexed pixel art: one palette index per pixel, `TRANSPARENT` for holes.
pub struct Sprite {
    pub width: usize,
    pub height: usize,
    pub pixels: Vec<Index>,
}

/// Why pixels do not make a sprite: there are not `width * height` of them.
#[derive(Clone, Copy, PartialEq, Eq, Structural, Debug)]
pub struct PixelCountMismatch {
    pub got: usize,
}

impl Sprite {
    pub open spec fn pixels(&self) -> Seq<Index> {
        self.pixels@
    }

    /// A sprite holds one index per pixel.
    pub open spec fn wf(&self) -> bool {
        self.pixels().len() == self.width * self.height
    }

    pub open spec fn index_at(&self, x: int, y: int) -> Index {
        self.pixels()[place(self.width as int, x, y)]
    }

    /// A sprite of indices that are already at hand.
    pub fn from_indices(width: usize, height: usize, pixels: Vec<Index>) -> (r: Result<
        Self,
        PixelCountMismatch,
    >)
        ensures
            match r {
                Ok(sprite) => pixels@.len() == width * height && sprite.wf() && sprite.width
                    == width && sprite.height == height && sprite.pixels() == pixels@,
                Err(e) => pixels@.len() != width * height && e.got == pixels@.len(),
            },
    {
        if fills(width, height, pixels.len()) {
            Ok(Sprite { width, height, pixels })
        } else {
            Err(PixelCountMismatch { got: pixels.len() })
        }
    }

    /// A sprite from decoded colors: read through `source`, stored as indices
    /// of `target`. Fully transparent pixels become holes.
    pub fn from_rgba(
        width: usize,
        height: usize,
        colors: &Vec<Rgba>,
        source: &Palette,
        target: &Palette,
    ) -> (r: Result<Self, PixelCountMismatch>)
        requires
            0 < source.colors().len() <= 256,
        ensures
            match r {
                Ok(sprite) => {
                    &&& colors@.len() == width * height
                    &&& sprite.wf()
                    &&& sprite.width == width
                    &&& sprite.height == height
                    &&& forall|i: int|
                        0 <= i < colors@.len() ==> imported(
                            source,
                            target,
                            colors@[i],
                            #[trigger] sprite.pixels()[i],
                        )
                },
                Err(e) => colors@.len() != width * height && e.got == colors@.len(),
            },
    {
        if !fills(width, height, colors.len()) {
            return Err(PixelCountMismatch { got: colors.len() });
        }
        let lut = source.mapping_to(target);
        let mut pixels: Vec<Index> = Vec::new();
        let mut i: usize = 0;
        while i < colors.len()
            invariant
                i <= colors@.len(),
                pixels@.len() == i,
                0 < source.colors().len() <= 256,
                lut@.len() == source.colors().len(),
                forall|k: int|
                    0 <= k < lut@.len() ==> target.nearest_is(
                        source.colors()[k],
                        #[trigger] lut@[k],
                    ),
                forall|k: int|
                    0 <= k < i ==> imported(source, target, colors@[k], #[trigger] pixels@[k]),
            decreases colors@.len() - i,
        {
            let color = colors[i];
            if color.a == 0 {
                pixels.push(TRANSPARENT);
            } else {
                let rgb = color.rgb();
                let slot: Index = match source.exact_index(rgb) {
                    Some(found) => found,
                    None => source.nearest_index(rgb),
                };
                proof {
                    if let Some(k) = first_equal(source.colors(), rgb) {
                        lemma_exact_is_nearest(source, k);
                    }
                    assert(source.nearest_is(rgb, slot));
                    let k = choose|k: int| #[trigger]
                        first_nearest(source.colors(), rgb, k) && slot == as_index(k);
                    assert(slot == k);
                }
                pixels.push(lut[slot as usize]);
            }
            i += 1;
        }
        Ok(Sprite { width, height, pixels })
    }

    proof fn lemma_pixel_count(&self)
        ensures
            self.pixels().len() <= usize::MAX,
    {
        assert(self.pixels.len() == self.pixels@.len());
    }

    /// The index stored for a pixel.
    pub fn at(&self, x: usize, y: usize) -> (r: Index)
        requires
            place(self.width as int, x as int, y as int) < self.pixels().len(),
        ensures
            r == self.index_at(x as int, y as int),
    {
        proof {
            self.lemma_pixel_count();
            assert(0 <= y * self.width <= y * self.width + x) by (nonlinear_arith);
        }
        self.pixels[y * self.width + x]
    }

    pub fn is_opaque(&self, x: usize, y: usize) -> (r: bool)
        requires
            place(self.width as int, x as int, y as int) < self.pixels().len(),
        ensures
            r == (self.index_at(x as int, y as int) != TRANSPARENT),
    {
        self.at(x, y) != TRANSPARENT
    }

    /// The part of the sprite that `src` covers.
    pub fn region(&self, src: Rect) -> (r: Self)
        requires
            self.wf(),
        ensures
            r.wf(),
            r.width == shown_extent(src.x as int, src.w as int, self.width as int),
            r.height == shown_extent(src.y as int, src.h as int, self.height as int),
            forall|x: int, y: int|
                0 <= x < r.width && 0 <= y < r.height ==> #[trigger] r.index_at(x, y)
                    == self.index_at(src.x + x, src.y + y),
    {
        let w: usize = shown(src.x, src.w, self.width);
        let h: usize = shown(src.y, src.h, self.height);
        let map = Coords { kind: CoordKind::Region(src.x, src.y) };
        proof {
            self.lemma_pixel_count();
            assert(w * h <= self.width * self.height) by (nonlinear_arith)
                requires
                    w <= self.width,
                    h <= self.height,
            ;
        }
        self.map_coords(map, w, h)
    }

    /// The sprite mirrored left to right.
    pub fn flip_h(&self) -> (r: Self)
        requires
            self.wf(),
        ensures
            r.wf(),
            r.width == self.width,
            r.height == self.height,
            forall|x: int, y: int|
                0 <= x < r.width && 0 <= y < r.height ==> #[trigger] r.index_at(x, y)
                    == self.index_at(self.width - 1 - x, y),
    {
        proof {
            self.lemma_pixel_count();
        }
        self.map_coords(Coords { kind: CoordKind::FlipH }, self.width, self.height)
    }

    /// The sprite mirrored top to bottom.
    pub fn flip_v(&self) -> (r: Self)
        requires
            self.wf(),
        ensures
            r.wf(),
            r.width == self.width,
            r.height == self.height,
            forall|x: int, y: int|
                0 <= x < r.width && 0 <= y < r.height ==> #[trigger] r.index_at(x, y)
                    == self.index_at(x, self.height - 1 - y),
    {
        proof {
            self.lemma_pixel_count();
        }
        self.map_coords(Coords { kind: CoordKind::FlipV }, self.width, self.height)
    }

    /// The sprite turned by a quarter, clockwise.
    pub fn rot90(&self) -> (r: Self)
        requires
            self.wf(),
        ensures
            r.wf(),
            r.width == self.height,
            r.height == self.width,
            forall|x: int, y: int|
                0 <= x < r.width && 0 <= y < r.height ==> #[trigger] r.index_at(x, y)
                    == self.index_at(y, self.height - 1 - x),
    {
        proof {
            self.lemma_pixel_count();
            assert(self.width * self.height == self.height * self.width) by (nonlinear_arith);
        }
        self.map_coords(Coords { kind: CoordKind::Rot90 }, self.height, self.width)
    }

    /// The sprite of the given size whose pixels are looked up by `source`.
    fn map_coords(&self, source: Coords, width: usize, height: usize) -> (r: Self)
        requires
            self.wf(),
            width * height <= usize::MAX,
            forall|x: int, y: int|
                0 <= x < width && 0 <= y < height ==> {
                    let (sx, sy) = #[trigger] source.of(self, x, y);
                    0 <= sx < self.width && 0 <= sy < self.height
                },
        ensures
            r.wf(),
            r.width == width,
            r.height == height,
            forall|x: int, y: int|
                0 <= x < r.width && 0 <= y < r.height ==> #[trigger] r.index_at(x, y)
                    == self.index_at(source.of(self, x, y).0, source.of(self, x, y).1),
    {
        let mut pixels: Vec<Index> = Vec::new();
        let mut y: usize = 0;
        while y < height
            invariant
                self.wf(),
                y <= height,
                width * height <= usize::MAX,
                pixels@.len() == y * width,
                forall|x: int, y: int|
                    0 <= x < width && 0 <= y < height ==> {
                        let (sx, sy) = #[trigger] source.of(self, x, y);
                        0 <= sx < self.width && 0 <= sy < self.height
                    },
                forall|px: int, py: int|
                    0 <= px < width && 0 <= py < y ==> 0 <= place(width as int, px, py)
                        < pixels@.len() && pixels@[#[trigger] place(width as int, px, py)]
                        == self.index_at(source.of(self, px, py).0, source.of(self, px, py).1),
            decreases height - y,
        {
            let mut x: usize = 0;
            while x < width
                invariant
                    self.wf(),
                    x <= width,
                    y < height,
                    width * height <= usize::MAX,
                    pixels@.len() == y * width + x,
                    forall|x: int, y: int|
                        0 <= x < width && 0 <= y < height ==> {
                            let (sx, sy) = #[trigger] source.of(self, x, y);
                            0 <= sx < self.width && 0 <= sy < self.height
                        },
                    forall|px: int, py: int|
                        0 <= px < width && (0 <= py < y || py == y && px < x) ==> 0 <= place(
                            width as int,
                            px,
                            py,
                        ) < pixels@.len() && pixels@[#[trigger] place(width as int, px, py)]
                            == self.index_at(
                            source.of(self, px, py).0,
                            source.of(self, px, py).1,
                        ),
                decreases width - x,
            {
                let (sx, sy) = source.apply(self, x, y, width, height);
                proof {
                    assert(source.of(self, x as int, y as int) == (sx as int, sy as int));
                    lemma_place(self.width as int, self.height as int, sx as int, sy as int);
                }
                pixels.push(self.at(sx, sy));
                x += 1;
            }
            assert(y * width + width == (y + 1) * width) by (nonlinear_arith);
            y += 1;
        }
        assert(height * width == width * height) by (nonlinear_arith);
        let r = Sprite { width, height, pixels };
        assert forall|px: int, py: int|
            0 <= px < r.width && 0 <= py < r.height implies #[trigger] r.index_at(px, py)
            == self.index_at(source.of(self, px, py).0, source.of(self, px, py).1) by {
            assert(r.pixels()[place(width as int, px, py)] == self.index_at(
                source.of(self, px, py).0,
                source.of(self, px, py).1,
            ));
        }
        r
    }

    /// The sprite with a hole wherever `mask` has none of its own pixels.
    pub fn mask(&self, mask: &Self) -> (r: Self)
        requires
            self.wf(),
            mask.wf(),
        ensures
            r.wf(),
            r.width == self.width,
            r.height == self.height,
            forall|x: int, y: int|
                0 <= x < r.width && 0 <= y < r.height ==> #[trigger] r.index_at(x, y) == (if x
                    < mask.width && y < mask.height && mask.index_at(x, y) != TRANSPARENT {
                    self.index_at(x, y)
                } else {
                    TRANSPARENT
                }),
    {
        proof {
            self.lemma_pixel_count();
        }
        let mut out: Sprite = self.map_coords(
            Coords { kind: CoordKind::Region(0, 0) },
            self.width,
            self.height,
        );
        let mut y: usize = 0;
        while y < self.height
            invariant
                self.wf(),
                mask.wf(),
                out.wf(),
                out.width == self.width,
                out.height == self.height,
                y <= self.height,
                forall|px: int, py: int|
                    0 <= px < out.width && 0 <= py < out.height ==> #[trigger] out.index_at(px, py)
                        == (if py >= y || px < mask.width && py < mask.height && mask.index_at(
                        px,
                        py,
                    ) != TRANSPARENT {
                        self.index_at(px, py)
                    } else {
                        TRANSPARENT
                    }),
            decreases self.height - y,
        {
            let mut x: usize = 0;
            while x < self.width
                invariant
                    self.wf(),
                    mask.wf(),
                    out.wf(),
                    out.width == self.width,
                    out.height == self.height,
                    y < self.height,
                    x <= self.width,
                    forall|px: int, py: int|
                        0 <= px < out.width && 0 <= py < out.height ==> #[trigger] out.index_at(
                            px,
                            py,
                        ) == (if py > y || py == y && px >= x || px < mask.width && py
                            < mask.height && mask.index_at(px, py) != TRANSPARENT {
                            self.index_at(px, py)
                        } else {
                            TRANSPARENT
                        }),
                decreases self.width - x,
            {
                proof {
                    if x < mask.width && y < mask.height {
                        lemma_place(mask.width as int, mask.height as int, x as int, y as int);
                    }
                    lemma_place(self.width as int, self.height as int, x as int, y as int);
                }
                let masked = x >= mask.width || y >= mask.height || !mask.is_opaque(x, y);
                if masked {
                    let ghost before = out;
                    proof {
                        self.lemma_pixel_count();
                        assert(0 <= y * self.width) by (nonlinear_arith);
                    }
                    let at: usize = y * self.width + x;
                    out.pixels[at] = TRANSPARENT;
                    assert forall|px: int, py: int|
                        0 <= px < out.width && 0 <= py < out.height implies #[trigger] out.index_at(
                        px,
                        py,
                    ) == (if px == x && py == y {
                        TRANSPARENT
                    } else {
                        before.index_at(px, py)
                    }) by {
                        lemma_place(self.width as int, self.height as int, px, py);
                        if place(self.width as int, px, py) == at {
                            lemma_place_unique(self.width as int, x as int, y as int, px, py);
                        }
                    }
                }
                x += 1;
            }
            y += 1;
        }
        out
    }

    /// Every index carried over from one palette to its nearest in another.
    pub fn convert(&self, from: &Palette, to: &Palette) -> (r: Self)
        requires
            self.wf(),
            from.colors().len() > 0,
        ensures
            r.wf(),
            r.width == self.width,
            r.height == self.height,
            forall|i: int|
                0 <= i < self.pixels().len() ==> converted(
                    from,
                    to,
                    self.pixels()[i],
                    #[trigger] r.pixels()[i],
                ),
    {
        let lut = from.mapping_to(to);
        let mut pixels: Vec<Index> = Vec::new();
        let mut i: usize = 0;
        while i < self.pixels.len()
            invariant
                i <= self.pixels@.len(),
                pixels@.len() == i,
                from.colors().len() > 0,
                lut@.len() == from.colors().len(),
                forall|k: int|
                    0 <= k < lut@.len() ==> to.nearest_is(from.colors()[k], #[trigger] lut@[k]),
                forall|k: int|
                    0 <= k < i ==> converted(from, to, self.pixels@[k], #[trigger] pixels@[k]),
            decreases self.pixels@.len() - i,
        {
            let index = self.pixels[i];
            if index == TRANSPARENT {
                pixels.push(TRANSPARENT);
            } else {
                let k: usize = index as usize % lut.len();
                pixels.push(lut[k]);
            }
            i += 1;
        }
        Sprite { width: self.width, height: self.height, pixels }
    }
}

/// What an index becomes when it moves from one palette to another.
pub open spec fn converted(from: &Palette, to: &Palette, index: Index, r: Index) -> bool {
    if index == TRANSPARENT {
        r == TRANSPARENT
    } else {
        to.nearest_is(from.colors()[index as int % from.colors().len() as int], r)
    }
}

/// What a decoded color becomes: a hole when fully transparent, otherwise the
/// index in `target` nearest to the `source` color nearest to it.
pub open spec fn imported(source: &Palette, target: &Palette, color: Rgba, r: Index) -> bool {
    if color.a == 0 {
        r == TRANSPARENT
    } else {
        exists|k: int| #[trigger]
            first_nearest(source.colors(), rgb_of(color), k) && target.nearest_is(
                source.colors()[k],
                r,
            )
    }
}

/// The first place where a color stands, if anywhere.
spec fn first_equal(colors: Seq<Rgb>, color: Rgb) -> Option<int> {
    if exists|k: int|
        0 <= k < colors.len() && #[trigger] colors[k] == color && (forall|j: int|
            0 <= j < k ==> #[trigger] colors[j] != color) {
        Some(
            choose|k: int|
                0 <= k < colors.len() && #[trigger] colors[k] == color && (forall|j: int|
                    0 <= j < k ==> #[trigger] colors[j] != color),
        )
    } else {
        None
    }
}

/// How much of a stretch from `start` lies within `limit`.
pub open spec fn shown_extent(start: int, extent: int, limit: int) -> int {
    let room = if start < limit {
        limit - start
    } else {
        0
    };
    if extent < room {
        extent
    } else {
        room
    }
}

pub(crate) fn shown(start: usize, extent: usize, limit: usize) -> (r: usize)
    ensures
        r == shown_extent(start as int, extent as int, limit as int),
        r > 0 ==> start + r <= limit,
        r <= limit,
{
    let room: usize = if start < limit {
        limit - start
    } else {
        0
    };
    if extent < room {
        extent
    } else {
        room
    }
}

/// Whether `count` pixels fill a picture of the given size.
fn fills(width: usize, height: usize, count: usize) -> (r: bool)
    ensures
        r == (count == width * height),
{
    match width.checked_mul(height) {
        Some(area) => area == count,
        None => false,
    }
}

/// Where the pixels of a derived sprite come from.
enum CoordKind {
    Region(usize, usize),
    FlipH,
    FlipV,
    Rot90,
}

struct Coords {
    kind: CoordKind,
}

impl Coords {
    spec fn of(&self, sprite: &Sprite, x: int, y: int) -> (int, int) {
        match self.kind {
            CoordKind::Region(left, top) => (left + x, top + y),
            CoordKind::FlipH => (sprite.width - 1 - x, y),
            CoordKind::FlipV => (x, sprite.height - 1 - y),
            CoordKind::Rot90 => (y, sprite.height - 1 - x),
        }
    }

    fn apply(&self, sprite: &Sprite, x: usize, y: usize, width: usize, height: usize) -> (r: (
        usize,
        usize,
    ))
        requires
            x < width,
            y < height,
            forall|x: int, y: int|
                0 <= x < width && 0 <= y < height ==> {
                    let (sx, sy) = #[trigger] self.of(sprite, x, y);
                    0 <= sx < sprite.width && 0 <= sy < sprite.height
                },
        ensures
            self.of(sprite, x as int, y as int) == (r.0 as int, r.1 as int),
            r.0 < sprite.width,
            r.1 < sprite.height,
    {
        proof {
            let (sx, sy) = self.of(sprite, x as int, y as int);
            assert(0 <= sx < sprite.width && 0 <= sy < sprite.height);
        }
        match self.kind {
            CoordKind::Region(left, top) => (left + x, top + y),
            CoordKind::FlipH => (sprite.width - 1 - x, y),
            CoordKind::FlipV => (x, sprite.height - 1 - y),
            CoordKind::Rot90 => (y, sprite.height - 1 - x),
        }
    }
}

/// Two sprites that show the same.
pub open spec fn same_picture(a: &Sprite, b: &Sprite) -> bool {
    &&& a.width == b.width
    &&& a.height == b.height
    &&& forall|x: int, y: int|
        0 <= x < a.width && 0 <= y < a.height ==> #[trigger] a.index_at(x, y) == b.index_at(x, y)
}

/// `b` is `a` mirrored left to right.
pub open spec fn mirrored_h(a: &Sprite, b: &Sprite) -> bool {
    &&& a.width == b.width
    &&& a.height == b.height
    &&& forall|x: int, y: int|
        0 <= x < b.width && 0 <= y < b.height ==> #[trigger] b.index_at(x, y) == a.index_at(
            a.width - 1 - x,
            y,
        )
}

/// `b` is `a` mirrored top to bottom.
pub open spec fn mirrored_v(a: &Sprite, b: &Sprite) -> bool {
    &&& a.width == b.width
    &&& a.height == b.height
    &&& forall|x: int, y: int|
        0 <= x < b.width && 0 <= y < b.height ==> #[trigger] b.index_at(x, y) == a.index_at(
            x,
            a.height - 1 - y,
        )
}

/// `b` is `a` turned by a quarter, clockwise.
pub open spec fn turned(a: &Sprite, b: &Sprite) -> bool {
    &&& a.width == b.height
    &&& a.height == b.width
    &&& forall|x: int, y: int|
        0 <= x < b.width && 0 <= y < b.height ==> #[trigger] b.index_at(x, y) == a.index_at(
            y,
            a.height - 1 - x,
        )
}

/// Mirroring twice, either way, gives the sprite again.
pub proof fn lemma_flips_undo(a: &Sprite, b: &Sprite, c: &Sprite)
    ensures
        mirrored_h(a, b) && mirrored_h(b, c) ==> same_picture(a, c),
        mirrored_v(a, b) && mirrored_v(b, c) ==> same_picture(a, c),
{
    if mirrored_h(a, b) && mirrored_h(b, c) {
        assert forall|x: int, y: int|
            0 <= x < a.width && 0 <= y < a.height implies #[trigger] a.index_at(x, y)
            == c.index_at(x, y) by {
            assert(c.index_at(x, y) == b.index_at(b.width - 1 - x, y));
        }
    }
    if mirrored_v(a, b) && mirrored_v(b, c) {
        assert forall|x: int, y: int|
            0 <= x < a.width && 0 <= y < a.height implies #[trigger] a.index_at(x, y)
            == c.index_at(x, y) by {
            assert(c.index_at(x, y) == b.index_at(x, b.height - 1 - y));
        }
    }
}

/// Two quarter turns mirror both ways, so four give the sprite again.
pub proof fn lemma_four_turns(a: &Sprite, b: &Sprite, c: &Sprite, d: &Sprite, e: &Sprite)
    requires
        turned(a, b),
        turned(b, c),
        turned(c, d),
        turned(d, e),
    ensures
        same_picture(a, e),
{
    assert forall|x: int, y: int| 0 <= x < a.width && 0 <= y < a.height implies #[trigger] a.index_at(
        x,
        y,
    ) == e.index_at(x, y) by {
        assert(e.index_at(x, y) == d.index_at(y, d.height - 1 - x));
        assert(d.index_at(y, d.height - 1 - x) == c.index_at(d.height - 1 - x, c.height - 1 - y));
        assert(c.index_at(d.height - 1 - x, c.height - 1 - y) == b.index_at(
            c.height - 1 - y,
            b.height - 1 - (d.height - 1 - x),
        ));
    }
}

/// A solid color keeps its parts and hides what is below; one that is seen through
/// keeps them too and hides nothing.
pub proof fn lemma_colors_are(color: Rgb)
    ensures
        opaque(color).r == color.r && opaque(color).g == color.g && opaque(color).b == color.b
            && opaque(color).a == 255,
        see_through(color).r == color.r && see_through(color).g == color.g && see_through(color).b
            == color.b && see_through(color).a == 0,
        rgb_of(opaque(color)) == color,
        rgb_of(see_through(color)) == color,
{
}

/// A checkered paint begins with its first color and changes from each cell to the
/// next, across and down; a solid one is the same everywhere, and a transparent one
/// has no color.
pub proof fn lemma_paints_are(a: Index, b: Index, x: nat, y: nat)
    ensures
        picked(Paint::Solid(a), x, y) == Some(a),
        picked(Paint::Transparent, x, y) is None,
        picked(Paint::Checker(a, b), 0, 0) == Some(a),
        picked(Paint::Checker(a, b), x + 1, y) == picked(Paint::Checker(b, a), x, y),
        picked(Paint::Checker(a, b), x, y + 1) == picked(Paint::Checker(b, a), x, y),
{
}

/// A swap paints each color by its own rule, or all of them by one; what is
/// transparent stays so, and what has no rule stays as it is.
pub proof fn lemma_swaps_are(swap: &Swap, index: Index)
    ensures
        swap.paint_of(255) == Paint::Transparent,
        index != 255 ==> (swap.uniform_paint() matches Some(paint) ==> swap.paint_of(index)
            == paint),
        index != 255 && swap.uniform_paint() is None && index < swap.paints().len()
            ==> swap.paint_of(index) == swap.paints()[index as int],
        index != 255 && swap.uniform_paint() is None && index >= swap.paints().len()
            ==> swap.paint_of(index) == Paint::Solid(index),
{
}

/// The distance of two colors is the sum of the squares of what their parts differ
/// by: the same both ways, and nothing only between a color and itself.
pub proof fn lemma_distance_is(a: Rgb, b: Rgb)
    ensures
        distance(a, b) == distance(b, a),
        distance(a, b) >= 0,
        distance(a, b) == 0 <==> a == b,
        a.g == b.g && a.b == b.b ==> distance(a, b) == (a.r - b.r) * (a.r - b.r),
        a.r == b.r && a.b == b.b ==> distance(a, b) == (a.g - b.g) * (a.g - b.g),
        a.r == b.r && a.g == b.g ==> distance(a, b) == (a.b - b.b) * (a.b - b.b),
        distance(a, b) == distance(a, Rgb { r: b.r, g: a.g, b: a.b }) + distance(
            a,
            Rgb { r: a.r, g: b.g, b: a.b },
        ) + distance(a, Rgb { r: a.r, g: a.g, b: b.b }),
{
    let (x, y, z) = (a.r - b.r, a.g - b.g, a.b - b.b);
    assert((b.r - a.r) * (b.r - a.r) == x * x) by (nonlinear_arith)
        requires
            x == a.r - b.r,
    ;
    assert((b.g - a.g) * (b.g - a.g) == y * y) by (nonlinear_arith)
        requires
            y == a.g - b.g,
    ;
    assert((b.b - a.b) * (b.b - a.b) == z * z) by (nonlinear_arith)
        requires
            z == a.b - b.b,
    ;
    assert(x * x >= 0 && (x * x == 0 <==> x == 0)) by (nonlinear_arith);
    assert(y * y >= 0 && (y * y == 0 <==> y == 0)) by (nonlinear_arith);
    assert(z * z >= 0 && (z * z == 0 <==> z == 0)) by (nonlinear_arith);
    assert((a.r - a.r) * (a.r - a.r) == 0 && (a.g - a.g) * (a.g - a.g) == 0 && (a.b - a.b) * (a.b
        - a.b) == 0);
}

/// A color is looked up by its place, from the front again behind the end; it is
/// shown as its rule says, and what is transparent has none.
pub proof fn lemma_lookups_are(palette: &Palette, index: Index, x: nat, y: nat)
    requires
        palette.wf(),
        palette.colors().len() > 0,
    ensures
        palette.color_of(index) == palette.colors()[index as int % palette.colors().len() as int],
        palette.resolved(255, x, y) is None,
        index != 255 ==> match palette.remap()[index as int % palette.colors().len() as int] {
            Paint::Solid(i) => palette.resolved(index, x, y) == Some(palette.color_of(i)),
            Paint::Checker(a, b) => palette.resolved(index, x, y) == Some(
                palette.color_of(
                    if (x + y) % 2 == 0 {
                        a
                    } else {
                        b
                    },
                ),
            ),
            Paint::Transparent => palette.resolved(index, x, y) is None,
        },
        palette.resolved_paint(Paint::Solid(index), x, y) == palette.resolved(index, x, y),
        palette.resolved_paint(Paint::Transparent, x, y) is None,
{
    let n = palette.colors().len();
    if index < n {
        vstd::arithmetic::div_mod::lemma_small_mod(index as nat, n);
    }
}

/// The pixels of a picture are counted row by row.
pub proof fn lemma_rows_follow(width: int, x: int, y: int)
    ensures
        place(width, 0, 0) == 0,
        place(width, x + 1, y) == place(width, x, y) + 1,
        place(width, 0, y + 1) == place(width, width - 1, y) + 1,
{
    assert((y + 1) * width == y * width + width) by (nonlinear_arith);
    assert(0 * width == 0) by (nonlinear_arith);
}

/// A picture that is mirrored has its left columns right, or its upper rows below;
/// one that is turned, by a quarter and clockwise, has its left column on top.
pub proof fn lemma_mirrors_are(a: &Sprite, b: &Sprite, x: int, y: int)
    ensures
        mirrored_h(a, b) && 0 <= x < a.width && 0 <= y < a.height ==> b.width == a.width && b.height
            == a.height && b.index_at(a.width - 1 - x, y) == a.index_at(x, y),
        mirrored_v(a, b) && 0 <= x < a.width && 0 <= y < a.height ==> b.width == a.width && b.height
            == a.height && b.index_at(x, a.height - 1 - y) == a.index_at(x, y),
        turned(a, b) && 0 <= x < a.width && 0 <= y < a.height ==> b.width == a.height && b.height
            == a.width && b.index_at(a.height - 1 - y, x) == a.index_at(x, y),
{
}

/// A part of a picture reaches as far as it is wide, but not over the edge.
pub proof fn lemma_extent_is(start: int, extent: int, limit: int)
    requires
        0 <= start,
        0 <= extent,
        0 <= limit,
    ensures
        0 <= shown_extent(start, extent, limit) <= extent,
        start <= limit ==> start + shown_extent(start, extent, limit) <= limit,
        start + extent <= limit ==> shown_extent(start, extent, limit) == extent,
        start <= limit < start + extent ==> start + shown_extent(start, extent, limit) == limit,
        start > limit ==> shown_extent(start, extent, limit) == 0,
{
}

/// A picture taken over from another palette keeps what is transparent, and has for
/// the rest the color that is nearest to its own.
pub proof fn lemma_imports_are(from: &Palette, to: &Palette, color: Rgba, index: Index, r: Index)
    ensures
        converted(from, to, 255, r) ==> r == 255,
        index != 255 && converted(from, to, index, r) ==> to.nearest_is(
            from.colors()[index as int % from.colors().len() as int],
            r,
        ),
        color.a == 0 && imported(from, to, color, r) ==> r == 255,
        forall|i: int|
            color.a != 0 && imported(from, to, color, r) && 0 <= i < from.colors().len()
                && #[trigger] from.colors()[i] == (Rgb { r: color.r, g: color.g, b: color.b })
                ==> to.nearest_is(from.colors()[i], r),
{
    assert forall|i: int|
        color.a != 0 && imported(from, to, color, r) && 0 <= i < from.colors().len()
            && #[trigger] from.colors()[i] == (Rgb { r: color.r, g: color.g, b: color.b }) implies to.nearest_is(
    from.colors()[i], r) by {
        let k = choose|k: int| #[trigger]
            first_nearest(from.colors(), rgb_of(color), k) && to.nearest_is(from.colors()[k], r);
        lemma_distance_is(from.colors()[i], rgb_of(color));
        lemma_distance_is(from.colors()[k], rgb_of(color));
        assert(distance(from.colors()[k], rgb_of(color)) <= distance(
            from.colors()[i],
            rgb_of(color),
        ));
    }
}

/// A rectangle holds the points from its upper left corner on, as many columns and rows
/// as it has; a point left of the screen or above it counts as one at its edge.
pub proof fn lemma_rect_holds(rect: Rect, x: i16, y: i16, r: bool)
    requires
        rect.holds(x, y, r),
    ensures
        x >= 0 && y >= 0 ==> (r <==> 0 <= x - rect.x < rect.w && 0 <= y - rect.y < rect.h),
        x < 0 && y >= 0 ==> (r <==> rect.x == 0 && rect.w > 0 && 0 <= y - rect.y < rect.h),
        x >= 0 && y < 0 ==> (r <==> rect.y == 0 && rect.h > 0 && 0 <= x - rect.x < rect.w),
        x < 0 && y < 0 ==> (r <==> rect.x == 0 && rect.y == 0 && rect.w > 0 && rect.h > 0),
{
}

} // verus!
