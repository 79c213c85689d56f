//! PNG pictures as colors.
use vstd::prelude::*;

use crate::graphics::{imported, Palette, Rgba, Sprite};

verus! {

/// `png`'s reason for not reading a picture.
#[verifier::external_type_specification]
#[verifier::external_body]
pub struct ExDecodingError(png::DecodingError);

/// The PNG format's number for red, green and blue samples.
pub const TRUECOLOR: u8 = 2;

/// The PNG format's number for samples that index a palette.
pub const INDEXED: u8 = 3;

/// The PNG format's number for red, green, blue and alpha samples.
pub const TRUECOLOR_ALPHA: u8 = 6;

/// A decoded picture, before its samples are read as colors.
pub struct RawImage {
    pub width: u32,
    pub height: u32,
    pub color_type: u8,
    pub bytes: Vec<u8>,
    pub palette: Option<Vec<u8>>,
    pub trns: Option<Vec<u8>>,
}

pub struct ImageView {
    pub width: u32,
    pub height: u32,
    pub color_type: u8,
    pub bytes: Seq<u8>,
    pub palette: Option<Seq<u8>>,
    pub trns: Option<Seq<u8>>,
}

pub open spec fn bytes_of(v: Option<Vec<u8>>) -> Option<Seq<u8>> {
    match v {
        Some(v) => Some(v@),
        None => None,
    }
}

impl View for RawImage {
    type V = ImageView;

    open spec fn view(&self) -> ImageView {
        ImageView {
            width: self.width,
            height: self.height,
            color_type: self.color_type,
            bytes: self.bytes@,
            palette: bytes_of(self.palette),
            trns: bytes_of(self.trns),
        }
    }
}

/// The number that four bytes write, the highest first.
pub open spec fn big_endian(bytes: Seq<u8>, at: int) -> int {
    bytes[at] * 0x100_0000 + bytes[at + 1] * 0x1_0000 + bytes[at + 2] * 0x100 + bytes[at + 3]
}

/// The bytes that a PNG file starts with.
pub open spec fn signature() -> Seq<u8> {
    seq![137, 80, 78, 71, 13, 10, 26, 10]
}

/// The size that a PNG file's header announces: behind the signature and a
/// length stands the name of the header, and then the width and the height.
pub open spec fn announced(file: Seq<u8>) -> Option<(int, int)> {
    if file.len() >= 24 && file.take(8) == signature() && file.subrange(12, 16) == seq![
        73u8,
        72,
        68,
        82,
    ] {
        Some((big_endian(file, 16), big_endian(file, 20)))
    } else {
        None
    }
}

/// Whether a file's samples, four to a pixel, can be held in memory at all.
pub open spec fn holdable(file: Seq<u8>) -> bool {
    announced(file) matches Some((width, height)) ==> 4 * (width * height) <= isize::MAX
}

fn number_at(bytes: &[u8], at: usize) -> (r: u32)
    requires
        at + 4 <= bytes@.len(),
    ensures
        r == big_endian(bytes@, at as int),
{
    bytes[at] as u32 * 0x100_0000 + bytes[at + 1] as u32 * 0x1_0000 + bytes[at + 2] as u32 * 0x100
        + bytes[at + 3] as u32
}

fn can_be_held(file: &[u8]) -> (r: bool)
    ensures
        r == holdable(file@),
{
    if file.len() < 24 {
        return true;
    }
    let signed = file[0] == 137 && file[1] == 80 && file[2] == 78 && file[3] == 71 && file[4] == 13
        && file[5] == 10 && file[6] == 26 && file[7] == 10;
    let named = file[12] == 73 && file[13] == 72 && file[14] == 68 && file[15] == 82;
    proof {
        let start = file@.take(8);
        let name = file@.subrange(12, 16);
        assert(signed ==> start =~= signature());
        if start == signature() {
            assert(start[0] == 137 && start[1] == 80 && start[2] == 78 && start[3] == 71 && start[4]
                == 13 && start[5] == 10 && start[6] == 26 && start[7] == 10);
        }
        assert(named ==> name =~= seq![73u8, 72, 68, 82]);
        if name == seq![73u8, 72, 68, 82] {
            assert(name[0] == 73 && name[1] == 72 && name[2] == 68 && name[3] == 82);
        }
    }
    if !signed || !named {
        return true;
    }
    let width: u32 = number_at(file, 16);
    let height: u32 = number_at(file, 20);
    assert(width * height <= 0xFFFF_FFFF * 0xFFFF_FFFF) by (nonlinear_arith)
        requires
            width <= 0xFFFF_FFFF,
            height <= 0xFFFF_FFFF,
    ;
    let pixels: u128 = width as u128 * height as u128;
    4 * pixels <= isize::MAX as u128
}

/// The picture that a PNG file's bytes hold, with its samples brought to eight
/// bits; nothing when they hold none.
pub uninterp spec fn png_image(file: Seq<u8>) -> Option<ImageView>;

/// `png`'s `Decoder` with `Transformations::normalize_to_color8`, from
/// `read_info` to the first frame: the frame's size, color type and samples,
/// with the header's palette and transparency tables. The decoder takes the
/// size of what it writes, up to four bytes a pixel, from the header, and
/// multiplies it out unchecked once it has read the tables, so the header must
/// announce a size that memory can hold. The result is a function of the file's
/// bytes; what that function is, the PNG format says.
#[verifier::external_body]
fn read_png(file: &[u8]) -> (r: Result<RawImage, png::DecodingError>)
    requires
        holdable(file@),
    ensures
        match r {
            Ok(image) => png_image(file@) == Some(image@),
            Err(_) => png_image(file@) is None,
        },
{
    let mut decoder = png::Decoder::new(file);
    decoder.set_transformations(png::Transformations::normalize_to_color8());
    let mut reader = decoder.read_info()?;
    let mut bytes = vec![0; reader.output_buffer_size()];
    let frame = reader.next_frame(&mut bytes)?;
    bytes.truncate(frame.buffer_size());
    let palette = reader.info().palette.as_ref().map(|p| p.to_vec());
    let trns = reader.info().trns.as_ref().map(|t| t.to_vec());
    let color_type = frame.color_type as u8;
    Ok(RawImage { width: frame.width, height: frame.height, color_type, bytes, palette, trns })
}

/// Why a decoded picture's samples are not colors.
#[derive(Clone, Copy, PartialEq, Eq, Structural, Debug)]
pub enum PixelFault {
    MissingPalette,
    PaletteIndex(u8),
    Unsupported(u8),
}

pub enum ImageError {
    /// The header announces more than memory can hold.
    TooLarge,
    Decode(png::DecodingError),
    Pixels(PixelFault),
    PixelCount(usize),
}

pub open spec fn truecolor_pixels(bytes: Seq<u8>) -> Seq<Rgba> {
    Seq::new(
        bytes.len() / 3,
        |i: int|
            Rgba { r: bytes[3 * i], g: bytes[3 * i + 1], b: bytes[3 * i + 2], a: 255 },
    )
}

pub open spec fn truecolor_alpha_pixels(bytes: Seq<u8>) -> Seq<Rgba> {
    Seq::new(
        bytes.len() / 4,
        |i: int|
            Rgba {
                r: bytes[4 * i],
                g: bytes[4 * i + 1],
                b: bytes[4 * i + 2],
                a: bytes[4 * i + 3],
            },
    )
}

/// A palette entry, with the alpha that the transparency table gives it.
pub open spec fn palette_entry(palette: Seq<u8>, trns: Seq<u8>, index: u8) -> Rgba {
    let base = index as int * 3;
    Rgba {
        r: palette[base],
        g: palette[base + 1],
        b: palette[base + 2],
        a: if index < trns.len() {
            trns[index as int]
        } else {
            255
        },
    }
}

/// Whether a palette has a whole entry for an index.
pub open spec fn has_entry(palette: Seq<u8>, index: u8) -> bool {
    index as int * 3 + 2 < palette.len()
}

/// Indexed samples looked up one by one; the first index without an entry is
/// the fault.
pub open spec fn indexed_pixels(bytes: Seq<u8>, palette: Seq<u8>, trns: Seq<u8>) -> Result<
    Seq<Rgba>,
    PixelFault,
>
    decreases bytes.len(),
{
    if bytes.len() == 0 {
        Ok(Seq::empty())
    } else {
        match indexed_pixels(bytes.drop_last(), palette, trns) {
            Ok(before) => if has_entry(palette, bytes.last()) {
                Ok(before.push(palette_entry(palette, trns, bytes.last())))
            } else {
                Err(PixelFault::PaletteIndex(bytes.last()))
            },
            Err(fault) => Err(fault),
        }
    }
}

/// The colors of a decoded picture.
pub open spec fn image_colors(image: ImageView) -> Result<Seq<Rgba>, PixelFault> {
    if image.color_type == TRUECOLOR {
        Ok(truecolor_pixels(image.bytes))
    } else if image.color_type == TRUECOLOR_ALPHA {
        Ok(truecolor_alpha_pixels(image.bytes))
    } else if image.color_type == INDEXED {
        match image.palette {
            Some(palette) => indexed_pixels(
                image.bytes,
                palette,
                match image.trns {
                    Some(trns) => trns,
                    None => Seq::empty(),
                },
            ),
            None => Err(PixelFault::MissingPalette),
        }
    } else {
        Err(PixelFault::Unsupported(image.color_type))
    }
}

proof fn lemma_indexed_fault(bytes: Seq<u8>, palette: Seq<u8>, trns: Seq<u8>, n: int)
    requires
        0 < n <= bytes.len(),
        indexed_pixels(bytes.take(n), palette, trns) is Err,
    ensures
        indexed_pixels(bytes, palette, trns) == indexed_pixels(bytes.take(n), palette, trns),
    decreases bytes.len() - n,
{
    if n < bytes.len() {
        assert(bytes.take(n + 1).drop_last() =~= bytes.take(n));
        lemma_indexed_fault(bytes, palette, trns, n + 1);
    } else {
        assert(bytes.take(n) =~= bytes);
    }
}

/// Reads a decoded picture's samples as colors.
pub fn image_pixels(image: &RawImage) -> (r: Result<Vec<Rgba>, PixelFault>)
    ensures
        match r {
            Ok(pixels) => image_colors(image@) == Ok::<Seq<Rgba>, PixelFault>(pixels@),
            Err(fault) => image_colors(image@) == Err::<Seq<Rgba>, PixelFault>(fault),
        },
{
    let mut pixels: Vec<Rgba> = Vec::new();
    let bytes = &image.bytes;
    if image.color_type == TRUECOLOR {
        let len: usize = bytes.len();
        let count: usize = len / 3;
        let mut i: usize = 0;
        while i < count
            invariant
                i <= count,
                len == bytes@.len(),
                count == len / 3,
                pixels@ =~= truecolor_pixels(bytes@).take(i as int),
            decreases count - i,
        {
            let at: usize = i * 3;
            pixels.push(Rgba { r: bytes[at], g: bytes[at + 1], b: bytes[at + 2], a: 255 });
            i += 1;
        }
        assert(pixels@ =~= truecolor_pixels(bytes@));
        Ok(pixels)
    } else if image.color_type == TRUECOLOR_ALPHA {
        let len: usize = bytes.len();
        let count: usize = len / 4;
        let mut i: usize = 0;
        while i < count
            invariant
                i <= count,
                len == bytes@.len(),
                count == len / 4,
                pixels@ =~= truecolor_alpha_pixels(bytes@).take(i as int),
            decreases count - i,
        {
            let at: usize = i * 4;
            pixels.push(
                Rgba { r: bytes[at], g: bytes[at + 1], b: bytes[at + 2], a: bytes[at + 3] },
            );
            i += 1;
        }
        assert(pixels@ =~= truecolor_alpha_pixels(bytes@));
        Ok(pixels)
    } else if image.color_type == INDEXED {
        match &image.palette {
            None => Err(PixelFault::MissingPalette),
            Some(palette) => {
                let none: Vec<u8> = Vec::new();
                let trns: &Vec<u8> = match &image.trns {
                    Some(trns) => trns,
                    None => &none,
                };
                assert(trns@ == (match image@.trns {
                    Some(trns) => trns,
                    None => Seq::<u8>::empty(),
                }));
                let mut i: usize = 0;
                while i < bytes.len()
                    invariant
                        i <= bytes@.len(),
                        image_colors(image@) == indexed_pixels(bytes@, palette@, trns@),
                        indexed_pixels(bytes@.take(i as int), palette@, trns@) == Ok::<
                            Seq<Rgba>,
                            PixelFault,
                        >(pixels@),
                    decreases bytes@.len() - i,
                {
                    let index: u8 = bytes[i];
                    assert(bytes@.take(i + 1).drop_last() =~= bytes@.take(i as int));
                    let base: usize = index as usize * 3;
                    if base + 2 >= palette.len() {
                        proof {
                            lemma_indexed_fault(bytes@, palette@, trns@, i + 1);
                        }
                        return Err(PixelFault::PaletteIndex(index));
                    }
                    let a: u8 = if (index as usize) < trns.len() {
                        trns[index as usize]
                    } else {
                        255
                    };
                    pixels.push(
                        Rgba { r: palette[base], g: palette[base + 1], b: palette[base + 2], a },
                    );
                    i += 1;
                }
                assert(bytes@.take(bytes@.len() as int) =~= bytes@);
                Ok(pixels)
            },
        }
    } else {
        Err(PixelFault::Unsupported(image.color_type))
    }
}

/// A PNG file's size and colors.
pub fn decode_png_with_size(file: &[u8]) -> (r: Result<(usize, usize, Vec<Rgba>), ImageError>)
    ensures
        !holdable(file@) ==> r matches Err(ImageError::TooLarge),
        match r {
            Ok((width, height, pixels)) => png_image(file@) matches Some(image) && width
                == image.width && height == image.height && image_colors(image) == Ok::<
                Seq<Rgba>,
                PixelFault,
            >(pixels@),
            Err(ImageError::TooLarge) => !holdable(file@),
            Err(ImageError::Decode(_)) => holdable(file@) && png_image(file@) is None,
            Err(ImageError::Pixels(fault)) => png_image(file@) matches Some(image)
                && image_colors(image) == Err::<Seq<Rgba>, PixelFault>(fault),
            Err(ImageError::PixelCount(_)) => false,
        },
{
    if !can_be_held(file) {
        return Err(ImageError::TooLarge);
    }
    match read_png(file) {
        Ok(image) => match image_pixels(&image) {
            Ok(pixels) => Ok((image.width as usize, image.height as usize, pixels)),
            Err(fault) => Err(ImageError::Pixels(fault)),
        },
        Err(error) => Err(ImageError::Decode(error)),
    }
}

/// The palette of a PNG file's colors, in reading order; nothing when it has
/// none.
pub fn load_palette(file: &[u8]) -> (r: Result<Option<Palette>, ImageError>)
    ensures
        !holdable(file@) ==> r matches Err(ImageError::TooLarge),
        match r {
            Ok(found) => png_image(file@) matches Some(image) && image_colors(image) matches Ok(
                colors,
            ) && match found {
                Some(palette) => palette.wf() && palette.colors() == Seq::new(
                    colors.len(),
                    |i: int| crate::graphics::rgb_of(colors[i]),
                ) && colors.len() > 0,
                None => colors.len() == 0,
            },
            Err(ImageError::TooLarge) => !holdable(file@),
            Err(ImageError::Decode(_)) => holdable(file@) && png_image(file@) is None,
            Err(ImageError::Pixels(fault)) => png_image(file@) matches Some(image)
                && image_colors(image) == Err::<Seq<Rgba>, PixelFault>(fault),
            Err(ImageError::PixelCount(_)) => false,
        },
{
    match decode_png_with_size(file) {
        Ok((_, _, pixels)) => {
            let mut colors: Vec<crate::graphics::Rgb> = Vec::new();
            let mut i: usize = 0;
            while i < pixels.len()
                invariant
                    i <= pixels@.len(),
                    colors@ =~= Seq::new(i as nat, |j: int| crate::graphics::rgb_of(pixels@[j])),
                decreases pixels@.len() - i,
            {
                colors.push(pixels[i].rgb());
                i += 1;
            }
            if colors.len() == 0 {
                Ok(None)
            } else {
                Ok(Some(Palette::from_colors(colors)))
            }
        },
        Err(error) => Err(error),
    }
}

/// The sprite in a PNG file: its colors read through `source` and stored as
/// indices of `target`.
pub fn load_sprite(file: &[u8], source: &Palette, target: &Palette) -> (r: Result<
    Sprite,
    ImageError,
>)
    requires
        0 < source.colors().len() <= 256,
    ensures
        !holdable(file@) ==> r matches Err(ImageError::TooLarge),
        match r {
            Ok(sprite) => png_image(file@) matches Some(image) && image_colors(image) matches Ok(
                colors,
            ) && sprite.wf() && sprite.width == image.width && sprite.height == image.height
                && colors.len() == sprite.pixels().len() && forall|i: int|
                0 <= i < colors.len() ==> imported(
                    source,
                    target,
                    colors[i],
                    #[trigger] sprite.pixels()[i],
                ),
            Err(ImageError::TooLarge) => !holdable(file@),
            Err(ImageError::Decode(_)) => holdable(file@) && png_image(file@) is None,
            Err(ImageError::Pixels(fault)) => png_image(file@) matches Some(image)
                && image_colors(image) == Err::<Seq<Rgba>, PixelFault>(fault),
            Err(ImageError::PixelCount(got)) => png_image(file@) matches Some(image)
                && image_colors(image) matches Ok(colors) && colors.len() == got && colors.len()
                != image.width * image.height,
        },
{
    match decode_png_with_size(file) {
        Ok((width, height, pixels)) => match Sprite::from_rgba(
            width,
            height,
            &pixels,
            source,
            target,
        ) {
            Ok(sprite) => Ok(sprite),
            Err(mismatch) => Err(ImageError::PixelCount(mismatch.got)),
        },
        Err(error) => Err(error),
    }
}

/// A number of four bytes, the highest first.
pub proof fn lemma_big_endian_is(bytes: Seq<u8>, at: int)
    ensures
        big_endian(bytes, at) == ((bytes[at] as int * 256 + bytes[at + 1]) * 256 + bytes[at + 2])
            * 256 + bytes[at + 3],
{
}

/// A picture's pixels are read in order: three bytes of red, green and blue each,
/// solid, or four with how solid they are.
pub proof fn lemma_pixels_are(bytes: Seq<u8>, i: int)
    ensures
        truecolor_pixels(bytes).len() * 3 <= bytes.len() < truecolor_pixels(bytes).len() * 3 + 3,
        truecolor_alpha_pixels(bytes).len() * 4 <= bytes.len() < truecolor_alpha_pixels(bytes).len()
            * 4 + 4,
        0 <= i < truecolor_pixels(bytes).len() ==> ({
            let c = truecolor_pixels(bytes)[i];
            c.r == bytes[3 * i] && c.g == bytes[3 * i + 1] && c.b == bytes[3 * i + 2] && c.a == 255
        }),
        0 <= i < truecolor_alpha_pixels(bytes).len() ==> ({
            let c = truecolor_alpha_pixels(bytes)[i];
            c.r == bytes[4 * i] && c.g == bytes[4 * i + 1] && c.b == bytes[4 * i + 2] && c.a
                == bytes[4 * i + 3]
        }),
{
}

/// Whether a color is that of a place in a palette, solid unless it says otherwise.
pub open spec fn colored(c: Rgba, index: u8, palette: Seq<u8>, trns: Seq<u8>) -> bool {
    let at = 3 * index;
    &&& at + 2 < palette.len()
    &&& c.r == palette[at]
    &&& c.g == palette[at + 1]
    &&& c.b == palette[at + 2]
    &&& index < trns.len() ==> c.a == trns[index as int]
    &&& index >= trns.len() ==> c.a == 255
}

/// Pixels by number have the colors of those places in the picture's own palette.
/// The first that has no place there is an error.
pub proof fn lemma_indexed_pixels_are(bytes: Seq<u8>, palette: Seq<u8>, trns: Seq<u8>)
    ensures
        indexed_pixels(bytes, palette, trns) matches Ok(pixels) ==> pixels.len() == bytes.len()
            && forall|i: int|
            0 <= i < bytes.len() ==> colored(#[trigger] pixels[i], bytes[i], palette, trns),
        indexed_pixels(bytes, palette, trns) matches Err(fault) ==> exists|i: int|
            0 <= i < bytes.len() && 3 * (#[trigger] bytes[i]) + 2 >= palette.len() && fault
                == PixelFault::PaletteIndex(bytes[i]) && forall|j: int|
                0 <= j < i ==> 3 * (#[trigger] bytes[j]) + 2 < palette.len(),
    decreases bytes.len(),
{
    if bytes.len() > 0 {
        let short = bytes.drop_last();
        let n = bytes.len() - 1;
        lemma_indexed_pixels_are(short, palette, trns);
        assert forall|j: int| 0 <= j < n implies #[trigger] short[j] == bytes[j] by {}
        match indexed_pixels(short, palette, trns) {
            Ok(before) => {
                if has_entry(palette, bytes.last()) {
                    let pixels = before.push(palette_entry(palette, trns, bytes.last()));
                    assert forall|i: int| 0 <= i < bytes.len() implies colored(
                        #[trigger] pixels[i],
                        bytes[i],
                        palette,
                        trns,
                    ) by {
                        if i < n {
                            assert(colored(before[i], short[i], palette, trns));
                        }
                    }
                } else {
                    assert forall|j: int| 0 <= j < n implies 3 * (#[trigger] bytes[j]) + 2
                        < palette.len() by {
                        assert(colored(before[j], short[j], palette, trns));
                    }
                    assert(3 * bytes[n] + 2 >= palette.len());
                }
            },
            Err(fault) => {
                let i = choose|i: int|
                    0 <= i < short.len() && 3 * (#[trigger] short[i]) + 2 >= palette.len() && fault
                        == PixelFault::PaletteIndex(short[i]) && forall|j: int|
                        0 <= j < i ==> 3 * (#[trigger] short[j]) + 2 < palette.len();
                assert(bytes[i] == short[i]);
                assert forall|j: int| 0 <= j < i implies 3 * (#[trigger] bytes[j]) + 2
                    < palette.len() by {
                    assert(short[j] == bytes[j]);
                }
            },
        }
    }
}

/// How a picture's bytes are read depends on its kind: two is colors, six colors
/// and how solid they are, three places in a palette, which must be there. No other
/// kind is read.
pub proof fn lemma_kinds_are(image: ImageView)
    ensures
        image.color_type == 2 ==> image_colors(image) == Ok::<Seq<Rgba>, PixelFault>(
            truecolor_pixels(image.bytes),
        ),
        image.color_type == 6 ==> image_colors(image) == Ok::<Seq<Rgba>, PixelFault>(
            truecolor_alpha_pixels(image.bytes),
        ),
        image.color_type == 3 && image.palette is None ==> image_colors(image) == Err::<
            Seq<Rgba>,
            PixelFault,
        >(PixelFault::MissingPalette),
        image.color_type == 3 ==> (image.palette matches Some(palette) ==> (image.trns is None
            ==> image_colors(image) == indexed_pixels(image.bytes, palette, Seq::empty())) && (
        image.trns matches Some(trns) ==> image_colors(image) == indexed_pixels(
            image.bytes,
            palette,
            trns,
        ))),
        image.color_type != 2 && image.color_type != 3 && image.color_type != 6 ==> image_colors(
            image,
        ) == Err::<Seq<Rgba>, PixelFault>(PixelFault::Unsupported(image.color_type)),
{
}

/// A picture's size is announced where the file begins as such a picture does: the
/// width and then the height, behind its first heading.
pub proof fn lemma_sizes_are_announced(file: Seq<u8>)
    ensures
        file.len() < 24 ==> announced(file) is None,
        announced(file) matches Some((w, h)) ==> file[0] == 137 && file[1] == 80 && file[2] == 78
            && file[3] == 71 && file[12] == 73 && file[13] == 72 && file[14] == 68 && file[15] == 82
            && w == big_endian(file, 16) && h == big_endian(file, 20),
        announced(file) is None ==> holdable(file),
        announced(file) matches Some((w, h)) ==> (holdable(file) <==> 4 * (w * h) <= isize::MAX),
{
    if announced(file) is Some {
        let head = file.take(8);
        assert(head[0] == file[0] && head[1] == file[1] && head[2] == file[2] && head[3] == file[3]);
        let kind = file.subrange(12, 16);
        assert(kind[0] == file[12] && kind[1] == file[13] && kind[2] == file[14] && kind[3]
            == file[15]);
        assert(head == signature());
    }
}

} // verus!
