//! Palettes, sprites, pictures and shapes.
use cozyui::framebuffer::Framebuffer;
use cozyui::graphics::{
    color_distance, Paint, Palette, Rect, Rgb, Rgba, Sprite, Swap, TRANSPARENT,
};
use cozyui::image::{
    decode_png_with_size, image_pixels, load_palette, load_sprite, ImageError, PixelFault, RawImage,
    INDEXED,
};
use cozyui::scene::{draw_filled_circle, draw_filled_ellipse, fill_area, paint, Art, Shape};

const RED: Rgb = Rgb { r: 255, g: 0, b: 0 };
const GREEN: Rgb = Rgb { r: 0, g: 255, b: 0 };
const WHITE: Rgb = Rgb { r: 250, g: 250, b: 250 };
const EMPTY: Rgba = Rgba { r: 9, g: 9, b: 9, a: 255 };

fn palette() -> Palette {
    Palette::from_colors(vec![RED, GREEN, WHITE])
}

fn sprite(width: usize, height: usize, pixels: &[u8]) -> Sprite {
    match Sprite::from_indices(width, height, pixels.to_vec()) {
        Ok(sprite) => sprite,
        Err(_) => panic!("the pixels are counted"),
    }
}

/// A picture of red, green and blue samples as a file.
fn rgb_png(width: u32, height: u32, samples: &[u8]) -> Vec<u8> {
    let mut file: Vec<u8> = Vec::new();
    {
        let mut encoder = png::Encoder::new(&mut file, width, height);
        encoder.set_color(png::ColorType::Rgb);
        encoder.set_depth(png::BitDepth::Eight);
        let mut writer = encoder.write_header().unwrap();
        writer.write_image_data(samples).unwrap();
    }
    file
}

/// A picture of palette indices as a file.
fn indexed_png(palette: Option<&[u8]>, indices: &[u8]) -> Vec<u8> {
    let mut file: Vec<u8> = Vec::new();
    {
        let mut encoder = png::Encoder::new(&mut file, indices.len() as u32, 1);
        encoder.set_color(png::ColorType::Indexed);
        encoder.set_depth(png::BitDepth::Eight);
        if let Some(palette) = palette {
            encoder.set_palette(palette.to_vec());
        }
        let mut writer = encoder.write_header().unwrap();
        writer.write_image_data(indices).unwrap();
    }
    file
}

#[test]
fn colors_are_found_in_a_palette() {
    assert_eq!(palette().nearest_index(Rgb { r: 200, g: 10, b: 10 }), 0);
    assert_eq!(palette().exact_index(GREEN), Some(1));
    assert_eq!(palette().exact_index(Rgb { r: 1, g: 2, b: 3 }), None);
    assert_eq!(palette().closest_to_white_index(), 2);
    assert_eq!(color_distance(RED, GREEN), 2 * 255 * 255);
    assert_eq!(palette().color(4), GREEN);
}

#[test]
fn checkers_alternate() {
    let checker = Paint::Checker(0, 1);
    assert_eq!(checker.pick(0, 0), Some(0));
    assert_eq!(checker.pick(1, 0), Some(1));
    assert_eq!(checker.pick(1, 1), Some(0));
    assert_eq!(Paint::Transparent.pick(0, 0), None);
    let mut palette = palette();
    palette.set_remap(0, checker);
    assert_eq!(palette.resolve(0, 0, 1), Some(GREEN));
    assert_eq!(palette.resolve(TRANSPARENT, 0, 0), None);
}

#[test]
fn sprites_are_turned_and_cut() {
    let s = sprite(2, 2, &[0, 1, 2, TRANSPARENT]);
    assert_eq!(s.flip_h().at(0, 0), 1);
    assert_eq!(s.flip_v().at(0, 0), 2);
    let turned = s.rot90().rot90().rot90().rot90();
    for y in 0..2 {
        for x in 0..2 {
            assert_eq!(turned.at(x, y), s.at(x, y));
        }
    }
    assert!(!s.is_opaque(1, 1));
    assert_eq!(s.region(Rect::new(1, 0, 5, 5)).width, 1);
    assert!(Sprite::from_indices(2, 2, vec![0]).is_err());
}

#[test]
fn draws_are_scaled_clipped_and_recolored() {
    let mut fb = Framebuffer::new(6, 6, EMPTY);
    fb.draw_sprite(&sprite(1, 1, &[0]), 1, 1, 2, &palette());
    assert_eq!(fb.pixel(1, 1), Rgba::from(RED));
    assert_eq!(fb.pixel(2, 2), Rgba::from(RED));
    assert_eq!(fb.pixel(3, 3), EMPTY);
    let swap = Swap::identity().set(0, Paint::Solid(1));
    let clip = Some(Rect::new(4, 4, 1, 1));
    let s = sprite(2, 2, &[0, 0, 0, 0]);
    fb.draw_sprite_full(&s, Rect::new(0, 0, 2, 2), 4, 4, 1, clip, &palette(), Some(&swap));
    assert_eq!(fb.pixel(4, 4), Rgba::from(GREEN));
    assert_eq!(fb.pixel(5, 5), EMPTY);
    fb.draw_sprite_silhouette(&s, -1, 0, 1, &palette(), Paint::Solid(2));
    assert_eq!(fb.pixel(0, 1), Rgba::from(WHITE));
}

#[test]
fn a_rectangle_without_height_has_its_first_row() {
    let mut fb = Framebuffer::new(4, 3, EMPTY);
    fb.fill_rect(1, 1, 2, 0, Rgba::from(RED));
    assert_eq!(fb.pixel(1, 1), Rgba::from(RED));
    assert_eq!(fb.pixel(2, 1), Rgba::from(RED));
    assert_eq!(fb.pixel(0, 1), EMPTY);
    assert_eq!(fb.pixel(3, 1), EMPTY);
    assert_eq!(fb.pixel(1, 2), EMPTY);
    fb.fill_rect(0, 0, 0, 2, Rgba::from(RED));
    assert_eq!(fb.pixel(0, 0), EMPTY);
    fb.fill_rect(0, 3, 4, 0, Rgba::from(RED));
    assert_eq!(fb.pixel(0, 2), EMPTY);
    fill_area(&mut fb, 0, 0, 4, 0, Rgba::from(RED));
    assert_eq!(fb.pixel(0, 0), EMPTY);
}

#[test]
fn an_ellipse_may_be_far_wider_than_the_picture() {
    let mut fb = Framebuffer::new(4, 3, EMPTY);
    draw_filled_ellipse(&mut fb, 0, 1, 100_000, 1, Rgba::from(RED));
    assert_eq!(fb.pixel(3, 1), Rgba::from(RED));
    assert_eq!(fb.pixel(0, 0), Rgba::from(RED));
    assert_eq!(fb.pixel(1, 0), EMPTY);
}

#[test]
fn blits_leave_holes() {
    let mut fb = Framebuffer::new(3, 1, EMPTY);
    let mut other = Framebuffer::new(2, 1, RED.transparent());
    other.set_pixel(1, 0, Rgba::from(GREEN));
    fb.blit_from(&other, 1, 0);
    assert_eq!(fb.pixel(1, 0), EMPTY);
    assert_eq!(fb.pixel(2, 0), Rgba::from(GREEN));
    assert_eq!(fb.row_bytes(0, 2, 1), &[0, 255, 0, 255]);
}

#[test]
fn files_are_decoded() {
    let file = rgb_png(2, 1, &[255, 0, 0, 0, 255, 0]);
    match decode_png_with_size(&file) {
        Ok((width, height, pixels)) => {
            assert_eq!((width, height), (2, 1));
            assert_eq!(pixels, vec![Rgba::from(RED), Rgba::from(GREEN)]);
        }
        Err(_) => panic!("the file is a picture"),
    }
    assert!(matches!(decode_png_with_size(b"text"), Err(ImageError::Decode(_))));
    match load_palette(&file) {
        Ok(Some(palette)) => assert_eq!(palette.len(), 2),
        _ => panic!("the picture has colors"),
    }
    match load_sprite(&file, &palette(), &palette()) {
        Ok(sprite) => assert_eq!((sprite.at(0, 0), sprite.at(1, 0)), (0, 1)),
        Err(_) => panic!("the file is a picture"),
    }
}

#[test]
fn a_picture_too_large_to_hold_is_refused() {
    let mut file = rgb_png(1, 1, &[1, 2, 3]);
    for byte in &mut file[16..24] {
        *byte = 255;
    }
    assert!(matches!(decode_png_with_size(&file), Err(ImageError::TooLarge)));
    assert!(matches!(load_palette(&file), Err(ImageError::TooLarge)));
    file[0] = 0;
    assert!(matches!(decode_png_with_size(&file), Err(ImageError::Decode(_))));
}

#[test]
fn a_checker_runs_on_where_a_sprite_is_repeated() {
    let mut palette = palette();
    palette.set_remap(0, Paint::Checker(0, 1));
    let mut fb = Framebuffer::new(3, 2, EMPTY);
    fb.clear_scaled(&sprite(1, 1, &[0]), 1, &palette);
    assert_eq!(fb.pixel(0, 0), Rgba::from(RED));
    assert_eq!(fb.pixel(1, 0), Rgba::from(GREEN));
    assert_eq!(fb.pixel(2, 0), Rgba::from(RED));
    assert_eq!(fb.pixel(0, 1), Rgba::from(GREEN));
    fb.clear_scaled(&sprite(1, 1, &[0]), 2, &palette);
    assert_eq!(fb.pixel(1, 1), Rgba::from(RED));
    assert_eq!(fb.pixel(2, 1), Rgba::from(GREEN));
}

#[test]
fn indices_need_their_palette() {
    let file = indexed_png(Some(&[255, 0, 0, 0, 255, 0]), &[1, 0]);
    match decode_png_with_size(&file) {
        Ok((_, _, pixels)) => assert_eq!(pixels[0], Rgba::from(GREEN)),
        Err(_) => panic!("the file is a picture"),
    }
    let image = |color_type: u8, palette: Option<Vec<u8>>| RawImage {
        width: 2,
        height: 1,
        color_type,
        bytes: vec![0, 7],
        palette,
        trns: Some(vec![3]),
    };
    assert_eq!(image_pixels(&image(INDEXED, None)), Err(PixelFault::MissingPalette));
    assert_eq!(
        image_pixels(&image(INDEXED, Some(vec![255, 0, 0]))),
        Err(PixelFault::PaletteIndex(7))
    );
    assert_eq!(image_pixels(&image(0, None)), Err(PixelFault::Unsupported(0)));
    let pixels = image_pixels(&image(INDEXED, Some(vec![9; 24]))).unwrap();
    assert_eq!(pixels[0], Rgba { r: 9, g: 9, b: 9, a: 3 });
    assert_eq!(pixels[1].a, 255);
}

#[test]
fn shapes_are_painted_in_order() {
    let mut fb = Framebuffer::new(8, 8, EMPTY);
    fill_area(&mut fb, -1, -1, 3, 3, Rgba::from(RED));
    assert_eq!(fb.pixel(1, 1), Rgba::from(RED));
    assert_eq!(fb.pixel(2, 2), EMPTY);
    draw_filled_circle(&mut fb, 5, 5, 2, Rgba::from(GREEN));
    assert_eq!(fb.pixel(5, 3), Rgba::from(GREEN));
    assert_eq!(fb.pixel(3, 3), EMPTY);
    draw_filled_ellipse(&mut fb, 5, 5, 1, 0, Rgba::from(RED));
    assert_eq!(fb.pixel(5, 5), Rgba::from(GREEN));
    let shapes = vec![
        Shape::Fill { x: 0, y: 0, w: 4, h: 4, color: 0 },
        Shape::Fill { x: 2, y: 2, w: 4, h: 4, color: 1 },
    ];
    let palette = palette();
    let (fonts, sprites) = (vec![], vec![]);
    paint(&mut fb, &shapes, &Art { fonts: &fonts, sprites: &sprites, palette: &palette });
    assert_eq!(fb.pixel(1, 1), Rgba::from(RED));
    assert_eq!(fb.pixel(3, 3), Rgba::from(GREEN));
}
