use zoom_layers::pipeline::{
    build_layers, compose_layers, crop_centre, resize_image, run_pipeline, slice_layers, Config, ConfigError,
    ResizeError,
};
use zoom_layers::raster::Image;
use zoom_layers::reconstruct::reconstruct_image;
use zoom_layers::slice::{slice_image, SliceError};

/// A picture whose pixel `(x, y)` is `(x, y, x ^ y)`, so that every pixel
/// of a small picture is told apart from the others.
fn gradient(width: u32, height: u32) -> Image {
    let mut data = Vec::new();
    for y in 0..height {
        for x in 0..width {
            data.push(x as u8);
            data.push(y as u8);
            data.push((x ^ y) as u8);
        }
    }
    Image::from_raw(width, height, data).unwrap()
}

fn solid(width: u32, height: u32, rgb: [u8; 3]) -> Image {
    let mut data = Vec::new();
    for _ in 0..(width * height) {
        data.extend_from_slice(&rgb);
    }
    Image::from_raw(width, height, data).unwrap()
}

#[test]
fn from_raw_checks_length() {
    assert!(Image::from_raw(2, 2, vec![0; 12]).is_some());
    assert!(Image::from_raw(2, 2, vec![0; 11]).is_none());
    assert!(Image::from_raw(2, 2, vec![0; 13]).is_none());
    assert!(Image::from_raw(0, 7, Vec::new()).is_some());
}

#[test]
fn new_image_is_black() {
    let img = Image::new(3, 2);
    assert_eq!(img.dimensions(), (3, 2));
    assert_eq!(img.as_bytes(), &[0u8; 18][..]);
}

#[test]
fn get_pixel_reads_row_major() {
    let img = gradient(4, 3);
    assert_eq!(img.get_pixel(0, 0), [0, 0, 0]);
    assert_eq!(img.get_pixel(3, 1), [3, 1, 2]);
    assert_eq!(img.get_pixel(2, 2), [2, 2, 0]);
}

#[test]
fn resize_divides_dimensions() {
    let img = gradient(5, 3);
    let out = resize_image(&img, 2).unwrap();
    assert_eq!(out.dimensions(), (2, 1));
    assert_eq!(out.as_bytes().len(), 6);

    let big = gradient(512, 300);
    let out = resize_image(&big, 3).unwrap();
    assert_eq!(out.dimensions(), (170, 100));
}

#[test]
fn resize_by_one_copies() {
    let img = gradient(4, 4);
    let out = resize_image(&img, 1).unwrap();
    assert_eq!(out.as_bytes(), img.as_bytes());
}

#[test]
fn resize_keeps_a_solid_colour() {
    let img = solid(8, 8, [200, 100, 50]);
    let out = resize_image(&img, 2).unwrap();
    assert_eq!(out.dimensions(), (4, 4));
    for y in 0..4 {
        for x in 0..4 {
            assert_eq!(out.get_pixel(x, y), [200, 100, 50]);
        }
    }
}

#[test]
fn resize_rejects_zero_factor() {
    let img = gradient(4, 4);
    assert_eq!(resize_image(&img, 0).err(), Some(ResizeError::ZeroFactor));
}

#[test]
fn resize_rejects_factor_above_smaller_side() {
    let img = gradient(8, 3);
    assert_eq!(resize_image(&img, 4).err(), Some(ResizeError::FactorTooLarge));
    assert!(resize_image(&img, 3).is_ok());
    let empty = Image::new(0, 0);
    assert_eq!(resize_image(&empty, 1).err(), Some(ResizeError::FactorTooLarge));
}

#[test]
fn slice_copies_the_rectangle() {
    let img = gradient(4, 4);
    let out = slice_image(&img, (1, 1), (3, 4)).unwrap();
    assert_eq!(out.dimensions(), (2, 3));
    for y in 0..3 {
        for x in 0..2 {
            assert_eq!(out.get_pixel(x, y), img.get_pixel(x + 1, y + 1));
        }
    }
}

#[test]
fn slice_ignores_corner_order() {
    let img = gradient(6, 5);
    let a = slice_image(&img, (1, 4), (5, 2)).unwrap();
    let b = slice_image(&img, (5, 2), (1, 4)).unwrap();
    let c = slice_image(&img, (1, 2), (5, 4)).unwrap();
    assert_eq!(a.dimensions(), (4, 2));
    assert_eq!(a.as_bytes(), b.as_bytes());
    assert_eq!(a.as_bytes(), c.as_bytes());
}

#[test]
fn slice_of_whole_picture_is_identity() {
    let img = gradient(7, 3);
    let out = slice_image(&img, (0, 0), (7, 3)).unwrap();
    assert_eq!(out.dimensions(), (7, 3));
    assert_eq!(out.as_bytes(), img.as_bytes());
}

#[test]
fn slice_with_equal_coordinates_is_empty() {
    let img = gradient(4, 4);
    let out = slice_image(&img, (2, 1), (2, 3)).unwrap();
    assert_eq!(out.dimensions(), (0, 2));
    assert!(out.as_bytes().is_empty());
}

#[test]
fn slice_past_the_edge_is_refused() {
    let img = gradient(4, 4);
    assert_eq!(slice_image(&img, (0, 0), (5, 2)).err(), Some(SliceError::OutOfBounds));
    assert_eq!(slice_image(&img, (0, 5), (1, 1)).err(), Some(SliceError::OutOfBounds));
}

#[test]
fn crop_centre_takes_the_middle() {
    let img = gradient(256, 256);
    let out = crop_centre(&img, 3);
    assert_eq!(out.dimensions(), (85, 85));
    assert_eq!(out.get_pixel(0, 0), img.get_pixel(86, 86));
    let whole = crop_centre(&img, 1);
    assert_eq!(whole.as_bytes(), img.as_bytes());
}

#[test]
fn reconstruction_has_canvas_size() {
    let layers = vec![gradient(10, 7), gradient(3, 9), Image::new(0, 0)];
    let out = reconstruct_image(&layers, (40, 30), 5);
    assert_eq!(out.dimensions(), (40, 30));
    let none: Vec<Image> = Vec::new();
    let out = reconstruct_image(&none, (13, 2), 4);
    assert_eq!(out.dimensions(), (13, 2));
    assert!(out.as_bytes().iter().all(|b| *b == 0));
}

#[test]
fn reconstruction_centres_a_layer() {
    // One layer on a 4 by 4 canvas split into two parts is shown at 2 by 2,
    // its own size, with its corner at (1, 1).
    let layer = gradient(2, 2);
    let out = reconstruct_image(&vec![layer], (4, 4), 2);
    let layer = gradient(2, 2);
    assert_eq!(out.get_pixel(0, 0), [0, 0, 0]);
    assert_eq!(out.get_pixel(3, 3), [0, 0, 0]);
    assert_eq!(out.get_pixel(1, 1), layer.get_pixel(0, 0));
    assert_eq!(out.get_pixel(2, 1), layer.get_pixel(1, 0));
    assert_eq!(out.get_pixel(2, 2), layer.get_pixel(1, 1));
}

#[test]
fn reconstruction_draws_first_layer_on_top() {
    let red = solid(1, 1, [255, 0, 0]);
    let blue = solid(1, 1, [0, 0, 255]);
    // Layer 1 is shown at 3 by 3 from (2, 2); layer 0 at 2 by 2 from (2, 2).
    let out = reconstruct_image(&vec![red, blue], (6, 6), 3);
    assert_eq!(out.get_pixel(0, 0), [0, 0, 0]);
    assert_eq!(out.get_pixel(1, 1), [0, 0, 0]);
    assert_eq!(out.get_pixel(2, 2), [255, 0, 0]);
    assert_eq!(out.get_pixel(3, 3), [255, 0, 0]);
    assert_eq!(out.get_pixel(4, 4), [0, 0, 255]);
    assert_eq!(out.get_pixel(5, 5), [0, 0, 0]);
}

#[test]
fn empty_layer_draws_nothing() {
    let layers = vec![Image::new(0, 3)];
    let out = reconstruct_image(&layers, (4, 4), 1);
    assert!(out.as_bytes().iter().all(|b| *b == 0));
}

#[test]
fn config_needs_two_divisions() {
    assert_eq!(Config::new(1, 2).err(), Some(ConfigError::TooFewDivisions));
    assert_eq!(Config::new(0, 2).err(), Some(ConfigError::TooFewDivisions));
    assert_eq!(Config::new(4, 1).err(), Some(ConfigError::FactorTooSmall));
    let c = Config::new(4, 2).unwrap();
    assert_eq!((c.divisions(), c.factor()), (4, 2));
}

#[test]
fn layers_shrink_in_a_chain() {
    let layers = build_layers(gradient(64, 40), 3, 2).unwrap();
    let dims: Vec<(u32, u32)> = layers.iter().map(|l| l.dimensions()).collect();
    assert_eq!(dims, vec![(64, 40), (32, 20), (16, 10)]);
    assert_eq!(build_layers(gradient(8, 8), 5, 2).err(), Some(ResizeError::FactorTooLarge));
}

#[test]
fn slice_layers_uses_shrinking_parts() {
    let layers = vec![gradient(12, 12), gradient(12, 12), gradient(12, 12)];
    let slices = slice_layers(&layers, 3);
    let dims: Vec<(u32, u32)> = slices.iter().map(|l| l.dimensions()).collect();
    assert_eq!(dims, vec![(4, 4), (6, 6), (12, 12)]);
}

#[test]
fn pipeline_on_512_square() {
    let config = Config::new(4, 2).unwrap();
    let out = run_pipeline(gradient(512, 512), &config, (512, 512)).unwrap();
    let dims: Vec<(u32, u32)> = out.slices.iter().map(|l| l.dimensions()).collect();
    assert_eq!(dims, vec![(128, 128), (85, 85), (64, 64), (64, 64)]);
    assert_eq!(out.reconstruction.dimensions(), (512, 512));
}

#[test]
fn pipeline_is_repeatable() {
    let config = Config::new(3, 2).unwrap();
    let a = run_pipeline(gradient(48, 40), &config, (60, 50)).unwrap();
    let b = run_pipeline(gradient(48, 40), &config, (60, 50)).unwrap();
    assert_eq!(a.slices.len(), b.slices.len());
    for (x, y) in a.slices.iter().zip(b.slices.iter()) {
        assert_eq!(x.as_bytes(), y.as_bytes());
    }
    assert_eq!(a.reconstruction.as_bytes(), b.reconstruction.as_bytes());
}

#[test]
fn pipeline_fails_on_a_tiny_picture() {
    let config = Config::new(4, 2).unwrap();
    let out = run_pipeline(gradient(6, 6), &config, (16, 16));
    assert_eq!(out.err(), Some(ResizeError::FactorTooLarge));
}

#[test]
fn compose_layers_crops_then_composes() {
    let layers = vec![gradient(12, 12), solid(6, 6, [9, 8, 7])];
    let out = compose_layers(&layers, 2, (8, 8));
    let dims: Vec<(u32, u32)> = out.slices.iter().map(|l| l.dimensions()).collect();
    assert_eq!(dims, vec![(6, 6), (6, 6)]);
    assert_eq!(out.slices[0].as_bytes(), crop_centre(&gradient(12, 12), 2).as_bytes());
    let again = reconstruct_image(&out.slices, (8, 8), 2);
    assert_eq!(out.reconstruction.as_bytes(), again.as_bytes());
    // The solid layer fills the canvas; the first crop, shown at 4 by 4,
    // covers its middle.
    assert_eq!(out.reconstruction.get_pixel(0, 0), [9, 8, 7]);
    assert_eq!(out.reconstruction.get_pixel(7, 7), [9, 8, 7]);
}

#[test]
fn pipeline_first_crop_comes_from_the_input() {
    let config = Config::new(3, 2).unwrap();
    let out = run_pipeline(gradient(30, 24), &config, (40, 40)).unwrap();
    assert_eq!(out.slices[0].as_bytes(), crop_centre(&gradient(30, 24), 3).as_bytes());
    let dims: Vec<(u32, u32)> = out.slices.iter().map(|l| l.dimensions()).collect();
    assert_eq!(dims, vec![(10, 8), (7, 6), (7, 6)]);
}
