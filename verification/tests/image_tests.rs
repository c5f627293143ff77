use palettify::{img_resize, process, process_image, RgbaImage, LUT};

fn inverting_lut() -> LUT<u8> {
    LUT::from_interpolation(|r: usize, g: usize, b: usize| {
        [(63 - r) as u8, (63 - g) as u8, (63 - b) as u8]
    })
}

fn scaled(extent: u32, res: u32, min_dim: u32) -> u32 {
    (extent as f32 * (res as f32 / min_dim as f32)) as u32
}

#[test]
fn process_remaps_colours_and_keeps_alpha() {
    let lut = inverting_lut();
    let mut pixels = vec![0u8, 0, 0, 7, 255, 255, 255, 9, 128, 0, 255, 200, 42, 43];
    process(&lut, &mut pixels);
    assert_eq!(&pixels[0..4], &[63, 63, 63, 7]);
    assert_eq!(&pixels[4..8], &[0, 0, 0, 9]);
    assert_eq!(&pixels[8..12], &[31, 63, 0, 200]);
    assert_eq!(&pixels[12..14], &[42, 43]);
}

#[test]
fn process_of_empty_buffer_does_nothing() {
    let lut = inverting_lut();
    let mut pixels: Vec<u8> = Vec::new();
    process(&lut, &mut pixels);
    assert!(pixels.is_empty());
}

fn gradient(width: u32, height: u32) -> RgbaImage {
    let mut pixels = Vec::new();
    for i in 0..(width * height) {
        pixels.extend_from_slice(&[(i % 256) as u8, 100, 200, 255]);
    }
    RgbaImage { width, height, pixels }
}

#[test]
fn img_resize_without_target_keeps_size() {
    let img = gradient(4, 3);
    assert!(img_resize(&img, None, scaled).is_none());
}

#[test]
fn img_resize_keeps_images_narrower_than_target() {
    let img = gradient(40, 30);
    assert!(img_resize(&img, Some(41), scaled).is_none());
}

#[test]
fn img_resize_scales_the_width_to_the_target() {
    let img = gradient(40, 20);
    let out = img_resize(&img, Some(10), scaled).unwrap();
    assert_eq!((out.width, out.height), (10, 5));
    assert_eq!(out.pixels.len(), 4 * 10 * 5);
    assert_ne!(out.pixels.len(), img.pixels.len());
}

#[test]
fn img_resize_scales_a_portrait_image_by_its_width() {
    let img = gradient(20, 40);
    let out = img_resize(&img, Some(10), scaled).unwrap();
    assert_eq!((out.width, out.height), (10, 20));
}

#[test]
fn img_resize_of_a_uniform_image_stays_uniform() {
    let img = RgbaImage { width: 6, height: 4, pixels: [10u8, 20, 30, 255].repeat(24) };
    let out = img_resize(&img, Some(3), scaled).unwrap();
    assert_eq!((out.width, out.height), (3, 2));
    assert_eq!(out.pixels, [10u8, 20, 30, 255].repeat(6));
}

#[test]
fn img_resize_to_the_same_size_copies_the_pixels() {
    let img = gradient(8, 6);
    let out = img_resize(&img, Some(8), scaled).unwrap();
    assert_eq!((out.width, out.height), (8, 6));
    assert_eq!(out.pixels, img.pixels);
}

#[test]
fn img_resize_height_is_at_least_one_and_at_most_the_source() {
    let img = gradient(100, 2);
    let out = img_resize(&img, Some(1), scaled).unwrap();
    assert_eq!((out.width, out.height), (1, 1));
    let out = img_resize(&img, Some(50), |_e: u32, _r: u32, _m: u32| 0).unwrap();
    assert_eq!((out.width, out.height), (50, 1));
    let out = img_resize(&img, Some(50), |_e: u32, _r: u32, _m: u32| 1000).unwrap();
    assert_eq!((out.width, out.height), (50, 2));
    assert_eq!(out.pixels.len(), 4 * 50 * 2);
}

#[test]
fn process_image_remaps_without_resizing() {
    let lut = inverting_lut();
    let img = RgbaImage { width: 2, height: 1, pixels: vec![0, 0, 0, 1, 255, 255, 255, 2] };
    let out = process_image(&lut, img, None, scaled);
    assert_eq!((out.width, out.height), (2, 1));
    assert_eq!(out.pixels, vec![63, 63, 63, 1, 0, 0, 0, 2]);
}

#[test]
fn process_image_resizes_then_remaps() {
    let lut = inverting_lut();
    let img = RgbaImage { width: 4, height: 2, pixels: vec![255u8; 32] };
    let out = process_image(&lut, img, Some(2), scaled);
    assert_eq!((out.width, out.height), (2, 1));
    assert_eq!(out.pixels, vec![0, 0, 0, 255, 0, 0, 0, 255]);
}
