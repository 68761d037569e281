use hybrid_image::pixel::Rgba;
use hybrid_image::raster::{Image, Layout};

fn numbered(width: u32, height: u32, layout: Layout) -> Image {
    let len = width as usize * height as usize * layout.channels();
    let data: Vec<u8> = (0..len).map(|v| v as u8).collect();
    Image::from_raw(width, height, layout, data).unwrap()
}

#[test]
fn crop_takes_the_window_asked_for() {
    let img = numbered(4, 3, Layout::Luma);
    let out = img.crop(1, 1, 2, 2).unwrap();
    assert_eq!(out.width(), 2);
    assert_eq!(out.height(), 2);
    assert_eq!(out.layout(), Layout::Luma);
    assert_eq!(out.into_raw(), vec![5, 6, 9, 10]);
}

#[test]
fn crop_keeps_the_channels_of_each_pixel_together() {
    let img = numbered(3, 2, Layout::Rgb);
    let out = img.crop(1, 0, 2, 2).unwrap();
    assert_eq!(out.layout(), Layout::Rgb);
    assert_eq!(out.into_raw(), vec![3, 4, 5, 6, 7, 8, 12, 13, 14, 15, 16, 17]);
    let img = numbered(2, 2, Layout::Rgba);
    let out = img.crop(1, 1, 1, 1).unwrap();
    assert_eq!(out.get_pixel(0, 0), Some(Rgba { r: 12, g: 13, b: 14, a: 15 }));
}

#[test]
fn crop_of_the_whole_image_is_the_image() {
    for layout in [Layout::Luma, Layout::Rgb, Layout::Rgba] {
        let img = numbered(5, 4, layout);
        assert_eq!(img.crop(0, 0, 5, 4).unwrap(), img);
    }
}

#[test]
fn crop_may_be_empty() {
    let img = numbered(4, 3, Layout::Rgba);
    let out = img.crop(4, 3, 0, 0).unwrap();
    assert_eq!(out.width(), 0);
    assert_eq!(out.height(), 0);
    assert_eq!(out.into_raw(), Vec::<u8>::new());
    let out = img.crop(2, 0, 0, 3).unwrap();
    assert_eq!(out.width(), 0);
    assert_eq!(out.height(), 3);
}

#[test]
fn crop_refuses_a_window_that_leaves_the_image() {
    let img = numbered(4, 3, Layout::Luma);
    assert_eq!(img.crop(0, 0, 5, 3), None);
    assert_eq!(img.crop(0, 0, 4, 4), None);
    assert_eq!(img.crop(3, 0, 2, 1), None);
    assert_eq!(img.crop(0, 2, 1, 2), None);
    assert_eq!(img.crop(5, 0, 0, 0), None);
    assert_eq!(img.crop(u32::MAX, 0, 1, 1), None);
    assert_eq!(img.crop(1, 1, u32::MAX, u32::MAX), None);
}

#[test]
fn pad_replicate_repeats_the_edge() {
    let img = Image::from_raw(2, 2, Layout::Luma, vec![1, 2, 3, 4]).unwrap();
    let out = img.pad_replicate().unwrap();
    assert_eq!(out.width(), 4);
    assert_eq!(out.height(), 4);
    assert_eq!(out.layout(), Layout::Luma);
    assert_eq!(
        out.into_raw(),
        vec![1, 1, 2, 2, 1, 1, 2, 2, 3, 3, 4, 4, 3, 3, 4, 4]
    );
}

#[test]
fn pad_replicate_of_a_single_pixel_fills_the_square() {
    let img = Image::from_raw(1, 1, Layout::Rgba, vec![9, 8, 7, 6]).unwrap();
    let out = img.pad_replicate().unwrap();
    assert_eq!(out.width(), 3);
    assert_eq!(out.height(), 3);
    for y in 0..3 {
        for x in 0..3 {
            assert_eq!(out.get_pixel(x, y), Some(Rgba { r: 9, g: 8, b: 7, a: 6 }));
        }
    }
}

#[test]
fn pad_replicate_keeps_rows_and_columns_apart() {
    let img = numbered(3, 2, Layout::Rgb);
    let out = img.pad_replicate().unwrap();
    assert_eq!(out.width(), 5);
    assert_eq!(out.height(), 4);
    for y in 0..4u32 {
        for x in 0..5u32 {
            let sx = x.saturating_sub(1).min(2);
            let sy = y.saturating_sub(1).min(1);
            assert_eq!(out.get_pixel(x, y), img.get_pixel(sx, sy));
        }
    }
}

#[test]
fn pad_replicate_refuses_an_image_without_pixels() {
    assert_eq!(Image::from_raw(0, 0, Layout::Luma, vec![]).unwrap().pad_replicate(), None);
    assert_eq!(Image::from_raw(0, 5, Layout::Rgb, vec![]).unwrap().pad_replicate(), None);
    assert_eq!(Image::from_raw(5, 0, Layout::Rgba, vec![]).unwrap().pad_replicate(), None);
}

#[test]
fn cropping_the_padding_away_gives_the_image_back() {
    for layout in [Layout::Luma, Layout::Rgb, Layout::Rgba] {
        for (width, height) in [(1u32, 1u32), (1, 4), (5, 1), (4, 3)] {
            let img = numbered(width, height, layout);
            let padded = img.pad_replicate().unwrap();
            assert_eq!(padded.crop(1, 1, width, height).unwrap(), img);
        }
    }
}
