use hybrid_image::raster::{Image, Layout};

#[test]
fn to_rgba8_spreads_luma_over_the_colours() {
    let img = Image::from_raw(2, 1, Layout::Luma, vec![7, 200]).unwrap();
    let out = img.to_rgba8();
    assert_eq!(out.width(), 2);
    assert_eq!(out.height(), 1);
    assert_eq!(out.layout(), Layout::Rgba);
    assert_eq!(out.into_raw(), vec![7, 7, 7, 255, 200, 200, 200, 255]);
}

#[test]
fn to_rgba8_makes_rgb_opaque() {
    let img = Image::from_raw(1, 2, Layout::Rgb, vec![1, 2, 3, 4, 5, 6]).unwrap();
    assert_eq!(img.to_rgba8().into_raw(), vec![1, 2, 3, 255, 4, 5, 6, 255]);
}

#[test]
fn to_rgba8_copies_rgba() {
    let img = Image::from_raw(1, 2, Layout::Rgba, vec![1, 2, 3, 0, 4, 5, 6, 9]).unwrap();
    assert_eq!(img.to_rgba8(), img);
    assert_eq!(img.to_rgba8().to_rgba8(), img);
}

#[test]
fn to_rgba8_agrees_with_the_image_crate() {
    let data: Vec<u8> = (0..60).map(|v| (v * 4) as u8).collect();
    let rgb = image::RgbImage::from_raw(5, 4, data.clone()).unwrap();
    let theirs = image::DynamicImage::ImageRgb8(rgb).to_rgba8().into_raw();
    let ours = Image::from_raw(5, 4, Layout::Rgb, data).unwrap().to_rgba8().into_raw();
    assert_eq!(ours, theirs);
    let data: Vec<u8> = (0..20).map(|v| (v * 12) as u8).collect();
    let grey = image::GrayImage::from_raw(5, 4, data.clone()).unwrap();
    let theirs = image::DynamicImage::ImageLuma8(grey).to_rgba8().into_raw();
    let ours = Image::from_raw(5, 4, Layout::Luma, data).unwrap().to_rgba8().into_raw();
    assert_eq!(ours, theirs);
}

#[test]
fn to_luma8_copies_luma() {
    let img = Image::from_raw(2, 2, Layout::Luma, vec![0, 1, 254, 255]).unwrap();
    assert_eq!(img.to_luma8(), img);
}

#[test]
fn to_luma8_weighs_the_primaries() {
    let img = Image::from_raw(
        4,
        1,
        Layout::Rgb,
        vec![255, 0, 0, 0, 255, 0, 0, 0, 255, 0, 0, 0],
    )
    .unwrap();
    let out = img.to_luma8();
    assert_eq!(out.width(), 4);
    assert_eq!(out.height(), 1);
    assert_eq!(out.layout(), Layout::Luma);
    assert_eq!(out.into_raw(), vec![54, 182, 18, 0]);
}

#[test]
fn to_luma8_ignores_alpha() {
    let a = Image::from_raw(1, 1, Layout::Rgba, vec![255, 0, 0, 0]).unwrap();
    let b = Image::from_raw(1, 1, Layout::Rgba, vec![255, 0, 0, 255]).unwrap();
    assert_eq!(a.to_luma8().into_raw(), vec![54]);
    assert_eq!(b.to_luma8().into_raw(), vec![54]);
}

#[test]
fn to_luma8_agrees_with_the_image_crate() {
    let mut data = Vec::new();
    for i in 0..256u32 {
        data.push((i * 7 % 256) as u8);
        data.push((i * 13 % 256) as u8);
        data.push((255 - i) as u8);
    }
    let rgb = image::RgbImage::from_raw(16, 16, data.clone()).unwrap();
    let theirs = image::DynamicImage::ImageRgb8(rgb).into_luma8().into_raw();
    let ours = Image::from_raw(16, 16, Layout::Rgb, data).unwrap().to_luma8().into_raw();
    assert_eq!(ours, theirs);

    let mut data = Vec::new();
    for i in 0..256u32 {
        data.push((i * 3 % 256) as u8);
        data.push(i as u8);
        data.push((i * 11 % 256) as u8);
        data.push((i * 5 % 256) as u8);
    }
    let rgba = image::RgbaImage::from_raw(16, 16, data.clone()).unwrap();
    let theirs = image::DynamicImage::ImageRgba8(rgba).into_luma8().into_raw();
    let ours = Image::from_raw(16, 16, Layout::Rgba, data).unwrap().to_luma8().into_raw();
    assert_eq!(ours, theirs);
}

#[test]
fn to_luma_with_hands_each_colour_to_the_function() {
    let img = Image::from_raw(2, 1, Layout::Rgba, vec![10, 20, 30, 40, 50, 60, 70, 80]).unwrap();
    let out = img.to_luma_with(|r, g, b| (r + g + b) / 3);
    assert_eq!(out.width(), 2);
    assert_eq!(out.height(), 1);
    assert_eq!(out.layout(), Layout::Luma);
    assert_eq!(out.into_raw(), vec![20, 60]);
    let img = Image::from_raw(1, 2, Layout::Rgb, vec![1, 2, 3, 4, 5, 6]).unwrap();
    assert_eq!(img.to_luma_with(|_, g, _| g).into_raw(), vec![2, 5]);
    assert_eq!(img.to_luma_with(|_, _, b| b).into_raw(), vec![3, 6]);
}

#[test]
fn to_luma_with_leaves_luma_alone() {
    let img = Image::from_raw(2, 1, Layout::Luma, vec![7, 200]).unwrap();
    assert_eq!(img.to_luma_with(|_, _, _| 0), img);
}
