use hybrid_image::compose::{overlay2, overlay3, Layers};
use hybrid_image::error::Error;
use hybrid_image::raster::{Image, Layout};

fn solid(width: u32, height: u32, value: u8) -> Image {
    let len = width as usize * height as usize * 4;
    Image::from_raw(width, height, Layout::Rgba, vec![value; len]).unwrap()
}

#[test]
fn merging_two_layers_is_overlay2() {
    let low = solid(3, 2, 40);
    let high = solid(3, 2, 2);
    let want = overlay2(&low, &high);
    let layers = Layers::Two { low, high };
    assert_eq!(layers.merge(), want);
    assert_eq!(layers.merge().unwrap().into_raw()[..4], [42, 42, 42, 255]);
}

#[test]
fn merging_three_layers_is_overlay3() {
    let low = solid(3, 2, 40);
    let high = solid(3, 2, 2);
    let extra = solid(3, 2, 250);
    let want = overlay3(&low, &high, &extra);
    let layers = Layers::Three { low, high, extra };
    assert_eq!(layers.merge(), want);
    assert_eq!(layers.merge().unwrap().into_raw()[..4], [255, 255, 255, 255]);
}

#[test]
fn merging_layers_of_different_size_is_refused() {
    let two = Layers::Two { low: solid(3, 2, 1), high: solid(2, 3, 1) };
    assert_eq!(two.merge(), Err(Error::DimensionMismatch));
    let three = Layers::Three { low: solid(3, 2, 1), high: solid(3, 2, 1), extra: solid(3, 3, 1) };
    assert_eq!(three.merge(), Err(Error::DimensionMismatch));
}

#[test]
fn the_mismatch_message_names_the_cause() {
    assert_eq!(Error::DimensionMismatch.message(), "images differ in width or height");
}
