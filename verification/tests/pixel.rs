use hybrid_image::pixel::{Rgba, OPAQUE};

#[test]
fn opaque_is_the_top_of_the_range() {
    assert_eq!(OPAQUE, 255);
}

#[test]
fn sum_adds_colours_and_forces_alpha() {
    let p = Rgba { r: 10, g: 200, b: 255, a: 0 };
    let q = Rgba { r: 20, g: 100, b: 1, a: 7 };
    assert_eq!(p.sum(q), Rgba { r: 30, g: 255, b: 255, a: 255 });
    assert_eq!(q.sum(p), p.sum(q));
}

#[test]
fn sum3_clamps_after_each_addition() {
    let p = Rgba { r: 10, g: 200, b: 100, a: 0 };
    let q = Rgba { r: 20, g: 100, b: 100, a: 0 };
    let s = Rgba { r: 30, g: 1, b: 55, a: 0 };
    assert_eq!(p.sum3(q, s), Rgba { r: 60, g: 255, b: 255, a: 255 });
    assert_eq!(p.sum(q).sum(s), p.sum3(q, s));
}

#[test]
fn difference_floors_colours_and_forces_alpha() {
    let p = Rgba { r: 10, g: 200, b: 255, a: 3 };
    let q = Rgba { r: 20, g: 100, b: 255, a: 200 };
    assert_eq!(p.difference(q), Rgba { r: 0, g: 100, b: 0, a: 255 });
    assert_eq!(q.difference(p), Rgba { r: 10, g: 0, b: 0, a: 255 });
    assert_eq!(p.difference(p), Rgba { r: 0, g: 0, b: 0, a: 255 });
}
