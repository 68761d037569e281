use hybrid_image::arith::{clamp_add, clamp_sub};

#[test]
fn clamp_add_below_the_ceiling_is_the_sum() {
    assert_eq!(clamp_add(100, 100, 255), 200);
    assert_eq!(clamp_add(0, 0, 255), 0);
    assert_eq!(clamp_add(0, 255, 255), 255);
    assert_eq!(clamp_add(254, 1, 255), 255);
    assert_eq!(clamp_add(30, 40, 100), 70);
    assert_eq!(clamp_add(60, 40, 100), 100);
}

#[test]
fn clamp_add_above_the_ceiling_is_the_ceiling() {
    assert_eq!(clamp_add(200, 100, 255), 255);
    assert_eq!(clamp_add(255, 255, 255), 255);
    assert_eq!(clamp_add(255, 1, 255), 255);
    assert_eq!(clamp_add(60, 50, 100), 100);
    assert_eq!(clamp_add(200, 0, 100), 100);
    assert_eq!(clamp_add(1, 0, 0), 0);
}

#[test]
fn clamp_sub_floors_at_zero() {
    assert_eq!(clamp_sub(100, 200, 255), 0);
    assert_eq!(clamp_sub(0, 1, 255), 0);
    assert_eq!(clamp_sub(0, 255, 255), 0);
    assert_eq!(clamp_sub(7, 7, 255), 0);
}

#[test]
fn clamp_sub_is_the_difference_held_at_the_ceiling() {
    assert_eq!(clamp_sub(200, 100, 255), 100);
    assert_eq!(clamp_sub(255, 0, 255), 255);
    assert_eq!(clamp_sub(200, 50, 100), 100);
    assert_eq!(clamp_sub(200, 150, 100), 50);
    assert_eq!(clamp_sub(9, 3, 0), 0);
}

#[test]
fn clamp_results_stay_in_bounds_for_every_pair() {
    for a in 0..=255u8 {
        for b in 0..=255u8 {
            let s = clamp_add(a, b, 255);
            assert!(s >= a.max(b));
            let d = clamp_sub(a, b, 255);
            assert!(d <= a);
            let wide = a as u16 + b as u16;
            assert_eq!(s as u16, wide.min(255));
            assert_eq!(d as i16, (a as i16 - b as i16).max(0));
        }
    }
}

#[test]
fn clamp_add_is_commutative_for_every_pair() {
    for a in 0..=255u8 {
        for b in 0..=255u8 {
            assert_eq!(clamp_add(a, b, 255), clamp_add(b, a, 255));
            assert_eq!(clamp_add(a, b, 100), clamp_add(b, a, 100));
        }
    }
}

#[test]
fn clamp_add_is_associative_on_a_sample_of_triples() {
    for a in (0..=255u8).step_by(5) {
        for b in (0..=255u8).step_by(7) {
            for c in (0..=255u8).step_by(3) {
                assert_eq!(
                    clamp_add(clamp_add(a, b, 255), c, 255),
                    clamp_add(a, clamp_add(b, c, 255), 255)
                );
            }
        }
    }
}
