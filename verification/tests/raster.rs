use buddhabrot::bounds::int_is_bounded;
use buddhabrot::raster::{
    coords_to_wrapped_vec_index, itercount_to_intensity_index, weighted_sum_of_pair,
};

#[test]
fn index_is_row_major() {
    assert_eq!(coords_to_wrapped_vec_index((0, 0), 400), 0);
    assert_eq!(coords_to_wrapped_vec_index((3, 0), 400), 3);
    assert_eq!(coords_to_wrapped_vec_index((3, 2), 400), 803);
    assert_eq!(coords_to_wrapped_vec_index((399, 399), 400), 159_999);
}

#[test]
fn index_of_interleaved_channels() {
    // pixel (5, 7) of a 16-pixel row with three counters a pixel
    assert_eq!(coords_to_wrapped_vec_index((5 * 3, 7), 16 * 3), 7 * 48 + 15);
}

#[test]
fn index_sign_extends_a_negative_column() {
    assert_eq!(coords_to_wrapped_vec_index((-1, 0), 0), u64::MAX);
    assert_eq!(coords_to_wrapped_vec_index((-2, 0), 5), u64::MAX - 1);
}

#[test]
fn bounded_is_inclusive_at_both_ends() {
    assert!(int_is_bounded(0, 0, 9));
    assert!(int_is_bounded(9, 0, 9));
    assert!(int_is_bounded(4, 0, 9));
    assert!(!int_is_bounded(-1, 0, 9));
    assert!(!int_is_bounded(10, 0, 9));
}

#[test]
fn weighted_sum_adds_the_two_products() {
    assert_eq!(weighted_sum_of_pair((2i64, 3i64), (10i64, 100i64)), 320);
    assert_eq!(weighted_sum_of_pair((7u32, 0u32), (1u32, 9u32)), 7);
    assert_eq!(weighted_sum_of_pair((-4i32, 4i32), (5i32, 5i32)), 0);
}

#[test]
fn intensity_scales_counts_below_the_limit() {
    assert_eq!(itercount_to_intensity_index(0, 100, 256), 0);
    assert_eq!(itercount_to_intensity_index(50, 100, 256), 128);
    assert_eq!(itercount_to_intensity_index(99, 100, 256), 253);
    assert_eq!(itercount_to_intensity_index(1, 3, 7), 2);
}

#[test]
fn intensity_of_a_count_at_the_limit_is_zero() {
    assert_eq!(itercount_to_intensity_index(100, 100, 256), 0);
    assert_eq!(itercount_to_intensity_index(101, 100, 256), 0);
    assert_eq!(itercount_to_intensity_index(0, 0, 256), 0);
}

#[test]
fn intensity_rounds_toward_zero() {
    assert_eq!(itercount_to_intensity_index(-7, 2, 1), -3);
    assert_eq!(itercount_to_intensity_index(-7, -2, 1), 3);
    assert_eq!(itercount_to_intensity_index(-9, -4, 3), 6);
}
