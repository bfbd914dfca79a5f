use flico::window::{data_y_range_in_x, slice_indices};

fn range(samples: &[f32], lo: i64, hi: i64) -> Option<(f32, f32)> {
    let bits: Vec<u32> = samples.iter().map(|x| x.to_bits()).collect();
    data_y_range_in_x(&bits, lo, hi).map(|(a, b)| (f32::from_bits(a), f32::from_bits(b)))
}

#[test]
fn positions_are_moved_into_the_samples() {
    assert_eq!(slice_indices(2, 5, 10), (2, 5));
    assert_eq!(slice_indices(-3, 20, 10), (0, 10));
    assert_eq!(slice_indices(12, 15, 10), (10, 10));
    assert_eq!(slice_indices(i64::MIN, i64::MAX, 10), (0, 10));
    assert_eq!(slice_indices(0, 0, 0), (0, 0));
}

#[test]
fn ends_may_be_given_in_either_order() {
    assert_eq!(slice_indices(5, 2, 10), slice_indices(2, 5, 10));
    assert_eq!(slice_indices(20, -3, 10), (0, 10));
}

#[test]
fn least_and_greatest_in_view() {
    let s = [9.0, -2.0, 3.5, 0.25, -8.0];
    assert_eq!(range(&s, 1, 4), Some((-2.0, 3.5)));
    assert_eq!(range(&s, 4, 1), Some((-2.0, 3.5)));
    assert_eq!(range(&s, -10, 100), Some((-8.0, 9.0)));
}

#[test]
fn what_is_no_number_does_not_count() {
    let s = [f32::NAN, 1.0, f32::NAN, 2.0];
    assert_eq!(range(&s, 0, 4), Some((1.0, 2.0)));
    assert_eq!(range(&s, 0, 1), None);
}

#[test]
fn no_range_without_finite_samples() {
    assert_eq!(range(&[], 0, 1), None);
    assert_eq!(range(&[1.0, 2.0], 5, 9), None);
    assert_eq!(range(&[1.0, f32::INFINITY], 0, 2), None);
    assert_eq!(range(&[f32::NEG_INFINITY, 1.0], 0, 2), None);
}

#[test]
fn first_of_two_zeros_is_taken() {
    let (min, max) = range(&[-0.0, 0.0], 0, 2).unwrap();
    assert!(min.is_sign_negative() && max.is_sign_negative());
    let (min, max) = range(&[0.0, -0.0], 0, 2).unwrap();
    assert!(min.is_sign_positive() && max.is_sign_positive());
}
