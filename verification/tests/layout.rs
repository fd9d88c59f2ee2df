use multivec::enumerate::{all_extents, split_tuple};
use multivec::layout::{fits, stride_table};

#[test]
fn stride_table_of_two_sizes() {
    assert_eq!(stride_table(&[4, 5]), Some([20, 5]));
}

#[test]
fn stride_table_of_three_sizes() {
    assert_eq!(stride_table(&[2, 3, 4]), Some([24, 12, 4]));
}

#[test]
fn stride_table_last_stride_is_last_size() {
    let sizes = [7usize, 3, 9, 2];
    let strides = stride_table(&sizes).unwrap();
    assert_eq!(strides[3], sizes[3]);
    for i in 0..3 {
        assert_eq!(strides[i], sizes[i] * strides[i + 1]);
    }
}

#[test]
fn stride_table_without_dimensions_is_empty() {
    let sizes: [usize; 0] = [];
    assert_eq!(stride_table(&sizes), Some([]));
}

#[test]
fn stride_table_with_zero_size() {
    assert_eq!(stride_table(&[4, 0, 5]), Some([0, 0, 5]));
}

#[test]
fn stride_table_rejects_overflow() {
    assert_eq!(stride_table(&[usize::MAX, 2]), None);
    assert_eq!(stride_table(&[0, usize::MAX, 2]), None);
}

#[test]
fn fits_accepts_small_extents() {
    assert!(fits(3, &[4, 5]));
    assert!(fits(0, &[4, 5]));
    assert!(fits(usize::MAX, &[]));
    assert!(fits(usize::MAX, &[1, 1]));
}

#[test]
fn fits_rejects_overflowing_extents() {
    assert!(!fits(2, &[usize::MAX]));
    assert!(!fits(1, &[usize::MAX, 2]));
    assert!(!fits(0, &[usize::MAX, 2]));
}

#[test]
fn all_extents_puts_outer_first() {
    assert_eq!(all_extents(3, &[4, 5]), vec![3, 4, 5]);
    assert_eq!(all_extents(7, &[]), vec![7]);
}

#[test]
fn split_tuple_takes_outer_off() {
    let (outer, inner) = split_tuple::<2>(&vec![1, 2, 3]);
    assert_eq!(outer, 1);
    assert_eq!(inner, [2, 3]);
    let (outer, inner) = split_tuple::<0>(&vec![9]);
    assert_eq!(outer, 9);
    assert_eq!(inner, []);
}
