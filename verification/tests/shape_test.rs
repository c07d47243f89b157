use kranium::tensor::shape::{element_count, is_valid_index, layout_size};

#[test]
fn element_count_is_the_product_of_the_dimensions() {
    assert_eq!(element_count(&[2, 3]), 6);
    assert_eq!(element_count(&[2, 3, 4]), 24);
    assert_eq!(element_count(&[7]), 7);
}

#[test]
fn element_count_of_the_empty_shape_is_one() {
    assert_eq!(element_count(&[]), 1);
}

#[test]
fn element_count_with_an_empty_dimension_is_zero() {
    assert_eq!(element_count(&[3, 0, 5]), 0);
    assert_eq!(element_count(&[usize::MAX, 2, 0]), 0);
    assert_eq!(element_count(&[0, usize::MAX, usize::MAX]), 0);
}

#[test]
fn element_count_reaches_the_largest_usize() {
    assert_eq!(element_count(&[usize::MAX, 1]), usize::MAX);
    assert_eq!(element_count(&[1, 1, usize::MAX]), usize::MAX);
}

#[test]
fn layout_size_is_the_element_count_where_the_layout_fits() {
    assert_eq!(layout_size(&[2, 3]), Some(6));
    assert_eq!(layout_size(&[2, 3, 4]), Some(24));
    assert_eq!(layout_size(&[]), Some(1));
    assert_eq!(layout_size(&[5, 0, 7]), Some(0));
    assert_eq!(layout_size(&[usize::MAX]), Some(usize::MAX));
    assert_eq!(layout_size(&[usize::MAX, 1, 1]), Some(usize::MAX));
}

#[test]
fn layout_size_refuses_a_count_that_does_not_fit() {
    assert_eq!(layout_size(&[usize::MAX, 2]), None);
    assert_eq!(layout_size(&[1 << 40, 1 << 40]), None);
}

#[test]
fn layout_size_refuses_a_stride_that_does_not_fit() {
    // no element, but one step along the first dimension would skip 2^80
    assert_eq!(layout_size(&[0, 1 << 40, 1 << 40]), None);
    // the empty dimension comes last: every stride is zero or one
    assert_eq!(layout_size(&[1 << 40, 1 << 40, 0]), Some(0));
    assert_eq!(layout_size(&[1 << 40, 0, 1 << 40]), Some(0));
}

#[test]
fn is_valid_index_wants_one_coordinate_for_each_dimension() {
    assert!(is_valid_index(&[2, 3], &[1, 2]));
    assert!(is_valid_index(&[2, 3], &[0, 0]));
    assert!(!is_valid_index(&[2, 3], &[1]));
    assert!(!is_valid_index(&[2, 3], &[1, 2, 0]));
    assert!(is_valid_index(&[], &[]));
    assert!(!is_valid_index(&[], &[0]));
}

#[test]
fn is_valid_index_wants_each_coordinate_below_its_dimension() {
    assert!(!is_valid_index(&[2, 3], &[2, 0]));
    assert!(!is_valid_index(&[2, 3], &[0, 3]));
    assert!(!is_valid_index(&[2, 0], &[0, 0]));
    assert!(is_valid_index(&[1, 1, 1], &[0, 0, 0]));
}
