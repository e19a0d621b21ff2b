use heirloom::shape::{broadcast_shapes, contiguous_strides, expand_strides, normalize_dim, numel};
use heirloom::TensorError;

#[test]
fn scalar_has_one_element() {
    assert_eq!(numel(&[]), 1);
    assert_eq!(contiguous_strides(&[]), Vec::<usize>::new());
}

#[test]
fn broadcasting_rejects_incompatible_shapes() {
    let err = broadcast_shapes(&[2, 3], &[2, 2]).unwrap_err();
    assert!(matches!(err, TensorError::Shape(_)));
}

#[test]
fn expand_strides_insert_zero_strides_for_broadcasted_axes() {
    assert_eq!(
        expand_strides(&[3, 1], &[1, 1], &[2, 3, 4]).unwrap(),
        vec![0, 1, 0]
    );
}

#[test]
fn negative_dims_normalize_against_rank() {
    assert_eq!(normalize_dim(3, -1).unwrap(), 2);
    assert!(normalize_dim(3, -4).is_err());
}
