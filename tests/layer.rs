use tensor_engine::neural_network::multiple_liner_regression;
use tensor_engine::error::TensorError;
use tensor_engine::general_type::{Number, Signed};

#[test]
fn layer_starts_with_zero_parameters() {
    let m = multiple_liner_regression::<i64>(3, 2).unwrap();
    assert_eq!(m.weight().get_shape(), &vec![3, 2]);
    assert_eq!(m.weight().get_data(), &vec![0; 6]);
    assert_eq!(m.bias().get_shape(), &vec![2]);
    assert_eq!(m.bias().get_data(), &vec![0; 2]);
    assert!(!m.has_input());
}

#[test]
fn layer_rejects_empty_dimensions() {
    assert_eq!(multiple_liner_regression::<i32>(0, 2).err(), Some(TensorError::InvalidShape));
    assert_eq!(multiple_liner_regression::<i32>(2, 0).err(), Some(TensorError::InvalidShape));
}

#[test]
fn number_operations() {
    assert_eq!(<i64 as Number>::zero_value(), 0);
    assert_eq!(<i32 as Number>::one_value(), 1);
    assert_eq!(5i64.plus(6), 11);
    assert_eq!(5usize.times(6), 30);
    assert_eq!(i32::MAX.plus(1), i32::MIN);
    assert_eq!(7i32.negate(), -7);
    assert_eq!(i64::MIN.negate(), i64::MIN);
}
