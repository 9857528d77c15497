use tensor_engine::error::TensorError;
use tensor_engine::permutation::{tuple_repeative_permutation_e, TupleRepeativePermutation};
use tensor_engine::tensor::{
    tensor, zero_tensor, ElementalOperation, GetPart, GrossCalculation, IndedxConsistencyConfirmation,
    IndexConversion, MethodChain, Paste, Tensor,
};

fn sample_3322() -> Tensor<i64> {
    tensor::<i64>(
        vec![3, 3, 2, 2],
        vec![
            1, 2, 3, 10, 20, 30, 100, 200, 300, 4, 5, 6, 40, 50, 60, 400, 500, 600, 1, 2, 3, 10,
            20, 30, 100, 200, 300, 4, 5, 6, 40, 50, 60, 400, 500, 600,
        ],
    )
    .unwrap()
}

#[test]
fn inner_test() {
    let tensor1 = tensor::<i32>(vec![2, 2], vec![-1, -2, -3, -4]).unwrap();
    let tensor2 = tensor::<i32>(vec![2, 2], vec![1, 2, 3, 4]).unwrap();
    println!("{:?}", &tensor1);
    println!("{:?}", &tensor2);
    let r = tensor1.inner(1, &tensor2).unwrap();
    println!("{:?}", r);
    assert_eq!(r.get_shape(), &vec![2, 2]);
    assert_eq!(r.get_data(), &vec![-7, -10, -15, -22]);
}

#[test]
fn index_test() {
    let tensor1 = zero_tensor::<i64>(vec![3, 2, 2]).unwrap();
    for v in 0..12 {
        assert_eq!(tensor1.flatten(&tensor1.shape(v).unwrap()), Ok(v));
    }
    let tensor2 = tensor::<i64>(vec![2, 2], vec![1, 2, 3, 4]).unwrap();
    assert_eq!(*tensor2.get_value(0), 1);
    assert_eq!(*tensor2.get_value(tensor2.flatten(&vec![1, 1]).unwrap()), 4);
}

#[test]
fn marge_test() {
    let tensor1 = sample_3322();
    let tensor2 = tensor::<i64>(vec![2, 2], vec![0, 0, 0, 1]).unwrap();
    let r = tensor1.marge(&tensor2).unwrap();
    println!("{:?}", r);
    assert_eq!(r.get_shape(), &vec![3, 3]);
    assert_eq!(r.get_data(), &vec![4, 5, 6, 40, 50, 60, 400, 500, 600]);
}

#[test]
fn get_part_test() {
    let tensor1 = sample_3322();
    let tensor2 = tensor1.get_part(&vec![0, 0, 0, 0], &vec![1, 1, 0, 0]).unwrap();
    println!("{:?}", tensor2);
    assert_eq!(tensor2.get_shape(), &vec![2, 2, 1, 1]);
    assert_eq!(tensor2.get_data(), &vec![1, 2, 10, 20]);
}

#[test]
fn shape_test() {
    let tensor1 =
        tensor::<i64>(vec![3, 1, 2, 2], vec![1, 2, 3, 4, 5, 6, 7, 8, 9, 10, 11, 12]).unwrap();
    assert_eq!(tensor1.get_shape(), &vec![3, 1, 2, 2]);
    assert_eq!(tensor1.shape(11).unwrap(), vec![2, 0, 1, 1]);
    let tensor2 = tensor::<i64>(vec![3, 1, 2], vec![1, 2, 3, 4, 5, 6]).unwrap();
    assert_eq!(tensor2.get_shape(), &vec![3, 1, 2]);
    assert_eq!(tensor2.shape(4).unwrap(), vec![1, 0, 1]);
}

#[test]
fn paste_test() {
    let tensor1 = zero_tensor::<i64>(vec![6, 6]).unwrap();
    let tensor2 = tensor::<i64>(vec![3, 3], vec![1, 2, 3, 4, 5, 6, 7, 8, 9]).unwrap();
    let tensor2 = tensor2.get_part(&vec![0, 0], &vec![1, 1]).unwrap();
    assert_eq!(tensor2.get_shape(), &vec![2, 2]);
    assert_eq!(tensor2.get_data(), &vec![1, 2, 4, 5]);
    let r = tensor1.paste(vec![4, 4], &tensor2).unwrap();
    let mut expected = vec![0i64; 36];
    expected[28] = 1;
    expected[29] = 2;
    expected[34] = 4;
    expected[35] = 5;
    assert_eq!(r.get_data(), &expected);
    assert_eq!(*r.get_value(r.flatten(&vec![5, 5]).unwrap()), 5);
}

#[test]
fn calc_test() {
    let tensor1 = tensor::<i64>(vec![3, 3], vec![2, 0, 0, 0, 2, 0, 0, 0, 2]).unwrap();
    let tensor2 = tensor::<i64>(vec![3, 3], vec![1, 2, 3, 4, 5, 6, 7, 8, 9]).unwrap();
    let r = tensor1.clone().inner(1, &tensor2).unwrap();
    assert_eq!(r.get_shape(), &vec![3, 3]);
    assert_eq!(r.get_data(), &vec![2, 4, 6, 8, 10, 12, 14, 16, 18]);
    let r = tensor1.clone().tensor_add(&tensor2).unwrap();
    assert_eq!(r.get_data(), &vec![3, 2, 3, 4, 7, 6, 7, 8, 11]);
    let r = tensor1.clone().tensor_mul(&tensor2).unwrap();
    assert_eq!(r.get_data(), &vec![2, 0, 0, 0, 10, 0, 0, 0, 18]);
    let r = tensor1.clone().scaler_add(2);
    assert_eq!(r.get_data(), &vec![4, 2, 2, 2, 4, 2, 2, 2, 4]);
    let r = tensor1.clone().scaler_mul(2);
    assert_eq!(r.get_data(), &vec![4, 0, 0, 0, 4, 0, 0, 0, 4]);
    assert_eq!(tensor2.gross_product(), 362880);
    assert_eq!(tensor2.gross_sum(), 45);
}

#[test]
fn index_bijection_every_offset() {
    let t = zero_tensor::<i64>(vec![3, 2, 2]).unwrap();
    for f in 0..12usize {
        let s = t.shape(f).unwrap();
        assert!(t.check_shaped_index(&s));
        assert_eq!(t.flatten(&s), Ok(f));
    }
    assert_eq!(t.shape(1).unwrap(), vec![1, 0, 0]);
    assert_eq!(t.shape(3).unwrap(), vec![0, 1, 0]);
    assert_eq!(t.shape(6).unwrap(), vec![0, 0, 1]);
    assert_eq!(t.flatten(&vec![2, 1, 1]), Ok(11));
}

#[test]
fn codec_errors() {
    let t = zero_tensor::<i64>(vec![3, 2]).unwrap();
    assert_eq!(t.flatten(&vec![1]), Err(TensorError::RankMismatch));
    assert_eq!(t.flatten(&vec![3, 0]), Err(TensorError::IndexOutOfBounds));
    assert_eq!(t.shape(6), Err(TensorError::IndexOutOfBounds));
    assert!(t.check_flat_index(5));
    assert!(!t.check_flat_index(6));
    assert!(!t.check_shaped_index(&vec![0, 2]));
}

#[test]
fn construction_errors() {
    assert_eq!(tensor::<i64>(vec![2, 0], vec![]).unwrap_err(), TensorError::InvalidShape);
    assert_eq!(tensor::<i64>(vec![2, 2], vec![1, 2, 3]).unwrap_err(), TensorError::ShapeMismatch);
    assert_eq!(zero_tensor::<i64>(vec![0]).unwrap_err(), TensorError::InvalidShape);
    assert_eq!(
        zero_tensor::<i64>(vec![usize::MAX, 2]).unwrap_err(),
        TensorError::InvalidShape
    );
}

#[test]
fn scalar_tensor_has_one_element() {
    let t = tensor::<i64>(vec![], vec![7]).unwrap();
    assert_eq!(t.flatten(&vec![]), Ok(0));
    assert_eq!(t.shape(0).unwrap(), Vec::<usize>::new());
    assert_eq!(t.gross_sum(), 7);
    let z = zero_tensor::<i32>(vec![]).unwrap();
    assert_eq!(z.get_data(), &vec![0]);
}

#[test]
fn operand_shape_errors() {
    let a = zero_tensor::<i64>(vec![2, 3]).unwrap();
    let b = zero_tensor::<i64>(vec![3, 2]).unwrap();
    assert_eq!(a.clone().tensor_add(&b).unwrap_err(), TensorError::ShapeMismatch);
    assert_eq!(a.clone().tensor_mul(&b).unwrap_err(), TensorError::ShapeMismatch);
    assert_eq!(a.clone().inner(3, &b).unwrap_err(), TensorError::ContractionShapeMismatch);
    assert_eq!(a.clone().marge(&zero_tensor::<i64>(vec![3, 2, 2]).unwrap()).unwrap_err(), TensorError::ContractionShapeMismatch);
    assert_eq!(a.clone().inner(1, &a).unwrap_err(), TensorError::ContractionShapeMismatch);
    let r = a.clone().inner(1, &b).unwrap();
    assert_eq!(r.get_shape(), &vec![2, 2]);
    let outer = a.clone().inner(0, &b).unwrap();
    assert_eq!(outer.get_shape(), &vec![2, 3, 3, 2]);
}

#[test]
fn part_and_paste_errors() {
    let t = zero_tensor::<i64>(vec![3, 3]).unwrap();
    assert_eq!(t.get_part(&vec![0], &vec![1, 1]).unwrap_err(), TensorError::RankMismatch);
    assert_eq!(t.get_part(&vec![0, 0], &vec![3, 1]).unwrap_err(), TensorError::IndexOutOfBounds);
    assert_eq!(t.get_part(&vec![2, 0], &vec![1, 1]).unwrap_err(), TensorError::InvalidShape);
    let b = zero_tensor::<i64>(vec![2, 2]).unwrap();
    assert_eq!(t.clone().paste(vec![2, 0], &b).unwrap_err(), TensorError::IndexOutOfBounds);
    assert_eq!(t.clone().paste(vec![0], &b).unwrap_err(), TensorError::RankMismatch);
    let c = zero_tensor::<i64>(vec![2]).unwrap();
    assert_eq!(t.clone().paste(vec![0, 0], &c).unwrap_err(), TensorError::RankMismatch);
}

#[test]
fn extraction_shape_and_shift() {
    let t = tensor::<i64>(vec![3, 3], vec![1, 2, 3, 4, 5, 6, 7, 8, 9]).unwrap();
    let p = t.get_part(&vec![1, 0], &vec![2, 2]).unwrap();
    assert_eq!(p.get_shape(), &vec![2, 3]);
    assert_eq!(p.get_data(), &vec![2, 3, 5, 6, 8, 9]);
    let q = t.get_part(&vec![1, 1], &vec![1, 1]).unwrap();
    assert_eq!(q.get_data(), &vec![5]);
}

#[test]
fn scaler_identity_laws() {
    let t = tensor::<i64>(vec![2, 2], vec![-3, 0, 7, 11]).unwrap();
    assert_eq!(t.clone().scaler_add(0).get_data(), t.get_data());
    assert_eq!(t.clone().scaler_mul(1).get_data(), t.get_data());
    assert_eq!(t.clone().scaler_add(0).get_shape(), t.get_shape());
}

#[test]
fn arithmetic_wraps() {
    let t = tensor::<i64>(vec![1], vec![i64::MAX]).unwrap();
    assert_eq!(t.scaler_add(1).get_data(), &vec![i64::MIN]);
    let u = tensor::<usize>(vec![2], vec![3, 4]).unwrap();
    assert_eq!(u.gross_product(), 12);
}

#[test]
fn set_value_writes_one_element() {
    let mut t = zero_tensor::<i32>(vec![2, 2]).unwrap();
    t.set_value(2, 9);
    assert_eq!(t.get_data(), &vec![0, 0, 9, 0]);
}

#[test]
fn odometer_counts_dimension_zero_fastest() {
    let mut it = tuple_repeative_permutation_e(vec![2, 3]);
    let mut seen = Vec::new();
    while let Some(i) = it.next() {
        seen.push(i);
    }
    assert_eq!(
        seen,
        vec![vec![0, 0], vec![1, 0], vec![0, 1], vec![1, 1], vec![0, 2], vec![1, 2]]
    );
    assert_eq!(it.next(), None);
}

#[test]
fn odometer_scalar_and_empty() {
    let mut it = tuple_repeative_permutation_e(vec![]);
    assert_eq!(it.next(), Some(vec![]));
    assert_eq!(it.next(), None);
    let mut e = tuple_repeative_permutation_e(vec![2, 0]);
    assert_eq!(e.next(), None);
}

#[test]
fn odometer_with_bounds() {
    let mut it = TupleRepeativePermutation::new(vec![1, 2], vec![2, 3]);
    let mut seen = Vec::new();
    while let Some(i) = it.next() {
        seen.push(i);
    }
    assert_eq!(seen, vec![vec![1, 2], vec![2, 2], vec![1, 3], vec![2, 3]]);
    let mut none = TupleRepeativePermutation::new(vec![3], vec![2]);
    assert_eq!(none.next(), None);
}

#[test]
fn outer_and_identity_contractions() {
    let a = tensor::<i64>(vec![2], vec![3, -4]).unwrap();
    let b = tensor::<i64>(vec![3], vec![1, 2, 5]).unwrap();
    let outer = a.clone().inner(0, &b).unwrap();
    assert_eq!(outer.get_shape(), &vec![2, 3]);
    assert_eq!(outer.get_data(), &vec![3, -4, 6, -8, 15, -20]);
    let m = tensor::<i64>(vec![2, 2], vec![1, 2, 3, 4]).unwrap();
    let id = tensor::<i64>(vec![2, 2], vec![1, 0, 0, 1]).unwrap();
    let r = m.clone().inner(1, &id).unwrap();
    assert_eq!(r.get_data(), m.get_data());
    assert_eq!(r.get_shape(), m.get_shape());
}

#[test]
fn paste_back_extracted_block_changes_nothing() {
    let t = tensor::<i64>(vec![3, 3], vec![1, 2, 3, 4, 5, 6, 7, 8, 9]).unwrap();
    let p = t.get_part(&vec![1, 1], &vec![2, 2]).unwrap();
    let back = t.clone().paste(vec![1, 1], &p).unwrap();
    assert_eq!(back.get_data(), t.get_data());
    let full = t.get_part(&vec![0, 0], &vec![2, 2]).unwrap();
    assert_eq!(full.get_data(), t.get_data());
}
