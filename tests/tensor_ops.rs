use astra_net::activation::{Activation, LeakyReLU};
use astra_net::tensor::{ElemOp, Tensor, TensorError};

fn t(data: Vec<i64>, shape: Vec<usize>) -> Tensor<i64> {
    Tensor::from_vec(data, shape).unwrap()
}

#[test]
fn from_vec_accepts_matching_lengths() {
    let a = t(vec![1, 2, 3, 4, 5, 6], vec![2, 3]);
    assert_eq!(a.len(), 6);
    assert_eq!(a.shape(), &vec![2, 3]);
    assert_eq!(a.data(), &vec![1, 2, 3, 4, 5, 6]);
}

#[test]
fn from_vec_rejects_mismatched_lengths() {
    let r = Tensor::from_vec(vec![1i64, 2, 3], vec![2, 2]);
    assert_eq!(r.err(), Some(TensorError::ShapeMismatch));
    let r = Tensor::from_vec(Vec::<i64>::new(), vec![0]);
    assert_eq!(r.err(), Some(TensorError::ShapeMismatch));
    let r = Tensor::from_vec(vec![1i64], vec![usize::MAX, 2]);
    assert_eq!(r.err(), Some(TensorError::ShapeMismatch));
}

#[test]
fn reshape_keeps_order() {
    let a = t(vec![1, 2, 3, 4, 5, 6], vec![2, 3]);
    let b = a.reshape(vec![3, 2]).unwrap();
    assert_eq!(b.shape(), &vec![3, 2]);
    assert_eq!(b.data(), &vec![1, 2, 3, 4, 5, 6]);
    let c = b.reshape(vec![6]).unwrap();
    assert_eq!(c.into_vec(), vec![1, 2, 3, 4, 5, 6]);
}

#[test]
fn reshape_rejects_other_counts() {
    let a = t(vec![1, 2, 3, 4, 5, 6], vec![2, 3]);
    assert_eq!(a.reshape(vec![4, 2]).err(), Some(TensorError::ShapeMismatch));
}

#[test]
fn from_element_fills() {
    let a = Tensor::from_element(7i64, vec![2, 2]).unwrap();
    assert_eq!(a.data(), &vec![7, 7, 7, 7]);
    assert_eq!(Tensor::from_element(7i64, vec![2, 0]).err(), Some(TensorError::ShapeMismatch));
}

#[test]
fn dot_two_by_three_times_three_by_two() {
    let a = t(vec![1, 2, 3, 4, 5, 6], vec![2, 3]);
    let b = t(vec![7, 8, 9, 10, 11, 12], vec![3, 2]);
    let c = a.dot(&b).unwrap();
    assert_eq!(c.shape(), &vec![2, 2]);
    assert_eq!(c.data(), &vec![58, 64, 139, 154]);
}

#[test]
fn dot_shape_is_m_by_p() {
    let a = t(vec![1, 2, 3], vec![3, 1]);
    let b = t(vec![4, 5], vec![1, 2]);
    let c = a.dot(&b).unwrap();
    assert_eq!(c.shape(), &vec![3, 2]);
    assert_eq!(c.data(), &vec![4, 5, 8, 10, 12, 15]);
}

#[test]
fn dot_rejects_inner_mismatch_and_rank() {
    let a = t(vec![1, 2, 3, 4, 5, 6], vec![2, 3]);
    let b = t(vec![1, 2, 3, 4], vec![2, 2]);
    assert_eq!(a.dot(&b).err(), Some(TensorError::DimensionMismatch));
    let v = t(vec![1, 2, 3], vec![3]);
    assert_eq!(a.dot(&v).err(), Some(TensorError::NotMatrix));
}

#[test]
fn transpose_swaps_axes() {
    let a = t(vec![1, 2, 3, 4, 5, 6], vec![2, 3]);
    let b = a.transpose().unwrap();
    assert_eq!(b.shape(), &vec![3, 2]);
    assert_eq!(b.data(), &vec![1, 4, 2, 5, 3, 6]);
    assert_eq!(t(vec![1], vec![1]).transpose().err(), Some(TensorError::NotMatrix));
}

#[test]
fn transpose_dot_matches_transpose_then_dot() {
    let w = t(vec![1, 2, 3, 4, 5, 6], vec![2, 3]);
    let d = t(vec![10, 100], vec![2]);
    let r = w.transpose_dot(&d).unwrap();
    assert_eq!(r.shape(), &vec![3]);
    assert_eq!(r.data(), &vec![410, 520, 630]);
    let bad = t(vec![1, 2, 3], vec![3]);
    assert_eq!(w.transpose_dot(&bad).err(), Some(TensorError::DimensionMismatch));
}

#[test]
fn elementwise_same_shape_and_broadcast() {
    let a = t(vec![1, 2, 3, 4], vec![2, 2]);
    let b = t(vec![10, 20, 30, 40], vec![2, 2]);
    assert_eq!(a.elementwise(&b, ElemOp::Add).unwrap().data(), &vec![11, 22, 33, 44]);
    assert_eq!(b.elementwise(&a, ElemOp::Sub).unwrap().data(), &vec![9, 18, 27, 36]);
    assert_eq!(a.elementwise(&b, ElemOp::Mul).unwrap().data(), &vec![10, 40, 90, 160]);
    let s = t(vec![3], vec![1]);
    let r = s.elementwise(&a, ElemOp::Sub).unwrap();
    assert_eq!(r.shape(), &vec![2, 2]);
    assert_eq!(r.data(), &vec![2, 1, 0, -1]);
    let r = a.elementwise(&s, ElemOp::Mul).unwrap();
    assert_eq!(r.data(), &vec![3, 6, 9, 12]);
}

#[test]
fn elementwise_rejects_shape_mismatch() {
    let a = t(vec![1, 2, 3, 4], vec![2, 2]);
    let b = t(vec![1, 2], vec![2]);
    assert_eq!(a.elementwise(&b, ElemOp::Add).err(), Some(TensorError::ShapeMismatch));
}

#[test]
fn outer_and_scale() {
    let a = t(vec![1, 2], vec![2]);
    let b = t(vec![3, 4, 5], vec![3]);
    let o = a.outer(&b);
    assert_eq!(o.shape(), &vec![2, 3]);
    assert_eq!(o.data(), &vec![3, 4, 5, 6, 8, 10]);
    assert_eq!(o.scale(-2).data(), &vec![-6, -8, -10, -12, -16, -20]);
}

#[test]
fn with_data_keeps_shape() {
    let a = t(vec![1, 2, 3, 4], vec![2, 2]);
    let b = a.with_data(vec![true, false, true, false]).unwrap();
    assert_eq!(b.shape(), &vec![2, 2]);
    assert_eq!(a.with_data(vec![1u8]).err(), Some(TensorError::ShapeMismatch));
    assert_eq!(a.get(3), Some(&4));
    assert_eq!(a.get(4), None);
}

#[test]
fn leaky_rectifier_integer_slope_zero() {
    let act = LeakyReLU::new(0i64);
    let x = t(vec![3, -2, 0, 5], vec![4]);
    assert_eq!(act.call(&x).data(), &vec![3, 0, 0, 5]);
    assert_eq!(act.derivative(&x).data(), &vec![1, 0, 0, 1]);
    let act = LeakyReLU::new(2i64);
    assert_eq!(act.apply(&x).data(), &vec![3, -4, 0, 5]);
    assert_eq!(act.slope(&x).data(), &vec![1, 2, 2, 1]);
}
