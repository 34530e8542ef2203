use astra_net::activation::LeakyReLU;
use astra_net::mutating::{weight_shapes, MutatingNet};
use astra_net::tensor::{Tensor, TensorError};

fn t(data: Vec<i64>, shape: Vec<usize>) -> Tensor<i64> {
    Tensor::from_vec(data, shape).unwrap()
}

fn net(w1: Vec<i64>, w2: Vec<i64>) -> MutatingNet<i64, LeakyReLU<i64>> {
    MutatingNet::from_config(vec![2, 2, 2], vec![t(w1, vec![2, 2]), t(w2, vec![2, 2])], LeakyReLU::new(0))
        .unwrap()
}

#[test]
fn weight_shapes_pair_consecutive_sizes() {
    let s = weight_shapes(&vec![5, 3, 4]);
    assert_eq!(s, vec![vec![3, 5], vec![4, 3]]);
    assert!(weight_shapes(&vec![]).is_empty());
    assert!(weight_shapes(&vec![7]).is_empty());
}

#[test]
fn from_config_checks_shapes_and_zeroes_biases() {
    let m = net(vec![1, 2, 3, 4], vec![5, 6, 7, 8]);
    assert_eq!(m.biases().len(), 3);
    assert!(m.biases().iter().all(|b| b.data().iter().all(|&v| v == 0)));
    let bad = MutatingNet::from_config(vec![2, 3], vec![t(vec![1, 2, 3, 4], vec![2, 2])], LeakyReLU::new(0));
    assert_eq!(bad.err(), Some(TensorError::ShapeMismatch));
    let zero = MutatingNet::<i64, LeakyReLU<i64>>::from_config(vec![0], vec![], LeakyReLU::new(0));
    assert_eq!(zero.err(), Some(TensorError::ShapeMismatch));
}

#[test]
fn crossover_picks_per_element() {
    let a = net(vec![1, 2, 3, 4], vec![5, 6, 7, 8]);
    let b = net(vec![10, 20, 30, 40], vec![50, 60, 70, 80]);
    let wp = vec![vec![true, false, true, false], vec![false, false, true, true]];
    let bp = vec![vec![true, true], vec![true, false], vec![false, false]];
    let c = a.crossover(&b, &wp, &bp).unwrap();
    assert_eq!(c.weights()[0].data(), &vec![1, 20, 3, 40]);
    assert_eq!(c.weights()[1].data(), &vec![50, 60, 7, 8]);
    assert_eq!(c.config(), &vec![2, 2, 2]);
}

#[test]
fn crossover_refuses_other_configs() {
    let a = net(vec![1, 2, 3, 4], vec![5, 6, 7, 8]);
    let b = MutatingNet::from_config(vec![2, 1], vec![t(vec![1, 1], vec![1, 2])], LeakyReLU::new(0)).unwrap();
    let wp = vec![vec![true; 4], vec![true; 4]];
    let bp = vec![vec![true; 2]; 3];
    assert!(a.crossover(&b, &wp, &bp).is_none());
}

#[test]
fn mutating_forward_rows() {
    let m = net(vec![1, 0, 0, 1], vec![2, 0, 0, -1]);
    let out = m.feed_forward(&t(vec![3, 4], vec![2])).unwrap();
    assert_eq!(out.shape(), &vec![1, 2]);
    // [3,4]·I = [3,4]; ·[[2,0],[0,-1]] = [6,-4] -> rectified with slope 0: [6, 0]
    assert_eq!(out.data(), &vec![6, 0]);
    let empty = MutatingNet::<i64, LeakyReLU<i64>>::from_config(vec![3], vec![], LeakyReLU::new(0)).unwrap();
    let same = empty.feed_forward(&t(vec![1, 2, 3], vec![3])).unwrap();
    assert_eq!(same.data(), &vec![1, 2, 3]);
    assert_eq!(same.shape(), &vec![1, 3]);
    let m = net(vec![1, 0, 0, 1], vec![2, 0, 0, -1]);
    assert_eq!(m.feed_forward(&t(vec![1, 2, 3], vec![3])).err(), Some(TensorError::DimensionMismatch));
}

#[test]
fn mutating_forward_row_products() {
    let w = || t(vec![7, 8, 9, 10, 11, 12], vec![3, 2]);
    let m = MutatingNet::from_config(vec![2, 3], vec![w()], LeakyReLU::new(0)).unwrap();
    let r1 = m.feed_forward(&t(vec![1, 2, 3], vec![3])).unwrap();
    assert_eq!(r1.shape(), &vec![1, 2]);
    assert_eq!(r1.data(), &vec![58, 64]);
    let r2 = m.feed_forward(&t(vec![4, 5, 6], vec![3])).unwrap();
    assert_eq!(r2.data(), &vec![139, 154]);
    assert_eq!(m.feed_forward(&t(vec![1, 2], vec![2])).err(), Some(TensorError::DimensionMismatch));
}

#[test]
fn mutating_forward_rectifies_with_slope() {
    let m = MutatingNet::from_config(vec![2, 2], vec![t(vec![1, 0, 0, 1], vec![2, 2])], LeakyReLU::new(3))
        .unwrap();
    let r = m.feed_forward(&t(vec![3, -2], vec![2])).unwrap();
    assert_eq!(r.data(), &vec![3, -6]);
}
