use astra_net::activation::{Activation, ActivationFn, LeakyReLU, Softmax};
use astra_net::layer::{LayerDense, LayerError};
use astra_net::network::{Net, NetError};
use astra_net::scalar::Scalar;
use astra_net::tensor::{Tensor, TensorError};

#[derive(Clone, Copy, Debug, PartialEq)]
struct F(f64);

impl Scalar for F {
    fn zero_spec() -> F {
        F(0.0)
    }
    fn one_spec() -> F {
        F(1.0)
    }
    fn plus_spec(self, o: F) -> F {
        F(self.0 + o.0)
    }
    fn minus_spec(self, o: F) -> F {
        F(self.0 - o.0)
    }
    fn times_spec(self, o: F) -> F {
        F(self.0 * o.0)
    }
    fn positive_spec(self) -> bool {
        self.0 > 0.0
    }
    fn diverged_spec(self) -> bool {
        self.0.is_nan()
    }
    fn zero() -> F {
        F(0.0)
    }
    fn one() -> F {
        F(1.0)
    }
    fn plus(self, o: F) -> F {
        F(self.0 + o.0)
    }
    fn minus(self, o: F) -> F {
        F(self.0 - o.0)
    }
    fn times(self, o: F) -> F {
        F(self.0 * o.0)
    }
    fn is_positive(self) -> bool {
        self.0 > 0.0
    }
    fn is_diverged(self) -> bool {
        self.0.is_nan()
    }
}

fn ft(data: &[f64], shape: Vec<usize>) -> Tensor<F> {
    Tensor::from_vec(data.iter().map(|&x| F(x)).collect(), shape).unwrap()
}

fn vals(t: &Tensor<F>) -> Vec<f64> {
    t.data().iter().map(|x| x.0).collect()
}

fn layer(w: &[f64], b: &[f64], outs: usize, ins: usize, alpha: f64) -> LayerDense<F, LeakyReLU<F>> {
    LayerDense::from_parameters(ft(w, vec![outs, ins]), ft(b, vec![outs]), LeakyReLU::new(F(alpha)))
        .unwrap()
}

#[test]
fn identity_layer_with_leaky_slope() {
    let mut net: Net<F, LeakyReLU<F>> = Net::new(F(0.001));
    net.add_layer(layer(&[1.0, 0.0, 0.0, 1.0], &[0.0, 0.0], 2, 2, 0.1)).unwrap();
    let out = net.feed_forward(&ft(&[3.0, -2.0], vec![2])).unwrap();
    assert_eq!(vals(&out), vec![3.0, -0.2]);
    assert_eq!(out.shape(), &vec![2]);
}

#[test]
fn empty_network_returns_input() {
    let mut net: Net<F, LeakyReLU<F>> = Net::new(F(0.01));
    let x = ft(&[1.5, -2.5, 3.0], vec![3]);
    let out = net.feed_forward(&x).unwrap();
    assert_eq!(vals(&out), vec![1.5, -2.5, 3.0]);
    assert_eq!(out.shape(), &vec![3]);
}

#[test]
fn feed_forward_is_repeatable() {
    let mut net: Net<F, LeakyReLU<F>> = Net::new(F(0.01));
    net.add_layer(layer(&[0.5, -0.25, 0.75, 1.0, 2.0, -1.0], &[0.1, 0.2, 0.3], 3, 2, 0.1))
        .unwrap();
    net.add_layer(layer(&[1.0, -1.0, 0.5], &[0.0], 1, 3, 0.1)).unwrap();
    let x = ft(&[0.3, -0.7], vec![2]);
    let before = vals(net.layer(0).weights());
    let a = vals(&net.feed_forward(&x).unwrap());
    let b = vals(&net.feed_forward(&x).unwrap());
    assert_eq!(a, b);
    assert_eq!(vals(net.layer(0).weights()), before);
}

#[test]
fn two_layer_forward_value() {
    let mut net: Net<i64, LeakyReLU<i64>> = Net::new(1);
    let l1 = LayerDense::from_parameters(
        Tensor::from_vec(vec![1, 2, -1, 1], vec![2, 2]).unwrap(),
        Tensor::from_vec(vec![1, 0], vec![2]).unwrap(),
        LeakyReLU::new(0),
    )
    .unwrap();
    let l2 = LayerDense::from_parameters(
        Tensor::from_vec(vec![3, 1], vec![1, 2]).unwrap(),
        Tensor::from_vec(vec![-2], vec![1]).unwrap(),
        LeakyReLU::new(0),
    )
    .unwrap();
    net.add_layer(l1).unwrap();
    net.add_layer(l2).unwrap();
    // first layer: [1*2 + 2*3 + 1, -2 + 3 + 0] = [9, 1]; second: 3*9 + 1 - 2 = 26
    let out = net.feed_forward(&Tensor::from_vec(vec![2, 3], vec![2]).unwrap()).unwrap();
    assert_eq!(out.data(), &vec![26]);
}

fn squared_error(net: &mut Net<F, LeakyReLU<F>>, x: &Tensor<F>, target: &[f64]) -> f64 {
    let out = vals(&net.feed_forward(x).unwrap());
    out.iter().zip(target.iter()).map(|(o, t)| (o - t) * (o - t)).sum()
}

#[test]
fn one_training_step_reduces_error() {
    let mut net: Net<F, LeakyReLU<F>> = Net::new(F(0.01));
    net.add_layer(layer(&[0.5, 0.1, -0.3, 0.8], &[0.1, -0.1], 2, 2, 0.1)).unwrap();
    let x = ft(&[1.0, 2.0], vec![2]);
    let target = [0.0, 1.0];
    let before = squared_error(&mut net, &x, &target);
    net.back_propagation(&x, &ft(&target, vec![2])).unwrap();
    let after = squared_error(&mut net, &x, &target);
    assert!(after < before);
}

#[test]
fn training_step_updates_exactly() {
    // one integer layer, slope 0, rate 1: z = [1*1 + 0*2] = [1], output 1, target 0,
    // error 1, delta 1, W -= [1, 2], b -= [1], returned gradient Wᵀ·delta = [1, 0]
    let mut net: Net<i64, LeakyReLU<i64>> = Net::new(1);
    let l = LayerDense::from_parameters(
        Tensor::from_vec(vec![1, 0], vec![1, 2]).unwrap(),
        Tensor::from_vec(vec![0], vec![1]).unwrap(),
        LeakyReLU::new(0),
    )
    .unwrap();
    net.add_layer(l).unwrap();
    let x = Tensor::from_vec(vec![1, 2], vec![2]).unwrap();
    let target = Tensor::from_vec(vec![0], vec![1]).unwrap();
    net.back_propagation(&x, &target).unwrap();
    assert_eq!(net.layer(0).weights().data(), &vec![0, -2]);
    assert_eq!(net.layer(0).bias().data(), &vec![-1]);
}

#[test]
fn layer_backward_returns_gradient_for_layer_below() {
    let mut l: LayerDense<i64, LeakyReLU<i64>> = LayerDense::from_parameters(
        Tensor::from_vec(vec![1, 2, 3, 4, 5, 6], vec![2, 3]).unwrap(),
        Tensor::from_vec(vec![0, 0], vec![2]).unwrap(),
        LeakyReLU::new(0),
    )
    .unwrap();
    let g = Tensor::from_vec(vec![1, 1], vec![2]).unwrap();
    assert_eq!(l.back_propagation(&g, 1).err(), Some(LayerError::NoForwardPass));
    l.feed_forward(&Tensor::from_vec(vec![1, 1, 1], vec![3]).unwrap()).unwrap();
    let bad = Tensor::from_vec(vec![1, 1, 1], vec![3]).unwrap();
    assert_eq!(l.back_propagation(&bad, 1).err(), Some(LayerError::ShapeMismatch));
    let below = l.back_propagation(&g, 0).unwrap();
    assert_eq!(below.data(), &vec![5, 7, 9]);
    assert_eq!(l.back_propagation(&g, 0).err(), Some(LayerError::NoForwardPass));
}

#[test]
fn divergence_is_reported() {
    let mut net: Net<F, LeakyReLU<F>> = Net::new(F(0.01));
    let x = ft(&[f64::NAN, 1.0], vec![2]);
    let r = net.back_propagation(&x, &ft(&[0.0, 0.0], vec![2]));
    assert_eq!(r, Err(NetError::NumericalDivergence));
}

#[test]
fn shape_errors_are_reported() {
    let mut net: Net<F, LeakyReLU<F>> = Net::new(F(0.01));
    net.add_layer(layer(&[1.0, 0.0, 0.0, 1.0], &[0.0, 0.0], 2, 2, 0.1)).unwrap();
    let wrong = layer(&[1.0, 0.0, 0.0], &[0.0], 1, 3, 0.1);
    assert_eq!(net.add_layer(wrong).err(), Some(TensorError::DimensionMismatch));
    assert_eq!(net.len(), 1);
    let r = net.feed_forward(&ft(&[1.0, 2.0, 3.0], vec![3]));
    assert_eq!(r.err(), Some(TensorError::DimensionMismatch));
    let r = net.back_propagation(&ft(&[1.0, 2.0], vec![2]), &ft(&[1.0, 2.0, 3.0], vec![3]));
    assert_eq!(r, Err(NetError::Shape(TensorError::ShapeMismatch)));
    let r = net.back_propagation(&ft(&[1.0, 2.0], vec![2]), &ft(&[1.0, 2.0], vec![1, 2]));
    assert_eq!(r, Err(NetError::Shape(TensorError::ShapeMismatch)));
    let mut empty: Net<F, LeakyReLU<F>> = Net::new(F(0.01));
    let r = empty.back_propagation(&ft(&[1.0, 2.0], vec![2]), &ft(&[1.0, 2.0], vec![1, 2]));
    assert_eq!(r, Err(NetError::Shape(TensorError::ShapeMismatch)));
    let r = net.back_propagation(&ft(&[1.0], vec![1]), &ft(&[1.0, 2.0], vec![2]));
    assert_eq!(r, Err(NetError::Shape(TensorError::DimensionMismatch)));
}

#[test]
fn layer_parameters_are_checked() {
    let r = LayerDense::from_parameters(ft(&[1.0, 2.0], vec![2]), ft(&[0.0], vec![1]), LeakyReLU::new(F(0.1)));
    assert_eq!(r.err(), Some(TensorError::NotMatrix));
    let r = LayerDense::from_parameters(ft(&[1.0, 2.0], vec![1, 2]), ft(&[0.0, 0.0], vec![2]), LeakyReLU::new(F(0.1)));
    assert_eq!(r.err(), Some(TensorError::ShapeMismatch));
}

impl astra_net::scalar::Real for F {
    fn exp_spec(self) -> F {
        F(self.0.exp())
    }
    fn div_spec(self, o: F) -> F {
        F(self.0 / o.0)
    }
    fn greater_spec(self, o: F) -> bool {
        self.0 > o.0
    }
    fn exp(self) -> F {
        F(self.0.exp())
    }
    fn div(self, o: F) -> F {
        F(self.0 / o.0)
    }
    fn greater(self, o: F) -> bool {
        self.0 > o.0
    }
}

#[test]
fn softmax_rows_sum_to_one_and_keep_order() {
    let sm = Softmax::new();
    let x = ft(&[1.0, 3.0, 2.0, 1000.0, 999.0, -5.0], vec![2, 3]);
    let y = vals(&sm.call(&x));
    for row in y.chunks(3) {
        let s: f64 = row.iter().sum();
        assert!((s - 1.0).abs() < 1e-12);
        assert!(row.iter().all(|v| v.is_finite()));
    }
    assert!(y[1] > y[2] && y[2] > y[0]);
    assert!(y[3] > y[4] && y[4] > y[5]);
    assert_eq!(vals(&sm.derivative(&x)), vec![1.0; 6]);
}

#[test]
fn mixed_activations_in_one_network() {
    let mut net: Net<F, ActivationFn<F>> = Net::new(F(0.01));
    let l1 = LayerDense::from_parameters(
        ft(&[1.0, 0.0, 0.0, 1.0], vec![2, 2]),
        ft(&[0.0, 0.0], vec![2]),
        ActivationFn::Leaky(LeakyReLU::new(F(0.1))),
    )
    .unwrap();
    let l2 = LayerDense::from_parameters(
        ft(&[1.0, 0.0, 0.0, 1.0], vec![2, 2]),
        ft(&[0.0, 0.0], vec![2]),
        ActivationFn::Softmax(Softmax::new()),
    )
    .unwrap();
    net.add_layer(l1).unwrap();
    net.add_layer(l2).unwrap();
    let out = vals(&net.feed_forward(&ft(&[2.0, 2.0], vec![2])).unwrap());
    assert!((out[0] - 0.5).abs() < 1e-12 && (out[1] - 0.5).abs() < 1e-12);
    net.back_propagation(&ft(&[2.0, 2.0], vec![2]), &ft(&[1.0, 0.0], vec![2])).unwrap();
}
