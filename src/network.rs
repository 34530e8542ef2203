//! The network: an ordered pipeline of dense layers with a learning rate.

use vstd::prelude::*;
use crate::activation::{leaky_spec, Activation, LeakyReLU};
use crate::layer::{delta_spec, pre_activation, LayerDense, LayerError};
use crate::tensor::tdot_entry;
use crate::scalar::Scalar;
use crate::tensor::{at, ElemOp, Tensor, TensorError};

verus! {

/// Why a training step was refused.
#[derive(Debug, Clone, Copy, PartialEq, Eq)]
pub enum NetError {
    /// The input or the target does not fit the network.
    Shape(TensorError),
    /// A layer refused its backward step.
    Layer(LayerError),
    /// The forward output holds a value that is not a number.
    NumericalDivergence,
}

/// Two layers hold the same parameters and activation.
pub open spec fn same_params<T: Scalar, A: Activation<T>>(
    a: LayerDense<T, A>,
    b: LayerDense<T, A>,
) -> bool {
    a.w() == b.w() && a.b() == b.b() && a.act() == b.act()
}

/// What the layers give on `x`, applied in index order.
pub open spec fn forward_spec<T: Scalar, A: Activation<T>>(
    layers: Seq<LayerDense<T, A>>,
    x: Seq<T>,
) -> Seq<T>
    decreases layers.len(),
{
    if layers.len() == 0 {
        x
    } else {
        layers.last().output_spec(forward_spec(layers.drop_last(), x))
    }
}

/// The input that layer `k` receives when `x` is fed to `layers`.
pub open spec fn layer_input<T: Scalar, A: Activation<T>>(
    layers: Seq<LayerDense<T, A>>,
    x: Seq<T>,
    k: int,
) -> Seq<T> {
    forward_spec(layers.take(k), x)
}

/// The pre-activation values of layer `k` when `x` is fed to `layers`.
pub open spec fn layer_pre<T: Scalar, A: Activation<T>>(
    layers: Seq<LayerDense<T, A>>,
    x: Seq<T>,
    k: int,
) -> Seq<T> {
    pre_activation(
        layers[k].w().values(),
        layers[k].b().values(),
        layer_input(layers, x, k),
        layers[k].input_size(),
    )
}

/// Layer `l` holds, as its cached pass, what layer `k` of `layers` sees when `x` is fed.
pub open spec fn caches_pass<T: Scalar, A: Activation<T>>(
    l: LayerDense<T, A>,
    layers: Seq<LayerDense<T, A>>,
    x: Seq<T>,
    k: int,
) -> bool {
    &&& l.cached() is Some
    &&& l.cached().unwrap().0.values() == layer_input(layers, x, k)
    &&& l.cached().unwrap().1.values() == layer_pre(layers, x, k)
}

/// The gradient that layer `k` receives in a backward pass that starts from the error `e`
/// at the output, after `x` was fed forward: `e` for the last layer, and for each other
/// layer the transpose of the next layer's weights times that layer's delta.
pub open spec fn grad_at<T: Scalar, A: Activation<T>>(
    layers: Seq<LayerDense<T, A>>,
    x: Seq<T>,
    e: Seq<T>,
    k: int,
) -> Seq<T>
    decreases layers.len() - k,
{
    if k + 1 >= layers.len() || k < 0 {
        e
    } else {
        let up = layers[k + 1];
        let d = delta_spec(
            grad_at(layers, x, e, k + 1),
            up.act().derivative_spec(layer_pre(layers, x, k + 1), up.b().dims()),
        );
        Seq::new(
            up.input_size() as nat,
            |j: int| tdot_entry(up.w().values(), d, up.input_size(), j, up.output_size()),
        )
    }
}

/// The delta of layer `k` in that backward pass.
pub open spec fn delta_at<T: Scalar, A: Activation<T>>(
    layers: Seq<LayerDense<T, A>>,
    x: Seq<T>,
    e: Seq<T>,
    k: int,
) -> Seq<T> {
    delta_spec(
        grad_at(layers, x, e, k),
        layers[k].act().derivative_spec(layer_pre(layers, x, k), layers[k].b().dims()),
    )
}

/// `new` is `old` after one gradient step with delta `d`, layer input `x` and rate `rate`.
pub open spec fn stepped<T: Scalar, A: Activation<T>>(
    new: LayerDense<T, A>,
    old: LayerDense<T, A>,
    d: Seq<T>,
    x: Seq<T>,
    rate: T,
) -> bool {
    &&& new.w().dims() == old.w().dims()
    &&& new.b().dims() == old.b().dims()
    &&& new.act() == old.act()
    &&& forall|i: int, j: int|
        0 <= i < old.output_size() && 0 <= j < old.input_size() ==> #[trigger] new.w().values()[at(
            i,
            j,
            old.input_size(),
        )] == old.w().values()[at(i, j, old.input_size())].minus_spec(
            d[i].times_spec(x[j]).times_spec(rate),
        )
    &&& forall|i: int|
        0 <= i < old.output_size() ==> #[trigger] new.b().values()[i] == old.b().values()[i].minus_spec(
            d[i].times_spec(rate),
        )
}

/// The error at the output: `output - target`, element by element.
pub open spec fn error_spec<T: Scalar>(out: Seq<T>, target: Seq<T>) -> Seq<T> {
    Seq::new(out.len(), |q: int| out[q].minus_spec(target[q]))
}

/// The shape of what the layers give on an input of shape `input_dims`: the last layer's
/// bias shape, or the input's own shape when there is no layer.
pub open spec fn output_dims<T: Scalar, A: Activation<T>>(
    layers: Seq<LayerDense<T, A>>,
    input_dims: Seq<usize>,
) -> Seq<usize> {
    if layers.len() == 0 {
        input_dims
    } else {
        layers.last().b().dims()
    }
}

/// Every layer is well formed, and each one's output size is the next one's input size.
pub open spec fn chained<T: Scalar, A: Activation<T>>(layers: Seq<LayerDense<T, A>>) -> bool {
    &&& forall|k: int| 0 <= k < layers.len() ==> #[trigger] layers[k].wf()
    &&& forall|k: int|
        0 <= k < layers.len() - 1 ==> #[trigger] layers[k].output_size() == layers[k
            + 1].input_size()
}

/// Whether an input of `n` elements fits the first layer.
pub open spec fn accepts<T: Scalar, A: Activation<T>>(layers: Seq<LayerDense<T, A>>, n: int) -> bool {
    layers.len() == 0 || n == layers[0].input_size()
}

/// The forward pass depends on the layers' parameters and on the input alone: two layer
/// sequences with the same parameters give the same output on the same input.
pub proof fn lemma_forward_deterministic<T: Scalar, A: Activation<T>>(
    a: Seq<LayerDense<T, A>>,
    b: Seq<LayerDense<T, A>>,
    x: Seq<T>,
)
    requires
        a.len() == b.len(),
        forall|k: int| 0 <= k < a.len() ==> same_params(#[trigger] a[k], b[k]),
    ensures
        forward_spec(a, x) == forward_spec(b, x),
    decreases a.len(),
{
    if a.len() > 0 {
        lemma_forward_deterministic(a.drop_last(), b.drop_last(), x);
    }
}

/// A network with no layers gives back its input.
pub proof fn lemma_empty_identity<T: Scalar, A: Activation<T>>(
    layers: Seq<LayerDense<T, A>>,
    x: Seq<T>,
)
    requires
        layers.len() == 0,
    ensures
        forward_spec(layers, x) == x,
{
}

/// Some value of `s` is not a number.
pub open spec fn diverged<T: Scalar>(s: Seq<T>) -> bool {
    exists|k: int| 0 <= k < s.len() && (#[trigger] s[k]).diverged_spec()
}

/// The running sum of an identity row times `x`: the first `m` terms of row `i` give `x[i]`
/// once `m` has passed `i`, and zero before.
proof fn lemma_identity_row(w: Seq<i64>, x: Seq<i64>, k: int, i: int, m: int)
    requires
        0 <= i < k,
        0 <= m <= k,
        x.len() == k,
        w.len() == k * k,
        forall|a: int, b: int|
            0 <= a < k && 0 <= b < k ==> #[trigger] w[at(a, b, k)] == if a == b {
                1i64
            } else {
                0i64
            },
    ensures
        crate::tensor::dot_entry(w, x, k, 1, i, 0, m) == if i < m {
            x[i]
        } else {
            0i64
        },
    decreases m,
{
    if m > 0 {
        lemma_identity_row(w, x, k, i, m - 1);
        assert(at(m - 1, 0, 1) == m - 1);
        let c = w[at(i, m - 1, k)];
        let v = x[m - 1];
        assert(c.wrapping_mul(v) == if i == m - 1 { v } else { 0i64 });
        let prev = crate::tensor::dot_entry(w, x, k, 1, i, 0, m - 1);
        assert(prev.wrapping_add(c.wrapping_mul(v)) == if i < m { x[i] } else { 0i64 });
    }
}

/// A network of one dense layer with identity weights, zero bias and the leaky rectifier of
/// slope `alpha` gives, for integer elements, the rectifier of its input: `x` where `x` is
/// positive and `alpha * x` elsewhere.
pub proof fn lemma_identity_leaky_layer(layer: LayerDense<i64, LeakyReLU<i64>>, x: Seq<i64>)
    requires
        layer.wf(),
        layer.input_size() == layer.output_size(),
        x.len() == layer.input_size(),
        forall|a: int, b: int|
            0 <= a < layer.output_size() && 0 <= b < layer.input_size() ==> #[trigger] layer.w().values()[at(
                a,
                b,
                layer.input_size(),
            )] == if a == b {
                1i64
            } else {
                0i64
            },
        forall|a: int| 0 <= a < layer.output_size() ==> #[trigger] layer.b().values()[a] == 0i64,
    ensures
        forward_spec(seq![layer], x) == Seq::new(
            x.len(),
            |q: int| leaky_spec(layer.act().alpha, x[q]),
        ),
{
    let k = layer.input_size();
    let layers = seq![layer];
    assert(layers.drop_last().len() == 0);
    assert(forward_spec(layers.drop_last(), x) == x);
    crate::tensor::lemma_product_pair(layer.w().dims());
    let pre = pre_activation(layer.w().values(), layer.b().values(), x, k);
    assert forall|q: int| 0 <= q < k implies #[trigger] pre[q] == x[q] by {
        lemma_identity_row(layer.w().values(), x, k, q, k);
    }
    assert(forward_spec(layers, x) =~= Seq::new(
        x.len(),
        |q: int| leaky_spec(layer.act().alpha, x[q]),
    ));
}

/// An ordered pipeline of dense layers, and the learning rate of its backward steps.
pub struct Net<T, A> {
    layers: Vec<LayerDense<T, A>>,
    learning_rate: T,
}

impl<T: Scalar, A: Activation<T>> Net<T, A> {
    pub closed spec fn layer_seq(&self) -> Seq<LayerDense<T, A>> {
        self.layers@
    }

    pub closed spec fn rate(&self) -> T {
        self.learning_rate
    }

    pub open spec fn wf(&self) -> bool {
        chained(self.layer_seq())
    }

    /// An empty network whose backward steps use `learning_rate`.
    pub fn new(learning_rate: T) -> (r: Net<T, A>)
        ensures
            r.wf(),
            r.layer_seq().len() == 0,
            r.rate() == learning_rate,
    {
        Net { layers: Vec::new(), learning_rate }
    }

    pub fn set_learning_rate(&mut self, learning_rate: T)
        ensures
            final(self).layer_seq() == old(self).layer_seq(),
            final(self).rate() == learning_rate,
    {
        self.learning_rate = learning_rate;
    }

    pub fn learning_rate(&self) -> (r: T)
        ensures
            r == self.rate(),
    {
        self.learning_rate
    }

    /// Number of layers.
    pub fn len(&self) -> (r: usize)
        ensures
            r == self.layer_seq().len(),
    {
        self.layers.len()
    }

    /// The layer at position `i`.
    pub fn layer(&self, i: usize) -> (r: &LayerDense<T, A>)
        requires
            i < self.layer_seq().len(),
        ensures
            *r == self.layer_seq()[i as int],
    {
        &self.layers[i]
    }

    /// Appends a layer; refused when its input size differs from the last layer's output size.
    pub fn add_layer(&mut self, layer: LayerDense<T, A>) -> (r: Result<(), TensorError>)
        requires
            old(self).wf(),
            layer.wf(),
        ensures
            final(self).wf(),
            final(self).rate() == old(self).rate(),
            r.is_err() <==> old(self).layer_seq().len() > 0 && old(self).layer_seq().last().output_size()
                != layer.input_size(),
            r.is_err() ==> r == Err::<(), TensorError>(TensorError::DimensionMismatch) && *final(self)
                == *old(self),
            r.is_ok() ==> final(self).layer_seq() == old(self).layer_seq().push(layer),
    {
        let n = self.layers.len();
        if n > 0 && self.layers[n - 1].output_len() != layer.input_len() {
            return Err(TensorError::DimensionMismatch);
        }
        self.layers.push(layer);
        proof {
            let s = self.layers@;
            assert forall|k: int| 0 <= k < s.len() implies #[trigger] s[k].wf() by {
                if k < n {
                    assert(s[k] == old(self).layers@[k]);
                }
            }
            assert forall|k: int| 0 <= k < s.len() - 1 implies #[trigger] s[k].output_size()
                == s[k + 1].input_size() by {
                assert(s[k] == old(self).layers@[k]);
            }
        }
        Ok(())
    }

    /// Feeds `input` through every layer in index order. Each layer keeps the values that its
    /// next backward step reads; no parameter changes.
    pub fn feed_forward(&mut self, input: &Tensor<T>) -> (r: Result<Tensor<T>, TensorError>)
        requires
            old(self).wf(),
            input.wf(),
        ensures
            final(self).wf(),
            final(self).rate() == old(self).rate(),
            final(self).layer_seq().len() == old(self).layer_seq().len(),
            forall|k: int|
                0 <= k < old(self).layer_seq().len() ==> same_params(
                    #[trigger] final(self).layer_seq()[k],
                    old(self).layer_seq()[k],
                ),
            r.is_ok() <==> accepts(old(self).layer_seq(), input.values().len() as int),
            r.is_err() ==> r == Err::<Tensor<T>, TensorError>(TensorError::DimensionMismatch)
                && *final(self) == *old(self),
            r.is_ok() ==> {
                let out = r.unwrap();
                &&& out.wf()
                &&& out.values() == forward_spec(old(self).layer_seq(), input.values())
                &&& out.dims() == output_dims(old(self).layer_seq(), input.dims())
                &&& old(self).layer_seq().len() == 0 ==> out.dims() == input.dims()
                &&& old(self).layer_seq().len() > 0 ==> out.values().len() == old(self).layer_seq().last().output_size()
                &&& forall|k: int|
                    0 <= k < old(self).layer_seq().len() ==> caches_pass(
                        #[trigger] final(self).layer_seq()[k],
                        old(self).layer_seq(),
                        input.values(),
                        k,
                    )
            },
    {
        let n = self.layers.len();
        if n > 0 && input.len() != self.layers[0].input_len() {
            return Err(TensorError::DimensionMismatch);
        }
        let ghost start = self.layers@;
        let mut out = input.copy();
        let mut i: usize = 0;
        while i < n
            invariant
                n == start.len(),
                chained(start),
                accepts(start, input.values().len() as int),
                self.layers@.len() == n,
                self.learning_rate == old(self).learning_rate,
                i <= n,
                forall|k: int| 0 <= k < n ==> #[trigger] self.layers@[k].wf(),
                forall|k: int| 0 <= k < n ==> same_params(#[trigger] self.layers@[k], start[k]),
                forall|k: int|
                    0 <= k < i ==> caches_pass(
                        #[trigger] self.layers@[k],
                        start,
                        input.values(),
                        k,
                    ),
                out.wf(),
                out.values() == forward_spec(start.take(i as int), input.values()),
                i == 0 ==> out.dims() == input.dims(),
                i > 0 ==> out.values().len() == start[i - 1].output_size(),
                i > 0 ==> out.dims() == start[i - 1].b().dims(),
            decreases n - i,
        {
            proof {
                if i > 0 {
                    assert(start[i - 1].output_size() == start[i as int].input_size());
                }
                assert(start.take(i + 1).drop_last() =~= start.take(i as int));
            }
            let next = self.layers[i].feed_forward(&out);
            let next = match next {
                Ok(t) => t,
                Err(e) => {
                    return Err(e);
                },
            };
            proof {
                tensor_len_of_bias(&start[i as int], &next);
            }
            out = next;
            i = i + 1;
        }
        assert(start.take(n as int) =~= start);
        proof {
            let s = self.layers@;
            assert forall|k: int| 0 <= k < s.len() - 1 implies #[trigger] s[k].output_size()
                == s[k + 1].input_size() by {
                assert(same_params(s[k], start[k]));
                assert(same_params(s[k + 1], start[k + 1]));
                assert(start[k].output_size() == start[k + 1].input_size());
            }
        }
        Ok(out)
    }

    /// One training step on `input` and `target`: a forward pass; a refusal when its output
    /// holds a value that is not a number; the error `output - target`; then a backward step
    /// through every layer in reverse index order, each with this network's learning rate.
    pub fn back_propagation(&mut self, input: &Tensor<T>, target: &Tensor<T>) -> (r: Result<
        (),
        NetError,
    >)
        requires
            old(self).wf(),
            input.wf(),
            target.wf(),
        ensures
            final(self).wf(),
            final(self).rate() == old(self).rate(),
            final(self).layer_seq().len() == old(self).layer_seq().len(),
            ({
                let layers = old(self).layer_seq();
                let ok_in = accepts(layers, input.values().len() as int);
                let out = forward_spec(layers, input.values());
                let out_dims = output_dims(layers, input.dims());
                &&& !ok_in <==> r == Err::<(), NetError>(
                    NetError::Shape(TensorError::DimensionMismatch),
                )
                &&& ok_in && diverged(out) <==> r == Err::<(), NetError>(
                    NetError::NumericalDivergence,
                )
                &&& ok_in && !diverged(out) && target.dims() != out_dims <==> r == Err::<
                    (),
                    NetError,
                >(NetError::Shape(TensorError::ShapeMismatch))
                &&& r.is_ok() <==> ok_in && !diverged(out) && target.dims() == out_dims
            }),
            r.is_err() ==> forall|k: int|
                0 <= k < old(self).layer_seq().len() ==> same_params(
                    #[trigger] final(self).layer_seq()[k],
                    old(self).layer_seq()[k],
                ),
            r.is_ok() ==> forall|k: int|
                0 <= k < old(self).layer_seq().len() ==> {
                    let layers = old(self).layer_seq();
                    let x = input.values();
                    let e = error_spec(forward_spec(layers, x), target.values());
                    &&& (#[trigger] final(self).layer_seq()[k]).cached().is_none()
                    &&& stepped(
                        final(self).layer_seq()[k],
                        layers[k],
                        delta_at(layers, x, e, k),
                        layer_input(layers, x, k),
                        old(self).rate(),
                    )
                },
    {
        let ghost start = self.layers@;
        let out = match self.feed_forward(input) {
            Ok(t) => t,
            Err(e) => {
                return Err(NetError::Shape(e));
            },
        };
        if any_diverged(out.data()) {
            return Err(NetError::NumericalDivergence);
        }
        if !crate::tensor::same_dims(out.shape(), target.shape()) {
            return Err(NetError::Shape(TensorError::ShapeMismatch));
        }
        let mut grad = out.elementwise(target, ElemOp::Sub).unwrap();
        let ghost x = input.values();
        let ghost e = error_spec(forward_spec(start, x), target.values());
        assert(grad.values() =~= e);
        let ghost mid = self.layers@;
        let n = self.layers.len();
        let mut i: usize = n;
        while i > 0
            invariant
                n == start.len(),
                n == mid.len(),
                chained(start),
                chained(mid),
                self.layers@.len() == n,
                self.learning_rate == old(self).learning_rate,
                i <= n,
                forall|k: int| 0 <= k < n ==> #[trigger] self.layers@[k].wf(),
                forall|k: int| 0 <= k < n ==> same_params(#[trigger] mid[k], start[k]),
                forall|k: int| 0 <= k < n ==> caches_pass(#[trigger] mid[k], start, x, k),
                forall|k: int| 0 <= k < i ==> #[trigger] self.layers@[k] == mid[k],
                forall|k: int|
                    i <= k < n ==> (#[trigger] self.layers@[k]).cached().is_none() && stepped(
                        self.layers@[k],
                        start[k],
                        delta_at(start, x, e, k),
                        layer_input(start, x, k),
                        self.learning_rate,
                    ),
                grad.wf(),
                i > 0 ==> grad.values() == grad_at(start, x, e, i - 1),
                i > 0 ==> grad.values().len() == start[i - 1].output_size(),
            decreases i,
        {
            i = i - 1;
            let rate = self.learning_rate;
            let ghost before = self.layers@[i as int];
            assert(before == mid[i as int]);
            assert(before.wf());
            let next = self.layers[i].back_propagation(&grad, rate);
            match next {
                Ok(t) => {
                    proof {
                        let k = i as int;
                        crate::tensor::lemma_product_single(t.dims());
                        assert(same_params(mid[k], start[k]));
                        assert(caches_pass(mid[k], start, x, k));
                        let z = before.cached().unwrap().1;
                        assert(z.dims() == before.b().dims());
                        assert(delta_at(start, x, e, k) == delta_spec(
                            grad.values(),
                            before.act().derivative_spec(z.values(), z.dims()),
                        ));
                        assert(stepped(
                            self.layers@[k],
                            start[k],
                            delta_at(start, x, e, k),
                            layer_input(start, x, k),
                            self.learning_rate,
                        ));
                        if i > 0 {
                            assert(start[k - 1].output_size() == start[k].input_size());
                            assert(t.values() =~= grad_at(start, x, e, k - 1));
                        }
                    }
                    grad = t;
                },
                Err(e) => {
                    return Err(NetError::Layer(e));
                },
            }
        }
        proof {
            let s = self.layers@;
            assert forall|k: int| 0 <= k < s.len() - 1 implies #[trigger] s[k].output_size()
                == s[k + 1].input_size() by {
                assert(start[k].output_size() == start[k + 1].input_size());
            }
        }
        Ok(())
    }
}

/// Whether some value of `v` is not a number.
fn any_diverged<T: Scalar>(v: &Vec<T>) -> (r: bool)
    ensures
        r == diverged(v@),
{
    let mut k: usize = 0;
    while k < v.len()
        invariant
            k <= v@.len(),
            forall|q: int| 0 <= q < k ==> !(#[trigger] v@[q]).diverged_spec(),
        decreases v@.len() - k,
    {
        if v[k].is_diverged() {
            return true;
        }
        k = k + 1;
    }
    false
}

/// A tensor shaped like a well-formed layer's bias holds one value per output.
proof fn tensor_len_of_bias<T: Scalar, A: Activation<T>>(l: &LayerDense<T, A>, t: &Tensor<T>)
    requires
        l.wf(),
        t.wf(),
        t.dims() == l.b().dims(),
    ensures
        t.values().len() == l.output_size(),
{
}

} // verus!
