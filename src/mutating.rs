//! A network kept as plain weight and bias arrays, for evolution by crossover: a weight
//! matrix of shape `[config[l + 1], config[l]]` between each two consecutive sizes of the
//! configuration, and a zero bias of shape `[config[l]]` for each size.

use vstd::prelude::*;
use crate::activation::Activation;
use crate::scalar::Scalar;
use crate::shape;
use crate::tensor::{same_dims, ElemOp, Tensor, TensorError};

verus! {

/// The shape of the weight matrix between sizes `l` and `l + 1` of `config`.
pub open spec fn weight_dims(config: Seq<usize>, l: int) -> Seq<usize> {
    seq![config[l + 1], config[l]]
}

/// How many weight matrices a configuration has: one per pair of consecutive sizes.
pub open spec fn n_weights(config: Seq<usize>) -> int {
    if config.len() == 0 {
        0
    } else {
        config.len() - 1
    }
}

/// The weight shapes of a configuration, one per pair of consecutive sizes.
pub fn weight_shapes(config: &Vec<usize>) -> (r: Vec<Vec<usize>>)
    ensures
        r@.len() == n_weights(config@),
        forall|l: int| 0 <= l < r@.len() ==> #[trigger] r@[l]@ == weight_dims(config@, l),
{
    let mut out: Vec<Vec<usize>> = Vec::new();
    if config.len() == 0 {
        return out;
    }
    let mut l: usize = 0;
    while l + 1 < config.len()
        invariant
            config@.len() > 0,
            l + 1 <= config@.len(),
            out@.len() == l,
            forall|q: int| 0 <= q < l ==> #[trigger] out@[q]@ == weight_dims(config@, q),
        decreases config.len() - l,
    {
        let s: Vec<usize> = vec![config[l + 1], config[l]];
        assert(s@ =~= weight_dims(config@, l as int));
        out.push(s);
        l = l + 1;
    }
    out
}

/// Element `k` of tensor `l` of a crossover: from `left` where the pick is `true`.
pub open spec fn crossed<T>(left: Seq<Tensor<T>>, right: Seq<Tensor<T>>, picks: Seq<Vec<bool>>, l: int, k: int) -> T {
    if picks[l]@[k] {
        left[l].values()[k]
    } else {
        right[l].values()[k]
    }
}

/// Picks, tensor by tensor and element by element, from `left` or from `right`. `None` when
/// the two lists or the picks do not line up.
fn cross_all<T: Copy>(left: &Vec<Tensor<T>>, right: &Vec<Tensor<T>>, picks: &Vec<Vec<bool>>) -> (r:
    Option<Vec<Tensor<T>>>)
    requires
        forall|l: int| 0 <= l < left@.len() ==> (#[trigger] left@[l]).wf(),
        forall|l: int| 0 <= l < right@.len() ==> (#[trigger] right@[l]).wf(),
    ensures
        r.is_some() <==> left@.len() == right@.len() && picks@.len() == left@.len() && forall|l: int|
            0 <= l < left@.len() ==> (#[trigger] left@[l]).dims() == right@[l].dims()
                && picks@[l]@.len() == left@[l].values().len(),
        r.is_some() ==> {
            let v = r.unwrap()@;
            &&& v.len() == left@.len()
            &&& forall|l: int|
                0 <= l < v.len() ==> (#[trigger] v[l]).wf() && v[l].dims() == left@[l].dims()
                    && v[l].values().len() == left@[l].values().len()
            &&& forall|l: int, k: int|
                0 <= l < v.len() && 0 <= k < v[l].values().len() ==> #[trigger] v[l].values()[k]
                    == crossed(left@, right@, picks@, l, k)
        },
{
    if left.len() != right.len() || picks.len() != left.len() {
        return None;
    }
    let mut out: Vec<Tensor<T>> = Vec::new();
    let mut l: usize = 0;
    while l < left.len()
        invariant
            left@.len() == right@.len(),
            picks@.len() == left@.len(),
            forall|q: int| 0 <= q < left@.len() ==> (#[trigger] left@[q]).wf(),
            forall|q: int| 0 <= q < right@.len() ==> (#[trigger] right@[q]).wf(),
            l <= left@.len(),
            out@.len() == l,
            forall|q: int|
                0 <= q < l ==> (#[trigger] left@[q]).dims() == right@[q].dims()
                    && picks@[q]@.len() == left@[q].values().len(),
            forall|q: int|
                0 <= q < l ==> (#[trigger] out@[q]).wf() && out@[q].dims() == left@[q].dims()
                    && out@[q].values().len() == left@[q].values().len(),
            forall|q: int, k: int|
                0 <= q < l && 0 <= k < out@[q].values().len() ==> #[trigger] out@[q].values()[k]
                    == crossed(left@, right@, picks@, q, k),
        decreases left.len() - l,
    {
        match left[l].select(&right[l], &picks[l]) {
            Ok(t) => {
                out.push(t);
            },
            Err(_) => {
                return None;
            },
        }
        l = l + 1;
    }
    Some(out)
}

/// The width of the row after the first `k` weight matrices, starting from width `n0`.
pub open spec fn row_width_after<T>(ws: Seq<Tensor<T>>, n0: int, k: int) -> int {
    if k <= 0 {
        n0
    } else {
        ws[k - 1].cols()
    }
}

/// The first `k` steps of a row forward pass fit: each weight matrix has as many rows as the
/// row is wide, and each bias one value per column of its matrix.
pub open spec fn widths_chain<T>(ws: Seq<Tensor<T>>, bs: Seq<Tensor<T>>, n0: int, k: int) -> bool {
    forall|l: int|
        0 <= l < k ==> (#[trigger] ws[l]).rows() == row_width_after(ws, n0, l)
            && bs[l].values().len() == ws[l].cols()
}

/// `row · w + b` for a row `x`, with `w` a matrix and `b` one value per column.
pub open spec fn row_pre<T: Scalar>(x: Seq<T>, w: Tensor<T>, b: Tensor<T>) -> Seq<T> {
    Seq::new(
        w.cols() as nat,
        |j: int|
            crate::tensor::dot_entry(x, w.values(), w.rows(), w.cols(), 0, j, w.rows()).plus_spec(
                b.values()[j],
            ),
    )
}

/// The row after the first `k` steps: each step is `row · W + b`, then the activation on
/// the one-row result.
pub open spec fn row_forward<T: Scalar, A: Activation<T>>(
    ws: Seq<Tensor<T>>,
    bs: Seq<Tensor<T>>,
    act: A,
    x: Seq<T>,
    k: int,
) -> Seq<T>
    decreases k,
{
    if k <= 0 {
        x
    } else {
        act.call_spec(
            row_pre(row_forward(ws, bs, act, x, k - 1), ws[k - 1], bs[k - 1]),
            seq![1usize, ws[k - 1].cols() as usize],
        )
    }
}

/// A network held as weight and bias arrays, with one activation for every layer.
pub struct MutatingNet<T, A> {
    config: Vec<usize>,
    weights: Vec<Tensor<T>>,
    biases: Vec<Tensor<T>>,
    activation: A,
}

impl<T: Scalar, A: Activation<T>> MutatingNet<T, A> {
    pub closed spec fn config_view(&self) -> Seq<usize> {
        self.config@
    }

    pub closed spec fn weight_seq(&self) -> Seq<Tensor<T>> {
        self.weights@
    }

    pub closed spec fn bias_seq(&self) -> Seq<Tensor<T>> {
        self.biases@
    }

    pub closed spec fn act(&self) -> A {
        self.activation
    }

    /// Weights and biases have the shapes that the configuration gives.
    pub open spec fn wf(&self) -> bool {
        let c = self.config_view();
        &&& self.weight_seq().len() == n_weights(c)
        &&& forall|l: int|
            0 <= l < self.weight_seq().len() ==> (#[trigger] self.weight_seq()[l]).wf()
                && self.weight_seq()[l].dims() == weight_dims(c, l)
        &&& self.bias_seq().len() == c.len()
        &&& forall|l: int|
            0 <= l < c.len() ==> (#[trigger] self.bias_seq()[l]).wf() && self.bias_seq()[l].dims()
                == seq![c[l]]
    }

    /// A network for `config` with the given weight matrices and zero biases. Refused when
    /// a size is zero or a weight matrix does not have the shape the configuration gives.
    pub fn from_config(config: Vec<usize>, weights: Vec<Tensor<T>>, activation: A) -> (r: Result<
        MutatingNet<T, A>,
        TensorError,
    >)
        requires
            forall|l: int| 0 <= l < weights@.len() ==> (#[trigger] weights@[l]).wf(),
        ensures
            r.is_ok() <==> shape::dims_positive(config@) && weights@.len() == n_weights(config@)
                && forall|l: int|
                0 <= l < weights@.len() ==> (#[trigger] weights@[l]).dims() == weight_dims(
                    config@,
                    l,
                ),
            r.is_err() ==> r == Err::<MutatingNet<T, A>, TensorError>(TensorError::ShapeMismatch),
            r.is_ok() ==> {
                let m = r.unwrap();
                &&& m.wf()
                &&& m.config_view() == config@
                &&& m.weight_seq() == weights@
                &&& m.act() == activation
                &&& forall|l: int, k: int|
                    0 <= l < config@.len() && 0 <= k < config@[l] ==> #[trigger] m.bias_seq()[l].values()[k]
                        == T::zero_spec()
            },
    {
        let n = config.len();
        let expected = if n == 0 {
            0
        } else {
            n - 1
        };
        if weights.len() != expected {
            return Err(TensorError::ShapeMismatch);
        }
        let mut l: usize = 0;
        while l < weights.len()
            invariant
                weights@.len() == n_weights(config@),
                l <= weights@.len(),
                forall|q: int| 0 <= q < l ==> (#[trigger] weights@[q]).dims() == weight_dims(config@, q),
            decreases weights.len() - l,
        {
            let ws = weights[l].shape();
            if ws.len() != 2 || ws[0] != config[l + 1] || ws[1] != config[l] {
                proof {
                    if ws@.len() == 2 {
                        assert(ws@ != weight_dims(config@, l as int));
                    }
                }
                return Err(TensorError::ShapeMismatch);
            }
            assert(ws@ =~= weight_dims(config@, l as int));
            l = l + 1;
        }
        let mut biases: Vec<Tensor<T>> = Vec::new();
        let mut b: usize = 0;
        while b < n
            invariant
                n == config@.len(),
                b <= n,
                biases@.len() == b,
                forall|q: int| 0 <= q < b ==> config@[q] > 0,
                forall|q: int|
                    0 <= q < b ==> (#[trigger] biases@[q]).wf() && biases@[q].dims() == seq![
                        config@[q],
                    ] && forall|k: int|
                        0 <= k < config@[q] ==> #[trigger] biases@[q].values()[k] == T::zero_spec(),
            decreases n - b,
        {
            let bshape: Vec<usize> = vec![config[b]];
            proof {
                crate::tensor::lemma_product_single(bshape@);
            }
            match Tensor::from_element(T::zero(), bshape) {
                Ok(t) => {
                    biases.push(t);
                },
                Err(e) => {
                    return Err(e);
                },
            }
            b = b + 1;
        }
        Ok(MutatingNet { config, weights, biases, activation })
    }

    /// The configuration.
    pub fn config(&self) -> (r: &Vec<usize>)
        ensures
            r@ == self.config_view(),
    {
        &self.config
    }

    /// The weight matrices.
    pub fn weights(&self) -> (r: &Vec<Tensor<T>>)
        ensures
            r@ == self.weight_seq(),
    {
        &self.weights
    }

    /// The biases.
    pub fn biases(&self) -> (r: &Vec<Tensor<T>>)
        ensures
            r@ == self.bias_seq(),
    {
        &self.biases
    }

    /// Crosses two networks of the same configuration: each weight and bias element comes
    /// from `self` where its pick is `true` and from `right` elsewhere. `None` when the
    /// configurations differ or the picks do not have one entry per element.
    pub fn crossover(self, right: &MutatingNet<T, A>, weight_picks: &Vec<Vec<bool>>, bias_picks: &Vec<
        Vec<bool>,
    >) -> (r: Option<MutatingNet<T, A>>)
        requires
            self.wf(),
            right.wf(),
        ensures
            r.is_some() <==> self.config_view() == right.config_view() && weight_picks@.len()
                == self.weight_seq().len() && (forall|l: int|
                0 <= l < self.weight_seq().len() ==> (#[trigger] weight_picks@[l])@.len()
                    == self.weight_seq()[l].values().len()) && bias_picks@.len()
                == self.bias_seq().len() && (forall|l: int|
                0 <= l < self.bias_seq().len() ==> (#[trigger] bias_picks@[l])@.len()
                    == self.bias_seq()[l].values().len()),
            r.is_some() ==> {
                let m = r.unwrap();
                &&& m.wf()
                &&& m.config_view() == self.config_view()
                &&& m.act() == self.act()
                &&& forall|l: int, k: int|
                    0 <= l < m.weight_seq().len() && 0 <= k < m.weight_seq()[l].values().len()
                        ==> #[trigger] m.weight_seq()[l].values()[k] == crossed(
                        self.weight_seq(),
                        right.weight_seq(),
                        weight_picks@,
                        l,
                        k,
                    )
                &&& forall|l: int, k: int|
                    0 <= l < m.bias_seq().len() && 0 <= k < m.bias_seq()[l].values().len()
                        ==> #[trigger] m.bias_seq()[l].values()[k] == crossed(
                        self.bias_seq(),
                        right.bias_seq(),
                        bias_picks@,
                        l,
                        k,
                    )
            },
    {
        if !same_dims(&self.config, &right.config) {
            return None;
        }
        let weights = cross_all(&self.weights, &right.weights, weight_picks);
        let biases = cross_all(&self.biases, &right.biases, bias_picks);
        match (weights, biases) {
            (Some(w), Some(b)) => {
                Some(MutatingNet { config: self.config, weights: w, biases: b, activation: self.activation })
            },
            _ => None,
        }
    }

    /// Feeds `input`, laid out as a single row, through each weight matrix in turn:
    /// `row · W`, plus the bias laid out as a row, then the activation. Refused with
    /// `DimensionMismatch` when the row's width is not the weight matrix's row count, and
    /// with `ShapeMismatch` when the bias length is not its column count.
    pub fn feed_forward(&self, input: &Tensor<T>) -> (r: Result<Tensor<T>, TensorError>)
        requires
            self.wf(),
            input.wf(),
        ensures
            ({
                let ws = self.weight_seq();
                let bs = self.bias_seq();
                let n0 = input.values().len() as int;
                &&& r.is_ok() <==> widths_chain(ws, bs, n0, ws.len() as int)
                &&& r.is_err() ==> r == Err::<Tensor<T>, TensorError>(TensorError::DimensionMismatch)
                    || r == Err::<Tensor<T>, TensorError>(TensorError::ShapeMismatch)
                &&& ws.len() > 0 && n0 != ws[0].rows() ==> r == Err::<Tensor<T>, TensorError>(
                    TensorError::DimensionMismatch,
                )
                &&& r.is_ok() ==> {
                    let t = r.unwrap();
                    &&& t.wf()
                    &&& t.values() == row_forward(ws, bs, self.act(), input.values(), ws.len() as int)
                    &&& t.dims() == seq![1usize, row_width_after(ws, n0, ws.len() as int) as usize]
                }
            }),
    {
        let n = input.len();
        let rshape: Vec<usize> = vec![1, n];
        proof {
            crate::tensor::lemma_product_pair(rshape@);
            shape::lemma_product_monotone(input.dims(), 0, input.dims().len() as int);
            assert(input.dims().take(input.dims().len() as int) =~= input.dims());
            assert(rshape@[0] == 1 && rshape@[1] == n);
            assert(shape::shape_product(rshape@) == n) by (nonlinear_arith)
                requires
                    shape::shape_product(rshape@) == rshape@[0] * rshape@[1],
                    rshape@[0] == 1,
                    rshape@[1] == n,
            ;
        }
        let ghost ws = self.weights@;
        let ghost bs = self.biases@;
        let ghost n0 = n as int;
        let mut out = input.copy().reshape(rshape).unwrap();
        let mut l: usize = 0;
        while l < self.weights.len()
            invariant
                self.wf(),
                ws == self.weights@,
                bs == self.biases@,
                n0 == input.values().len(),
                l <= ws.len(),
                out.wf(),
                widths_chain(ws, bs, n0, l as int),
                out.values() == row_forward(ws, bs, self.activation, input.values(), l as int),
                out.dims() == seq![1usize, row_width_after(ws, n0, l as int) as usize],
            decreases self.weights.len() - l,
        {
            let w = &self.weights[l];
            let b = &self.biases[l];
            assert(w.wf());
            assert(b.wf());
            proof {
                crate::tensor::lemma_product_pair(w.dims());
                crate::tensor::lemma_product_pair(out.dims());
                crate::tensor::lemma_product_single(b.dims());
            }
            let width = out.shape()[1];
            if width != w.shape()[0] {
                return Err(TensorError::DimensionMismatch);
            }
            let p = w.shape()[1];
            if b.len() != p {
                return Err(TensorError::ShapeMismatch);
            }
            proof {
                assert(out.rows() * w.cols() <= usize::MAX) by (nonlinear_arith)
                    requires
                        out.rows() == 1,
                        w.cols() <= usize::MAX,
                ;
            }
            let prod = out.dot(w).unwrap();
            let bshape: Vec<usize> = vec![1, p];
            proof {
                crate::tensor::lemma_product_pair(bshape@);
                assert(bshape@[0] == 1 && bshape@[1] == p);
                assert(shape::shape_product(bshape@) == p) by (nonlinear_arith)
                    requires
                        shape::shape_product(bshape@) == bshape@[0] * bshape@[1],
                        bshape@[0] == 1,
                        bshape@[1] == p,
                ;
            }
            let brow = b.copy().reshape(bshape).unwrap();
            assert(brow.dims() =~= prod.dims());
            let z = prod.elementwise(&brow, ElemOp::Add).unwrap();
            let ghost zs = row_pre(out.values(), *w, *b);
            assert(z.values() =~= zs) by {
                assert forall|j: int| 0 <= j < p implies z.values()[j] == #[trigger] zs[j] by {
                    assert(crate::tensor::at(0, j, p as int) == j);
                }
            }
            out = self.activation.call(&z);
            proof {
                assert(widths_chain(ws, bs, n0, l + 1));
            }
            l = l + 1;
        }
        Ok(out)
    }
}

} // verus!
