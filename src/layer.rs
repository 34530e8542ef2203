//! The dense (fully connected) layer: learnable weights and bias, an activation, and the
//! values of the last forward pass that the next backward step reads.

use vstd::prelude::*;
use crate::activation::Activation;
use crate::scalar::Scalar;
use crate::shape;
use crate::tensor;
use crate::tensor::{ElemOp, Tensor, TensorError};

verus! {

/// Why a backward step was refused.
#[derive(Debug, Clone, Copy, PartialEq, Eq, Structural)]
pub enum LayerError {
    /// No forward pass has left the values that the backward step reads.
    NoForwardPass,
    /// The incoming gradient does not have one value per output.
    ShapeMismatch,
}

/// Pre-activation values `W·x + b` of a layer with weights `w` (`out×inp`) and bias `b`.
pub open spec fn pre_activation<T: Scalar>(w: Seq<T>, b: Seq<T>, x: Seq<T>, inp: int) -> Seq<T> {
    Seq::new(b.len(), |i: int| tensor::dot_entry(w, x, inp, 1, i, 0, inp).plus_spec(b[i]))
}

/// The local delta: the incoming gradient times the activation's derivative, element by element.
pub open spec fn delta_spec<T: Scalar>(g: Seq<T>, deriv: Seq<T>) -> Seq<T> {
    Seq::new(g.len(), |i: int| g[i].times_spec(deriv[i]))
}

/// A dense layer with `weights` of shape `[output_size, input_size]` and `bias` of shape
/// `[output_size]`.
pub struct LayerDense<T, A> {
    weights: Tensor<T>,
    bias: Tensor<T>,
    activation: A,
    cache: Option<(Tensor<T>, Tensor<T>)>,
}

impl<T: Scalar, A: Activation<T>> LayerDense<T, A> {
    pub closed spec fn w(&self) -> Tensor<T> {
        self.weights
    }

    pub closed spec fn b(&self) -> Tensor<T> {
        self.bias
    }

    pub closed spec fn act(&self) -> A {
        self.activation
    }

    /// The input and the pre-activation values of the last forward pass, if any.
    pub closed spec fn cached(&self) -> Option<(Tensor<T>, Tensor<T>)> {
        self.cache
    }

    pub open spec fn input_size(&self) -> int {
        self.w().cols()
    }

    pub open spec fn output_size(&self) -> int {
        self.w().rows()
    }

    /// The parameters' shapes agree with each other, and so does the cached forward pass.
    pub open spec fn wf(&self) -> bool {
        &&& self.w().wf()
        &&& self.w().is_matrix()
        &&& self.b().wf()
        &&& self.b().dims() == seq![self.w().dims()[0]]
        &&& self.b().values().len() == self.output_size()
        &&& self.cached() matches Some((x, z)) ==> {
            &&& x.wf()
            &&& x.values().len() == self.input_size()
            &&& z.wf()
            &&& z.dims() == self.b().dims()
            &&& z.values().len() == self.output_size()
        }
    }

    /// The layer's output on the elements `x`.
    pub open spec fn output_spec(&self, x: Seq<T>) -> Seq<T> {
        self.act().call_spec(
            pre_activation(self.w().values(), self.b().values(), x, self.input_size()),
            self.b().dims(),
        )
    }

    /// A layer with the given parameters: `weights` must be a matrix with one row per bias value.
    pub fn from_parameters(weights: Tensor<T>, bias: Tensor<T>, activation: A) -> (r: Result<
        LayerDense<T, A>,
        TensorError,
    >)
        requires
            weights.wf(),
            bias.wf(),
        ensures
            r.is_ok() <==> weights.is_matrix() && bias.dims() == seq![weights.dims()[0]],
            !weights.is_matrix() <==> r == Err::<LayerDense<T, A>, TensorError>(
                TensorError::NotMatrix,
            ),
            weights.is_matrix() && bias.dims() != seq![weights.dims()[0]] <==> r == Err::<
                LayerDense<T, A>,
                TensorError,
            >(TensorError::ShapeMismatch),
            r.is_ok() ==> {
                let l = r.unwrap();
                &&& l.wf()
                &&& l.w() == weights
                &&& l.b() == bias
                &&& l.act() == activation
                &&& l.cached().is_none()
            },
    {
        let ws = weights.shape();
        if ws.len() != 2 {
            return Err(TensorError::NotMatrix);
        }
        let bs = bias.shape();
        if bs.len() != 1 || bs[0] != ws[0] {
            proof {
                if bs@.len() == 1 {
                    assert(bs@ != seq![ws@[0]]);
                }
            }
            return Err(TensorError::ShapeMismatch);
        }
        assert(bs@ =~= seq![ws@[0]]);
        proof {
            tensor::lemma_product_single(bs@);
        }
        Ok(LayerDense { weights, bias, activation, cache: None })
    }

    /// Number of inputs.
    pub fn input_len(&self) -> (r: usize)
        requires
            self.wf(),
        ensures
            r == self.input_size(),
    {
        self.weights.shape()[1]
    }

    /// Number of outputs.
    pub fn output_len(&self) -> (r: usize)
        requires
            self.wf(),
        ensures
            r == self.output_size(),
    {
        self.weights.shape()[0]
    }

    /// The weights.
    pub fn weights(&self) -> (r: &Tensor<T>)
        ensures
            *r == self.w(),
    {
        &self.weights
    }

    /// The bias.
    pub fn bias(&self) -> (r: &Tensor<T>)
        ensures
            *r == self.b(),
    {
        &self.bias
    }

    /// Computes `activation(W·x + b)`, and keeps `x` and `W·x + b` for the next backward step.
    pub fn feed_forward(&mut self, input: &Tensor<T>) -> (r: Result<Tensor<T>, TensorError>)
        requires
            old(self).wf(),
            input.wf(),
        ensures
            final(self).wf(),
            final(self).w() == old(self).w(),
            final(self).b() == old(self).b(),
            final(self).act() == old(self).act(),
            r.is_ok() <==> input.values().len() == old(self).input_size(),
            r.is_err() ==> r == Err::<Tensor<T>, TensorError>(TensorError::DimensionMismatch)
                && *final(self) == *old(self),
            r.is_ok() ==> {
                let out = r.unwrap();
                let z = pre_activation(
                    old(self).w().values(),
                    old(self).b().values(),
                    input.values(),
                    old(self).input_size(),
                );
                &&& out.wf()
                &&& out.dims() == old(self).b().dims()
                &&& out.values() == old(self).output_spec(input.values())
                &&& final(self).cached() matches Some((x, zt)) && x.values() == input.values()
                    && zt.values() == z
            },
    {
        let inp = self.weights.shape()[1];
        let outn = self.weights.shape()[0];
        if input.len() != inp {
            return Err(TensorError::DimensionMismatch);
        }
        proof {
            tensor::lemma_product_pair(self.weights.dims());
            tensor::lemma_product_single(self.bias.dims());
            assert(inp >= 1) by {
                assert(self.weights.dims()[1] > 0);
            }
            assert(outn * 1 <= usize::MAX) by (nonlinear_arith)
                requires
                    outn * inp <= usize::MAX,
                    inp >= 1,
            ;
        }
        let cshape: Vec<usize> = vec![inp, 1];
        proof {
            let s = seq![inp, 1usize];
            tensor::lemma_product_pair(s);
            assert(cshape@ =~= s);
            assert(s[0] == inp && s[1] == 1);
            assert(shape::shape_product(s) == inp as int) by (nonlinear_arith)
                requires
                    shape::shape_product(s) == s[0] * s[1],
                    s[0] == inp,
                    s[1] == 1,
            ;
            assert(shape::dims_positive(s));
            assert(shape::valid_shape(cshape@));
            assert(shape::shape_product(cshape@) == shape::shape_product(input.dims()));
        }
        let col = input.copy().reshape(cshape);
        let col = col.unwrap();
        let prod = self.weights.dot(&col).unwrap();
        let pshape: Vec<usize> = vec![outn];
        proof {
            let s = seq![outn];
            tensor::lemma_product_single(s);
            assert(pshape@ =~= s);
            let s2 = seq![outn, 1usize];
            tensor::lemma_product_pair(s2);
            assert(shape::shape_product(s2) == outn as int) by (nonlinear_arith)
                requires
                    shape::shape_product(s2) == s2[0] * s2[1],
                    s2[0] == outn,
                    s2[1] == 1,
            ;
        }
        let prod = prod.reshape(pshape);
        let prod = prod.unwrap();
        let z = prod.elementwise(&self.bias, ElemOp::Add).unwrap();
        let out = self.activation.call(&z);
        let ghost zs = pre_activation(
            self.weights.values(),
            self.bias.values(),
            input.values(),
            inp as int,
        );
        assert(z.values() =~= zs) by {
            assert forall|i: int| 0 <= i < outn implies z.values()[i] == #[trigger] zs[i] by {
                assert(tensor::at(i, 0, 1) == i);
            }
        }
        self.cache = Some((input.copy(), z));
        Ok(out)
    }

    /// One gradient-descent step. From the gradient `g` coming from the layer above and the
    /// cached forward pass (input `x`, pre-activation `z`): `delta = g * f'(z)`,
    /// `W -= rate * outer(delta, x)`, `b -= rate * delta`; returns `Wᵀ·delta` computed with the
    /// weights from before the update. The cached pass is consumed: a second backward step
    /// needs a new forward pass.
    pub fn back_propagation(&mut self, gradient: &Tensor<T>, learning_rate: T) -> (r: Result<
        Tensor<T>,
        LayerError,
    >)
        requires
            old(self).wf(),
            gradient.wf(),
        ensures
            final(self).wf(),
            final(self).act() == old(self).act(),
            old(self).cached().is_none() <==> r == Err::<Tensor<T>, LayerError>(
                LayerError::NoForwardPass,
            ),
            old(self).cached().is_some() && gradient.values().len() != old(self).output_size()
                <==> r == Err::<Tensor<T>, LayerError>(LayerError::ShapeMismatch),
            r.is_err() ==> *final(self) == *old(self),
            r.is_ok() ==> {
                let x = old(self).cached().unwrap().0.values();
                let z = old(self).cached().unwrap().1;
                let d = delta_spec(
                    gradient.values(),
                    old(self).act().derivative_spec(z.values(), z.dims()),
                );
                let inp = old(self).input_size();
                let outn = old(self).output_size();
                let g = r.unwrap();
                &&& final(self).cached().is_none()
                &&& final(self).w().dims() == old(self).w().dims()
                &&& final(self).b().dims() == old(self).b().dims()
                &&& forall|i: int, j: int|
                    0 <= i < outn && 0 <= j < inp ==> #[trigger] final(self).w().values()[tensor::at(
                        i,
                        j,
                        inp,
                    )] == old(self).w().values()[tensor::at(i, j, inp)].minus_spec(
                        d[i].times_spec(x[j]).times_spec(learning_rate),
                    )
                &&& forall|i: int|
                    0 <= i < outn ==> #[trigger] final(self).b().values()[i] == old(
                        self,
                    ).b().values()[i].minus_spec(d[i].times_spec(learning_rate))
                &&& g.wf()
                &&& g.dims() == seq![old(self).w().dims()[1]]
                &&& forall|j: int|
                    0 <= j < inp ==> #[trigger] g.values()[j] == tensor::tdot_entry(
                        old(self).w().values(),
                        d,
                        inp,
                        j,
                        outn,
                    )
            },
    {
        let (x, z) = match &self.cache {
            None => {
                return Err(LayerError::NoForwardPass);
            },
            Some(p) => (p.0.copy(), p.1.copy()),
        };
        let inp = self.weights.shape()[1];
        let outn = self.weights.shape()[0];
        if gradient.len() != outn {
            return Err(LayerError::ShapeMismatch);
        }
        proof {
            tensor::lemma_product_pair(self.weights.dims());
            tensor::lemma_product_single(self.bias.dims());
        }
        let deriv = self.activation.derivative(&z);
        let gshape: Vec<usize> = vec![outn];
        proof {
            tensor::lemma_product_single(gshape@);
            assert(gshape@ =~= self.bias.dims());
        }
        let g = gradient.copy().reshape(gshape).unwrap();
        let delta = g.elementwise(&deriv, ElemOp::Mul).unwrap();
        let ghost d = delta_spec(
            gradient.values(),
            self.activation.derivative_spec(z.values(), z.dims()),
        );
        assert(delta.values() =~= d);
        let back = self.weights.transpose_dot(&delta).unwrap();
        let upd = delta.outer(&x).scale(learning_rate);
        assert(upd.dims() =~= self.weights.dims());
        let new_w = self.weights.elementwise(&upd, ElemOp::Sub).unwrap();
        let db = delta.scale(learning_rate);
        let new_b = self.bias.elementwise(&db, ElemOp::Sub).unwrap();
        proof {
            let ow = self.weights.values();
            let xs = x.values();
            assert forall|i: int, j: int| 0 <= i < outn && 0 <= j < inp implies #[trigger] new_w.values()[tensor::at(
                i,
                j,
                inp as int,
            )] == ow[tensor::at(i, j, inp as int)].minus_spec(
                d[i].times_spec(xs[j]).times_spec(learning_rate),
            ) by {
                tensor::lemma_at_bound(i, j, outn as int, inp as int);
                assert(upd.values()[tensor::at(i, j, inp as int)] == d[i].times_spec(xs[j]).times_spec(
                    learning_rate,
                ));
            }
            assert forall|i: int| 0 <= i < outn implies #[trigger] new_b.values()[i]
                == self.bias.values()[i].minus_spec(d[i].times_spec(learning_rate)) by {
                assert(db.values()[i] == d[i].times_spec(learning_rate));
            }
        }
        self.weights = new_w;
        self.bias = new_b;
        self.cache = None;
        Ok(back)
    }
}

} // verus!
