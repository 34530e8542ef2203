//! Activations: stateless transforms of a tensor, each with a derivative.

use vstd::prelude::*;
use crate::scalar::{Real, Scalar};
use crate::tensor::Tensor;
use vstd::arithmetic::div_mod::lemma_fundamental_div_mod_converse;

verus! {

/// A stateless transform applied to a layer's pre-activation values. Both operations keep
/// the shape of their input.
pub trait Activation<T: Scalar> {
    /// What the forward transform gives on the elements `x` of a tensor of shape `dims`.
    spec fn call_spec(&self, x: Seq<T>, dims: Seq<usize>) -> Seq<T>;

    /// What the derivative gives on the elements `x` of a tensor of shape `dims`.
    spec fn derivative_spec(&self, x: Seq<T>, dims: Seq<usize>) -> Seq<T>;

    /// The forward transform.
    fn call(&self, input: &Tensor<T>) -> (r: Tensor<T>)
        requires
            input.wf(),
        ensures
            r.wf(),
            r.dims() == input.dims(),
            r.values() == self.call_spec(input.values(), input.dims()),
    ;

    /// The derivative of the transform, taken at `input`, element by element.
    fn derivative(&self, input: &Tensor<T>) -> (r: Tensor<T>)
        requires
            input.wf(),
        ensures
            r.wf(),
            r.dims() == input.dims(),
            r.values() == self.derivative_spec(input.values(), input.dims()),
    ;
}

/// The leaky rectifier at `x`: `x` when it is positive, `alpha * x` otherwise.
pub open spec fn leaky_spec<T: Scalar>(alpha: T, x: T) -> T {
    if x.positive_spec() {
        x
    } else {
        alpha.times_spec(x)
    }
}

/// The leaky rectifier's slope at `x`: one when `x` is positive, `alpha` otherwise.
pub open spec fn leaky_slope_spec<T: Scalar>(alpha: T, x: T) -> T {
    if x.positive_spec() {
        T::one_spec()
    } else {
        alpha
    }
}

/// The leaky rectifier with negative slope `alpha`.
#[derive(Debug)]
pub struct LeakyReLU<T> {
    pub alpha: T,
}

impl<T: Scalar> LeakyReLU<T> {
    pub fn new(alpha: T) -> (r: LeakyReLU<T>)
        ensures
            r.alpha == alpha,
    {
        LeakyReLU { alpha }
    }

    /// Applies the rectifier to every element.
    pub fn apply(&self, input: &Tensor<T>) -> (r: Tensor<T>)
        requires
            input.wf(),
        ensures
            r.wf(),
            r.dims() == input.dims(),
            r.values().len() == input.values().len(),
            forall|k: int|
                0 <= k < r.values().len() ==> #[trigger] r.values()[k] == leaky_spec(
                    self.alpha,
                    input.values()[k],
                ),
    {
        let src = input.data();
        let mut out: Vec<T> = Vec::new();
        let mut k: usize = 0;
        while k < src.len()
            invariant
                src@ == input.values(),
                k <= src@.len(),
                out@.len() == k,
                forall|q: int| 0 <= q < k ==> #[trigger] out@[q] == leaky_spec(self.alpha, src@[q]),
            decreases src.len() - k,
        {
            let x = src[k];
            let y = if x.is_positive() {
                x
            } else {
                self.alpha.times(x)
            };
            out.push(y);
            k = k + 1;
        }
        input.with_data(out).unwrap()
    }

    /// The rectifier's slope at every element.
    pub fn slope(&self, input: &Tensor<T>) -> (r: Tensor<T>)
        requires
            input.wf(),
        ensures
            r.wf(),
            r.dims() == input.dims(),
            r.values().len() == input.values().len(),
            forall|k: int|
                0 <= k < r.values().len() ==> #[trigger] r.values()[k] == leaky_slope_spec(
                    self.alpha,
                    input.values()[k],
                ),
    {
        let src = input.data();
        let mut out: Vec<T> = Vec::new();
        let mut k: usize = 0;
        while k < src.len()
            invariant
                src@ == input.values(),
                k <= src@.len(),
                out@.len() == k,
                forall|q: int|
                    0 <= q < k ==> #[trigger] out@[q] == leaky_slope_spec(self.alpha, src@[q]),
            decreases src.len() - k,
        {
            let y = if src[k].is_positive() {
                T::one()
            } else {
                self.alpha
            };
            out.push(y);
            k = k + 1;
        }
        input.with_data(out).unwrap()
    }
}

impl<T: Scalar> Activation<T> for LeakyReLU<T> {
    open spec fn call_spec(&self, x: Seq<T>, dims: Seq<usize>) -> Seq<T> {
        Seq::new(x.len(), |k: int| leaky_spec(self.alpha, x[k]))
    }

    open spec fn derivative_spec(&self, x: Seq<T>, dims: Seq<usize>) -> Seq<T> {
        Seq::new(x.len(), |k: int| leaky_slope_spec(self.alpha, x[k]))
    }

    fn call(&self, input: &Tensor<T>) -> (r: Tensor<T>) {
        let r = self.apply(input);
        assert(r.values() =~= self.call_spec(input.values(), input.dims()));
        r
    }

    fn derivative(&self, input: &Tensor<T>) -> (r: Tensor<T>) {
        let r = self.slope(input);
        assert(r.values() =~= self.derivative_spec(input.values(), input.dims()));
        r
    }
}

/// The length of a row: the last dimension (a shape without dimensions is one row of one).
pub open spec fn row_width(dims: Seq<usize>) -> int {
    if dims.len() == 0 {
        1
    } else {
        dims.last() as int
    }
}

/// The largest of the `k` values of `x` from position `lo` on.
pub open spec fn row_max<T: Real>(x: Seq<T>, lo: int, k: int) -> T
    decreases k,
{
    if k <= 1 {
        x[lo]
    } else {
        let m = row_max(x, lo, k - 1);
        if x[lo + k - 1].greater_spec(m) {
            x[lo + k - 1]
        } else {
            m
        }
    }
}

/// `exp(x[j] - max)` for the row of width `w` that starts at `lo`.
pub open spec fn shifted_exp<T: Real>(x: Seq<T>, lo: int, w: int, j: int) -> T {
    x[j].minus_spec(row_max(x, lo, w)).exp_spec()
}

/// The sum of the first `k` shifted exponentials of the row of width `w` that starts at `lo`.
pub open spec fn row_exp_sum<T: Real>(x: Seq<T>, lo: int, w: int, k: int) -> T
    decreases k,
{
    if k <= 0 {
        T::zero_spec()
    } else {
        row_exp_sum(x, lo, w, k - 1).plus_spec(shifted_exp(x, lo, w, lo + k - 1))
    }
}

/// Row-normalized value at position `j` for rows of width `w`: its shifted exponential over
/// the sum of its row's shifted exponentials.
pub open spec fn normalized<T: Real>(x: Seq<T>, w: int, j: int) -> T {
    let lo = (j / w) * w;
    shifted_exp(x, lo, w, j).div_spec(row_exp_sum(x, lo, w, w))
}

/// The row-normalizing (softmax) activation over the last dimension. The row maximum is
/// subtracted before exponentiating, so large inputs do not overflow. Its derivative is one
/// everywhere: with the error `output - target` that the network feeds back, that error is
/// already the gradient at the pre-activation values.
#[derive(Debug, Clone, Copy, PartialEq, Eq, Structural)]
pub struct Softmax {}

impl Softmax {
    pub fn new() -> (r: Softmax) {
        Softmax {  }
    }

    /// Normalizes every row.
    pub fn apply<T: Real>(&self, input: &Tensor<T>) -> (r: Tensor<T>)
        requires
            input.wf(),
        ensures
            r.wf(),
            r.dims() == input.dims(),
            r.values().len() == input.values().len(),
            forall|j: int|
                0 <= j < r.values().len() ==> #[trigger] r.values()[j] == normalized(
                    input.values(),
                    row_width(input.dims()),
                    j,
                ),
    {
        let x = input.data();
        let dims = input.shape();
        let w: usize = if dims.len() == 0 {
            1
        } else {
            dims[dims.len() - 1]
        };
        let ghost xs = x@;
        let ghost ws = w as int;
        proof {
            assert(w > 0);
            if dims@.len() > 0 {
                let d = dims@;
                assert(d.drop_last().len() < d.len());
                assert(crate::shape::shape_product(d) == crate::shape::shape_product(d.drop_last()) * d.last());
                crate::shape::lemma_product_monotone(d, 0, d.len() - 1);
                assert(d.take(d.len() - 1) =~= d.drop_last());
                lemma_multiple_of(crate::shape::shape_product(d.drop_last()), w as int);
            } else {
                assert(x@.len() == 1);
                assert(x@.len() % 1 == 0);
            }
        }
        let mut out: Vec<T> = Vec::new();
        let mut lo: usize = 0;
        while lo < x.len()
            invariant
                xs == x@,
                ws == w,
                w > 0,
                (x@.len() as int) % ws == 0,
                lo <= x@.len(),
                (lo as int) % ws == 0,
                out@.len() == lo,
                forall|j: int| 0 <= j < lo ==> #[trigger] out@[j] == normalized(xs, ws, j),
            decreases x.len() - lo,
        {
            proof {
                lemma_room_for_row(x@.len() as int, lo as int, ws);
            }
            let mut m = x[lo];
            let mut k: usize = 1;
            while k < w
                invariant
                    xs == x@,
                    lo + w <= x@.len(),
                    x@.len() <= usize::MAX,
                    1 <= k <= w,
                    m == row_max(xs, lo as int, k as int),
                decreases w - k,
            {
                let v = x[lo + k];
                if v.greater(m) {
                    m = v;
                }
                k = k + 1;
            }
            let mut sum = T::zero();
            let mut es: Vec<T> = Vec::new();
            let mut k: usize = 0;
            while k < w
                invariant
                    xs == x@,
                    lo + w <= x@.len(),
                    x@.len() <= usize::MAX,
                    k <= w,
                    m == row_max(xs, lo as int, ws),
                    ws == w,
                    es@.len() == k,
                    sum == row_exp_sum(xs, lo as int, ws, k as int),
                    forall|c: int|
                        0 <= c < k ==> #[trigger] es@[c] == shifted_exp(xs, lo as int, ws, lo + c),
                decreases w - k,
            {
                let e = x[lo + k].minus(m).exp();
                es.push(e);
                sum = sum.plus(e);
                k = k + 1;
            }
            let mut k: usize = 0;
            while k < w
                invariant
                    xs == x@,
                    ws == w,
                    w > 0,
                    lo + w <= x@.len(),
                    (lo as int) % ws == 0,
                    k <= w,
                    es@.len() == w,
                    sum == row_exp_sum(xs, lo as int, ws, ws),
                    forall|c: int|
                        0 <= c < w ==> #[trigger] es@[c] == shifted_exp(xs, lo as int, ws, lo + c),
                    out@.len() == lo + k,
                    forall|j: int| 0 <= j < lo + k ==> #[trigger] out@[j] == normalized(xs, ws, j),
                decreases w - k,
            {
                proof {
                    let j = lo + k;
                    let q = lo as int / ws;
                    assert(lo == q * ws) by {
                        vstd::arithmetic::div_mod::lemma_fundamental_div_mod(lo as int, ws);
                    }
                    lemma_fundamental_div_mod_converse(j as int, ws, q, k as int);
                }
                out.push(es[k].div(sum));
                k = k + 1;
            }
            proof {
                vstd::arithmetic::div_mod::lemma_mod_adds(lo as int, ws, ws);
                vstd::arithmetic::div_mod::lemma_mod_self_0(ws);
            }
            lo = lo + w;
        }
        input.with_data(out).unwrap()
    }

    /// One at every element.
    pub fn slope<T: Scalar>(&self, input: &Tensor<T>) -> (r: Tensor<T>)
        requires
            input.wf(),
        ensures
            r.wf(),
            r.dims() == input.dims(),
            r.values().len() == input.values().len(),
            forall|k: int| 0 <= k < r.values().len() ==> #[trigger] r.values()[k] == T::one_spec(),
    {
        let mut out: Vec<T> = Vec::new();
        let mut k: usize = 0;
        while k < input.len()
            invariant
                k <= input.values().len(),
                out@.len() == k,
                forall|q: int| 0 <= q < k ==> #[trigger] out@[q] == T::one_spec(),
            decreases input.values().len() - k,
        {
            out.push(T::one());
            k = k + 1;
        }
        input.with_data(out).unwrap()
    }
}

impl<T: Real> Activation<T> for Softmax {
    open spec fn call_spec(&self, x: Seq<T>, dims: Seq<usize>) -> Seq<T> {
        Seq::new(x.len(), |j: int| normalized(x, row_width(dims), j))
    }

    open spec fn derivative_spec(&self, x: Seq<T>, dims: Seq<usize>) -> Seq<T> {
        Seq::new(x.len(), |j: int| T::one_spec())
    }

    fn call(&self, input: &Tensor<T>) -> (r: Tensor<T>) {
        let r = self.apply(input);
        assert(r.values() =~= self.call_spec(input.values(), input.dims()));
        r
    }

    fn derivative(&self, input: &Tensor<T>) -> (r: Tensor<T>) {
        let r = self.slope(input);
        assert(r.values() =~= self.derivative_spec(input.values(), input.dims()));
        r
    }
}

/// The activations a layer can have: one type, so that the layers of a network can differ.
#[derive(Debug)]
pub enum ActivationFn<T> {
    Leaky(LeakyReLU<T>),
    Softmax(Softmax),
}

impl<T: Real> Activation<T> for ActivationFn<T> {
    open spec fn call_spec(&self, x: Seq<T>, dims: Seq<usize>) -> Seq<T> {
        match self {
            ActivationFn::Leaky(a) => a.call_spec(x, dims),
            ActivationFn::Softmax(a) => a.call_spec(x, dims),
        }
    }

    open spec fn derivative_spec(&self, x: Seq<T>, dims: Seq<usize>) -> Seq<T> {
        match self {
            ActivationFn::Leaky(a) => a.derivative_spec(x, dims),
            ActivationFn::Softmax(a) => a.derivative_spec(x, dims),
        }
    }

    fn call(&self, input: &Tensor<T>) -> (r: Tensor<T>) {
        match self {
            ActivationFn::Leaky(a) => a.call(input),
            ActivationFn::Softmax(a) => a.call(input),
        }
    }

    fn derivative(&self, input: &Tensor<T>) -> (r: Tensor<T>) {
        match self {
            ActivationFn::Leaky(a) => a.derivative(input),
            ActivationFn::Softmax(a) => a.derivative(input),
        }
    }
}

/// `p * w` is a multiple of `w`.
proof fn lemma_multiple_of(p: int, w: int)
    requires
        w > 0,
        p >= 0,
    ensures
        (p * w) % w == 0,
{
    vstd::arithmetic::div_mod::lemma_fundamental_div_mod_converse(p * w, w, p, 0);
}

/// In a length that is a multiple of `w`, a row that starts at a multiple of `w` below the
/// length ends within it.
proof fn lemma_room_for_row(n: int, lo: int, w: int)
    requires
        w > 0,
        0 <= lo < n,
        n % w == 0,
        lo % w == 0,
    ensures
        lo + w <= n,
{
    vstd::arithmetic::div_mod::lemma_fundamental_div_mod(n, w);
    vstd::arithmetic::div_mod::lemma_fundamental_div_mod(lo, w);
    let a = lo / w;
    let b = n / w;
    assert(a < b) by (nonlinear_arith)
        requires
            lo == w * a,
            n == w * b,
            lo < n,
            w > 0,
    ;
    assert(lo + w <= n) by (nonlinear_arith)
        requires
            lo == w * a,
            n == w * b,
            a + 1 <= b,
            w > 0,
    ;
}

} // verus!
