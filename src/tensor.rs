//! A row-major n-dimensional array whose element count always matches its shape.

use vstd::prelude::*;
use crate::scalar::Scalar;
use crate::shape;
use crate::shape::element_count;

verus! {

/// Why a tensor operation was refused.
#[derive(Debug, Clone, Copy, PartialEq, Eq, Structural)]
pub enum TensorError {
    /// The element count does not match the shape, or two shapes cannot be combined.
    ShapeMismatch,
    /// The inner dimensions of a matrix product disagree.
    DimensionMismatch,
    /// A matrix operation was asked of a tensor whose rank is not two.
    NotMatrix,
}

/// A tensor: its elements in row-major order and its shape.
pub struct Tensor<T> {
    data: Vec<T>,
    shape: Vec<usize>,
}

/// Index of entry `(i, j)` in a row-major matrix with `cols` columns.
pub open spec fn at(i: int, j: int, cols: int) -> int {
    i * cols + j
}

/// Row `i`, column `j` of an `(m×n)·(n×p)` product, summed over the first `k` terms.
pub open spec fn dot_entry<T: Scalar>(a: Seq<T>, b: Seq<T>, n: int, p: int, i: int, j: int, k: int) -> T
    decreases k,
{
    if k <= 0 {
        T::zero_spec()
    } else {
        dot_entry(a, b, n, p, i, j, k - 1).plus_spec(a[at(i, k - 1, n)].times_spec(b[at(k - 1, j, p)]))
    }
}

pub proof fn lemma_at_bound(i: int, j: int, rows: int, cols: int)
    requires
        0 <= i < rows,
        0 <= j < cols,
    ensures
        0 <= at(i, j, cols) < rows * cols,
        at(i, j, cols) + 1 <= rows * cols,
{
    assert(0 <= i * cols + j < rows * cols) by (nonlinear_arith)
        requires
            0 <= i < rows,
            0 <= j < cols,
    ;
}

impl<T> Tensor<T> {
    /// The elements, in row-major order.
    pub closed spec fn values(&self) -> Seq<T> {
        self.data@
    }

    /// The shape.
    pub closed spec fn dims(&self) -> Seq<usize> {
        self.shape@
    }

    /// The element count matches the shape, and the shape is valid.
    pub open spec fn wf(&self) -> bool {
        &&& shape::valid_shape(self.dims())
        &&& self.values().len() == shape::shape_product(self.dims())
    }

    /// A rank-two tensor, read as a matrix.
    pub open spec fn is_matrix(&self) -> bool {
        self.dims().len() == 2
    }

    pub open spec fn rows(&self) -> int {
        self.dims()[0] as int
    }

    pub open spec fn cols(&self) -> int {
        self.dims()[1] as int
    }

    /// Builds a tensor that owns `data`, laid out with `shape`.
    pub fn from_vec(data: Vec<T>, shape: Vec<usize>) -> (r: Result<Tensor<T>, TensorError>)
        ensures
            r.is_ok() <==> shape::valid_shape(shape@) && data@.len() == shape::shape_product(shape@),
            r.is_err() ==> r == Err::<Tensor<T>, TensorError>(TensorError::ShapeMismatch),
            r.is_ok() ==> r.unwrap().wf() && r.unwrap().values() == data@ && r.unwrap().dims()
                == shape@,
    {
        match element_count(&shape) {
            Some(n) => {
                if n == data.len() {
                    Ok(Tensor { data, shape })
                } else {
                    Err(TensorError::ShapeMismatch)
                }
            },
            None => Err(TensorError::ShapeMismatch),
        }
    }

    /// The same elements, in the same order, under another shape of equal element count.
    pub fn reshape(self, new_shape: Vec<usize>) -> (r: Result<Tensor<T>, TensorError>)
        requires
            self.wf(),
        ensures
            r.is_ok() <==> shape::valid_shape(new_shape@) && shape::shape_product(new_shape@) == shape::shape_product(
                self.dims(),
            ),
            r.is_err() ==> r == Err::<Tensor<T>, TensorError>(TensorError::ShapeMismatch),
            r.is_ok() ==> r.unwrap().wf() && r.unwrap().values() == self.values()
                && r.unwrap().dims() == new_shape@,
    {
        Tensor::from_vec(self.data, new_shape)
    }

    /// Number of elements.
    pub fn len(&self) -> (r: usize)
        ensures
            r == self.values().len(),
    {
        self.data.len()
    }

    /// The shape.
    pub fn shape(&self) -> (r: &Vec<usize>)
        ensures
            r@ == self.dims(),
    {
        &self.shape
    }

    /// The elements, in row-major order.
    pub fn data(&self) -> (r: &Vec<T>)
        ensures
            r@ == self.values(),
    {
        &self.data
    }

    /// Gives up the elements, in row-major order.
    pub fn into_vec(self) -> (r: Vec<T>)
        ensures
            r@ == self.values(),
    {
        self.data
    }

    /// The element at row-major position `i`.
    pub fn get(&self, i: usize) -> (r: Option<&T>)
        ensures
            i < self.values().len() ==> r == Some(&self.values()[i as int]),
            i >= self.values().len() ==> r.is_none(),
    {
        if i < self.data.len() {
            Some(&self.data[i])
        } else {
            None
        }
    }

    /// A tensor of this tensor's shape holding `data` (a transformed sequence of the same length).
    pub fn with_data<U>(&self, data: Vec<U>) -> (r: Result<Tensor<U>, TensorError>)
        requires
            self.wf(),
        ensures
            r.is_ok() <==> data@.len() == self.values().len(),
            r.is_err() ==> r == Err::<Tensor<U>, TensorError>(TensorError::ShapeMismatch),
            r.is_ok() ==> r.unwrap().wf() && r.unwrap().values() == data@ && r.unwrap().dims()
                == self.dims(),
    {
        let shape = self.shape.clone();
        assert(shape@ == self.shape@);
        Tensor::from_vec(data, shape)
    }
}


/// Data of any length with positive dimensions whose product is that length is a valid
/// tensor (so `from_vec` accepts it), and so is every other shape of positive dimensions with
/// the same element count (so `reshape` accepts it, keeping the element order).
pub proof fn lemma_construct_then_reshape(len: nat, s: Seq<usize>, new_shape: Seq<usize>)
    requires
        len <= usize::MAX,
        shape::dims_positive(s),
        shape::dims_positive(new_shape),
        len == shape::shape_product(s),
        shape::shape_product(new_shape) == shape::shape_product(s),
    ensures
        shape::valid_shape(s),
        shape::valid_shape(new_shape),
{
}

/// The elementwise operations.
#[derive(Debug, Clone, Copy, PartialEq, Eq, Structural)]
pub enum ElemOp {
    Add,
    Sub,
    Mul,
}

/// What an elementwise operation gives on one pair of elements.
pub open spec fn op_spec<T: Scalar>(op: ElemOp, x: T, y: T) -> T {
    match op {
        ElemOp::Add => x.plus_spec(y),
        ElemOp::Sub => x.minus_spec(y),
        ElemOp::Mul => x.times_spec(y),
    }
}

fn apply_op<T: Scalar>(op: ElemOp, x: T, y: T) -> (r: T)
    ensures
        r == op_spec(op, x, y),
{
    match op {
        ElemOp::Add => x.plus(y),
        ElemOp::Sub => x.minus(y),
        ElemOp::Mul => x.times(y),
    }
}

/// A two-dimensional shape holds as many elements as its two sizes multiplied.
pub proof fn lemma_product_pair(s: Seq<usize>)
    requires
        s.len() == 2,
    ensures
        shape::shape_product(s) == s[0] * s[1],
{
    let s1 = s.drop_last();
    assert(s1.drop_last().len() == 0);
    assert(shape::shape_product(s1.drop_last()) == 1);
    assert(s1.last() == s[0]);
    assert(shape::shape_product(s1) == s[0] as int);
}

/// A one-dimensional shape holds as many elements as its one size.
pub proof fn lemma_product_single(s: Seq<usize>)
    requires
        s.len() == 1,
    ensures
        shape::shape_product(s) == s[0],
{
    assert(s.drop_last().len() == 0);
    assert(shape::shape_product(s.drop_last()) == 1);
    assert(s.last() == s[0]);
}

/// Whether two shapes are equal.
pub fn same_dims(a: &Vec<usize>, b: &Vec<usize>) -> (r: bool)
    ensures
        r == (a@ == b@),
{
    if a.len() != b.len() {
        return false;
    }
    let mut i: usize = 0;
    while i < a.len()
        invariant
            a@.len() == b@.len(),
            i <= a@.len(),
            forall|k: int| 0 <= k < i ==> a@[k] == b@[k],
        decreases a.len() - i,
    {
        if a[i] != b[i] {
            return false;
        }
        i = i + 1;
    }
    assert(a@ =~= b@);
    true
}

impl<T: Copy> Tensor<T> {
    /// Picks each element from `self` where `picks` holds `true` and from `other` elsewhere.
    pub fn select(&self, other: &Tensor<T>, picks: &Vec<bool>) -> (r: Result<Tensor<T>, TensorError>)
        requires
            self.wf(),
            other.wf(),
        ensures
            r.is_ok() <==> self.dims() == other.dims() && picks@.len() == self.values().len(),
            r.is_err() ==> r == Err::<Tensor<T>, TensorError>(TensorError::ShapeMismatch),
            r.is_ok() ==> {
                let t = r.unwrap();
                &&& t.wf()
                &&& t.dims() == self.dims()
                &&& t.values().len() == self.values().len()
                &&& forall|k: int|
                    0 <= k < t.values().len() ==> #[trigger] t.values()[k] == if picks@[k] {
                        self.values()[k]
                    } else {
                        other.values()[k]
                    }
            },
    {
        if !same_dims(&self.shape, &other.shape) || picks.len() != self.data.len() {
            return Err(TensorError::ShapeMismatch);
        }
        let mut out: Vec<T> = Vec::new();
        let mut k: usize = 0;
        while k < self.data.len()
            invariant
                self.data@.len() == other.data@.len(),
                picks@.len() == self.data@.len(),
                k <= self.data@.len(),
                out@.len() == k,
                forall|q: int|
                    0 <= q < k ==> #[trigger] out@[q] == if picks@[q] {
                        self.data@[q]
                    } else {
                        other.data@[q]
                    },
            decreases self.data.len() - k,
        {
            let x = if picks[k] {
                self.data[k]
            } else {
                other.data[k]
            };
            out.push(x);
            k = k + 1;
        }
        Ok(Tensor { data: out, shape: self.shape.clone() })
    }

    /// A tensor with the same elements and the same shape.
    pub fn copy(&self) -> (r: Tensor<T>)
        ensures
            r.values() == self.values(),
            r.dims() == self.dims(),
    {
        let mut data: Vec<T> = Vec::new();
        let mut k: usize = 0;
        while k < self.data.len()
            invariant
                k <= self.data@.len(),
                data@ == self.data@.take(k as int),
            decreases self.data.len() - k,
        {
            data.push(self.data[k]);
            k = k + 1;
            assert(data@ =~= self.data@.take(k as int));
        }
        assert(self.data@.take(k as int) =~= self.data@);
        Tensor { data, shape: self.shape.clone() }
    }

    /// A tensor of the given shape with `value` at every position.
    pub fn from_element(value: T, shape: Vec<usize>) -> (r: Result<Tensor<T>, TensorError>)
        ensures
            r.is_ok() <==> shape::valid_shape(shape@),
            r.is_err() ==> r == Err::<Tensor<T>, TensorError>(TensorError::ShapeMismatch),
            r.is_ok() ==> r.unwrap().wf() && r.unwrap().dims() == shape@ && forall|k: int|
                0 <= k < r.unwrap().values().len() ==> r.unwrap().values()[k] == value,
    {
        match element_count(&shape) {
            Some(n) => {
                let mut data: Vec<T> = Vec::new();
                let mut i: usize = 0;
                while i < n
                    invariant
                        i <= n,
                        data@.len() == i,
                        forall|k: int| 0 <= k < i ==> data@[k] == value,
                    decreases n - i,
                {
                    data.push(value);
                    i = i + 1;
                }
                Ok(Tensor { data, shape })
            },
            None => Err(TensorError::ShapeMismatch),
        }
    }

    /// The transpose of a matrix: entry `(j, i)` of the result is entry `(i, j)` of `self`.
    pub fn transpose(&self) -> (r: Result<Tensor<T>, TensorError>)
        requires
            self.wf(),
        ensures
            r.is_ok() <==> self.is_matrix(),
            r.is_err() ==> r == Err::<Tensor<T>, TensorError>(TensorError::NotMatrix),
            r.is_ok() ==> {
                let t = r.unwrap();
                &&& t.wf()
                &&& t.dims() == seq![self.dims()[1], self.dims()[0]]
                &&& forall|i: int, j: int|
                    0 <= i < self.rows() && 0 <= j < self.cols() ==> #[trigger] t.values()[at(
                        j,
                        i,
                        self.rows(),
                    )] == self.values()[at(i, j, self.cols())]
            },
    {
        if self.shape.len() != 2 {
            return Err(TensorError::NotMatrix);
        }
        let m = self.shape[0];
        let n = self.shape[1];
        proof {
            lemma_product_pair(self.shape@);
        }
        let mut out: Vec<T> = Vec::new();
        let mut j: usize = 0;
        while j < n
            invariant
                self.wf(),
                self.shape@ == seq![m, n],
                self.data@.len() == m * n,
                m * n <= usize::MAX,
                j <= n,
                out@.len() == j * m,
                forall|jj: int, ii: int|
                    0 <= jj < j && 0 <= ii < m ==> #[trigger] out@[at(jj, ii, m as int)]
                        == self.data@[at(ii, jj, n as int)],
            decreases n - j,
        {
            let mut i: usize = 0;
            while i < m
                invariant
                    self.data@.len() == m * n,
                    m * n <= usize::MAX,
                    j < n,
                    i <= m,
                    out@.len() == j * m + i,
                    forall|jj: int, ii: int|
                        0 <= jj < j && 0 <= ii < m ==> #[trigger] out@[at(jj, ii, m as int)]
                            == self.data@[at(ii, jj, n as int)],
                    forall|ii: int|
                        0 <= ii < i ==> #[trigger] out@[at(j as int, ii, m as int)]
                            == self.data@[at(ii, j as int, n as int)],
                decreases m - i,
            {
                proof {
                    lemma_at_bound(i as int, j as int, m as int, n as int);
                    lemma_at_bound(j as int, i as int, n as int, m as int);
                }
                let x = self.data[i * n + j];
                let ghost prev = out@;
                out.push(x);
                proof {
                    assert forall|jj: int, ii: int| 0 <= jj < j && 0 <= ii < m implies #[trigger] out@[at(
                        jj,
                        ii,
                        m as int,
                    )] == self.data@[at(ii, jj, n as int)] by {
                        lemma_at_bound(jj, ii, j as int, m as int);
                        assert(prev[at(jj, ii, m as int)] == self.data@[at(ii, jj, n as int)]);
                    }
                }
                i = i + 1;
            }
            assert(out@.len() == (j + 1) * m) by (nonlinear_arith)
                requires
                    out@.len() == j * m + m,
            ;
            j = j + 1;
        }
        let shape: Vec<usize> = vec![n, m];
        assert(shape@ =~= seq![n, m]);
        proof {
            lemma_product_pair(shape@);
            assert(self.dims() == seq![m, n]);
            assert(n * m == m * n) by (nonlinear_arith);
            assert forall|i: int, j: int| 0 <= i < m && 0 <= j < n implies #[trigger] out@[at(
                j,
                i,
                m as int,
            )] == self.data@[at(i, j, n as int)] by {}
        }
        Ok(Tensor { data: out, shape })
    }
}

impl<T: Scalar> Tensor<T> {
    /// Matrix product: `(m×n)·(n×p)` gives `m×p`, each entry the sum over `k` of
    /// `self[i][k] * other[k][j]`.
    pub fn dot(&self, other: &Tensor<T>) -> (r: Result<Tensor<T>, TensorError>)
        requires
            self.wf(),
            other.wf(),
            self.is_matrix() && other.is_matrix() ==> self.rows() * other.cols() <= usize::MAX,
        ensures
            r.is_ok() <==> self.is_matrix() && other.is_matrix() && self.cols() == other.rows(),
            !(self.is_matrix() && other.is_matrix()) <==> r == Err::<Tensor<T>, TensorError>(
                TensorError::NotMatrix,
            ),
            self.is_matrix() && other.is_matrix() && self.cols() != other.rows() <==> r == Err::<
                Tensor<T>,
                TensorError,
            >(TensorError::DimensionMismatch),
            r.is_ok() ==> {
                let t = r.unwrap();
                &&& t.wf()
                &&& t.dims() == seq![self.dims()[0], other.dims()[1]]
                &&& forall|i: int, j: int|
                    0 <= i < self.rows() && 0 <= j < other.cols() ==> #[trigger] t.values()[at(
                        i,
                        j,
                        other.cols(),
                    )] == dot_entry(
                        self.values(),
                        other.values(),
                        self.cols(),
                        other.cols(),
                        i,
                        j,
                        self.cols(),
                    )
            },
    {
        if self.shape.len() != 2 || other.shape.len() != 2 {
            return Err(TensorError::NotMatrix);
        }
        let m = self.shape[0];
        let n = self.shape[1];
        let p = other.shape[1];
        if other.shape[0] != n {
            return Err(TensorError::DimensionMismatch);
        }
        proof {
            lemma_product_pair(self.shape@);
            lemma_product_pair(other.shape@);
        }
        let ghost a = self.data@;
        let ghost b = other.data@;
        let mut out: Vec<T> = Vec::new();
        let mut i: usize = 0;
        while i < m
            invariant
                a == self.data@,
                b == other.data@,
                a.len() == m * n,
                b.len() == n * p,
                m * n <= usize::MAX,
                n * p <= usize::MAX,
                i <= m,
                out@.len() == i * p,
                forall|ii: int, jj: int|
                    0 <= ii < i && 0 <= jj < p ==> #[trigger] out@[at(ii, jj, p as int)]
                        == dot_entry(a, b, n as int, p as int, ii, jj, n as int),
            decreases m - i,
        {
            let mut j: usize = 0;
            while j < p
                invariant
                    a == self.data@,
                    b == other.data@,
                    a.len() == m * n,
                    b.len() == n * p,
                    m * n <= usize::MAX,
                    n * p <= usize::MAX,
                    i < m,
                    j <= p,
                    out@.len() == i * p + j,
                    forall|ii: int, jj: int|
                        0 <= ii < i && 0 <= jj < p ==> #[trigger] out@[at(ii, jj, p as int)]
                            == dot_entry(a, b, n as int, p as int, ii, jj, n as int),
                    forall|jj: int|
                        0 <= jj < j ==> #[trigger] out@[at(i as int, jj, p as int)] == dot_entry(
                            a,
                            b,
                            n as int,
                            p as int,
                            i as int,
                            jj,
                            n as int,
                        ),
                decreases p - j,
            {
                let mut acc = T::zero();
                let mut k: usize = 0;
                while k < n
                    invariant
                        a == self.data@,
                        b == other.data@,
                        a.len() == m * n,
                        b.len() == n * p,
                        m * n <= usize::MAX,
                        n * p <= usize::MAX,
                        i < m,
                        j < p,
                        k <= n,
                        acc == dot_entry(a, b, n as int, p as int, i as int, j as int, k as int),
                    decreases n - k,
                {
                    proof {
                        lemma_at_bound(i as int, k as int, m as int, n as int);
                        lemma_at_bound(k as int, j as int, n as int, p as int);
                    }
                    let x = self.data[i * n + k];
                    let y = other.data[k * p + j];
                    acc = acc.plus(x.times(y));
                    k = k + 1;
                }
                let ghost prev = out@;
                proof {
                    lemma_at_bound(i as int, j as int, m as int, p as int);
                }
                out.push(acc);
                proof {
                    assert forall|ii: int, jj: int| 0 <= ii < i && 0 <= jj < p implies #[trigger] out@[at(
                        ii,
                        jj,
                        p as int,
                    )] == dot_entry(a, b, n as int, p as int, ii, jj, n as int) by {
                        lemma_at_bound(ii, jj, i as int, p as int);
                        assert(prev[at(ii, jj, p as int)] == dot_entry(
                            a,
                            b,
                            n as int,
                            p as int,
                            ii,
                            jj,
                            n as int,
                        ));
                    }
                    assert forall|jj: int| 0 <= jj < j + 1 implies #[trigger] out@[at(
                        i as int,
                        jj,
                        p as int,
                    )] == dot_entry(a, b, n as int, p as int, i as int, jj, n as int) by {
                        if jj < j {
                            assert(prev[at(i as int, jj, p as int)] == dot_entry(
                                a,
                                b,
                                n as int,
                                p as int,
                                i as int,
                                jj,
                                n as int,
                            ));
                        }
                    }
                }
                j = j + 1;
            }
            assert(out@.len() == (i + 1) * p) by (nonlinear_arith)
                requires
                    out@.len() == i * p + p,
            ;
            i = i + 1;
        }
        let shape: Vec<usize> = vec![m, p];
        assert(shape@ =~= seq![m, p]);
        proof {
            lemma_product_pair(shape@);
            assert(out@.len() == m * p);
        }
        Ok(Tensor { data: out, shape })
    }

    /// Combines two tensors element by element. The shapes must be equal, or one of the two
    /// tensors must hold a single value, which is then combined with every element of the other.
    pub fn elementwise(&self, other: &Tensor<T>, op: ElemOp) -> (r: Result<Tensor<T>, TensorError>)
        requires
            self.wf(),
            other.wf(),
        ensures
            r.is_ok() <==> (self.dims() == other.dims() || self.values().len() == 1
                || other.values().len() == 1),
            r.is_err() ==> r == Err::<Tensor<T>, TensorError>(TensorError::ShapeMismatch),
            r.is_ok() && self.dims() == other.dims() ==> {
                let t = r.unwrap();
                &&& t.wf()
                &&& t.dims() == self.dims()
                &&& t.values().len() == self.values().len()
                &&& forall|k: int|
                    0 <= k < t.values().len() ==> #[trigger] t.values()[k] == op_spec(
                        op,
                        self.values()[k],
                        other.values()[k],
                    )
            },
            r.is_ok() && self.dims() != other.dims() && self.values().len() == 1 ==> {
                let t = r.unwrap();
                &&& t.wf()
                &&& t.dims() == other.dims()
                &&& t.values().len() == other.values().len()
                &&& forall|k: int|
                    0 <= k < t.values().len() ==> #[trigger] t.values()[k] == op_spec(
                        op,
                        self.values()[0],
                        other.values()[k],
                    )
            },
            r.is_ok() && self.dims() != other.dims() && self.values().len() != 1 ==> {
                let t = r.unwrap();
                &&& t.wf()
                &&& t.dims() == self.dims()
                &&& t.values().len() == self.values().len()
                &&& forall|k: int|
                    0 <= k < t.values().len() ==> #[trigger] t.values()[k] == op_spec(
                        op,
                        self.values()[k],
                        other.values()[0],
                    )
            },
    {
        let same = same_dims(&self.shape, &other.shape);
        let left_single = self.data.len() == 1;
        let right_single = other.data.len() == 1;
        if !same && !left_single && !right_single {
            return Err(TensorError::ShapeMismatch);
        }
        let n = if same || !left_single {
            self.data.len()
        } else {
            other.data.len()
        };
        let mut out: Vec<T> = Vec::new();
        let mut k: usize = 0;
        while k < n
            invariant
                k <= n,
                same ==> self.data@.len() == other.data@.len() && n == self.data@.len(),
                !same && left_single ==> n == other.data@.len() && self.data@.len() == 1,
                !same && !left_single ==> n == self.data@.len() && right_single
                    && other.data@.len() == 1,
                out@.len() == k,
                forall|q: int|
                    0 <= q < k ==> #[trigger] out@[q] == op_spec(
                        op,
                        if same || !left_single {
                            self.data@[q]
                        } else {
                            self.data@[0]
                        },
                        if same || left_single {
                            other.data@[q]
                        } else {
                            other.data@[0]
                        },
                    ),
            decreases n - k,
        {
            let x = if same || !left_single {
                self.data[k]
            } else {
                self.data[0]
            };
            let y = if same || left_single {
                other.data[k]
            } else {
                other.data[0]
            };
            out.push(apply_op(op, x, y));
            k = k + 1;
        }
        let shape = if same || !left_single {
            self.shape.clone()
        } else {
            other.shape.clone()
        };
        Ok(Tensor { data: out, shape })
    }
}

/// Entry `j` of `wᵀ·d` for a `rows×cols` matrix `w`, summed over its first `k` rows.
pub open spec fn tdot_entry<T: Scalar>(w: Seq<T>, d: Seq<T>, cols: int, j: int, k: int) -> T
    decreases k,
{
    if k <= 0 {
        T::zero_spec()
    } else {
        tdot_entry(w, d, cols, j, k - 1).plus_spec(w[at(k - 1, j, cols)].times_spec(d[k - 1]))
    }
}

impl<T: Scalar> Tensor<T> {
    /// Every element multiplied by `s`.
    pub fn scale(&self, s: T) -> (r: Tensor<T>)
        requires
            self.wf(),
        ensures
            r.wf(),
            r.dims() == self.dims(),
            r.values().len() == self.values().len(),
            forall|k: int|
                0 <= k < r.values().len() ==> #[trigger] r.values()[k] == self.values()[k].times_spec(
                    s,
                ),
    {
        let mut out: Vec<T> = Vec::new();
        let mut k: usize = 0;
        while k < self.data.len()
            invariant
                k <= self.data@.len(),
                out@.len() == k,
                forall|q: int| 0 <= q < k ==> #[trigger] out@[q] == self.data@[q].times_spec(s),
            decreases self.data.len() - k,
        {
            out.push(self.data[k].times(s));
            k = k + 1;
        }
        Tensor { data: out, shape: self.shape.clone() }
    }

    /// The outer product of two tensors read as flat vectors: an `n×m` matrix whose entry
    /// `(i, j)` is `self[i] * other[j]`.
    pub fn outer(&self, other: &Tensor<T>) -> (r: Tensor<T>)
        requires
            self.wf(),
            other.wf(),
            self.values().len() * other.values().len() <= usize::MAX,
        ensures
            r.wf(),
            r.dims() == seq![self.values().len() as usize, other.values().len() as usize],
            r.values().len() == self.values().len() * other.values().len(),
            forall|i: int, j: int|
                0 <= i < self.values().len() && 0 <= j < other.values().len()
                    ==> #[trigger] r.values()[at(i, j, other.values().len() as int)]
                    == self.values()[i].times_spec(other.values()[j]),
    {
        let n = self.data.len();
        let m = other.data.len();
        proof {
            shape::lemma_product_monotone(self.shape@, 0, 0);
            shape::lemma_product_monotone(other.shape@, 0, 0);
        }
        let mut out: Vec<T> = Vec::new();
        let mut i: usize = 0;
        while i < n
            invariant
                n == self.data@.len(),
                m == other.data@.len(),
                n * m <= usize::MAX,
                i <= n,
                out@.len() == i * m,
                forall|ii: int, jj: int|
                    0 <= ii < i && 0 <= jj < m ==> #[trigger] out@[at(ii, jj, m as int)]
                        == self.data@[ii].times_spec(other.data@[jj]),
            decreases n - i,
        {
            let mut j: usize = 0;
            while j < m
                invariant
                    n == self.data@.len(),
                    m == other.data@.len(),
                    n * m <= usize::MAX,
                    i < n,
                    j <= m,
                    out@.len() == i * m + j,
                    forall|ii: int, jj: int|
                        0 <= ii < i && 0 <= jj < m ==> #[trigger] out@[at(ii, jj, m as int)]
                            == self.data@[ii].times_spec(other.data@[jj]),
                    forall|jj: int|
                        0 <= jj < j ==> #[trigger] out@[at(i as int, jj, m as int)]
                            == self.data@[i as int].times_spec(other.data@[jj]),
                decreases m - j,
            {
                let ghost prev = out@;
                proof {
                    lemma_at_bound(i as int, j as int, n as int, m as int);
                }
                out.push(self.data[i].times(other.data[j]));
                proof {
                    assert forall|ii: int, jj: int| 0 <= ii < i && 0 <= jj < m implies #[trigger] out@[at(
                        ii,
                        jj,
                        m as int,
                    )] == self.data@[ii].times_spec(other.data@[jj]) by {
                        lemma_at_bound(ii, jj, i as int, m as int);
                        assert(prev[at(ii, jj, m as int)] == self.data@[ii].times_spec(
                            other.data@[jj],
                        ));
                    }
                    assert forall|jj: int| 0 <= jj < j + 1 implies #[trigger] out@[at(
                        i as int,
                        jj,
                        m as int,
                    )] == self.data@[i as int].times_spec(other.data@[jj]) by {
                        if jj < j {
                            assert(prev[at(i as int, jj, m as int)] == self.data@[i as int].times_spec(
                                other.data@[jj],
                            ));
                        }
                    }
                }
                j = j + 1;
            }
            assert(out@.len() == (i + 1) * m) by (nonlinear_arith)
                requires
                    out@.len() == i * m + m,
            ;
            i = i + 1;
        }
        let shape: Vec<usize> = vec![n, m];
        assert(shape@ =~= seq![n, m]);
        proof {
            lemma_product_pair(shape@);
            assert(n >= 1 && m >= 1) by {
                shape::lemma_product_monotone(self.shape@, 0, self.shape@.len() as int);
                shape::lemma_product_monotone(other.shape@, 0, other.shape@.len() as int);
                assert(self.shape@.take(self.shape@.len() as int) =~= self.shape@);
                assert(other.shape@.take(other.shape@.len() as int) =~= other.shape@);
            }
        }
        Tensor { data: out, shape }
    }

    /// The product of this matrix's transpose with `v`, read as a column: for a `rows×cols`
    /// matrix and `rows` values, `cols` values, entry `j` summing `self[i][j] * v[i]` over `i`.
    pub fn transpose_dot(&self, v: &Tensor<T>) -> (r: Result<Tensor<T>, TensorError>)
        requires
            self.wf(),
            v.wf(),
        ensures
            r.is_ok() <==> self.is_matrix() && self.rows() == v.values().len(),
            !self.is_matrix() <==> r == Err::<Tensor<T>, TensorError>(TensorError::NotMatrix),
            self.is_matrix() && self.rows() != v.values().len() <==> r == Err::<
                Tensor<T>,
                TensorError,
            >(TensorError::DimensionMismatch),
            r.is_ok() ==> {
                let t = r.unwrap();
                &&& t.wf()
                &&& t.dims() == seq![self.dims()[1]]
                &&& forall|j: int|
                    0 <= j < self.cols() ==> #[trigger] t.values()[j] == tdot_entry(
                        self.values(),
                        v.values(),
                        self.cols(),
                        j,
                        self.rows(),
                    )
            },
    {
        if self.shape.len() != 2 {
            return Err(TensorError::NotMatrix);
        }
        let rows = self.shape[0];
        let cols = self.shape[1];
        if v.data.len() != rows {
            return Err(TensorError::DimensionMismatch);
        }
        proof {
            lemma_product_pair(self.shape@);
        }
        let ghost w = self.data@;
        let mut out: Vec<T> = Vec::new();
        let mut j: usize = 0;
        while j < cols
            invariant
                w == self.data@,
                w.len() == rows * cols,
                rows * cols <= usize::MAX,
                v.data@.len() == rows,
                j <= cols,
                out@.len() == j,
                forall|q: int|
                    0 <= q < j ==> #[trigger] out@[q] == tdot_entry(
                        w,
                        v.data@,
                        cols as int,
                        q,
                        rows as int,
                    ),
            decreases cols - j,
        {
            let mut acc = T::zero();
            let mut i: usize = 0;
            while i < rows
                invariant
                    w == self.data@,
                    w.len() == rows * cols,
                    rows * cols <= usize::MAX,
                    v.data@.len() == rows,
                    j < cols,
                    i <= rows,
                    acc == tdot_entry(w, v.data@, cols as int, j as int, i as int),
                decreases rows - i,
            {
                proof {
                    lemma_at_bound(i as int, j as int, rows as int, cols as int);
                }
                acc = acc.plus(self.data[i * cols + j].times(v.data[i]));
                i = i + 1;
            }
            out.push(acc);
            j = j + 1;
        }
        let shape: Vec<usize> = vec![cols];
        assert(shape@ =~= seq![cols]);
        proof {
            let s = shape@;
            lemma_product_single(s);
        }
        Ok(Tensor { data: out, shape })
    }
}

} // verus!
