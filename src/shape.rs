//! Shape algebra: how many elements a shape describes.

use vstd::prelude::*;

verus! {

/// The number of elements that a row-major array of shape `s` holds.
pub open spec fn shape_product(s: Seq<usize>) -> int
    decreases s.len(),
{
    if s.len() == 0 {
        1
    } else {
        shape_product(s.drop_last()) * s.last()
    }
}

/// Every dimension of the shape is at least one.
pub open spec fn dims_positive(s: Seq<usize>) -> bool {
    forall|i: int| 0 <= i < s.len() ==> s[i] > 0
}

/// A shape that a tensor can have: positive dimensions whose product fits in `usize`.
pub open spec fn valid_shape(s: Seq<usize>) -> bool {
    dims_positive(s) && shape_product(s) <= usize::MAX
}

/// With positive dimensions, the product of a prefix never exceeds the product of a longer one.
pub proof fn lemma_product_monotone(s: Seq<usize>, j: int, k: int)
    requires
        dims_positive(s),
        0 <= j <= k <= s.len(),
    ensures
        1 <= shape_product(s.take(j)) <= shape_product(s.take(k)),
    decreases k,
{
    if k > 0 {
        let sk = s.take(k);
        assert(sk.drop_last() =~= s.take(k - 1));
        let jj = if j < k { j } else { k - 1 };
        lemma_product_monotone(s, jj, k - 1);
        let p = shape_product(s.take(k - 1));
        let d = s[k - 1] as int;
        assert(p <= p * d) by (nonlinear_arith)
            requires
                1 <= p,
                d >= 1,
        ;
    } else {
        assert(s.take(0).len() == 0);
    }
}

/// The element count of `shape`, or `None` when the shape is not valid
/// (a zero dimension, or a count beyond `usize`).
pub fn element_count(shape: &Vec<usize>) -> (r: Option<usize>)
    ensures
        r.is_some() <==> valid_shape(shape@),
        r.is_some() ==> r.unwrap() == shape_product(shape@),
{
    let mut i: usize = 0;
    while i < shape.len()
        invariant
            i <= shape.len(),
            forall|k: int| 0 <= k < i ==> shape@[k] > 0,
        decreases shape.len() - i,
    {
        if shape[i] == 0 {
            return None;
        }
        i = i + 1;
    }
    assert(dims_positive(shape@));
    let mut acc: usize = 1;
    let mut j: usize = 0;
    while j < shape.len()
        invariant
            j <= shape.len(),
            dims_positive(shape@),
            acc == shape_product(shape@.take(j as int)),
        decreases shape.len() - j,
    {
        assert(shape@.take(j + 1).drop_last() =~= shape@.take(j as int));
        match acc.checked_mul(shape[j]) {
            Some(v) => {
                acc = v;
            },
            None => {
                proof {
                    lemma_product_monotone(shape@, j + 1, shape.len() as int);
                    assert(shape@.take(shape.len() as int) =~= shape@);
                }
                return None;
            },
        }
        j = j + 1;
    }
    assert(shape@.take(shape.len() as int) =~= shape@);
    Some(acc)
}

} // verus!
