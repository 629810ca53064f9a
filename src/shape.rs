use crate::errors::RuNeVisError;
use vstd::prelude::*;

verus! {

/// Number of elements of an array of the given shape: the product of its
/// extents (1 for the empty shape of a scalar).
pub open spec fn shape_size(shape: Seq<usize>) -> nat
    decreases shape.len(),
{
    if shape.len() == 0 {
        1
    } else {
        shape_size(shape.drop_last()) * (shape.last() as nat)
    }
}

/// The element count of a concatenation is the product of the parts' counts.
pub proof fn lemma_shape_size_concat(a: Seq<usize>, b: Seq<usize>)
    ensures
        shape_size(a + b) == shape_size(a) * shape_size(b),
    decreases b.len(),
{
    if b.len() == 0 {
        assert(a + b =~= a);
        assert(shape_size(b) == 1);
    } else {
        lemma_shape_size_concat(a, b.drop_last());
        assert((a + b).drop_last() =~= a + b.drop_last());
        assert((a + b).last() == b.last());
        let x = shape_size(a);
        let y = shape_size(b.drop_last());
        let z = b.last() as nat;
        assert(shape_size(a + b) == shape_size(a + b.drop_last()) * z);
        assert(shape_size(b) == y * z);
        assert(x * y * z == x * (y * z)) by (nonlinear_arith);
        assert(shape_size(a + b.drop_last()) == x * y);
    }
}

/// A shape with a zero extent holds no element.
pub proof fn lemma_shape_size_zero(shape: Seq<usize>, i: int)
    requires
        0 <= i < shape.len(),
        shape[i] == 0,
    ensures
        shape_size(shape) == 0,
    decreases shape.len(),
{
    let x = shape_size(shape.drop_last());
    let z = shape.last() as nat;
    if i == shape.len() - 1 {
        assert(x * z == 0) by (nonlinear_arith)
            requires
                z == 0,
        ;
    } else {
        lemma_shape_size_zero(shape.drop_last(), i);
        assert(x * z == 0) by (nonlinear_arith)
            requires
                x == 0,
        ;
    }
}

/// Without zero extents, a prefix never holds more elements than the whole.
pub proof fn lemma_shape_size_prefix(shape: Seq<usize>, k: int)
    requires
        0 <= k <= shape.len(),
        forall|i: int| 0 <= i < shape.len() ==> shape[i] >= 1,
    ensures
        shape_size(shape.take(k)) <= shape_size(shape),
    decreases shape.len() - k,
{
    if k == shape.len() {
        assert(shape.take(k) =~= shape);
    } else {
        lemma_shape_size_prefix(shape, k + 1);
        assert(shape.take(k + 1).drop_last() =~= shape.take(k));
        let x = shape_size(shape.take(k));
        let y = shape[k] as nat;
        assert(x <= x * y) by (nonlinear_arith)
            requires
                y >= 1,
        ;
    }
}

/// Element count of `shape`, or `None` where it does not fit in `usize`.
pub fn checked_shape_size(shape: &Vec<usize>) -> (r: Option<usize>)
    ensures
        shape_size(shape@) <= usize::MAX ==> r == Some(shape_size(shape@) as usize),
        shape_size(shape@) > usize::MAX ==> r is None,
{
    let n = shape.len();
    let mut i: usize = 0;
    while i < n
        invariant
            0 <= i <= n,
            n == shape@.len(),
            forall|j: int| 0 <= j < i ==> shape@[j] >= 1,
        decreases n - i,
    {
        if shape[i] == 0 {
            proof {
                lemma_shape_size_zero(shape@, i as int);
            }
            return Some(0);
        }
        i = i + 1;
    }
    let mut acc: usize = 1;
    let mut k: usize = 0;
    while k < n
        invariant
            0 <= k <= n,
            n == shape@.len(),
            forall|j: int| 0 <= j < n ==> shape@[j] >= 1,
            acc as nat == shape_size(shape@.take(k as int)),
        decreases n - k,
    {
        proof {
            assert(shape@.take(k + 1).drop_last() =~= shape@.take(k as int));
        }
        match acc.checked_mul(shape[k]) {
            Some(p) => {
                acc = p;
            },
            None => {
                proof {
                    lemma_shape_size_prefix(shape@, k + 1);
                }
                return None;
            },
        }
        k = k + 1;
    }
    proof {
        assert(shape@.take(n as int) =~= shape@);
    }
    Some(acc)
}

/// A multi-dimensional array stored flat in row-major order: the last axis
/// varies fastest. The buffer always holds exactly `shape_size(shape)`
/// elements, and an array is never changed after it is built.
#[derive(Debug)]
pub struct NDArray<T> {
    shape: Vec<usize>,
    data: Vec<T>,
}

impl<T> NDArray<T> {
    #[verifier::type_invariant]
    spec fn well_formed(&self) -> bool {
        self.data@.len() == shape_size(self.shape@)
    }

    /// The extents of the axes, outermost first.
    pub closed spec fn shape_view(&self) -> Seq<usize> {
        self.shape@
    }

    /// The elements in row-major order.
    pub closed spec fn data_view(&self) -> Seq<T> {
        self.data@
    }

    /// The buffer, by reference.
    pub closed spec fn data_ref(&self) -> &Vec<T> {
        &self.data
    }

    /// Builds an array from its shape and its row-major buffer; fails with
    /// `ShapeMismatch` exactly when the buffer's length is not the shape's
    /// element count.
    pub fn from_shape_vec(shape: Vec<usize>, data: Vec<T>) -> (r: Result<NDArray<T>, RuNeVisError>)
        ensures
            r is Ok <==> data@.len() == shape_size(shape@),
            r matches Ok(a) ==> a.shape_view() == shape@ && a.data_view() == data@,
            r matches Err(e) ==> e == (RuNeVisError::ShapeMismatch { data_len: data@.len() as usize }),
    {
        match checked_shape_size(&shape) {
            Some(n) => {
                if n == data.len() {
                    Ok(NDArray { shape, data })
                } else {
                    Err(RuNeVisError::ShapeMismatch { data_len: data.len() })
                }
            },
            None => Err(RuNeVisError::ShapeMismatch { data_len: data.len() }),
        }
    }

    /// Builds an array whose buffer is known to fit its shape.
    pub(crate) fn from_fitting_parts(shape: Vec<usize>, data: Vec<T>) -> (r: NDArray<T>)
        requires
            data@.len() == shape_size(shape@),
        ensures
            r.shape_view() == shape@,
            r.data_view() == data@,
    {
        NDArray { shape, data }
    }

    /// The extents of the axes.
    pub fn shape(&self) -> (r: &Vec<usize>)
        ensures
            r@ == self.shape_view(),
    {
        &self.shape
    }

    /// The row-major buffer.
    pub fn data(&self) -> (r: &Vec<T>)
        ensures
            r@ == self.data_view(),
            r == self.data_ref(),
    {
        &self.data
    }

    /// Number of axes.
    pub fn ndim(&self) -> (r: usize)
        ensures
            r == self.shape_view().len(),
    {
        self.shape.len()
    }

    /// Number of elements: the buffer's length, which is always the product
    /// of the extents.
    pub fn len(&self) -> (r: usize)
        ensures
            r == self.data_view().len(),
            r == shape_size(self.shape_view()),
    {
        proof {
            use_type_invariant(self);
        }
        self.data.len()
    }

    /// Gives the shape and the buffer back.
    pub fn into_parts(self) -> (r: (Vec<usize>, Vec<T>))
        ensures
            r.0@ == self.shape_view(),
            r.1@ == self.data_view(),
            r.1@.len() == shape_size(r.0@),
    {
        proof {
            use_type_invariant(&self);
        }
        (self.shape, self.data)
    }
}

} // verus!
