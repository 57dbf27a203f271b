use vstd::prelude::*;
use crate::element::Element;

verus! {

/// The number of entries that a tensor of shape `s` holds: the product of its dimensions.
pub open spec fn volume(s: Seq<usize>) -> int
    decreases s.len(),
{
    if s.len() == 0 {
        1
    } else {
        volume(s.drop_last()) * s.last()
    }
}

/// Why a tensor could not be built.
#[derive(Debug, PartialEq, Eq, Structural)]
pub enum TensorError {
    /// The number of entries given is not the product of the dimensions.
    DataShapeMismatch,
}

impl TensorError {
    pub fn message(&self) -> (r: &'static str) {
        match self {
            TensorError::DataShapeMismatch => "The length of the `data` param does not match the values of the `shape` param",
        }
    }
}

/// What a tensor offers: its shape, and a way to build one from a shape and its entries.
pub trait Tensor<E>: Sized {
    fn shape(&self) -> Vec<usize>;

    fn from_vec(shape: Vec<usize>, data: Vec<E>) -> Result<Self, TensorError>;
}

/// A dense tensor: its entries in row-major order, as many as the product of its dimensions.
pub struct TensorImpl<E> {
    shape: Vec<usize>,
    data: Vec<E>,
}

proof fn lemma_volume_grows(s: Seq<usize>, j: int, k: int)
    requires
        0 <= j <= k <= s.len(),
        forall|i: int| 0 <= i < s.len() ==> s[i] >= 1,
    ensures
        1 <= volume(s.take(j)) <= volume(s.take(k)),
    decreases k,
{
    if k > 0 {
        assert(s.take(k).drop_last() =~= s.take(k - 1));
        if j < k {
            lemma_volume_grows(s, j, k - 1);
        } else {
            lemma_volume_grows(s, j - 1, k - 1);
        }
        let a = volume(s.take(k - 1));
        let b = s[k - 1] as int;
        assert(a <= a * b) by (nonlinear_arith)
            requires
                a >= 1,
                b >= 1,
        ;
    } else {
        assert(s.take(0) =~= Seq::<usize>::empty());
    }
}

proof fn lemma_volume_zero(s: Seq<usize>, z: int, k: int)
    requires
        0 <= z < k <= s.len(),
        s[z] == 0,
    ensures
        volume(s.take(k)) == 0,
    decreases k,
{
    assert(s.take(k).drop_last() =~= s.take(k - 1));
    let a = volume(s.take(k - 1));
    let b = s.take(k).last() as int;
    if z < k - 1 {
        lemma_volume_zero(s, z, k - 1);
        assert(a * b == 0) by (nonlinear_arith)
            requires
                a == 0,
        ;
    } else {
        assert(a * b == 0) by (nonlinear_arith)
            requires
                b == 0,
        ;
    }
}

/// The product of the dimensions of `shape`, when it fits in a `usize`.
fn volume_of(shape: &Vec<usize>) -> (r: Option<usize>)
    ensures
        r matches Some(v) ==> v == volume(shape@),
        r is None ==> volume(shape@) > usize::MAX,
{
    let n = shape.len();
    let mut z: usize = 0;
    while z < n
        invariant
            z <= n == shape@.len(),
            forall|i: int| 0 <= i < z ==> shape@[i] >= 1,
        decreases n - z,
    {
        if shape[z] == 0 {
            proof {
                lemma_volume_zero(shape@, z as int, n as int);
                assert(shape@.take(n as int) =~= shape@);
            }
            return Some(0);
        }
        z = z + 1;
    }
    let mut v: usize = 1;
    let mut k: usize = 0;
    proof {
        assert(shape@.take(0) =~= Seq::<usize>::empty());
    }
    while k < n
        invariant
            k <= n == shape@.len(),
            forall|i: int| 0 <= i < n ==> shape@[i] >= 1,
            v == volume(shape@.take(k as int)),
        decreases n - k,
    {
        proof {
            assert(shape@.take(k + 1).drop_last() =~= shape@.take(k as int));
        }
        match v.checked_mul(shape[k]) {
            Some(w) => {
                v = w;
            },
            None => {
                proof {
                    lemma_volume_grows(shape@, k + 1, n as int);
                    assert(shape@.take(n as int) =~= shape@);
                }
                return None;
            },
        }
        k = k + 1;
    }
    proof {
        assert(shape@.take(n as int) =~= shape@);
    }
    Some(v)
}

impl<E> TensorImpl<E> {
    pub closed spec fn shape_view(&self) -> Seq<usize> {
        self.shape@
    }

    pub closed spec fn data_view(&self) -> Seq<E> {
        self.data@
    }

    /// The entries hold exactly as many values as the dimensions give.
    pub open spec fn wf(&self) -> bool {
        volume(self.shape_view()) == self.data_view().len()
    }

    /// The tensor of shape `shape` with entries `data`, which hold as many values as the
    /// dimensions give.
    pub fn new(shape: Vec<usize>, data: Vec<E>) -> (r: Self)
        requires
            volume(shape@) == data@.len(),
        ensures
            r.shape_view() == shape@,
            r.data_view() == data@,
            r.wf(),
    {
        TensorImpl { shape, data }
    }

    /// A tensor of shape `shape` with entries `data`, or an error when `data` does not hold
    /// the product of the dimensions in entries.
    pub fn from_vec(shape: Vec<usize>, data: Vec<E>) -> (r: Result<Self, TensorError>)
        ensures
            r is Ok <==> volume(shape@) == data@.len(),
            r matches Ok(t) ==> t.shape_view() == shape@ && t.data_view() == data@ && t.wf(),
            r matches Err(e) ==> e == TensorError::DataShapeMismatch,
    {
        let len = data.len();
        match volume_of(&shape) {
            Some(v) => if v == len {
                Ok(TensorImpl::new(shape, data))
            } else {
                Err(TensorError::DataShapeMismatch)
            },
            None => Err(TensorError::DataShapeMismatch),
        }
    }

    pub fn shape(&self) -> (r: Vec<usize>)
        ensures
            r@ == self.shape_view(),
    {
        let mut r: Vec<usize> = Vec::new();
        let mut i: usize = 0;
        while i < self.shape.len()
            invariant
                i <= self.shape@.len(),
                r@ == self.shape@.take(i as int),
            decreases self.shape@.len() - i,
        {
            r.push(self.shape[i]);
            i = i + 1;
            proof {
                assert(r@ =~= self.shape@.take(i as int));
            }
        }
        proof {
            assert(self.shape@.take(i as int) =~= self.shape@);
        }
        r
    }

    /// The entries, in row-major order.
    pub fn data(&self) -> (r: &Vec<E>)
        ensures
            r@ == self.data_view(),
    {
        &self.data
    }

}

impl<E: Element> TensorImpl<E> {
    /// The entry-wise sum of two tensors of the same shape.
    pub fn add_tensor(self, other: Self) -> (r: Self)
        requires
            self.wf(),
            other.wf(),
            self.shape_view() == other.shape_view(),
            forall|i: int| 0 <= i < self.data_view().len() ==> call_requires(E::add, (#[trigger] self.data_view()[i], other.data_view()[i])),
        ensures
            r.wf(),
            r.shape_view() == self.shape_view(),
            r.data_view().len() == self.data_view().len(),
            forall|i: int| 0 <= i < r.data_view().len() ==> call_ensures(E::add, (self.data_view()[i], other.data_view()[i]), #[trigger] r.data_view()[i]),
    {
        let n = self.data.len();
        let mut data: Vec<E> = Vec::new();
        let mut i: usize = 0;
        while i < n
            invariant
                n == self.data@.len() == other.data@.len(),
                i <= n,
                data@.len() == i,
                forall|j: int| 0 <= j < n ==> call_requires(E::add, (#[trigger] self.data@[j], other.data@[j])),
                forall|j: int| 0 <= j < i ==> call_ensures(E::add, (self.data@[j], other.data@[j]), #[trigger] data@[j]),
            decreases n - i,
        {
            let s = self.data[i] + other.data[i];
            data.push(s);
            i = i + 1;
        }
        TensorImpl { shape: self.shape, data }
    }

    /// Adds `scalar` to every entry.
    pub fn add_scalar(self, scalar: E) -> (r: Self)
        requires
            self.wf(),
            forall|i: int| 0 <= i < self.data_view().len() ==> call_requires(E::add, (#[trigger] self.data_view()[i], scalar)),
        ensures
            r.wf(),
            r.shape_view() == self.shape_view(),
            r.data_view().len() == self.data_view().len(),
            forall|i: int| 0 <= i < r.data_view().len() ==> call_ensures(E::add, (self.data_view()[i], scalar), #[trigger] r.data_view()[i]),
    {
        let n = self.data.len();
        let mut data: Vec<E> = Vec::new();
        let mut i: usize = 0;
        while i < n
            invariant
                n == self.data@.len(),
                i <= n,
                data@.len() == i,
                forall|j: int| 0 <= j < n ==> call_requires(E::add, (#[trigger] self.data@[j], scalar)),
                forall|j: int| 0 <= j < i ==> call_ensures(E::add, (self.data@[j], scalar), #[trigger] data@[j]),
            decreases n - i,
        {
            let s = self.data[i] + scalar;
            data.push(s);
            i = i + 1;
        }
        TensorImpl { shape: self.shape, data }
    }
}

impl<E> Tensor<E> for TensorImpl<E> {
    fn shape(&self) -> Vec<usize> {
        TensorImpl::shape(self)
    }

    fn from_vec(shape: Vec<usize>, data: Vec<E>) -> Result<Self, TensorError> {
        TensorImpl::from_vec(shape, data)
    }
}

} // verus!
