use vstd::prelude::*;
use crate::tensor::{volume, TensorImpl};

verus! {

/// A linear layer: weights of shape `[i_size, o_size]` and a bias of shape `[1, o_size]`.
pub struct LinLayer<E> {
    pub w: TensorImpl<E>,
    pub b: TensorImpl<E>,
}

proof fn lemma_volume_pair(a: usize, b: usize)
    ensures
        volume(seq![a, b]) == a * b,
{
    reveal_with_fuel(volume, 3);
    assert(seq![a, b].drop_last() =~= seq![a]);
    assert(seq![a].drop_last() =~= Seq::<usize>::empty());
}

impl<E: Copy> LinLayer<E> {
    /// The layer whose weights are the first `o_size * i_size` of `samples`, in row-major
    /// order, and whose bias is the `o_size` that follow.
    pub fn from_samples(i_size: usize, o_size: usize, samples: Vec<E>) -> (r: Self)
        requires
            samples@.len() == o_size * (i_size + 1),
        ensures
            r.w.wf(),
            r.b.wf(),
            r.w.shape_view() == seq![i_size, o_size],
            r.b.shape_view() == seq![1usize, o_size],
            r.w.data_view() == samples@.take(o_size * i_size),
            r.b.data_view() == samples@.skip(o_size * i_size),
    {
        let n = samples.len();
        proof {
            assert(o_size * (i_size + 1) == o_size * i_size + o_size) by (nonlinear_arith);
            assert(o_size * i_size == i_size * o_size) by (nonlinear_arith);
        }
        let n_w: usize = o_size * i_size;
        let mut w_data: Vec<E> = Vec::new();
        let mut b_data: Vec<E> = Vec::new();
        let mut k: usize = 0;
        while k < samples.len()
            invariant
                samples@.len() == n_w + o_size,
                k <= samples@.len(),
                k <= n_w ==> w_data@ == samples@.take(k as int) && b_data@.len() == 0,
                k > n_w ==> w_data@ == samples@.take(n_w as int) && b_data@ == samples@.subrange(n_w as int, k as int),
            decreases samples@.len() - k,
        {
            if k < n_w {
                w_data.push(samples[k]);
                proof {
                    assert(w_data@ =~= samples@.take(k + 1));
                }
            } else {
                b_data.push(samples[k]);
                proof {
                    assert(b_data@ =~= samples@.subrange(n_w as int, k + 1));
                }
            }
            k = k + 1;
        }
        proof {
            assert(w_data@ =~= samples@.take(n_w as int));
            assert(b_data@ =~= samples@.skip(n_w as int));
            lemma_volume_pair(i_size, o_size);
            lemma_volume_pair(1, o_size);
        }
        let w_shape = vec![i_size, o_size];
        let b_shape = vec![1, o_size];
        proof {
            assert(w_shape@ =~= seq![i_size, o_size]);
            assert(b_shape@ =~= seq![1usize, o_size]);
        }
        LinLayer { w: TensorImpl::new(w_shape, w_data), b: TensorImpl::new(b_shape, b_data) }
    }

    /// The weights and then the bias, each in row-major order.
    pub fn params(&self) -> (r: Vec<E>)
        ensures
            r@ == self.w.data_view() + self.b.data_view(),
    {
        let mut r: Vec<E> = Vec::new();
        let w = self.w.data();
        let b = self.b.data();
        let mut i: usize = 0;
        while i < w.len()
            invariant
                i <= w@.len(),
                r@ == w@.take(i as int),
            decreases w@.len() - i,
        {
            r.push(w[i]);
            i = i + 1;
            proof {
                assert(r@ =~= w@.take(i as int));
            }
        }
        let mut j: usize = 0;
        proof {
            assert(w@.take(i as int) =~= w@);
        }
        while j < b.len()
            invariant
                j <= b@.len(),
                r@ == w@ + b@.take(j as int),
            decreases b@.len() - j,
        {
            r.push(b[j]);
            j = j + 1;
            proof {
                assert(r@ =~= w@ + b@.take(j as int));
            }
        }
        proof {
            assert(b@.take(j as int) =~= b@);
        }
        r
    }
}

} // verus!
