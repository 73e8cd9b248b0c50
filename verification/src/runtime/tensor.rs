//! Runtime tensor. Reference-counted buffer + shape/stride metadata.

use crate::ir::ty::DType;
use std::sync::Arc;
use vstd::prelude::*;

verus! {

/// The bytes of one or more tensors.
pub struct TensorBuffer {
    pub bytes: Vec<u8>,
}

/// A view of a buffer as a tensor.
pub struct Tensor {
    pub buffer: Arc<TensorBuffer>,
    pub dtype: DType,
    pub shape: Vec<u32>,
    /// In elements, not bytes.
    pub stride: Vec<u32>,
    pub offset: u32,
}

/// The number of elements of a shape, where it and every product on the way
/// fits in 64 bits.
pub open spec fn shape_product(shape: Seq<u32>) -> Option<nat>
    decreases shape.len(),
{
    if shape.len() == 0 {
        Some(1)
    } else {
        match shape_product(shape.drop_last()) {
            None => None,
            Some(n) => if n * shape.last() <= u64::MAX {
                Some((n * shape.last()) as nat)
            } else {
                None
            },
        }
    }
}

proof fn lemma_prefix_product(shape: Seq<u32>, i: int)
    requires
        0 <= i <= shape.len(),
        shape_product(shape) is Some,
    ensures
        shape_product(shape.subrange(0, i)) is Some,
    decreases shape.len(),
{
    if i == shape.len() {
        assert(shape.subrange(0, i) =~= shape);
    } else {
        lemma_prefix_product(shape.drop_last(), i);
        assert(shape.drop_last().subrange(0, i) =~= shape.subrange(0, i));
    }
}

impl Tensor {
    /// How many elements the tensor has.
    pub fn numel(&self) -> (n: u64)
        requires
            shape_product(self.shape@) is Some,
        ensures
            n as nat == shape_product(self.shape@)->0,
    {
        let mut n: u64 = 1;
        let mut i: usize = 0;
        while i < self.shape.len()
            invariant
                i <= self.shape@.len(),
                shape_product(self.shape@) is Some,
                shape_product(self.shape@.subrange(0, i as int)) == Some(n as nat),
            decreases self.shape@.len() - i,
        {
            proof {
                lemma_prefix_product(self.shape@, i + 1);
                let s = self.shape@.subrange(0, i + 1);
                assert(s.drop_last() =~= self.shape@.subrange(0, i as int));
                assert(s.last() == self.shape@[i as int]);
            }
            n = n * self.shape[i] as u64;
            i = i + 1;
        }
        assert(self.shape@.subrange(0, i as int) =~= self.shape@);
        n
    }

    /// How many dimensions the tensor has.
    pub fn rank(&self) -> (n: usize)
        ensures
            n == self.shape@.len(),
    {
        self.shape.len()
    }
}

impl Clone for Tensor {
    /// Another view of the same buffer.
    fn clone(&self) -> (t: Self)
        ensures
            t.buffer == self.buffer,
            t.dtype == self.dtype,
            t.shape@ == self.shape@,
            t.stride@ == self.stride@,
            t.offset == self.offset,
    {
        Tensor {
            buffer: self.buffer.clone(),
            dtype: self.dtype,
            shape: self.shape.clone(),
            stride: self.stride.clone(),
            offset: self.offset,
        }
    }
}

} // verus!
