//! Size-class buffer pool so that nothing is allocated per token.

use vstd::prelude::*;

verus! {

/// A pool of buffers. It holds none yet.
#[derive(Debug)]
pub struct BufferPool {}

impl BufferPool {
    /// An empty pool.
    pub fn new() -> (p: Self)
        ensures
            p == (BufferPool {  }),
    {
        BufferPool {  }
    }
}

impl Default for BufferPool {
    fn default() -> (p: Self)
        ensures
            p == (BufferPool {  }),
    {
        BufferPool::new()
    }
}

} // verus!
