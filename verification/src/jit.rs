//! Kernel compilation on demand: machine code for a matrix product of a given
//! shape, compiled once and kept.

pub mod cache;
pub mod exec;
pub mod kernel_laws;
pub mod matmul_cache;

pub use cache::CodeCache;
pub use exec::{ExecError, ExecRegion};
pub use matmul_cache::{JitError, MatmulJitCache};
