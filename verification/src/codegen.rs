//! Code generation backends.
//!
//! Each backend implements the [`Backend`] trait.

pub mod arm64;
pub mod assembler;
pub mod avx2_enc;
pub mod backend;
pub mod block_laws;
pub mod cuda;
pub mod decode_laws;
pub mod emit;
pub mod encoding_laws;
pub mod flat_laws;
pub mod frame_laws;
pub mod integer_laws;
pub mod kernels;
pub mod lowering_laws;
pub mod machine;
pub mod matmul_laws;
pub mod norm_laws;
pub mod prefill_laws;
pub mod reference_laws;
pub mod result_laws;
pub mod selection_laws;
pub mod size_laws;
pub mod tile_laws;
pub mod unrolled_laws;
pub mod x86_64;
pub mod x86_64_enc;

pub use backend::{Backend, Capabilities, CodegenOpts, MachineCode};
