//! Lumen IR: SSA form. Tensor shapes are part of types, so that the code
//! generator can specialize loops, tiling and quantization statically.

pub mod lower;
pub mod lower_laws;
pub mod meaning_laws;
pub mod module;
pub mod op;
pub mod pass;
pub mod printer;
pub mod printer_laws;
pub mod ty;
pub mod verify;
pub mod verify_laws;

pub use lower::{lower, LowerError};
pub use module::{Block, Function, IrModule, Value, ValueId};
pub use op::Op;
pub use printer::{print_function, print_module};
pub use ty::{DType, Dim, Shape, TensorType};
pub use verify::{verify_module, VerifyError};
