//! Lumen: a small tensor language, its IR, a native code generator and the
//! model-file and runtime data structures around them.
//!
//! Every function of this library carries a contract that Verus proves. The
//! arithmetic on floating-point numbers happens outside the library: here a
//! float is carried as its bit pattern, or the code is generic over the
//! element type.

pub mod bytes;
pub mod codegen;
pub mod dsl;
pub mod float_bits;
pub mod float_laws;
pub mod float_ops;
pub mod float_text;
pub mod ir;
pub mod jit;
pub mod message_laws;
pub mod model;
pub mod natural;
pub mod runtime;
pub mod text;
pub mod text_laws;
