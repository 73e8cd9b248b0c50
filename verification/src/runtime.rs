//! Running a model: quantized blocks, the key/value cache, tensors, a
//! transformer's forward pass and greedy generation.

pub mod answer_laws;
pub mod attention;
pub mod dispatch;
pub mod forward;
pub mod generate;
pub mod index_laws;
pub mod kvcache;
pub mod layer;
pub mod layer_laws;
pub mod model;
pub mod number_laws;
pub mod numerics;
pub mod pass;
pub mod plan_laws;
pub mod pool;
pub mod quant;
pub mod quant_laws;
pub mod report_laws;
pub mod rounding_laws;
pub mod runner;
pub mod stack;
pub mod tensor;
pub mod threadpool;
pub mod timer;

pub use crate::float_ops::{f16_bits_to_f32, f32_to_f16_bits};
pub use quant::{
    dequantize_q4_0, dequantize_q8_0, quantize_q8_0, BlockQ4_0, BlockQ8_0, QK,
};
pub use tensor::Tensor;
