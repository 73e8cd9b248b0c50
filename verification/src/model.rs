//! Model files and tokenization.

pub mod arch;
pub mod bpe_laws;
pub mod byte_map;
pub mod gguf;
pub mod gguf_laws;
pub mod inspect;
pub mod listing_laws;
pub mod loader;
pub mod loader_laws;
pub mod refusal_laws;
pub mod tokenizer;
pub mod tokenizer_laws;

pub use loader::{config_from_gguf, model_from_gguf};
pub use tokenizer::Tokenizer;
pub use gguf::{GgmlType, GgufError, GgufFile, KvType, KvValue, TensorInfo};
