//! Ingestion of local GGUF model files.
//!
//! A bundle is a single file, `model.gguf`, of a Qwen2 model. Its content becomes a
//! manifest with the architecture's parameters and the tensors under canonical names,
//! bounded access to the tensors' bytes, and a tokenizer built from the vocabulary that
//! the file embeds.
//!
//! Tensors in the block formats `Q8_0`, `Q4_K` and `Q5_K` are unpacked to single
//! precision when they are read, before projections are transposed: a transposition
//! moves elements, and a packed block has none of a fixed width.
//!
//! The library decides and computes; opening, reading and parsing files, digests, and the
//! last word on a tokenizer's description are the caller's. Wherever one of those decides
//! what happens next, the library takes its outcome as a value.

pub mod block_layout;
pub mod config;
pub mod declared;
pub mod dequantize;
pub mod derived_lm_head;
pub mod engine;
pub mod error;
pub mod files;
pub mod float;
pub mod identity;
pub mod ingestor;
pub mod listing;
pub mod manifests;
pub mod metadata;
pub mod model;
pub mod name_map;
pub mod naming;
pub mod numbers;
pub mod payload;
pub mod pipeline;
pub mod properties;
pub mod reading;
pub mod tensor_names;
pub mod text;
pub mod token_metadata;
pub mod tokenizer;
pub mod transpose;
pub mod truncation;
pub mod vocabulary;
pub mod weight_layout;
pub mod weights;

pub use config::SUPPORTED_ARCHITECTURE;
pub use error::ProductionIngestionError;
pub use ingestor::{load_gguf_chat_template, GgufIngestor, INGESTOR_ID};
pub use naming::normalize_tensor_name;
pub use tokenizer::{load_gguf_tokenizer, GgufTokenizer};
pub use weights::{GgufPayloadSource, GGUF_FILE_NAME};
