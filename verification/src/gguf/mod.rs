//! GGUF checkpoints: the container parser, the architecture mapping and the
//! embedded tokenizer.
pub mod arch;
pub mod container;
pub mod formats;
pub mod ggml_type;
pub mod keys;
pub mod layout;
pub mod names;
pub mod pieces;
pub mod reader;
pub mod tokenizer;
pub mod written;
