//! The verified core of a local LLM runner: checkpoint parsing, model
//! metadata, graph naming, batching, generation and GPU planning.
pub mod ane;
pub mod batch;
pub mod config;
pub mod engine;
pub mod generate;
pub mod gguf;
pub mod gpu;
pub mod hub;
pub mod hub_specs;
pub mod num;
pub mod speculative;
pub mod text;
pub mod verdicts;
