//! The hybrid backend's decisions: graph names, which graphs to use, how a
//! prompt is divided between the Neural Engine and the GPU.
pub mod clock;
pub mod graph_names;
pub mod graphs;
pub mod prefill;
pub mod rows;
pub mod split;
pub mod stamps;
