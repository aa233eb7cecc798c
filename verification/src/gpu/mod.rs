//! The GPU backend's planning: cache layout, scratch sizes, the sequence of
//! kernels of a step, and where its time goes. Running a plan is the caller's.
pub mod delta;
pub mod batched;
pub mod calibrate;
pub mod delta_forward;
pub mod dense;
pub mod encode;
pub mod forward;
pub mod geometry;
pub mod hazards;
pub mod history;
pub mod homes;
pub mod hybrid_forward;
pub mod kernels;
pub mod launches;
pub mod linear_block;
pub mod load;
pub mod meaning;
pub mod model_numbers;
pub mod ops;
pub mod params;
pub mod pool;
pub mod probe;
pub mod quant;
pub mod quant_forward;
pub mod report;
pub mod ring_forward;
pub mod session;
pub mod state;
pub mod tails;
pub mod timing;
pub mod together;
pub mod window;
pub mod words;
