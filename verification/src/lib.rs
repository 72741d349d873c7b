//! Dense integer matrices and their product, computed two ways: by one
//! triple loop, and by a partition of the output's columns among a bounded
//! number of workers whose results an orchestrator gathers.
//!
//! Every function here is verified against a mathematical model of the
//! matrix, [`matrix::Grid`], and of the product, [`product::product`].
//!
//! The library starts no thread. It holds what each side of a parallel
//! multiplication computes and decides: [`partition`] splits the columns,
//! [`worker::compute_chunk`] is the work of one worker, and
//! [`collect::Collector`] is the orchestrator that alone writes the output.
//! [`parallel`] proves that the output is the product in whatever order
//! the workers' cells arrive.

pub mod collect;
pub mod compare;
pub mod error;
pub mod generate;
pub mod matrix;
pub mod parallel;
pub mod partition;
pub mod product;
pub mod render;
pub mod worker;
