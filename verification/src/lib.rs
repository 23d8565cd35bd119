//! Distribution of a fixed batch of tasks over a fixed pool of workers.
//!
//! The crate holds the rules of the arrangement: how a batch is planned,
//! what a worker does with each task it is handed, what the collector does
//! with each thing it hears, and an in-memory pipeline that runs the whole
//! arrangement one step at a time. Threads, channels, clocks and the terminal
//! belong to the program built around it.

pub mod collector;
pub mod config;
pub mod counting;
pub mod model;
pub mod pipeline;
pub mod queue;
pub mod runs;
pub mod task;
pub mod text;
pub mod worker;
