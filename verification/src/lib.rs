//! Deterministic workloads for measuring filesystem latency under different
//! access patterns.
//!
//! The library decides *what* a benchmark does: which bytes it writes, in
//! which order it visits the blocks, which files it opens and when the clock
//! runs. Performing the file operations and reading the clock is left to the
//! caller, who drives a [`engine::Benchmark`] step by step.

pub mod prng;
pub mod geometry;
pub mod text;
pub mod registry;
pub mod script;
pub mod paths;
pub mod engine;
pub mod bounds;
pub mod timing;
pub mod disk;
pub mod content;
pub mod cleanup;
pub mod small_content;
pub mod large_file;
pub mod small_files;
pub mod report;
pub mod invocation;
