//! Reads the logs and metrics of zkVM cluster benchmark runs and assembles the benchmark document.

pub mod address;
pub mod assemble;
pub mod backend;
pub mod binding;
pub mod catalog;
pub mod error;
pub mod input;
pub mod laws;
pub mod lines;
pub mod log;
pub mod merge;
pub mod metrics;
pub mod openvm;
pub mod output;
pub mod paths;
pub mod pattern;
pub mod rows;
pub mod run;
pub mod schema;
pub mod sort;
pub mod statistics;
pub mod telemetry;
pub mod text;
pub mod text_map;
pub mod windows;
pub mod zisk;
pub mod zkvm;
