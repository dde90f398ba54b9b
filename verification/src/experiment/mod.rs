//! The runs of the benchmark: which are made, in what order, and what is written of them.
pub mod agenda;
pub mod calibration;
pub mod course;
pub mod documents;
pub mod plan;
pub mod planned;
pub mod reuse;
pub mod results;
pub mod run;
pub mod saved;
