//! Benchmarking of vector databases: the logic of the tool, with its contracts.
use vstd::prelude::*;

pub mod bytes;
pub mod curves;
pub mod experiment;
pub mod float_bits;
pub mod ground_truth;
pub mod json;
pub mod json_parse;
pub mod json_text;
pub mod metrics;
pub mod msmarco;
pub mod plot;
pub mod query_filter;
pub mod readers;
pub mod report;
pub mod said;
pub mod scaling;
pub mod shown;
pub mod sorted_texts;
pub mod start_gate;
pub mod summary;
pub mod summary_documents;
pub mod tables;
pub mod text;
pub mod weaviate;

verus! {

} // verus!
