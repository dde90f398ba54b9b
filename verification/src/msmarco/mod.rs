//! The MS MARCO corpus with its embeddings: sampling, files, ground truth and its cross-check.
pub mod sampling;
pub mod npy;
pub mod promises;
pub mod topk;
pub mod crosscheck;
pub mod records;
