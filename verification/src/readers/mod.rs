//! The files that a dataset is made of, as the bytes that they hold.
pub mod compound_reader;
pub mod hdf5_reader;
pub mod layouts;
pub mod metadata;
pub mod multivector_reader;
pub mod sparse_reader;
