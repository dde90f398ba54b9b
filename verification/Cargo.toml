[package]
name = "vector_db_benchmark"
version = "0.1.0"
edition = "2021"
publish = false

[dependencies]
chrono = "0.4"
crc32fast = "1"
glob = "0.3"
half = "2"
hdf5 = "0.8"
indicatif = "0.17"
rayon = "1"
reqwest = { version = "0.12", default-features = false, features = ["blocking", "json"] }
serde_json = "1"
tokio = { version = "1", features = ["rt-multi-thread", "macros"] }
tonic = "0.12"
uuid = "1"
