//! The Weaviate engine: schema, filters, requests and replies.
pub mod filters;
pub mod graphql;
pub mod grpc;
pub mod http;
pub mod ids;
pub mod meaning;
pub mod runs;
pub mod schema;
pub mod search;
pub mod setup;
pub mod engine;
