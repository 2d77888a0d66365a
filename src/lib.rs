//! Ingestion and query core for a live traffic-sensor feed: field decoding,
//! per-point aggregation, chunked conflict-skipping writes and the read model
//! that answers "recent measurements near a point" and "at a location".

pub mod errors;
pub mod numeric;
pub mod geo;
pub mod time;
pub mod feed;
pub mod models;
pub mod aggregate;
pub mod batch;
pub mod store;
pub mod query;
pub mod pipeline;
