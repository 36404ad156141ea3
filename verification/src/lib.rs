//! Verified core of a semantic wiki-page index: extraction of clean text
//! from page payloads, an in-process document store, an embedding contract,
//! a vector index model, and the indexing / retrieval pipelines.

pub mod config;
pub mod doc;
pub mod embed;
pub mod extract;
pub mod index;
pub mod jsonio;
pub mod pipeline;
pub mod docid;
pub mod store;
pub mod text;
