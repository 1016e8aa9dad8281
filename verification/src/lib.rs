//! Word indexing for a static-site search engine: turning raw page words into
//! normalized, stemmed, compound-aware index entries, and decoding the compact
//! binary index chunks that the search runtime loads.

pub mod cbor;
pub mod index;
pub mod splitting;
pub mod text;
