//! Object-ingestion and retrieval core of an S3-compatible object store:
//! the replicated metadata records and their merge rules, the body chunker,
//! the PUT / GET / DELETE decision procedures and the request router.

pub mod block_ref;
pub mod bucket_table;
pub mod chunker;
pub mod crdt;
pub mod data;
pub mod delete;
pub mod entries;
pub mod error;
pub mod get;
pub mod lww_map;
pub mod object;
pub mod order;
pub mod path;
pub mod put;
pub mod query;
pub mod response;
pub mod roundtrip;
pub mod router;
pub mod version;
