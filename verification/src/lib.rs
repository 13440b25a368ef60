//! Archive-writing tail of a web crawler: deduplicates fetched page bodies,
//! encodes them into an append-only archive, rotates archives at a size
//! threshold, and hands finished, compressed archives to a storage backend.
pub mod records;
pub mod codec;
pub mod compress;
pub mod archive;
pub mod actor;
pub mod searcher;
pub mod leta;
