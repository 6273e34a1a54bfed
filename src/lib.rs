//! Streaming ingestion of lines into matchable items: line splitting, the
//! raw and field-aware item builders, the reader's configuration, and the
//! bookkeeping of the threads and child processes that feed them.
pub mod collector;
pub mod delimiter;
pub mod field;
pub mod header;
pub mod ingest;
pub mod item;
pub mod lines;
pub mod range_syntax;
pub mod reader;
pub mod text;
