//! Core of a polling ingestion pipeline: paginated sources hand over batches
//! of records; the library deduplicates them, accounts for upsert outcomes,
//! maintains a per-channel watermark, and decides when pagination continues,
//! jumps back to backfill a gap, or terminates.

pub mod dates;
pub mod driver;
pub mod fingerprint;
pub mod links;
pub mod record;
pub mod service;
pub mod stop;
pub mod text;
pub mod types;
pub mod store;
pub mod watermark;
