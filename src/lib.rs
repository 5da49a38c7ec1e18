//! The consistency engine of a self-hosted photo library: the photo index and
//! its append-only event log, incremental synchronisation, filesystem
//! reconciliation, content hashing with duplicate detection, and the periodic
//! maintenance cycle that sequences them.
pub mod hash;
pub mod photo;
pub mod event_log;
pub mod index;
pub mod dedup;
pub mod scan;
pub mod laws;
pub mod maintenance;
pub mod operations;
pub mod previews;
pub mod favorites;
