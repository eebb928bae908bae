//! The engine of an interactive disk-usage browser: a size cache validated by
//! modification times, per-directory fingerprints with change detection, the scan and
//! delete bookkeeping, and the browsing state that background tasks report into.
//! Filesystem access, threads and the terminal stay with the caller, which hands the
//! results of that work to these verified functions.


pub mod app;
pub mod cache;
pub mod changes;
pub mod delete;
pub mod logger;
pub mod modal;
pub mod order;
pub mod platform;
pub mod scan;
pub mod text;
