//! Mirrors a tree of media files into a second tree in another encoding.
//!
//! The library holds the verified core of the synchroniser: classifying
//! entries by extension and cover-name suffix, reconciling the two trees
//! into deletion and conversion plans, and accounting for the outcome of
//! each dispatched job. All filesystem traversal, process spawning and
//! progress rendering live outside the library and hand it plain values.

pub mod classify;
pub mod config;
pub mod dispatch;
pub mod laws;
pub mod paths;
pub mod reconcile;
