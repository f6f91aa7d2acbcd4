//! From profiles to a hosts file: merging rules, planning the change, and writing it.
pub mod backup;
pub mod call_laws;
pub mod conflict;
pub mod content;
pub mod diff;
pub mod laws;
pub mod merge;
pub mod merge_laws;
pub mod plan;
pub mod plan_laws;
pub mod platform;
pub mod verification;
pub mod writer;
pub mod writer_laws;
