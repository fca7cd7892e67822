//! Applying a prepared plan: an ordered sequence of mutations whose adjacency is
//! the safety argument.
pub mod compaction_phase;
pub mod failures;
pub mod journal_phase;
pub mod laws;
pub mod run;
pub mod session;
