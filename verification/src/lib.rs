//! Offline maintenance of a segment-tar store: deciding what a cleanup run
//! may remove, stating the plan an operator confirms, and ordering the
//! mutations of its application.
use vstd::prelude::*;

pub mod apply;
pub mod apply_identity;
pub mod certificate;
pub mod checkpoints;
pub mod content;
pub mod directory;
pub mod error;
pub mod file_removal;
pub mod generations;
pub mod identifier;
pub mod indexless_refusal;
pub mod journal;
pub mod laws;
pub mod manifest;
pub mod number;
pub mod options;
pub mod order;
pub mod plan;
pub mod planning;
pub mod prepared;
pub mod publication;
pub mod reach;
pub mod reclamation;
pub mod shared_bulk;
pub mod text;
pub mod trace;

verus! {

} // verus!
