//! What the operations of the library come to together, stated over what goes in
//! and what comes out.
use vstd::prelude::*;

pub mod archives;
pub mod census;
pub mod checkpoints;
pub mod content;
pub mod copies;
pub mod dates;
pub mod external_binaries;
pub mod files;
pub mod generations;
pub mod histories;
pub mod identity;
pub mod journal;
pub mod listing;
pub mod messages;
pub mod names;
pub mod numbers;
pub mod paths;
pub mod plans;
pub mod purges;
pub mod reaching;
pub mod references;
pub mod refusals;
pub mod rewrites;
pub mod runs;
pub mod stages;
pub mod sweeps;
pub mod texts;

verus! {

} // verus!
