//! Everything maintenance does with the journal: reading its physical lines,
//! deciding which of them a run removes, and assembling the replacement byte
//! for byte.
//!
//! The ordinary journal reader presents a tolerant view. Cleanup needs a
//! second one: it identifies the lines that the reader ignores without
//! normalising any line that it keeps. The journal is therefore bytes here,
//! and each physical line carries its original terminator.
pub mod analysis;
pub mod laws;
pub mod proofs;
pub mod rewrite;
pub mod scan;
