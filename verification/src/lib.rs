//! Incremental execution of a document-database aggregation pipeline.
//!
//! A pipeline is an ordered list of stage objects. For each prefix of the
//! pipeline (stage 1, stages 1-2, ... stages 1..N) the runner builds a
//! bounded sub-pipeline, has the caller execute it against the data
//! source, normalizes the returned documents, and produces the name and
//! full text of one output file per prefix, so a user can watch the data
//! transform stage by stage.

use vstd::prelude::*;

pub mod cli;
pub mod errors;
pub mod normalize;
pub mod parse;
pub mod runner;
pub mod ser;
pub mod value;

verus! {

} // verus!
