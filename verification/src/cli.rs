use vstd::prelude::*;

verus! {

/// The command-line surface of the pipeline runner: where the data source
/// lives, which collection to read, where the pipeline definition file is,
/// where the per-stage output files go, and the per-stage result cap.
/// Argument parsing itself happens outside the library; the parsed values
/// are handed in as plain strings and numbers.
pub struct Cli {
    /// Data-source URL.
    pub url: String,
    /// Database name.
    pub database: String,
    /// Collection name.
    pub collection: String,
    /// Path of the JSON file holding the pipeline.
    pub pipeline: String,
    /// Directory the per-stage result files are written into.
    pub output_dir: String,
    /// Cap on the number of documents each prefix may return.
    pub limit: u32,
}

} // verus!
