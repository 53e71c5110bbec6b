use vstd::prelude::*;

verus! {

/// The failures the pipeline run can surface. Every error is fatal to the
/// run: the caller aborts the remaining stages once one is seen.
#[derive(Debug)]
pub enum RunError {
    /// A file or directory could not be read or written.
    Io(String),
    /// The pipeline definition is not valid JSON, or has the wrong shape.
    Parse(String),
    /// The data source is unreachable or refused the connection.
    Connection(String),
    /// The data source rejected a prefix of the pipeline.
    Execution(String),
    /// A wrapper-shaped field held an inner value of an unexpected type.
    Normalization(String),
}

impl RunError {
    /// A human-readable description of the failure.
    pub fn message(&self) -> (r: &String)
        ensures
            match self {
                RunError::Io(m) => r@ == m@,
                RunError::Parse(m) => r@ == m@,
                RunError::Connection(m) => r@ == m@,
                RunError::Execution(m) => r@ == m@,
                RunError::Normalization(m) => r@ == m@,
            },
    {
        match self {
            RunError::Io(m) => m,
            RunError::Parse(m) => m,
            RunError::Connection(m) => m,
            RunError::Execution(m) => m,
            RunError::Normalization(m) => m,
        }
    }
}

} // verus!
