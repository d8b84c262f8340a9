//! The error taxonomy. Every category is terminal for a call: the first
//! failure aborts the pipeline and is returned alone.
use vstd::prelude::*;

verus! {

/// Why a query failed. `Parse` is raised by the caller that runs the
/// external SQL parser; the library raises the others.
#[derive(Debug)]
pub enum QueryError {
    /// Malformed or unsupported SQL syntax, from the external parser.
    Parse(String),
    /// Valid syntax outside the supported plan shape.
    Translation(String),
    /// A malformed locator or an unregistered scheme.
    Locator(String),
    /// An I/O failure during retrieval.
    Fetch(String),
    /// Unknown filetype, or a malformed CSV or JSON body.
    Content(String),
    /// The plan references a column absent from the decoded dataset.
    Execution(String),
}

/// The description inside an error.
pub open spec fn spec_message(e: QueryError) -> Seq<char> {
    match e {
        QueryError::Parse(m) => m@,
        QueryError::Translation(m) => m@,
        QueryError::Locator(m) => m@,
        QueryError::Fetch(m) => m@,
        QueryError::Content(m) => m@,
        QueryError::Execution(m) => m@,
    }
}

impl QueryError {
    /// The error's description.
    pub fn message(&self) -> (r: &String)
        ensures
            r@ == spec_message(*self),
    {
        match self {
            QueryError::Parse(m) => m,
            QueryError::Translation(m) => m,
            QueryError::Locator(m) => m,
            QueryError::Fetch(m) => m,
            QueryError::Content(m) => m,
            QueryError::Execution(m) => m,
        }
    }
}

} // verus!
