use vstd::prelude::*;
use vstd::string::StringExecFns;

verus! {

/// The two ways a run can fail before any traversal starts.
#[derive(Debug)]
pub enum SearchError {
    /// The date text is not a `YYYY-MM-DD` calendar date.
    InvalidDateFormat,
    /// The root directory, given here as it was typed, does not exist.
    RootNotFound(String),
}

/// What is shown to the user for an error.
pub open spec fn error_text(e: SearchError) -> Seq<char> {
    match e {
        SearchError::InvalidDateFormat => "Invalid date format (should be YYYY-MM-DD)"@,
        SearchError::RootNotFound(root) => "root directory '"@ + root@ + "' does not exist"@,
    }
}

impl SearchError {
    /// The message written to the error stream for this error.
    pub fn message(&self) -> (r: String)
        ensures
            r@ == error_text(*self),
    {
        match self {
            SearchError::InvalidDateFormat => String::from_str(
                "Invalid date format (should be YYYY-MM-DD)",
            ),
            SearchError::RootNotFound(root) => {
                let mut r = String::from_str("root directory '");
                r.append(root.as_str());
                r.append("' does not exist");
                r
            },
        }
    }
}

} // verus!
