//! The error of a failed fetch.
use vstd::prelude::*;

verus! {

/// Why a fetch failed, as the HTTP client reported it.
#[derive(Debug, Clone)]
pub struct HttpError(pub String);

impl HttpError {
    /// The message shown to the user: the client's report.
    pub fn message(&self) -> (res: String)
        ensures
            res@ == self.0@,
    {
        self.0.clone()
    }
}

} // verus!
