//! The controller of the underlying burnchain.

use vstd::prelude::*;
use vstd::string::StringExecFns;

verus! {

/// What can go wrong with the burnchain.
#[derive(Debug)]
pub enum Error {
    /// The chains coordinator is gone.
    CoordinatorClosed,
    /// The indexer failed; the detail says how.
    IndexerError(String),
}

impl Error {
    /// What the indexer's failure becomes.
    pub fn from(e: String) -> (r: Error)
        ensures
            r == Error::IndexerError(e),
    {
        Error::IndexerError(e)
    }

    /// The error in words.
    pub fn to_string(&self) -> (r: String)
        ensures
            r@ == match self {
                Error::CoordinatorClosed => "ChainsCoordinator closed"@,
                Error::IndexerError(e) => "Indexer error: "@ + e@,
            },
    {
        match self {
            Error::CoordinatorClosed => String::from_str("ChainsCoordinator closed"),
            Error::IndexerError(e) => String::from_str("Indexer error: ").concat(e.as_str()),
        }
    }
}

/// A controller that stands in where none is configured: it offers no
/// operation at all.
#[derive(Debug)]
pub struct PanicController();

} // verus!
