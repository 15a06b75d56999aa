//! The errors that abort a crawl. A single transaction that cannot be
//! resolved is not among them: it is absorbed as a zero contribution.

use vstd::prelude::*;

verus! {

/// A crawl-aborting failure.
#[derive(Debug, Clone, Copy, PartialEq, Eq, Structural)]
pub enum CrawlError {
    /// The account identifier does not decode into an address. Fatal before
    /// any crawling starts for that account.
    MalformedAddress,
    /// The last entry of a page does not decode into a cursor. Fatal: paging
    /// on without a valid cursor risks an incorrect or endless loop.
    CursorAdvanceFailure,
}

impl CrawlError {
    /// A human-readable description of the failure.
    pub fn describe(&self) -> (r: &'static str)
        ensures
            *self is MalformedAddress ==> r@ == "account identifier is not a valid address"@,
            *self is CursorAdvanceFailure ==> r@
                == "page cursor could not be advanced: last signature is invalid"@,
    {
        match self {
            CrawlError::MalformedAddress => "account identifier is not a valid address",
            CrawlError::CursorAdvanceFailure => "page cursor could not be advanced: last signature is invalid",
        }
    }
}

} // verus!
