//! Validity of account addresses and of pagination cursors. Decoding is done
//! by the address and signature crates; the crawler only needs to know whether
//! a given string decodes, which is a function of the characters alone.

use std::str::FromStr;
use vstd::prelude::*;
use crate::error::CrawlError;

verus! {

/// Whether a string decodes into an account address.
pub uninterp spec fn is_address(s: Seq<char>) -> bool;

/// Whether a string decodes into a transaction signature, and so can serve as
/// a pagination cursor.
pub uninterp spec fn is_signature(s: Seq<char>) -> bool;

/// Relies on solana_pubkey::Pubkey::from_str: a pure base58 decode whose
/// success depends on the characters of the input alone.
#[verifier::external_body]
pub(crate) fn address_decodes(s: &str) -> (r: bool)
    ensures
        r == is_address(s@),
{
    solana_pubkey::Pubkey::from_str(s).is_ok()
}

/// Relies on solana_signature::Signature::from_str: a pure base58 decode whose
/// success depends on the characters of the input alone.
#[verifier::external_body]
pub(crate) fn signature_decodes(s: &str) -> (r: bool)
    ensures
        r == is_signature(s@),
{
    solana_signature::Signature::from_str(s).is_ok()
}

/// Decides whether an account identifier decodes into an address; a
/// malformed identifier is rejected before its crawl starts.
pub fn check_address(address: &str) -> (r: Result<(), CrawlError>)
    ensures
        r is Ok <==> is_address(address@),
        r is Err ==> r->Err_0 == CrawlError::MalformedAddress,
{
    if address_decodes(address) {
        Ok(())
    } else {
        Err(CrawlError::MalformedAddress)
    }
}

/// Checks that a page entry's signature decodes, and so can serve as the
/// cursor of the next page request.
pub fn check_cursor(signature: &str) -> (r: Result<(), CrawlError>)
    ensures
        r is Ok <==> is_signature(signature@),
        r is Err ==> r->Err_0 == CrawlError::CursorAdvanceFailure,
{
    if signature_decodes(signature) {
        Ok(())
    } else {
        Err(CrawlError::CursorAdvanceFailure)
    }
}

} // verus!
