//! The per-account crawl state machine and the cross-account aggregate.
//!
//! The caller runs the loop: it fetches a page and hands it to `on_page`,
//! fans the returned entries out to its detail fetcher, and hands the
//! collected results to `absorb_results`; the state says when to stop. All
//! decisions stand here; the caller only moves bytes.

use vstd::prelude::*;
use crate::detail::DetailResult;
use crate::error::CrawlError;
use crate::ids::{check_address, check_cursor, is_address, is_signature};
use crate::ledger::{spec_merge_detail, spec_merge_records, Ledger, LedgerMap};
use crate::page::{filter_page, spec_floor_hit, spec_kept, SignatureEntry};

verus! {

/// Total programs the resolved results of a batch list, with multiplicity:
/// how many ledger bumps the batch causes.
pub open spec fn batch_count(results: Seq<Option<DetailResult>>) -> int
    decreases results.len(),
{
    if results.len() == 0 {
        0
    } else {
        batch_count(results.drop_last()) + match results.last() {
            Some(d) => d.program_ids@.len() as int,
            None => 0,
        }
    }
}

/// Total fee weight of a batch: each resolved transaction's fee counted once
/// per program it invoked, the ledger's fee attribution.
pub open spec fn batch_fee_weight(results: Seq<Option<DetailResult>>) -> int
    decreases results.len(),
{
    if results.len() == 0 {
        0
    } else {
        batch_fee_weight(results.drop_last()) + match results.last() {
            Some(d) => d.fee * d.program_ids@.len(),
            None => 0,
        }
    }
}

/// How many transactions of a batch were resolved at all.
pub open spec fn batch_processed(results: Seq<Option<DetailResult>>) -> int
    decreases results.len(),
{
    if results.len() == 0 {
        0
    } else {
        batch_processed(results.drop_last()) + match results.last() {
            Some(d) => 1int,
            None => 0,
        }
    }
}

/// Total fees of a batch, counted once per resolved transaction.
pub open spec fn batch_fees(results: Seq<Option<DetailResult>>) -> int
    decreases results.len(),
{
    if results.len() == 0 {
        0
    } else {
        batch_fees(results.drop_last()) + match results.last() {
            Some(d) => d.fee as int,
            None => 0,
        }
    }
}

/// What merging a batch does to a ledger map: each resolved result is merged,
/// each unresolved one contributes nothing.
pub open spec fn spec_merge_results(
    m: LedgerMap,
    account: Seq<char>,
    results: Seq<Option<DetailResult>>,
) -> LedgerMap
    decreases results.len(),
{
    if results.len() == 0 {
        m
    } else {
        let rest = spec_merge_results(m, account, results.drop_last());
        match results.last() {
            Some(d) => spec_merge_detail(rest, account, d),
            None => rest,
        }
    }
}

/// The crawl of one account: pagination cursor, stop flags, and the
/// accumulating per-account ledger and totals.
#[derive(Debug)]
pub struct AccountCrawl {
    /// The account whose history is walked.
    pub account: String,
    /// Floor of the slot window, inclusive.
    pub min_slot: u64,
    /// Ceiling of the slot window, inclusive.
    pub max_slot: u64,
    /// The before-cursor for the next page request: the signature of the last
    /// entry of the page just seen, unfiltered.
    pub cursor: Option<String>,
    /// Set while the current page's results are still to be merged and the
    /// page hit the slot floor: the crawl stops right after the merge.
    pub stop_after: bool,
    /// The crawl reached its end, naturally or fatally.
    pub done: bool,
    /// This account's ledger, keyed by (account, epoch, program).
    pub ledger: Ledger,
    /// Fees of the resolved transactions, counted once per transaction.
    pub total_fees: u64,
    /// Number of resolved transactions.
    pub processed: u64,
}

impl AccountCrawl {
    /// The state's invariant: the window is a window and the ledger is
    /// well-formed.
    pub open spec fn wf(self) -> bool {
        &&& self.min_slot <= self.max_slot
        &&& self.ledger.wf()
    }

    /// Starts the crawl of one account, after checking that the account
    /// identifier decodes into an address; a malformed identifier is fatal
    /// before any crawling starts.
    pub fn new(account: String, min_slot: u64, max_slot: u64) -> (r: Result<
        AccountCrawl,
        CrawlError,
    >)
        requires
            min_slot <= max_slot,
        ensures
            r is Ok <==> is_address(account@),
            r is Err ==> r->Err_0 == CrawlError::MalformedAddress,
            r matches Ok(c) ==> {
                &&& c.wf()
                &&& c.account == account
                &&& c.min_slot == min_slot
                &&& c.max_slot == max_slot
                &&& c.cursor is None
                &&& !c.stop_after
                &&& !c.done
                &&& c.ledger.view_map() == Map::<crate::ledger::KeyV, (int, int)>::empty()
                &&& c.ledger.records@.len() == 0
                &&& c.total_fees == 0
                &&& c.processed == 0
            },
    {
        match check_address(account.as_str()) {
            Ok(()) => Ok(
                AccountCrawl {
                    account,
                    min_slot,
                    max_slot,
                    cursor: None,
                    stop_after: false,
                    done: false,
                    ledger: Ledger::new(),
                    total_fees: 0,
                    processed: 0,
                },
            ),
            Err(e) => Err(e),
        }
    }

    /// One paging step. An empty page ends the crawl: history is exhausted.
    /// Otherwise the cursor advances to the page's last entry before any
    /// filtering, so a page dropped whole can never stall the walk; a last
    /// entry whose signature does not decode is fatal. The page is then
    /// filtered: the kept entries are returned for detail fetching, and if
    /// none were kept the crawl either ends (floor hit) or pages on.
    pub fn on_page(&mut self, page: &Vec<SignatureEntry>) -> (r: Result<
        Vec<SignatureEntry>,
        CrawlError,
    >)
        requires
            old(self).wf(),
            !old(self).done,
        ensures
            final(self).wf(),
            final(self).account == old(self).account,
            final(self).min_slot == old(self).min_slot,
            final(self).max_slot == old(self).max_slot,
            final(self).ledger == old(self).ledger,
            final(self).total_fees == old(self).total_fees,
            final(self).processed == old(self).processed,
            match r {
                Ok(kept) => {
                    &&& kept@ == spec_kept(page@, old(self).min_slot, old(self).max_slot)
                    &&& page@.len() == 0 ==> {
                        &&& final(self).done
                        &&& !final(self).stop_after
                        &&& final(self).cursor == old(self).cursor
                    }
                    &&& page@.len() > 0 ==> {
                        &&& is_signature(page@.last().signature@)
                        &&& final(self).cursor == Some(page@.last().signature)
                        &&& final(self).stop_after == spec_floor_hit(page@, old(self).min_slot)
                        &&& final(self).done == (kept@.len() == 0 && spec_floor_hit(
                            page@,
                            old(self).min_slot,
                        ))
                    }
                },
                Err(e) => {
                    &&& e == CrawlError::CursorAdvanceFailure
                    &&& page@.len() > 0
                    &&& !is_signature(page@.last().signature@)
                    &&& final(self).done
                },
            },
    {
        if page.len() == 0 {
            self.done = true;
            self.stop_after = false;
            return Ok(Vec::new());
        }
        let last = &page[page.len() - 1];
        match check_cursor(last.signature.as_str()) {
            Ok(()) => {},
            Err(e) => {
                self.done = true;
                return Err(e);
            },
        }
        self.cursor = Some(last.signature.clone());
        let (kept, floor_hit) = filter_page(page, self.min_slot, self.max_slot);
        self.stop_after = floor_hit;
        if kept.len() == 0 && floor_hit {
            self.done = true;
        }
        Ok(kept)
    }

    /// Merges the collected results of one page's detail fetches. Order
    /// inside the batch is immaterial; an unresolved transaction contributes
    /// nothing and aborts nothing. If the page had hit the slot floor, the
    /// crawl ends here, with everything merged.
    pub fn absorb_results(&mut self, results: &Vec<Option<DetailResult>>)
        requires
            old(self).wf(),
            old(self).ledger.spec_total_count() + batch_count(results@) <= u64::MAX,
            old(self).ledger.spec_total_fees() + batch_fee_weight(results@) <= u64::MAX,
            old(self).processed + batch_processed(results@) <= u64::MAX,
            old(self).total_fees + batch_fees(results@) <= u64::MAX,
        ensures
            final(self).wf(),
            final(self).account == old(self).account,
            final(self).min_slot == old(self).min_slot,
            final(self).max_slot == old(self).max_slot,
            final(self).cursor == old(self).cursor,
            final(self).ledger.view_map() == spec_merge_results(
                old(self).ledger.view_map(),
                old(self).account@,
                results@,
            ),
            final(self).ledger.spec_total_count() == old(self).ledger.spec_total_count()
                + batch_count(results@),
            final(self).ledger.spec_total_fees() == old(self).ledger.spec_total_fees()
                + batch_fee_weight(results@),
            final(self).processed == old(self).processed + batch_processed(results@),
            final(self).total_fees == old(self).total_fees + batch_fees(results@),
            final(self).done == (old(self).done || old(self).stop_after),
            !final(self).stop_after,
    {
        let ghost rs = results@;
        let mut j: usize = 0;
        proof {
            assert(rs.take(0) =~= Seq::<Option<DetailResult>>::empty());
        }
        while j < results.len()
            invariant
                0 <= j <= rs.len(),
                rs == results@,
                self.wf(),
                self.account == old(self).account,
                self.min_slot == old(self).min_slot,
                self.max_slot == old(self).max_slot,
                self.cursor == old(self).cursor,
                self.done == old(self).done,
                self.stop_after == old(self).stop_after,
                self.ledger.view_map() == spec_merge_results(
                    old(self).ledger.view_map(),
                    old(self).account@,
                    rs.take(j as int),
                ),
                self.ledger.spec_total_count() == old(self).ledger.spec_total_count()
                    + batch_count(rs.take(j as int)),
                self.ledger.spec_total_fees() == old(self).ledger.spec_total_fees()
                    + batch_fee_weight(rs.take(j as int)),
                self.processed == old(self).processed + batch_processed(rs.take(j as int)),
                self.total_fees == old(self).total_fees + batch_fees(rs.take(j as int)),
                old(self).ledger.spec_total_count() + batch_count(rs) <= u64::MAX,
                old(self).ledger.spec_total_fees() + batch_fee_weight(rs) <= u64::MAX,
                old(self).processed + batch_processed(rs) <= u64::MAX,
                old(self).total_fees + batch_fees(rs) <= u64::MAX,
            decreases rs.len() - j,
        {
            proof {
                assert(rs.take(j + 1).drop_last() =~= rs.take(j as int));
                assert(rs.take(j + 1).last() == rs[j as int]);
                lemma_batch_prefix_le(rs, j as int + 1);
            }
            match &results[j] {
                Some(d) => {
                    let account = self.account.clone();
                    self.ledger.merge_detail(&account, d);
                    self.processed = self.processed + 1;
                    self.total_fees = self.total_fees + d.fee;
                },
                None => {},
            }
            j = j + 1;
        }
        proof {
            assert(rs.take(rs.len() as int) =~= rs);
        }
        if self.stop_after {
            self.done = true;
        }
        self.stop_after = false;
    }
}

/// The batch sums over a prefix never exceed those over the whole batch, and
/// none is negative.
pub proof fn lemma_batch_prefix_le(rs: Seq<Option<DetailResult>>, j: int)
    requires
        0 <= j <= rs.len(),
    ensures
        0 <= batch_count(rs.take(j)) && batch_count(rs.take(j)) <= batch_count(rs),
        0 <= batch_fee_weight(rs.take(j)) && batch_fee_weight(rs.take(j)) <= batch_fee_weight(rs),
        0 <= batch_processed(rs.take(j)) && batch_processed(rs.take(j)) <= batch_processed(rs),
        0 <= batch_fees(rs.take(j)) && batch_fees(rs.take(j)) <= batch_fees(rs),
    decreases rs.len(),
{
    if rs.len() == 0 {
        assert(rs.take(j) =~= rs);
    } else if j == rs.len() {
        assert(rs.take(j) =~= rs);
        lemma_batch_prefix_le(rs.drop_last(), rs.len() - 1);
        lemma_batch_last_nonneg(rs);
    } else {
        assert(rs.take(j) =~= rs.drop_last().take(j));
        lemma_batch_prefix_le(rs.drop_last(), j);
        lemma_batch_last_nonneg(rs);
    }
}

/// What the last batch entry adds to each sum is non-negative.
proof fn lemma_batch_last_nonneg(rs: Seq<Option<DetailResult>>)
    requires
        rs.len() > 0,
    ensures
        batch_count(rs.drop_last()) <= batch_count(rs),
        batch_fee_weight(rs.drop_last()) <= batch_fee_weight(rs),
        batch_processed(rs.drop_last()) <= batch_processed(rs),
        batch_fees(rs.drop_last()) <= batch_fees(rs),
{
    match rs.last() {
        Some(d) => {
            assert(d.fee * d.program_ids@.len() >= 0) by (nonlinear_arith);
        },
        None => {},
    }
}

/// The cross-account aggregate: the global ledger and the grand totals.
#[derive(Debug)]
pub struct RunAggregate {
    /// The global ledger, keyed by (account, epoch, program).
    pub ledger: Ledger,
    /// Fees of all resolved transactions of all accounts, once per
    /// transaction.
    pub grand_total_fees: u64,
    /// Number of resolved transactions over all accounts.
    pub grand_total_processed: u64,
}

impl RunAggregate {
    /// An empty aggregate.
    pub fn new() -> (r: RunAggregate)
        ensures
            r.ledger.wf(),
            r.ledger.view_map() == Map::<crate::ledger::KeyV, (int, int)>::empty(),
            r.ledger.records@.len() == 0,
            r.grand_total_fees == 0,
            r.grand_total_processed == 0,
    {
        RunAggregate { ledger: Ledger::new(), grand_total_fees: 0, grand_total_processed: 0 }
    }

    /// Folds one finished (or aborted) account crawl into the run: whatever
    /// the account aggregated before any failure stays valid and is merged,
    /// and the fold keeps per-account identity, since every key carries its
    /// account.
    pub fn fold_account(&mut self, crawl: &AccountCrawl)
        requires
            old(self).ledger.wf(),
            crawl.ledger.wf(),
            old(self).ledger.spec_total_count() + crawl.ledger.spec_total_count() <= u64::MAX,
            old(self).ledger.spec_total_fees() + crawl.ledger.spec_total_fees() <= u64::MAX,
            old(self).grand_total_fees + crawl.total_fees <= u64::MAX,
            old(self).grand_total_processed + crawl.processed <= u64::MAX,
        ensures
            final(self).ledger.wf(),
            final(self).ledger.view_map() == spec_merge_records(
                old(self).ledger.view_map(),
                crawl.ledger.records@,
            ),
            final(self).ledger.spec_total_count() == old(self).ledger.spec_total_count()
                + crawl.ledger.spec_total_count(),
            final(self).ledger.spec_total_fees() == old(self).ledger.spec_total_fees()
                + crawl.ledger.spec_total_fees(),
            final(self).grand_total_fees == old(self).grand_total_fees + crawl.total_fees,
            final(self).grand_total_processed == old(self).grand_total_processed
                + crawl.processed,
    {
        self.ledger.merge_ledger(&crawl.ledger);
        self.grand_total_fees = self.grand_total_fees + crawl.total_fees;
        self.grand_total_processed = self.grand_total_processed + crawl.processed;
    }
}

} // verus!
