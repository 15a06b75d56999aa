//! Epoch-bounded history crawler and aggregation engine.
//!
//! The library walks a reverse-chronological, cursor-paginated signature feed
//! for a set of accounts, restricts the walk to a caller-given epoch range,
//! resolves each signature to a fee and the programs it invoked, and folds
//! everything into a deduplicated ledger keyed by (account, epoch, program).

pub mod crawl;
pub mod detail;
pub mod dispatch;
pub mod epoch;
pub mod error;
pub mod ids;
pub mod ledger;
pub mod page;
pub mod report;
