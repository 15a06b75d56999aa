use cranker_expense::crawl::{AccountCrawl, RunAggregate};
use cranker_expense::detail::{build_detail, extract_program_ids, DetailResult, InstructionShape, MessageShape};
use cranker_expense::dispatch::chunk_entries;
use cranker_expense::epoch::{epoch_of_slot, slot_window, SLOTS_PER_EPOCH};
use cranker_expense::error::CrawlError;
use cranker_expense::ids::{check_address, check_cursor};
use cranker_expense::ledger::{Ledger, LedgerRecord};
use cranker_expense::page::{filter_page, SignatureEntry};
use cranker_expense::report::{csv_header, csv_line, csv_rows, lamports_to_sol, u64_to_dec};

fn entry(signature: &str, slot: u64) -> SignatureEntry {
    SignatureEntry { signature: signature.to_string(), slot }
}

fn detail(slot: u64, fee: u64, programs: &[&str]) -> DetailResult {
    DetailResult {
        slot,
        fee,
        program_ids: programs.iter().map(|p| p.to_string()).collect(),
    }
}

fn record_for<'a>(ledger: &'a Ledger, account: &str, epoch: u64, program: &str) -> &'a LedgerRecord {
    ledger
        .records
        .iter()
        .find(|r| r.account == account && r.epoch == epoch && r.program_id == program)
        .expect("missing ledger record")
}

// A string of n ones is valid base58 for n zero bytes: 32 for an address,
// 64 for a signature.
fn valid_address() -> String {
    "1".repeat(32)
}

fn valid_signature() -> String {
    "1".repeat(64)
}

#[test]
fn epoch_partition_examples() {
    assert_eq!(epoch_of_slot(0), 0);
    assert_eq!(epoch_of_slot(SLOTS_PER_EPOCH - 1), 0);
    assert_eq!(epoch_of_slot(SLOTS_PER_EPOCH), 1);
    assert_eq!(epoch_of_slot(5 * SLOTS_PER_EPOCH + 7), 5);
}

#[test]
fn slot_window_of_epoch_range() {
    let (min_slot, max_slot) = slot_window(2, 3);
    assert_eq!(min_slot, 2 * 432000);
    assert_eq!(max_slot, 4 * 432000 - 1);
    let (min0, max0) = slot_window(0, 0);
    assert_eq!(min0, 0);
    assert_eq!(max0, 431999);
}

#[test]
fn merge_commutativity_scenario() {
    let account = "acct".to_string();
    let a = detail(432000, 7, &["pa", "pb"]);
    let b = detail(432001, 11, &["pb", "pc"]);

    let mut forward = Ledger::new();
    forward.merge_detail(&account, &a);
    forward.merge_detail(&account, &b);

    let mut backward = Ledger::new();
    backward.merge_detail(&account, &b);
    backward.merge_detail(&account, &a);

    assert_eq!(forward.records.len(), backward.records.len());
    for r in &forward.records {
        let other = record_for(&backward, &r.account, r.epoch, &r.program_id);
        assert_eq!(other.transaction_count, r.transaction_count);
        assert_eq!(other.total_fees_lamports, r.total_fees_lamports);
    }
}

#[test]
fn fee_attribution_per_program_touch() {
    let account = "acct".to_string();
    let mut ledger = Ledger::new();
    ledger.merge_detail(&account, &detail(432000, 5, &["p1", "p2"]));

    let r1 = record_for(&ledger, "acct", 1, "p1");
    assert_eq!(r1.transaction_count, 1);
    assert_eq!(r1.total_fees_lamports, 5);
    let r2 = record_for(&ledger, "acct", 1, "p2");
    assert_eq!(r2.transaction_count, 1);
    assert_eq!(r2.total_fees_lamports, 5);

    let total: u64 = ledger.records.iter().map(|r| r.total_fees_lamports).sum();
    assert_eq!(total, 5 * 2);
}

#[test]
fn stop_rule_keeps_page_and_sets_signal() {
    let (min_slot, max_slot) = slot_window(1, 1);
    let page = vec![
        entry("s1", max_slot + 5),
        entry("s2", max_slot + 1),
        entry("s3", max_slot - 10),
        entry("s4", min_slot - 1),
    ];
    let (kept, exhausted) = filter_page(&page, min_slot, max_slot);
    assert_eq!(kept.len(), 1);
    assert_eq!(kept[0].signature, "s3");
    assert_eq!(kept[0].slot, max_slot - 10);
    assert!(exhausted);
}

#[test]
fn too_recent_entries_do_not_set_signal() {
    let (min_slot, max_slot) = slot_window(1, 1);
    let page = vec![entry("s1", max_slot + 5), entry("s2", max_slot + 1)];
    let (kept, exhausted) = filter_page(&page, min_slot, max_slot);
    assert!(kept.is_empty());
    assert!(!exhausted);
}

#[test]
fn cursor_advances_over_fully_filtered_page() {
    let (min_slot, max_slot) = slot_window(1, 1);
    let mut crawl = AccountCrawl::new(valid_address(), min_slot, max_slot).unwrap();

    // Page 1: in range.
    let sig1 = valid_signature();
    let page1 = vec![SignatureEntry { signature: sig1.clone(), slot: max_slot - 1 }];
    let kept1 = crawl.on_page(&page1).unwrap();
    assert_eq!(kept1.len(), 1);
    assert!(!crawl.done);
    assert_eq!(crawl.cursor.as_deref(), Some(sig1.as_str()));
    crawl.absorb_results(&vec![Some(detail(max_slot - 1, 3, &["p"]))]);
    assert!(!crawl.done);

    // Page 2: entirely above the window; contributes nothing, but the cursor
    // must still advance to its last entry so page 3 can be requested.
    let sig2 = format!("{}2", "1".repeat(63));
    let page2 = vec![
        entry(&valid_signature(), max_slot + 20),
        SignatureEntry { signature: sig2.clone(), slot: max_slot + 10 },
    ];
    let kept2 = crawl.on_page(&page2).unwrap();
    assert!(kept2.is_empty());
    assert!(!crawl.done, "a fully filtered page must not stop the crawl");
    assert_eq!(crawl.cursor.as_deref(), Some(sig2.as_str()));

    // Page 3 is still requested and processed.
    let sig3 = format!("{}3", "1".repeat(63));
    let page3 = vec![SignatureEntry { signature: sig3.clone(), slot: min_slot + 1 }];
    let kept3 = crawl.on_page(&page3).unwrap();
    assert_eq!(kept3.len(), 1);
    assert_eq!(crawl.cursor.as_deref(), Some(sig3.as_str()));
    crawl.absorb_results(&vec![Some(detail(min_slot + 1, 4, &["p"]))]);

    // Empty page: history exhausted.
    let kept4 = crawl.on_page(&Vec::new()).unwrap();
    assert!(kept4.is_empty());
    assert!(crawl.done);
    assert_eq!(crawl.processed, 2);
    assert_eq!(crawl.total_fees, 7);
}

#[test]
fn floor_hit_stops_after_merge() {
    let (min_slot, max_slot) = slot_window(1, 1);
    let mut crawl = AccountCrawl::new(valid_address(), min_slot, max_slot).unwrap();
    let page = vec![
        entry(&valid_signature(), max_slot - 1),
        entry(&valid_signature(), min_slot - 1),
    ];
    let kept = crawl.on_page(&page).unwrap();
    assert_eq!(kept.len(), 1);
    assert!(!crawl.done, "the in-range part of the page is still processed");
    crawl.absorb_results(&vec![Some(detail(max_slot - 1, 2, &["p"]))]);
    assert!(crawl.done);
}

#[test]
fn entirely_below_floor_stops_without_dispatch() {
    let (min_slot, max_slot) = slot_window(1, 1);
    let mut crawl = AccountCrawl::new(valid_address(), min_slot, max_slot).unwrap();
    let page = vec![entry(&valid_signature(), min_slot - 5)];
    let kept = crawl.on_page(&page).unwrap();
    assert!(kept.is_empty());
    assert!(crawl.done);
}

#[test]
fn idempotent_reaggregation_doubles() {
    let account = "acct".to_string();
    let d = detail(432000, 9, &["p"]);
    let mut ledger = Ledger::new();
    ledger.merge_detail(&account, &d);
    ledger.merge_detail(&account, &d);
    let r = record_for(&ledger, "acct", 1, "p");
    assert_eq!(r.transaction_count, 2);
    assert_eq!(r.total_fees_lamports, 2 * 9);
}

#[test]
fn csv_round_trip_reproduces_totals() {
    let account = "acct".to_string();
    let mut ledger = Ledger::new();
    ledger.merge_detail(&account, &detail(432000, 1_234_567_891, &["p1", "p2"]));
    ledger.merge_detail(&account, &detail(864000, 42, &["p1"]));

    let rows = csv_rows(&ledger.records);
    let mut count_sum: u64 = 0;
    let mut fee_sum: u64 = 0;
    let mut scaled_sum: u64 = 0;
    for row in &rows {
        let cols: Vec<&str> = row.split(',').collect();
        assert_eq!(cols.len(), 6);
        count_sum += cols[3].parse::<u64>().unwrap();
        fee_sum += cols[4].parse::<u64>().unwrap();
        let (whole, frac) = cols[5].split_once('.').unwrap();
        assert_eq!(frac.len(), 9, "exactly nine fractional digits");
        scaled_sum += whole.parse::<u64>().unwrap() * 1_000_000_000 + frac.parse::<u64>().unwrap();
    }
    let expected_counts: u64 = ledger.records.iter().map(|r| r.transaction_count).sum();
    let expected_fees: u64 = ledger.records.iter().map(|r| r.total_fees_lamports).sum();
    assert_eq!(count_sum, expected_counts);
    assert_eq!(fee_sum, expected_fees);
    assert_eq!(scaled_sum, expected_fees, "the scaled column loses nothing");
}

#[test]
fn csv_line_exact() {
    let rec = LedgerRecord {
        account: "acct".to_string(),
        epoch: 5,
        program_id: "prog".to_string(),
        transaction_count: 3,
        total_fees_lamports: 1_500_000_000,
    };
    assert_eq!(csv_line(&rec), "acct,5,prog,3,1500000000,1.500000000");
    assert_eq!(
        csv_header(),
        "account,epoch,program_id,transaction_count,total_fees_lamports,total_fees_sol"
    );
}

#[test]
fn decimal_rendering_exact() {
    assert_eq!(u64_to_dec(0), "0");
    assert_eq!(u64_to_dec(10), "10");
    assert_eq!(u64_to_dec(432000), "432000");
    assert_eq!(u64_to_dec(u64::MAX), "18446744073709551615");
    assert_eq!(lamports_to_sol(0), "0.000000000");
    assert_eq!(lamports_to_sol(999_999_999), "0.999999999");
    assert_eq!(lamports_to_sol(1_000_000_000), "1.000000000");
    assert_eq!(lamports_to_sol(u64::MAX), "18446744073.709551615");
}

#[test]
fn extraction_normalizes_three_shapes() {
    let msg = MessageShape {
        account_keys: vec!["k0".to_string(), "k1".to_string()],
        instructions: vec![
            InstructionShape::Explicit { program_id: "pa".to_string() },
            InstructionShape::Indexed { program_id_index: 1 },
            InstructionShape::Indexed { program_id_index: 5 },
            InstructionShape::PartiallyDecoded { program_id: "pb".to_string() },
        ],
    };
    let ids = extract_program_ids(&msg);
    assert_eq!(ids, vec!["pa".to_string(), "k1".to_string(), "pb".to_string()]);
}

#[test]
fn build_detail_yields_nothing_without_programs() {
    let msg = MessageShape {
        account_keys: vec!["k0".to_string()],
        instructions: vec![InstructionShape::Indexed { program_id_index: 9 }],
    };
    assert!(build_detail(7, Some(5), &msg).is_none());

    let empty = MessageShape { account_keys: Vec::new(), instructions: Vec::new() };
    assert!(build_detail(7, Some(5), &empty).is_none());
}

#[test]
fn build_detail_defaults_missing_fee_to_zero() {
    let msg = MessageShape {
        account_keys: Vec::new(),
        instructions: vec![InstructionShape::Explicit { program_id: "pa".to_string() }],
    };
    let d = build_detail(99, None, &msg).unwrap();
    assert_eq!(d.fee, 0);
    assert_eq!(d.slot, 99);
    assert_eq!(d.program_ids, vec!["pa".to_string()]);
}

#[test]
fn chunks_are_consecutive_and_bounded() {
    let entries: Vec<SignatureEntry> =
        (0..5).map(|i| entry(&format!("s{}", i), 100 + i as u64)).collect();
    let chunks = chunk_entries(&entries, 2);
    assert_eq!(chunks.len(), 3);
    assert_eq!(chunks[0].len(), 2);
    assert_eq!(chunks[1].len(), 2);
    assert_eq!(chunks[2].len(), 1);
    let flat: Vec<String> =
        chunks.iter().flat_map(|c| c.iter().map(|e| e.signature.clone())).collect();
    assert_eq!(flat, vec!["s0", "s1", "s2", "s3", "s4"]);

    assert!(chunk_entries(&Vec::new(), 3).is_empty());
}

#[test]
fn malformed_address_is_fatal_before_crawling() {
    assert_eq!(check_address("not base58 at all!"), Err(CrawlError::MalformedAddress));
    assert!(check_address(&valid_address()).is_ok());
    assert!(AccountCrawl::new("0invalid0".to_string(), 0, 10).is_err());
}

#[test]
fn invalid_last_signature_fails_cursor_advance() {
    assert_eq!(check_cursor("!!"), Err(CrawlError::CursorAdvanceFailure));
    assert!(check_cursor(&valid_signature()).is_ok());

    let mut crawl = AccountCrawl::new(valid_address(), 0, 10).unwrap();
    let page = vec![entry(&valid_signature(), 5), entry("not a signature", 4)];
    let r = crawl.on_page(&page);
    assert_eq!(r.unwrap_err(), CrawlError::CursorAdvanceFailure);
    assert!(crawl.done);
}

#[test]
fn error_descriptions() {
    assert_eq!(
        CrawlError::MalformedAddress.describe(),
        "account identifier is not a valid address"
    );
    assert_eq!(
        CrawlError::CursorAdvanceFailure.describe(),
        "page cursor could not be advanced: last signature is invalid"
    );
}

#[test]
fn unresolved_results_contribute_nothing() {
    let mut crawl = AccountCrawl::new(valid_address(), 0, 1_000_000).unwrap();
    let page = vec![entry(&valid_signature(), 5)];
    crawl.on_page(&page).unwrap();
    crawl.absorb_results(&vec![None, Some(detail(5, 3, &["p"])), None]);
    assert_eq!(crawl.processed, 1);
    assert_eq!(crawl.total_fees, 3);
    assert_eq!(crawl.ledger.records.len(), 1);
}

#[test]
fn cross_account_fold_keeps_identity() {
    let mut run = RunAggregate::new();

    let mut one = AccountCrawl::new(valid_address(), 0, 1_000_000).unwrap();
    one.on_page(&vec![entry(&valid_signature(), 5)]).unwrap();
    one.absorb_results(&vec![Some(detail(5, 3, &["p"]))]);
    run.fold_account(&one);

    let mut two = AccountCrawl::new(format!("{}2", "1".repeat(31)), 0, 1_000_000).unwrap();
    two.on_page(&vec![entry(&valid_signature(), 6)]).unwrap();
    two.absorb_results(&vec![Some(detail(6, 4, &["p"]))]);
    run.fold_account(&two);

    assert_eq!(run.grand_total_processed, 2);
    assert_eq!(run.grand_total_fees, 7);
    assert_eq!(run.ledger.records.len(), 2, "same epoch and program, different accounts");
    let r1 = record_for(&run.ledger, &"1".repeat(32), 0, "p");
    assert_eq!(r1.total_fees_lamports, 3);
    let r2 = record_for(&run.ledger, &format!("{}2", "1".repeat(31)), 0, "p");
    assert_eq!(r2.total_fees_lamports, 4);
}
