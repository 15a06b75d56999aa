//! The aggregation ledger: one record per (account, epoch, program) key,
//! counters summed on every further observation of the key.

use vstd::prelude::*;
use vstd::arithmetic::mul::lemma_mul_inequality;
use crate::detail::{views_of, DetailResult};
use crate::epoch::{spec_epoch_of_slot, epoch_of_slot};

verus! {

/// One aggregation bucket: the identity triple and its accumulated counters.
#[derive(Debug, Clone)]
pub struct LedgerRecord {
    pub account: String,
    pub epoch: u64,
    pub program_id: String,
    pub transaction_count: u64,
    pub total_fees_lamports: u64,
}

/// The mathematical identity of a bucket: (account, epoch, program).
pub type KeyV = (Seq<char>, int, Seq<char>);

/// The mathematical content of a ledger: each key's (count, fee) pair.
pub type LedgerMap = Map<KeyV, (int, int)>;

impl LedgerRecord {
    /// The record's identity.
    pub open spec fn keyv(self) -> KeyV {
        (self.account@, self.epoch as int, self.program_id@)
    }

    /// The record's counters as a mathematical pair.
    pub open spec fn counters(self) -> (int, int) {
        (self.transaction_count as int, self.total_fees_lamports as int)
    }
}

/// Adds (dc, df) to a key's counters, creating the bucket on the key's first
/// observation. This is the one way any ledger is ever changed.
pub open spec fn bump(m: LedgerMap, k: KeyV, dc: int, df: int) -> LedgerMap {
    if m.dom().contains(k) {
        m.insert(k, (m[k].0 + dc, m[k].1 + df))
    } else {
        m.insert(k, (dc, df))
    }
}

/// The map a sequence of records denotes. With unique keys, each key maps to
/// its one record's counters.
pub open spec fn map_of(s: Seq<LedgerRecord>) -> LedgerMap
    decreases s.len(),
{
    if s.len() == 0 {
        Map::empty()
    } else {
        map_of(s.drop_last()).insert(s.last().keyv(), s.last().counters())
    }
}

/// Sum of the transaction counts of a sequence of records.
pub open spec fn sum_counts(s: Seq<LedgerRecord>) -> int
    decreases s.len(),
{
    if s.len() == 0 {
        0
    } else {
        sum_counts(s.drop_last()) + s.last().transaction_count
    }
}

/// Sum of the fee totals of a sequence of records.
pub open spec fn sum_fees(s: Seq<LedgerRecord>) -> int
    decreases s.len(),
{
    if s.len() == 0 {
        0
    } else {
        sum_fees(s.drop_last()) + s.last().total_fees_lamports
    }
}

/// Unique keys: no two records denote the same bucket.
pub open spec fn unique_keys(s: Seq<LedgerRecord>) -> bool {
    forall|i: int, j: int|
        0 <= i < j < s.len() ==> (#[trigger] s[i]).keyv() != (#[trigger] s[j]).keyv()
}

/// A key is in the denoted map exactly when some record carries it.
pub proof fn lemma_map_of_contains(s: Seq<LedgerRecord>, k: KeyV)
    ensures
        map_of(s).dom().contains(k) <==> exists|i: int|
            0 <= i < s.len() && (#[trigger] s[i]).keyv() == k,
    decreases s.len(),
{
    if s.len() > 0 {
        lemma_map_of_contains(s.drop_last(), k);
        if s.last().keyv() == k {
            assert(s[s.len() - 1].keyv() == k);
        } else {
            if map_of(s).dom().contains(k) {
                let i = choose|i: int|
                    0 <= i < s.drop_last().len() && (#[trigger] s.drop_last()[i]).keyv() == k;
                assert(s[i].keyv() == k);
            }
            if exists|i: int| 0 <= i < s.len() && (#[trigger] s[i]).keyv() == k {
                let i = choose|i: int| 0 <= i < s.len() && (#[trigger] s[i]).keyv() == k;
                assert(i < s.len() - 1);
                assert(s.drop_last()[i].keyv() == k);
            }
        }
    }
}

/// With unique keys, each record's key maps to that record's counters.
pub proof fn lemma_map_of_index(s: Seq<LedgerRecord>, i: int)
    requires
        unique_keys(s),
        0 <= i < s.len(),
    ensures
        map_of(s).dom().contains(s[i].keyv()),
        map_of(s)[s[i].keyv()] == s[i].counters(),
    decreases s.len(),
{
    if i == s.len() - 1 {
        assert(s.last() == s[i]);
    } else {
        assert(unique_keys(s.drop_last())) by {
            assert(forall|x: int, y: int|
                0 <= x < y < s.drop_last().len() ==> s.drop_last()[x] == s[x]
                    && s.drop_last()[y] == s[y]);
        }
        assert(s.drop_last()[i] == s[i]);
        lemma_map_of_index(s.drop_last(), i);
        assert(s[i].keyv() != s.last().keyv());
    }
}

/// Dropping the last record keeps the keys unique.
pub proof fn lemma_unique_drop_last(s: Seq<LedgerRecord>)
    requires
        unique_keys(s),
        s.len() > 0,
    ensures
        unique_keys(s.drop_last()),
{
    assert(forall|x: int, y: int|
        0 <= x < y < s.drop_last().len() ==> s.drop_last()[x] == s[x] && s.drop_last()[y] == s[y]);
}

/// Replacing the record at `i` by one with the same key turns the denoted map
/// into the old map with that key re-bound to the new counters.
pub proof fn lemma_map_of_update(s: Seq<LedgerRecord>, i: int, r: LedgerRecord)
    requires
        unique_keys(s),
        0 <= i < s.len(),
        r.keyv() == s[i].keyv(),
    ensures
        map_of(s.update(i, r)) =~= map_of(s).insert(r.keyv(), r.counters()),
        unique_keys(s.update(i, r)),
    decreases s.len(),
{
    assert(unique_keys(s.update(i, r))) by {
        assert(forall|x: int|
            0 <= x < s.len() ==> (#[trigger] s.update(i, r)[x]).keyv() == s[x].keyv());
    }
    if i == s.len() - 1 {
        assert(s.update(i, r).drop_last() =~= s.drop_last());
        assert(s.update(i, r).last() == r);
    } else {
        lemma_unique_drop_last(s);
        assert(s.update(i, r).drop_last() =~= s.drop_last().update(i, r));
        assert(s.drop_last()[i] == s[i]);
        lemma_map_of_update(s.drop_last(), i, r);
        assert(s.update(i, r).last() == s.last());
        assert(r.keyv() != s.last().keyv());
    }
}

/// Replacing the record at `i` changes each sum by the difference at `i`.
pub proof fn lemma_sums_update(s: Seq<LedgerRecord>, i: int, r: LedgerRecord)
    requires
        0 <= i < s.len(),
    ensures
        sum_counts(s.update(i, r)) == sum_counts(s) - s[i].transaction_count
            + r.transaction_count,
        sum_fees(s.update(i, r)) == sum_fees(s) - s[i].total_fees_lamports
            + r.total_fees_lamports,
    decreases s.len(),
{
    if i == s.len() - 1 {
        assert(s.update(i, r).drop_last() =~= s.drop_last());
        assert(s.update(i, r).last() == r);
    } else {
        assert(s.update(i, r).drop_last() =~= s.drop_last().update(i, r));
        assert(s.drop_last()[i] == s[i]);
        lemma_sums_update(s.drop_last(), i, r);
        assert(s.update(i, r).last() == s.last());
    }
}

/// Every record's counters are bounded by the sums: all summands are
/// non-negative.
pub proof fn lemma_record_le_sums(s: Seq<LedgerRecord>, i: int)
    requires
        0 <= i < s.len(),
    ensures
        s[i].transaction_count <= sum_counts(s),
        s[i].total_fees_lamports <= sum_fees(s),
        0 <= sum_counts(s),
        0 <= sum_fees(s),
    decreases s.len(),
{
    lemma_sums_nonneg(s.drop_last());
    if i == s.len() - 1 {
        assert(s.last() == s[i]);
    } else {
        assert(s.drop_last()[i] == s[i]);
        lemma_record_le_sums(s.drop_last(), i);
    }
}

/// The sums of a sequence of records are non-negative.
pub proof fn lemma_sums_nonneg(s: Seq<LedgerRecord>)
    ensures
        0 <= sum_counts(s),
        0 <= sum_fees(s),
    decreases s.len(),
{
    if s.len() > 0 {
        lemma_sums_nonneg(s.drop_last());
    }
}

/// The deduplicated ledger. Its mathematical content is `map_of` over its
/// records; `wf` says the records denote the map faithfully.
#[derive(Debug, Clone)]
pub struct Ledger {
    pub records: Vec<LedgerRecord>,
}

impl Ledger {
    /// Well-formed: one record per key.
    pub open spec fn wf(self) -> bool {
        unique_keys(self.records@)
    }

    /// The ledger's mathematical content.
    pub open spec fn view_map(self) -> LedgerMap {
        map_of(self.records@)
    }

    /// Sum of all transaction counts, over all buckets.
    pub open spec fn spec_total_count(self) -> int {
        sum_counts(self.records@)
    }

    /// Sum of all fee totals, over all buckets.
    pub open spec fn spec_total_fees(self) -> int {
        sum_fees(self.records@)
    }

    /// An empty ledger.
    pub fn new() -> (l: Ledger)
        ensures
            l.wf(),
            l.view_map() == Map::<KeyV, (int, int)>::empty(),
            l.records@.len() == 0,
    {
        Ledger { records: Vec::new() }
    }

    /// The number of buckets.
    pub fn len(&self) -> (n: usize)
        ensures
            n == self.records@.len(),
    {
        self.records.len()
    }

    /// The index of the record carrying a key, if any record does.
    fn find_key(&self, account: &String, epoch: u64, program_id: &String) -> (r: Option<usize>)
        ensures
            match r {
                Some(i) => i < self.records@.len() && self.records@[i as int].keyv() == (
                    account@,
                    epoch as int,
                    program_id@,
                ),
                None => forall|i: int|
                    0 <= i < self.records@.len() ==> (#[trigger] self.records@[i]).keyv() != (
                        account@,
                        epoch as int,
                        program_id@,
                    ),
            },
    {
        let mut i: usize = 0;
        while i < self.records.len()
            invariant
                0 <= i <= self.records@.len(),
                forall|j: int|
                    0 <= j < i ==> (#[trigger] self.records@[j]).keyv() != (
                        account@,
                        epoch as int,
                        program_id@,
                    ),
            decreases self.records@.len() - i,
        {
            let rec = &self.records[i];
            if rec.account == *account && rec.epoch == epoch && rec.program_id == *program_id {
                return Some(i);
            }
            i = i + 1;
        }
        None
    }

    /// Adds (dc, df) to one key's counters, creating the bucket on the key's
    /// first observation: the denoted map is bumped at that key and nothing
    /// else changes.
    pub fn merge_entry(
        &mut self,
        account: &String,
        epoch: u64,
        program_id: &String,
        dc: u64,
        df: u64,
    )
        requires
            old(self).wf(),
            old(self).spec_total_count() + dc <= u64::MAX,
            old(self).spec_total_fees() + df <= u64::MAX,
        ensures
            final(self).wf(),
            final(self).view_map() == bump(
                old(self).view_map(),
                (account@, epoch as int, program_id@),
                dc as int,
                df as int,
            ),
            final(self).spec_total_count() == old(self).spec_total_count() + dc,
            final(self).spec_total_fees() == old(self).spec_total_fees() + df,
    {
        let ghost k: KeyV = (account@, epoch as int, program_id@);
        match self.find_key(account, epoch, program_id) {
            Some(i) => {
                proof {
                    lemma_map_of_index(self.records@, i as int);
                    lemma_record_le_sums(self.records@, i as int);
                }
                let rec = &self.records[i];
                let updated = LedgerRecord {
                    account: rec.account.clone(),
                    epoch: rec.epoch,
                    program_id: rec.program_id.clone(),
                    transaction_count: rec.transaction_count + dc,
                    total_fees_lamports: rec.total_fees_lamports + df,
                };
                proof {
                    assert(updated.keyv() == k);
                    lemma_map_of_update(self.records@, i as int, updated);
                    lemma_sums_update(self.records@, i as int, updated);
                }
                self.records[i] = updated;
            },
            None => {
                proof {
                    lemma_map_of_contains(self.records@, k);
                    lemma_sums_nonneg(self.records@);
                }
                let fresh = LedgerRecord {
                    account: account.clone(),
                    epoch,
                    program_id: program_id.clone(),
                    transaction_count: dc,
                    total_fees_lamports: df,
                };
                let ghost before = self.records@;
                self.records.push(fresh);
                proof {
                    assert(self.records@.drop_last() =~= before);
                    assert(self.records@.last() == fresh);
                    assert(fresh.keyv() == k);
                    assert(unique_keys(self.records@)) by {
                        assert(forall|x: int|
                            0 <= x < before.len() ==> (#[trigger] self.records@[x]) == before[x]);
                    }
                }
            },
        }
    }
    /// Merges one transaction's detail into the ledger for one account: every
    /// program the transaction invoked has its bucket bumped by one
    /// transaction and by the full fee. The fee is attributed in full to
    /// every invoked program, never divided across them.
    pub fn merge_detail(&mut self, account: &String, d: &DetailResult)
        requires
            old(self).wf(),
            old(self).spec_total_count() + d.program_ids@.len() <= u64::MAX,
            old(self).spec_total_fees() + d.fee * d.program_ids@.len() <= u64::MAX,
        ensures
            final(self).wf(),
            final(self).view_map() == spec_merge_detail(old(self).view_map(), account@, *d),
            final(self).spec_total_count() == old(self).spec_total_count()
                + d.program_ids@.len(),
            final(self).spec_total_fees() == old(self).spec_total_fees() + d.fee
                * d.program_ids@.len(),
    {
        let ghost progs = views_of(d.program_ids@);
        let ghost m0 = self.view_map();
        let epoch = epoch_of_slot(d.slot);
        let mut j: usize = 0;
        proof {
            assert(progs.take(0) =~= Seq::<Seq<char>>::empty());
        }
        while j < d.program_ids.len()
            invariant
                0 <= j <= d.program_ids@.len(),
                progs == views_of(d.program_ids@),
                epoch == spec_epoch_of_slot(d.slot),
                m0 == old(self).view_map(),
                self.wf(),
                self.view_map() == spec_merge_programs(
                    m0,
                    account@,
                    epoch as int,
                    d.fee,
                    progs.take(j as int),
                ),
                self.spec_total_count() == old(self).spec_total_count() + j,
                self.spec_total_fees() == old(self).spec_total_fees() + d.fee * j,
                old(self).spec_total_count() + d.program_ids@.len() <= u64::MAX,
                old(self).spec_total_fees() + d.fee * d.program_ids@.len() <= u64::MAX,
            decreases d.program_ids@.len() - j,
        {
            proof {
                lemma_mul_inequality(j as int + 1, d.program_ids@.len() as int, d.fee as int);
                assert(d.fee * (j + 1) == d.fee * j + d.fee) by (nonlinear_arith);
                assert((j + 1) * d.fee == d.fee * (j + 1)) by (nonlinear_arith);
                assert(d.program_ids@.len() * d.fee == d.fee * d.program_ids@.len())
                    by (nonlinear_arith);
            }
            self.merge_entry(account, epoch, &d.program_ids[j], 1, d.fee);
            proof {
                assert(progs.take(j + 1).drop_last() =~= progs.take(j as int));
                assert(progs.take(j + 1).last() == progs[j as int]);
                assert(progs[j as int] == d.program_ids@[j as int]@);
            }
            j = j + 1;
        }
        proof {
            assert(progs.take(d.program_ids@.len() as int) =~= progs);
        }
    }

    /// Folds another well-formed ledger into this one, record by record: each
    /// of the other's buckets bumps the same key here by its full counters.
    /// The key carries the account, so the fold never loses per-account
    /// identity.
    pub fn merge_ledger(&mut self, other: &Ledger)
        requires
            old(self).wf(),
            old(self).spec_total_count() + other.spec_total_count() <= u64::MAX,
            old(self).spec_total_fees() + other.spec_total_fees() <= u64::MAX,
        ensures
            final(self).wf(),
            final(self).view_map() == spec_merge_records(old(self).view_map(), other.records@),
            final(self).spec_total_count() == old(self).spec_total_count()
                + other.spec_total_count(),
            final(self).spec_total_fees() == old(self).spec_total_fees()
                + other.spec_total_fees(),
    {
        let ghost m0 = self.view_map();
        let ghost s = other.records@;
        let mut j: usize = 0;
        proof {
            assert(s.take(0) =~= Seq::<LedgerRecord>::empty());
        }
        while j < other.records.len()
            invariant
                0 <= j <= s.len(),
                s == other.records@,
                m0 == old(self).view_map(),
                self.wf(),
                self.view_map() == spec_merge_records(m0, s.take(j as int)),
                self.spec_total_count() == old(self).spec_total_count() + sum_counts(
                    s.take(j as int),
                ),
                self.spec_total_fees() == old(self).spec_total_fees() + sum_fees(
                    s.take(j as int),
                ),
                old(self).spec_total_count() + sum_counts(s) <= u64::MAX,
                old(self).spec_total_fees() + sum_fees(s) <= u64::MAX,
            decreases s.len() - j,
        {
            proof {
                assert(s.take(j + 1).drop_last() =~= s.take(j as int));
                assert(s.take(j + 1).last() == s[j as int]);
                lemma_prefix_sums_le(s, j as int + 1);
            }
            let rec = &other.records[j];
            self.merge_entry(
                &rec.account,
                rec.epoch,
                &rec.program_id,
                rec.transaction_count,
                rec.total_fees_lamports,
            );
            j = j + 1;
        }
        proof {
            assert(s.take(s.len() as int) =~= s);
        }
    }
}

/// What merging one transaction's programs, oldest first, does to a ledger
/// map: one bump of (1, fee) per listed program, under the given account and
/// epoch.
pub open spec fn spec_merge_programs(
    m: LedgerMap,
    account: Seq<char>,
    epoch: int,
    fee: u64,
    progs: Seq<Seq<char>>,
) -> LedgerMap
    decreases progs.len(),
{
    if progs.len() == 0 {
        m
    } else {
        bump(
            spec_merge_programs(m, account, epoch, fee, progs.drop_last()),
            (account, epoch, progs.last()),
            1,
            fee as int,
        )
    }
}

/// What merging one detail does to a ledger map.
pub open spec fn spec_merge_detail(m: LedgerMap, account: Seq<char>, d: DetailResult) -> LedgerMap {
    spec_merge_programs(
        m,
        account,
        spec_epoch_of_slot(d.slot),
        d.fee,
        views_of(d.program_ids@),
    )
}

/// What folding a sequence of records does to a ledger map: one bump per
/// record, by the record's full counters.
pub open spec fn spec_merge_records(m: LedgerMap, s: Seq<LedgerRecord>) -> LedgerMap
    decreases s.len(),
{
    if s.len() == 0 {
        m
    } else {
        bump(
            spec_merge_records(m, s.drop_last()),
            s.last().keyv(),
            s.last().transaction_count as int,
            s.last().total_fees_lamports as int,
        )
    }
}

/// Number of times a program occurs in an extracted program list.
pub open spec fn occurrences(progs: Seq<Seq<char>>, p: Seq<char>) -> int
    decreases progs.len(),
{
    if progs.len() == 0 {
        0
    } else {
        occurrences(progs.drop_last(), p) + if progs.last() == p {
            1int
        } else {
            0
        }
    }
}

/// Fee attribution, bucket by bucket: merging one transaction's programs
/// bumps the bucket of each program it lists by (1, fee) per occurrence, and
/// touches no bucket of another account or epoch.
pub proof fn lemma_merge_programs_at_key(
    m: LedgerMap,
    account: Seq<char>,
    epoch: int,
    fee: u64,
    progs: Seq<Seq<char>>,
    k: KeyV,
)
    ensures
        ({
            let m2 = spec_merge_programs(m, account, epoch, fee, progs);
            let occ = occurrences(progs, k.2);
            &&& (k.0 != account || k.1 != epoch || occ == 0) ==> {
                &&& m2.dom().contains(k) == m.dom().contains(k)
                &&& m.dom().contains(k) ==> m2[k] == m[k]
            }
            &&& (k.0 == account && k.1 == epoch && occ > 0) ==> {
                &&& m2.dom().contains(k)
                &&& m2[k].0 == (if m.dom().contains(k) {
                    m[k].0
                } else {
                    0
                }) + occ
                &&& m2[k].1 == (if m.dom().contains(k) {
                    m[k].1
                } else {
                    0
                }) + occ * fee
            }
        }),
    decreases progs.len(),
{
    if progs.len() > 0 {
        let ps0 = progs.drop_last();
        lemma_merge_programs_at_key(m, account, epoch, fee, ps0, k);
        lemma_occurrences_nonneg(ps0, k.2);
        let m1 = spec_merge_programs(m, account, epoch, fee, ps0);
        let m2 = spec_merge_programs(m, account, epoch, fee, progs);
        let klast = (account, epoch, progs.last());
        let occ0 = occurrences(ps0, k.2);
        let occ = occurrences(progs, k.2);
        assert(m2 == bump(m1, klast, 1, fee as int));
        if progs.last() == k.2 {
            assert(occ == occ0 + 1);
            assert(occ * fee == occ0 * fee + fee) by (nonlinear_arith)
                requires
                    occ == occ0 + 1,
            ;
            assert(occ0 == 0 ==> occ0 * fee == 0) by (nonlinear_arith);
        } else {
            assert(occ == occ0);
        }
        if k != klast {
            assert(m2.dom().contains(k) == m1.dom().contains(k));
            assert(m1.dom().contains(k) ==> m2[k] == m1[k]);
        }
    }
}

/// A program occurs a non-negative number of times.
pub proof fn lemma_occurrences_nonneg(progs: Seq<Seq<char>>, p: Seq<char>)
    ensures
        occurrences(progs, p) >= 0,
    decreases progs.len(),
{
    if progs.len() > 0 {
        lemma_occurrences_nonneg(progs.drop_last(), p);
    }
}

/// Fee attribution: one transaction with fee `fee` that invokes two distinct
/// programs bumps both of their buckets by one transaction and by the full
/// fee each; over the two buckets the fee is counted twice, once per touched
/// program, never divided.
pub proof fn lemma_fee_attribution(
    m: LedgerMap,
    account: Seq<char>,
    epoch: int,
    fee: u64,
    p1: Seq<char>,
    p2: Seq<char>,
)
    requires
        p1 != p2,
    ensures
        ({
            let m2 = spec_merge_programs(m, account, epoch, fee, seq![p1, p2]);
            let k1 = (account, epoch, p1);
            let k2 = (account, epoch, p2);
            &&& m2.dom().contains(k1) && m2.dom().contains(k2)
            &&& m2[k1].0 == (if m.dom().contains(k1) {
                m[k1].0
            } else {
                0
            }) + 1
            &&& m2[k1].1 == (if m.dom().contains(k1) {
                m[k1].1
            } else {
                0
            }) + fee
            &&& m2[k2].0 == (if m.dom().contains(k2) {
                m[k2].0
            } else {
                0
            }) + 1
            &&& m2[k2].1 == (if m.dom().contains(k2) {
                m[k2].1
            } else {
                0
            }) + fee
        }),
{
    let ps = seq![p1, p2];
    let one = seq![p1];
    let none = Seq::<Seq<char>>::empty();
    assert(ps.drop_last() =~= one);
    assert(one.drop_last() =~= none);
    assert(ps.last() == p2 && one.last() == p1);
    assert(occurrences(none, p1) == 0 && occurrences(none, p2) == 0);
    assert(occurrences(one, p1) == occurrences(none, p1) + 1);
    assert(occurrences(one, p2) == occurrences(none, p2));
    assert(occurrences(ps, p1) == occurrences(one, p1));
    assert(occurrences(ps, p2) == occurrences(one, p2) + 1);
    lemma_merge_programs_at_key(m, account, epoch, fee, ps, (account, epoch, p1));
    lemma_merge_programs_at_key(m, account, epoch, fee, ps, (account, epoch, p2));
    assert(occurrences(ps, p1) * fee == fee) by (nonlinear_arith)
        requires
            occurrences(ps, p1) == 1,
    ;
    assert(occurrences(ps, p2) * fee == fee) by (nonlinear_arith)
        requires
            occurrences(ps, p2) == 1,
    ;
}

/// Duplicates are additive: merging the same detail twice into a fresh
/// ledger leaves, for a program the detail lists once, a bucket of exactly
/// two transactions and twice the fee. Merging deduplicates keys, never
/// signatures.
pub proof fn lemma_duplicate_merge(account: Seq<char>, d: DetailResult, p: Seq<char>)
    requires
        occurrences(views_of(d.program_ids@), p) == 1,
    ensures
        ({
            let empty = Map::<KeyV, (int, int)>::empty();
            let once = spec_merge_detail(empty, account, d);
            let twice = spec_merge_detail(once, account, d);
            let k = (account, spec_epoch_of_slot(d.slot), p);
            &&& once.dom().contains(k) && once[k] == (1int, d.fee as int)
            &&& twice.dom().contains(k) && twice[k] == (2int, 2 * d.fee as int)
        }),
{
    let empty = Map::<KeyV, (int, int)>::empty();
    let epoch = spec_epoch_of_slot(d.slot);
    let progs = views_of(d.program_ids@);
    let k = (account, epoch, p);
    lemma_merge_programs_at_key(empty, account, epoch, d.fee, progs, k);
    lemma_merge_programs_at_key(
        spec_merge_programs(empty, account, epoch, d.fee, progs),
        account,
        epoch,
        d.fee,
        progs,
        k,
    );
}

/// Two bumps commute: bumping two keys, equal or not, in either order yields
/// the same map.
pub proof fn lemma_bump_commutes(
    m: LedgerMap,
    k1: KeyV,
    dc1: int,
    df1: int,
    k2: KeyV,
    dc2: int,
    df2: int,
)
    ensures
        bump(bump(m, k1, dc1, df1), k2, dc2, df2) == bump(bump(m, k2, dc2, df2), k1, dc1, df1),
{
    assert(bump(bump(m, k1, dc1, df1), k2, dc2, df2) =~= bump(
        bump(m, k2, dc2, df2),
        k1,
        dc1,
        df1,
    ));
}

/// A bump slides out of a program fold: folding onto a bumped map equals
/// bumping the folded map.
pub proof fn lemma_merge_programs_bump(
    m: LedgerMap,
    account: Seq<char>,
    epoch: int,
    fee: u64,
    progs: Seq<Seq<char>>,
    k: KeyV,
    dc: int,
    df: int,
)
    ensures
        spec_merge_programs(bump(m, k, dc, df), account, epoch, fee, progs) == bump(
            spec_merge_programs(m, account, epoch, fee, progs),
            k,
            dc,
            df,
        ),
    decreases progs.len(),
{
    if progs.len() > 0 {
        lemma_merge_programs_bump(m, account, epoch, fee, progs.drop_last(), k, dc, df);
        lemma_bump_commutes(
            spec_merge_programs(m, account, epoch, fee, progs.drop_last()),
            k,
            dc,
            df,
            (account, epoch, progs.last()),
            1,
            fee as int,
        );
    }
}

/// Two program folds commute, whatever their accounts, epochs and fees.
pub proof fn lemma_merge_programs_commute(
    m: LedgerMap,
    a1: Seq<char>,
    e1: int,
    f1: u64,
    ps1: Seq<Seq<char>>,
    a2: Seq<char>,
    e2: int,
    f2: u64,
    ps2: Seq<Seq<char>>,
)
    ensures
        spec_merge_programs(spec_merge_programs(m, a1, e1, f1, ps1), a2, e2, f2, ps2)
            == spec_merge_programs(spec_merge_programs(m, a2, e2, f2, ps2), a1, e1, f1, ps1),
    decreases ps2.len(),
{
    if ps2.len() > 0 {
        lemma_merge_programs_commute(m, a1, e1, f1, ps1, a2, e2, f2, ps2.drop_last());
        lemma_merge_programs_bump(
            spec_merge_programs(m, a2, e2, f2, ps2.drop_last()),
            a1,
            e1,
            f1,
            ps1,
            (a2, e2, ps2.last()),
            1,
            f2 as int,
        );
    }
}

/// Merging two details in either order yields the same ledger map.
pub proof fn lemma_merge_detail_commutes(
    m: LedgerMap,
    account: Seq<char>,
    a: DetailResult,
    b: DetailResult,
)
    ensures
        spec_merge_detail(spec_merge_detail(m, account, a), account, b) == spec_merge_detail(
            spec_merge_detail(m, account, b),
            account,
            a,
        ),
{
    lemma_merge_programs_commute(
        m,
        account,
        spec_epoch_of_slot(a.slot),
        a.fee,
        views_of(a.program_ids@),
        account,
        spec_epoch_of_slot(b.slot),
        b.fee,
        views_of(b.program_ids@),
    );
}

/// What folding a sequence of details into a ledger map does: one merge per
/// detail, oldest first.
pub open spec fn spec_merge_details(
    m: LedgerMap,
    account: Seq<char>,
    ds: Seq<DetailResult>,
) -> LedgerMap
    decreases ds.len(),
{
    if ds.len() == 0 {
        m
    } else {
        spec_merge_detail(spec_merge_details(m, account, ds.drop_last()), account, ds.last())
    }
}

/// Any detail of the fold can be merged last instead: the fold of the rest,
/// then that one detail, gives the same map.
pub proof fn lemma_merge_details_pull_out(
    m: LedgerMap,
    account: Seq<char>,
    ds: Seq<DetailResult>,
    j: int,
)
    requires
        0 <= j < ds.len(),
    ensures
        spec_merge_details(m, account, ds) == spec_merge_detail(
            spec_merge_details(m, account, ds.remove(j)),
            account,
            ds[j],
        ),
    decreases ds.len(),
{
    if j == ds.len() - 1 {
        assert(ds.remove(j) =~= ds.drop_last());
    } else {
        lemma_merge_details_pull_out(m, account, ds.drop_last(), j);
        assert(ds.remove(j).drop_last() =~= ds.drop_last().remove(j));
        assert(ds.remove(j).last() == ds.last());
        lemma_merge_detail_commutes(
            spec_merge_details(m, account, ds.drop_last().remove(j)),
            account,
            ds[j],
            ds.last(),
        );
    }
}

/// Merge commutativity: folding the same multiset of details, in any order,
/// yields the same ledger map — completion order of concurrent fetches never
/// affects the final ledger.
pub proof fn lemma_merge_details_permutation(
    m: LedgerMap,
    account: Seq<char>,
    ds1: Seq<DetailResult>,
    ds2: Seq<DetailResult>,
)
    requires
        ds1.to_multiset() == ds2.to_multiset(),
    ensures
        spec_merge_details(m, account, ds1) == spec_merge_details(m, account, ds2),
    decreases ds1.len(),
{
    broadcast use vstd::seq_lib::group_to_multiset_ensures;

    if ds1.len() == 0 {
        assert(ds2.to_multiset().len() == 0);
        assert(ds2.len() == 0);
    } else {
        let d = ds1.last();
        assert(ds1.contains(d));
        assert(ds1.to_multiset().count(d) > 0);
        assert(ds2.to_multiset().count(d) > 0);
        assert(ds2.contains(d));
        let j = choose|j: int| 0 <= j < ds2.len() && ds2[j] == d;
        assert(ds1.drop_last() =~= ds1.remove(ds1.len() - 1));
        assert(ds1.remove(ds1.len() - 1).to_multiset() =~= ds1.to_multiset().remove(d)) by {
            assert(ds1[ds1.len() - 1] == d);
        }
        assert(ds2.remove(j).to_multiset() =~= ds2.to_multiset().remove(d));
        lemma_merge_details_permutation(m, account, ds1.drop_last(), ds2.remove(j));
        lemma_merge_details_pull_out(m, account, ds2, j);
    }
}

/// The sums over a prefix never exceed the sums over the whole sequence.
pub proof fn lemma_prefix_sums_le(s: Seq<LedgerRecord>, j: int)
    requires
        0 <= j <= s.len(),
    ensures
        sum_counts(s.take(j)) <= sum_counts(s),
        sum_fees(s.take(j)) <= sum_fees(s),
    decreases s.len(),
{
    if j == s.len() {
        assert(s.take(j) =~= s);
    } else {
        assert(s.take(j) =~= s.drop_last().take(j));
        lemma_prefix_sums_le(s.drop_last(), j);
    }
}

} // verus!
