//! Rendering ledger records as tabular rows: exact decimal rendering of the
//! counters, with the fee also in the human scale, nine fractional digits of
//! a fixed factor of one billion. The rendering is proved invertible, so a
//! sum over exported rows reproduces the ledger's totals exactly.

use vstd::prelude::*;
use vstd::arithmetic::div_mod::lemma_fundamental_div_mod;
use vstd::string::StringExecFns;
use crate::ledger::{sum_counts, sum_fees, LedgerRecord};

verus! {

/// The scale factor of the human-readable fee column.
pub const LAMPORTS_PER_SOL: u64 = 1000000000;

/// The character of one decimal digit.
pub open spec fn spec_digit(d: int) -> char {
    if d == 0 {
        '0'
    } else if d == 1 {
        '1'
    } else if d == 2 {
        '2'
    } else if d == 3 {
        '3'
    } else if d == 4 {
        '4'
    } else if d == 5 {
        '5'
    } else if d == 6 {
        '6'
    } else if d == 7 {
        '7'
    } else if d == 8 {
        '8'
    } else {
        '9'
    }
}

/// The decimal digits of a non-negative number, most significant first, no
/// leading zeroes.
pub open spec fn spec_dec(n: int) -> Seq<char>
    decreases n,
{
    if n < 10 {
        seq![spec_digit(n)]
    } else {
        spec_dec(n / 10).push(spec_digit(n % 10))
    }
}

/// The last `width` decimal digits of a number, zero-padded.
pub open spec fn spec_dec_pad(n: int, width: int) -> Seq<char>
    decreases width,
{
    if width <= 0 {
        Seq::empty()
    } else {
        spec_dec_pad(n / 10, width - 1).push(spec_digit(n % 10))
    }
}

/// The value of one digit character.
pub open spec fn spec_digit_val(c: char) -> int {
    if c == '0' {
        0
    } else if c == '1' {
        1
    } else if c == '2' {
        2
    } else if c == '3' {
        3
    } else if c == '4' {
        4
    } else if c == '5' {
        5
    } else if c == '6' {
        6
    } else if c == '7' {
        7
    } else if c == '8' {
        8
    } else {
        9
    }
}

/// The number a sequence of digit characters denotes.
pub open spec fn spec_dec_val(s: Seq<char>) -> int
    decreases s.len(),
{
    if s.len() == 0 {
        0
    } else {
        spec_dec_val(s.drop_last()) * 10 + spec_digit_val(s.last())
    }
}

/// Ten to a non-negative power.
pub open spec fn spec_pow10(w: int) -> int
    decreases w,
{
    if w <= 0 {
        1
    } else {
        10 * spec_pow10(w - 1)
    }
}

/// Rendering is exact: the digits of a non-negative number denote it.
pub proof fn lemma_dec_round_trip(n: int)
    requires
        n >= 0,
    ensures
        spec_dec_val(spec_dec(n)) == n,
    decreases n,
{
    if n < 10 {
        assert(spec_dec(n) == seq![spec_digit(n)]);
        assert(seq![spec_digit(n)].drop_last() =~= Seq::<char>::empty());
        assert(seq![spec_digit(n)].last() == spec_digit(n));
        assert(spec_dec_val(Seq::<char>::empty()) == 0);
        assert(spec_dec_val(seq![spec_digit(n)]) == spec_dec_val(
            seq![spec_digit(n)].drop_last(),
        ) * 10 + spec_digit_val(seq![spec_digit(n)].last()));
        assert(spec_digit_val(spec_digit(n)) == n);
    } else {
        lemma_dec_round_trip(n / 10);
        assert(spec_dec(n) == spec_dec(n / 10).push(spec_digit(n % 10)));
        assert(spec_dec(n / 10).push(spec_digit(n % 10)).drop_last() =~= spec_dec(n / 10));
        assert(spec_dec(n / 10).push(spec_digit(n % 10)).last() == spec_digit(n % 10));
        assert(spec_digit_val(spec_digit(n % 10)) == n % 10);
        lemma_fundamental_div_mod(n, 10);
    }
}

/// Padded rendering is exact below its capacity: `width` digits denote any
/// number under ten to the `width`.
pub proof fn lemma_pad_round_trip(n: int, width: int)
    requires
        n >= 0,
        width >= 0,
        n < spec_pow10(width),
    ensures
        spec_dec_val(spec_dec_pad(n, width)) == n,
    decreases width,
{
    if width == 0 {
        assert(spec_pow10(0) == 1);
    } else {
        assert(n / 10 < spec_pow10(width - 1) && n / 10 >= 0 && n % 10 >= 0 && n % 10 < 10)
            by (nonlinear_arith)
            requires
                n >= 0,
                n < spec_pow10(width),
                spec_pow10(width) == 10 * spec_pow10(width - 1),
        ;
        lemma_pad_round_trip(n / 10, width - 1);
        assert(spec_dec_pad(n, width).drop_last() == spec_dec_pad(n / 10, width - 1));
        assert(spec_dec_pad(n, width).last() == spec_digit(n % 10));
        lemma_fundamental_div_mod(n, 10);
    }
}

/// The human-scale rendering of a fee: whole units, a point, then exactly
/// nine fractional digits.
pub open spec fn spec_sol(l: u64) -> Seq<char> {
    spec_dec(l as int / LAMPORTS_PER_SOL as int) + seq!['.'] + spec_dec_pad(
        l as int % LAMPORTS_PER_SOL as int,
        9,
    )
}

/// The scaled rendering loses nothing: whole part times the scale plus the
/// nine fractional digits gives back the fee exactly.
pub proof fn lemma_sol_round_trip(l: u64)
    ensures
        spec_dec_val(spec_dec(l as int / LAMPORTS_PER_SOL as int)) * (LAMPORTS_PER_SOL as int)
            + spec_dec_val(spec_dec_pad(l as int % LAMPORTS_PER_SOL as int, 9)) == l,
{
    let g = LAMPORTS_PER_SOL as int;
    lemma_dec_round_trip(l as int / g);
    reveal_with_fuel(spec_pow10, 10);
    assert(spec_pow10(9) == g);
    lemma_pad_round_trip(l as int % g, 9);
    lemma_fundamental_div_mod(l as int, g);
}

/// What the count column of every row denotes, summed.
pub open spec fn sum_row_counts(s: Seq<LedgerRecord>) -> int
    decreases s.len(),
{
    if s.len() == 0 {
        0
    } else {
        sum_row_counts(s.drop_last()) + spec_dec_val(
            spec_dec(s.last().transaction_count as int),
        )
    }
}

/// What the fee column of every row denotes, summed.
pub open spec fn sum_row_fees(s: Seq<LedgerRecord>) -> int
    decreases s.len(),
{
    if s.len() == 0 {
        0
    } else {
        sum_row_fees(s.drop_last()) + spec_dec_val(
            spec_dec(s.last().total_fees_lamports as int),
        )
    }
}

/// What the scaled fee column of every row denotes, summed: whole units times
/// the scale plus the nine fractional digits, row by row.
pub open spec fn sum_row_scaled(s: Seq<LedgerRecord>) -> int
    decreases s.len(),
{
    if s.len() == 0 {
        0
    } else {
        let l = s.last().total_fees_lamports;
        sum_row_scaled(s.drop_last()) + spec_dec_val(
            spec_dec(l as int / LAMPORTS_PER_SOL as int),
        ) * (LAMPORTS_PER_SOL as int) + spec_dec_val(
            spec_dec_pad(l as int % LAMPORTS_PER_SOL as int, 9),
        )
    }
}

/// Round-tripping a ledger through the tabular export and summing its rows
/// reproduces the totals exactly, in both fee columns.
pub proof fn lemma_rows_reproduce_totals(s: Seq<LedgerRecord>)
    ensures
        sum_row_counts(s) == sum_counts(s),
        sum_row_fees(s) == sum_fees(s),
        sum_row_scaled(s) == sum_fees(s),
    decreases s.len(),
{
    if s.len() > 0 {
        lemma_rows_reproduce_totals(s.drop_last());
        lemma_dec_round_trip(s.last().transaction_count as int);
        lemma_dec_round_trip(s.last().total_fees_lamports as int);
        lemma_sol_round_trip(s.last().total_fees_lamports);
    }
}

/// One decimal digit as a string slice.
fn digit_str(d: u64) -> (r: &'static str)
    requires
        d < 10,
    ensures
        r@ == seq![spec_digit(d as int)],
{
    let r = match d {
        0 => "0",
        1 => "1",
        2 => "2",
        3 => "3",
        4 => "4",
        5 => "5",
        6 => "6",
        7 => "7",
        8 => "8",
        _ => "9",
    };
    proof {
        reveal_strlit("0");
        reveal_strlit("1");
        reveal_strlit("2");
        reveal_strlit("3");
        reveal_strlit("4");
        reveal_strlit("5");
        reveal_strlit("6");
        reveal_strlit("7");
        reveal_strlit("8");
        reveal_strlit("9");
        assert(r@ =~= seq![spec_digit(d as int)]);
    }
    r
}

/// Renders a number in decimal.
pub fn u64_to_dec(n: u64) -> (s: String)
    ensures
        s@ == spec_dec(n as int),
    decreases n,
{
    if n < 10 {
        let s = digit_str(n).to_owned();
        s
    } else {
        let mut s = u64_to_dec(n / 10);
        s.append(digit_str(n % 10));
        proof {
            assert(s@ =~= spec_dec(n as int / 10).push(spec_digit(n as int % 10)));
        }
        s
    }
}

/// Renders the last `width` decimal digits of a number, zero-padded.
pub fn u64_to_dec_pad(n: u64, width: u64) -> (s: String)
    ensures
        s@ == spec_dec_pad(n as int, width as int),
    decreases width,
{
    if width == 0 {
        String::new()
    } else {
        let mut s = u64_to_dec_pad(n / 10, width - 1);
        s.append(digit_str(n % 10));
        proof {
            assert(s@ =~= spec_dec_pad(n as int / 10, width as int - 1).push(
                spec_digit(n as int % 10),
            ));
        }
        s
    }
}

/// Renders a fee in the human scale, nine fractional digits.
pub fn lamports_to_sol(l: u64) -> (s: String)
    ensures
        s@ == spec_sol(l),
{
    let mut s = u64_to_dec(l / LAMPORTS_PER_SOL);
    s.append(".");
    let frac = u64_to_dec_pad(l % LAMPORTS_PER_SOL, 9);
    s.append(frac.as_str());
    proof {
        reveal_strlit(".");
        assert(s@ =~= spec_sol(l));
    }
    s
}

/// One exported row: the record's six columns, comma-separated.
pub open spec fn spec_csv_line(r: LedgerRecord) -> Seq<char> {
    r.account@ + seq![','] + spec_dec(r.epoch as int) + seq![','] + r.program_id@ + seq![',']
        + spec_dec(r.transaction_count as int) + seq![','] + spec_dec(
        r.total_fees_lamports as int,
    ) + seq![','] + spec_sol(r.total_fees_lamports)
}

/// The header row naming the six columns.
pub fn csv_header() -> (s: String)
    ensures
        s@ == "account,epoch,program_id,transaction_count,total_fees_lamports,total_fees_sol"@,
{
    let s = "account,epoch,program_id,transaction_count,total_fees_lamports,total_fees_sol".to_owned();
    s
}

/// Renders one record as its export row.
pub fn csv_line(r: &LedgerRecord) -> (s: String)
    ensures
        s@ == spec_csv_line(*r),
{
    let mut s = r.account.clone();
    s.append(",");
    let epoch_s = u64_to_dec(r.epoch);
    s.append(epoch_s.as_str());
    s.append(",");
    s.append(r.program_id.as_str());
    s.append(",");
    let count_s = u64_to_dec(r.transaction_count);
    s.append(count_s.as_str());
    s.append(",");
    let fees_s = u64_to_dec(r.total_fees_lamports);
    s.append(fees_s.as_str());
    s.append(",");
    let sol_s = lamports_to_sol(r.total_fees_lamports);
    s.append(sol_s.as_str());
    proof {
        reveal_strlit(",");
        assert(s@ =~= spec_csv_line(*r));
    }
    s
}

/// Renders every record, one row each, in the records' order.
pub fn csv_rows(records: &Vec<LedgerRecord>) -> (rows: Vec<String>)
    ensures
        rows@.len() == records@.len(),
        forall|i: int|
            0 <= i < records@.len() ==> (#[trigger] rows@[i])@ == spec_csv_line(records@[i]),
{
    let mut rows: Vec<String> = Vec::new();
    let mut i: usize = 0;
    while i < records.len()
        invariant
            0 <= i <= records@.len(),
            rows@.len() == i,
            forall|j: int|
                0 <= j < i ==> (#[trigger] rows@[j])@ == spec_csv_line(records@[j]),
        decreases records@.len() - i,
    {
        rows.push(csv_line(&records[i]));
        i = i + 1;
    }
    rows
}

} // verus!
