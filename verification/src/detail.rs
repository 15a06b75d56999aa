//! Normalization of heterogeneous instruction shapes into one sequence of
//! program identifiers, and the per-transaction detail record that feeds the
//! ledger.

use vstd::prelude::*;

verus! {

/// One top-level instruction, reduced to the part the crawler reads: how the
/// invoked program is named. Three source shapes occur: an instruction that
/// carries its program identifier outright, a partially decoded instruction
/// that still carries it outright, and a compiled instruction that names the
/// program only by an index into the message's account-keys table.
#[derive(Debug, Clone)]
pub enum InstructionShape {
    Explicit { program_id: String },
    PartiallyDecoded { program_id: String },
    Indexed { program_id_index: usize },
}

/// A transaction message, reduced to what program extraction reads: the
/// account-keys table and the top-level instructions, in order.
#[derive(Debug, Clone)]
pub struct MessageShape {
    pub account_keys: Vec<String>,
    pub instructions: Vec<InstructionShape>,
}

/// What one resolved transaction contributes to the ledger: its slot, its fee,
/// and the programs its top-level instructions invoked, in order.
#[derive(Debug, Clone)]
pub struct DetailResult {
    pub slot: u64,
    pub fee: u64,
    pub program_ids: Vec<String>,
}

/// The character sequences of a sequence of strings.
pub open spec fn views_of(s: Seq<String>) -> Seq<Seq<char>> {
    s.map_values(|x: String| x@)
}

/// The program identifiers one instruction contributes: the explicit
/// identifier where the shape carries one, the table entry where the shape
/// names an index in bounds, and nothing where the index is out of bounds.
pub open spec fn spec_programs_of(keys: Seq<Seq<char>>, ix: InstructionShape) -> Seq<Seq<char>> {
    match ix {
        InstructionShape::Explicit { program_id } => seq![program_id@],
        InstructionShape::PartiallyDecoded { program_id } => seq![program_id@],
        InstructionShape::Indexed { program_id_index } => if program_id_index < keys.len() {
            seq![keys[program_id_index as int]]
        } else {
            Seq::empty()
        },
    }
}

/// The order-preserving concatenation of every instruction's contribution.
pub open spec fn spec_extracted(keys: Seq<Seq<char>>, instrs: Seq<InstructionShape>) -> Seq<
    Seq<char>,
>
    decreases instrs.len(),
{
    if instrs.len() == 0 {
        Seq::empty()
    } else {
        spec_extracted(keys, instrs.drop_last()) + spec_programs_of(keys, instrs.last())
    }
}

/// Extracts the normalized, order-preserving sequence of program identifiers
/// invoked by a message's top-level instructions. An indexed instruction whose
/// index misses the account-keys table is silently skipped.
pub fn extract_program_ids(msg: &MessageShape) -> (ids: Vec<String>)
    ensures
        views_of(ids@) == spec_extracted(views_of(msg.account_keys@), msg.instructions@),
{
    let ghost keys = views_of(msg.account_keys@);
    let mut ids: Vec<String> = Vec::new();
    let mut i: usize = 0;
    proof {
        assert(views_of(ids@) =~= spec_extracted(keys, msg.instructions@.take(0)));
    }
    while i < msg.instructions.len()
        invariant
            0 <= i <= msg.instructions@.len(),
            keys == views_of(msg.account_keys@),
            views_of(ids@) == spec_extracted(keys, msg.instructions@.take(i as int)),
        decreases msg.instructions@.len() - i,
    {
        let ghost prefix = msg.instructions@.take(i as int);
        match &msg.instructions[i] {
            InstructionShape::Explicit { program_id } => {
                ids.push(program_id.clone());
            },
            InstructionShape::PartiallyDecoded { program_id } => {
                ids.push(program_id.clone());
            },
            InstructionShape::Indexed { program_id_index } => {
                if *program_id_index < msg.account_keys.len() {
                    ids.push(msg.account_keys[*program_id_index].clone());
                }
            },
        }
        proof {
            assert(msg.instructions@.take(i + 1).drop_last() =~= prefix);
            assert(msg.instructions@.take(i + 1).last() == msg.instructions@[i as int]);
            assert(views_of(ids@) =~= spec_extracted(keys, prefix) + spec_programs_of(
                keys,
                msg.instructions@[i as int],
            ));
        }
        i = i + 1;
    }
    proof {
        assert(msg.instructions@.take(msg.instructions@.len() as int) =~= msg.instructions@);
    }
    ids
}

/// The fee a transaction contributes: the fee of its metadata, or zero where
/// the metadata is absent.
pub open spec fn spec_fee_of(fee: Option<u64>) -> u64 {
    match fee {
        Some(f) => f,
        None => 0,
    }
}

/// Builds the detail record of one resolved transaction, or yields nothing
/// where no program identifier could be extracted: such a transaction is a
/// zero contribution, never an error.
pub fn build_detail(slot: u64, fee: Option<u64>, msg: &MessageShape) -> (r: Option<DetailResult>)
    ensures
        ({
            let ids = spec_extracted(views_of(msg.account_keys@), msg.instructions@);
            match r {
                None => ids.len() == 0,
                Some(d) => ids.len() > 0 && d.slot == slot && d.fee == spec_fee_of(fee)
                    && views_of(d.program_ids@) == ids,
            }
        }),
{
    let program_ids = extract_program_ids(msg);
    if program_ids.len() == 0 {
        proof {
            assert(views_of(program_ids@).len() == program_ids@.len());
        }
        None
    } else {
        let f = match fee {
            Some(f) => f,
            None => 0,
        };
        proof {
            assert(views_of(program_ids@).len() == program_ids@.len());
        }
        Some(DetailResult { slot, fee: f, program_ids })
    }
}

} // verus!
