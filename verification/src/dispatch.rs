//! Partitioning a page's kept entries into consecutive chunks of at most the
//! concurrency limit. The caller fetches one chunk's details concurrently and
//! waits for the whole chunk before starting the next; order inside a chunk
//! is immaterial because the merge is commutative.

use vstd::prelude::*;
use crate::page::SignatureEntry;

verus! {

/// The end of the chunk that starts at `start`: one full limit further, or
/// the end of the entries.
pub open spec fn spec_chunk_end(len: int, start: int, limit: int) -> int {
    if start + limit <= len {
        start + limit
    } else {
        len
    }
}

/// Cuts the entries into consecutive chunks of `limit` entries, the last one
/// possibly shorter, none empty. Chunk `c` is exactly the entries from
/// `c * limit` to the chunk's end: nothing is lost, duplicated or reordered.
pub fn chunk_entries(entries: &Vec<SignatureEntry>, limit: usize) -> (chunks: Vec<
    Vec<SignatureEntry>,
>)
    requires
        limit >= 1,
    ensures
        entries@.len() == 0 ==> chunks@.len() == 0,
        entries@.len() > 0 ==> chunks@.len() >= 1 && (chunks@.len() - 1) * limit < entries@.len()
            <= chunks@.len() * limit,
        forall|c: int|
            0 <= c < chunks@.len() ==> (#[trigger] chunks@[c])@ == entries@.subrange(
                c * limit,
                spec_chunk_end(entries@.len() as int, c * limit, limit as int),
            ),
{
    let len = entries.len();
    let mut chunks: Vec<Vec<SignatureEntry>> = Vec::new();
    let mut start: usize = 0;
    proof {
        assert(chunks@.len() * limit == 0) by (nonlinear_arith)
            requires
                chunks@.len() == 0,
        ;
    }
    while start < len
        invariant
            limit >= 1,
            len == entries@.len(),
            start <= len,
            start == chunks@.len() * limit || (start == len && chunks@.len() >= 1 && (chunks@.len()
                - 1) * limit < len && len < chunks@.len() * limit),
            start == len ==> (chunks@.len() == 0 ==> len == 0),
            start == len && chunks@.len() >= 1 ==> (chunks@.len() - 1) * limit < len <= chunks@.len()
                * limit,
            forall|c: int|
                0 <= c < chunks@.len() ==> (#[trigger] chunks@[c])@ == entries@.subrange(
                    c * limit,
                    spec_chunk_end(len as int, c * limit, limit as int),
                ),
        decreases len - start,
    {
        let end = if len - start > limit {
            start + limit
        } else {
            len
        };
        let ghost k = chunks@.len();
        proof {
            assert(start == k * limit);
            assert((k + 1) * limit == k * limit + limit) by (nonlinear_arith);
            assert(k * limit >= 0 && limit > 0 ==> k >= 0) by (nonlinear_arith);
        }
        let mut chunk: Vec<SignatureEntry> = Vec::new();
        let mut j: usize = start;
        proof {
            assert(chunk@ =~= entries@.subrange(start as int, start as int));
        }
        while j < end
            invariant
                start <= j <= end <= len,
                len == entries@.len(),
                chunk@ == entries@.subrange(start as int, j as int),
            decreases end - j,
        {
            let e = &entries[j];
            chunk.push(SignatureEntry { signature: e.signature.clone(), slot: e.slot });
            proof {
                assert(entries@.subrange(start as int, j + 1) =~= entries@.subrange(
                    start as int,
                    j as int,
                ).push(entries@[j as int]));
            }
            j = j + 1;
        }
        chunks.push(chunk);
        proof {
            assert(chunks@.drop_last() =~= chunks@.subrange(0, k as int));
            assert(forall|c: int| 0 <= c < k ==> chunks@[c] == chunks@.drop_last()[c]);
            assert(chunks@[k as int]@ == entries@.subrange(
                k * limit,
                spec_chunk_end(len as int, k * limit, limit as int),
            ));
        }
        start = end;
    }
    proof {
        if len > 0 {
            assert(chunks@.len() >= 1);
            if start == chunks@.len() * limit {
                assert((chunks@.len() - 1) * limit < len) by (nonlinear_arith)
                    requires
                        chunks@.len() >= 1,
                        limit >= 1,
                        len == chunks@.len() * limit,
                ;
            }
        }
    }
    chunks
}

} // verus!
