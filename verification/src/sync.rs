use vstd::prelude::*;

verus! {

use crate::rpc::CodeChunk;

/// One cross-store reconciliation step for the vector index.
#[derive(Debug, Clone, PartialEq, Eq)]
pub enum SyncOperation {
    Upsert { chunk_id: String },
    Delete { chunk_id: String },
}

pub open spec fn upserts_of(chunks: Seq<CodeChunk>) -> Seq<SyncOperation> {
    chunks.map_values(|c: CodeChunk| SyncOperation::Upsert { chunk_id: c.id })
}

pub open spec fn deletes_of(ids: Seq<String>) -> Seq<SyncOperation> {
    ids.map_values(|id: String| SyncOperation::Delete { chunk_id: id })
}

/// The reconciliation plan: one upsert per new chunk, one per modified
/// chunk, then one delete per removed chunk id, in that order.
pub open spec fn plan_spec(
    new_chunks: Seq<CodeChunk>,
    modified_chunks: Seq<CodeChunk>,
    deleted_chunk_ids: Seq<String>,
) -> Seq<SyncOperation> {
    upserts_of(new_chunks) + upserts_of(modified_chunks) + deletes_of(deleted_chunk_ids)
}

pub fn plan_sync_operations(
    new_chunks: &Vec<CodeChunk>,
    modified_chunks: &Vec<CodeChunk>,
    deleted_chunk_ids: &Vec<String>,
) -> (r: Vec<SyncOperation>)
    ensures
        r@ == plan_spec(new_chunks@, modified_chunks@, deleted_chunk_ids@),
{
    let mut ops: Vec<SyncOperation> = Vec::new();
    let mut i: usize = 0;
    while i < new_chunks.len()
        invariant
            i <= new_chunks@.len(),
            ops@ == upserts_of(new_chunks@.take(i as int)),
        decreases new_chunks@.len() - i,
    {
        ops.push(SyncOperation::Upsert { chunk_id: new_chunks[i].id.clone() });
        proof {
            assert(ops@ =~= upserts_of(new_chunks@.take(i + 1 as int)));
        }
        i = i + 1;
    }
    proof {
        assert(new_chunks@.take(new_chunks@.len() as int) =~= new_chunks@);
    }
    let mut j: usize = 0;
    while j < modified_chunks.len()
        invariant
            j <= modified_chunks@.len(),
            ops@ == upserts_of(new_chunks@) + upserts_of(modified_chunks@.take(j as int)),
        decreases modified_chunks@.len() - j,
    {
        ops.push(SyncOperation::Upsert { chunk_id: modified_chunks[j].id.clone() });
        proof {
            assert(ops@ =~= upserts_of(new_chunks@) + upserts_of(
                modified_chunks@.take(j + 1 as int),
            ));
        }
        j = j + 1;
    }
    proof {
        assert(modified_chunks@.take(modified_chunks@.len() as int) =~= modified_chunks@);
    }
    let mut k: usize = 0;
    while k < deleted_chunk_ids.len()
        invariant
            k <= deleted_chunk_ids@.len(),
            ops@ == upserts_of(new_chunks@) + upserts_of(modified_chunks@) + deletes_of(
                deleted_chunk_ids@.take(k as int),
            ),
        decreases deleted_chunk_ids@.len() - k,
    {
        ops.push(SyncOperation::Delete { chunk_id: deleted_chunk_ids[k].clone() });
        proof {
            assert(ops@ =~= upserts_of(new_chunks@) + upserts_of(modified_chunks@) + deletes_of(
                deleted_chunk_ids@.take(k + 1 as int),
            ));
        }
        k = k + 1;
    }
    proof {
        assert(deleted_chunk_ids@.take(deleted_chunk_ids@.len() as int) =~= deleted_chunk_ids@);
    }
    ops
}

} // verus!
