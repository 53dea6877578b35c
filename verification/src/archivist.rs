use vstd::prelude::*;
use crate::chain::{history_consistent, models};
use crate::envelope::AkashicEnvelope;
use crate::ledger::AkashicLedger;

verus! {

/// Memory-management agent: enforces retention on a ledger while preserving
/// the verifiability of the full history. Snapshot persistence composes the
/// ledger's history read with the snapshot codec.
pub struct Archivist;

impl Archivist {
    /// Atomically retains the most recent `keep_count` records, handing back
    /// the removed prefix for archival: a no-op (empty prefix) when the chain
    /// is not longer than `keep_count`. The whole measure-archive-replace
    /// sequence holds the write lock, so no append can interleave between the
    /// length check and the truncation. The returned prefix is itself a
    /// consistent history; concatenated with the retained chain it
    /// reconstructs the original, and the retained chain stays verifiable
    /// from the last archived hash as its root.
    pub fn prune_memory(ledger: &AkashicLedger, keep_count: usize) -> (archived: Vec<
        AkashicEnvelope,
    >)
        ensures
            history_consistent(models(archived@)),
    {
        ledger.prune_locked(keep_count)
    }
}

} // verus!
