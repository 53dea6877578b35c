use vstd::prelude::*;
use vstd::rwlock::{RwLock, RwLockPredicate};
use crate::chain::{history_consistent, models, ChainState};
use crate::envelope::{genesis_seq, AkashicEnvelope};
use crate::errors::ConesisError;
use std::time::{SystemTime, UNIX_EPOCH};

verus! {

/// Relies on std::time's `SystemTime::now`, `duration_since(UNIX_EPOCH)` and
/// `Duration::as_secs`: whole wall-clock seconds since the Unix epoch, or
/// `None` when the clock reads before the epoch. The value depends on when
/// the call runs, so nothing is promised of it.
#[verifier::external_body]
fn unix_now() -> (r: Option<u64>) {
    match SystemTime::now().duration_since(UNIX_EPOCH) {
        Ok(d) => Some(d.as_secs()),
        Err(_) => None,
    }
}

/// The lock invariant: every chain state visible between operations is
/// well-formed, so no reader ever observes a partially constructed record or
/// a chain mid-truncation.
pub struct ChainPred {}

impl RwLockPredicate<ChainState> for ChainPred {
    open spec fn inv(self, s: ChainState) -> bool {
        s.wf()
    }
}

/// Thread-safe, append-only storage for the hash chain: any number of
/// concurrent readers, or one exclusive writer, never both. Writers block;
/// they do not spin, and the lock cannot be poisoned.
pub struct AkashicLedger {
    chain: RwLock<ChainState, ChainPred>,
}

impl AkashicLedger {
    #[verifier::type_invariant]
    spec fn lock_configured(self) -> bool {
        self.chain.pred() == (ChainPred {  })
    }

    /// A ledger whose chain starts empty.
    pub fn new() -> Self {
        AkashicLedger { chain: RwLock::new(ChainState::empty(), Ghost(ChainPred {  })) }
    }

    /// Appends one record under exclusive access: the id assignment, the
    /// `prev_hash` capture, the timestamp and the digest are computed against
    /// a single linear history, so concurrent callers obtain distinct,
    /// contiguous ids. Either a fully linked record becomes visible to
    /// subsequent reads, or the chain is exactly as it was.
    pub fn record(&self, actor: &str, payload: &str, signature: &str) -> (r: Result<
        u64,
        ConesisError,
    >)
        ensures
            r matches Ok(id) ==> id >= 1,
            r matches Err(e) ==> (e is ClockFailure || e is CapacityExhausted),
    {
        proof {
            use_type_invariant(self);
        }
        let (mut st, handle) = self.chain.acquire_write();
        match unix_now() {
            None => {
                handle.release_write(st);
                Err(ConesisError::ClockFailure)
            },
            Some(timestamp) => {
                let res = st.record_step(actor, payload, signature, timestamp);
                handle.release_write(st);
                res
            },
        }
    }

    /// A fully materialized copy of the chain under shared access, safe to
    /// use after the access is released. The copy is consistent: contiguous
    /// ids, every link intact, every digest reproducible, and it roots at the
    /// genesis sentinel exactly when it starts at id 1.
    pub fn read_history(&self) -> (r: Result<Vec<AkashicEnvelope>, ConesisError>)
        ensures
            r matches Ok(h) && history_consistent(models(h@)),
    {
        proof {
            use_type_invariant(self);
        }
        let read_handle = self.chain.acquire_read();
        let st = read_handle.borrow();
        let copy = st.history_copy();
        proof {
            let ms = models(copy@);
            if ms.len() > 0 {
                assert(ms[0] == st.records@[0]@);
                assert(st.records@[0].id == st.floor_id + 1);
            }
        }
        read_handle.release_read();
        Ok(copy)
    }

    /// The hash of the last record, or the genesis sentinel while the chain
    /// is empty and never pruned: an O(1) summary under shared access.
    pub fn current_head_hash(&self) -> (r: Result<String, ConesisError>)
        ensures
            r matches Ok(h) && (h@ == genesis_seq() || h@.len() == 64),
    {
        proof {
            use_type_invariant(self);
        }
        let read_handle = self.chain.acquire_read();
        let st = read_handle.borrow();
        let head = st.head_hash();
        read_handle.release_read();
        Ok(head)
    }

    /// Exclusive measure-archive-replace for retention: no append can
    /// interleave between the length check and the truncation. Returns the
    /// removed prefix, itself a consistent history.
    pub(crate) fn prune_locked(&self, keep_count: usize) -> (archived: Vec<AkashicEnvelope>)
        ensures
            history_consistent(models(archived@)),
    {
        proof {
            use_type_invariant(self);
        }
        let (mut st, handle) = self.chain.acquire_write();
        let ghost pre = st;
        let archived = st.prune_step(keep_count);
        handle.release_write(st);
        proof {
            let ms = models(archived@);
            if ms.len() > 0 {
                assert(archived@ == pre.records@.take(
                    pre.records@.len() - keep_count,
                ));
                assert(forall|i: int|
                    #![trigger ms[i]]
                    0 <= i < ms.len() ==> ms[i] == models(pre.records@)[i]);
                assert(models(pre.records@)[0] == pre.records@[0]@);
                assert(ms[0] == archived@[0]@);
                assert(pre.records@[0].id == pre.floor_id + 1);
            }
        }
        archived
    }
}

} // verus!
