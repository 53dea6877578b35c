use vstd::prelude::*;
use vstd::string::StringExecFns;

verus! {

/// One immutable, hash-linked entry in the ledger.
#[derive(Debug)]
pub struct AkashicEnvelope {
    /// Unique sequence id, assigned at append time; an unpruned chain starts at 1.
    pub id: u64,
    /// Wall-clock seconds since the Unix epoch at append time.
    pub timestamp: u64,
    /// The actor who initiated the action.
    pub actor: String,
    /// Opaque payload blob; its meaning is owned by the caller.
    pub payload: String,
    /// Digest over (id, timestamp, actor, payload, prev_hash, signature).
    pub hash: String,
    /// The previous record's hash, or the genesis sentinel for the first record.
    pub prev_hash: String,
    /// Opaque signature; never interpreted or verified by the ledger.
    pub signature: String,
}

/// The mathematical image of an envelope: every field as a plain value.
pub ghost struct RecordModel {
    pub id: u64,
    pub timestamp: u64,
    pub actor: Seq<char>,
    pub payload: Seq<char>,
    pub hash: Seq<char>,
    pub prev_hash: Seq<char>,
    pub signature: Seq<char>,
}

impl View for AkashicEnvelope {
    type V = RecordModel;

    open spec fn view(&self) -> RecordModel {
        RecordModel {
            id: self.id,
            timestamp: self.timestamp,
            actor: self.actor@,
            payload: self.payload@,
            hash: self.hash@,
            prev_hash: self.prev_hash@,
            signature: self.signature@,
        }
    }
}

impl Clone for AkashicEnvelope {
    fn clone(&self) -> (r: Self)
        ensures
            r == *self,
    {
        AkashicEnvelope {
            id: self.id,
            timestamp: self.timestamp,
            actor: self.actor.clone(),
            payload: self.payload.clone(),
            hash: self.hash.clone(),
            prev_hash: self.prev_hash.clone(),
            signature: self.signature.clone(),
        }
    }
}

/// The reserved `prev_hash` sentinel carried by the first record of a chain
/// that was never pruned.
pub open spec fn genesis_seq() -> Seq<char> {
    "GENESIS_HASH"@
}

/// The genesis sentinel as an owned string.
pub fn genesis_hash() -> (r: String)
    ensures
        r@ == genesis_seq(),
{
    String::from_str("GENESIS_HASH")
}

} // verus!
