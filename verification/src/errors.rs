use vstd::prelude::*;

verus! {

/// Failure taxonomy for ledger operations.
///
/// - `ConcurrencyFatal`: shared state was left indeterminate; the ledger can
///   no longer be trusted and must be rebuilt out of process.
/// - `ClockFailure`: the wall clock could not be read; transient, the caller
///   may retry.
/// - `PolicyViolation`: the governance gate rejected the intent; carries the
///   reason. No state was mutated.
/// - `DurabilityFailure`: snapshot serialization or persistence failed;
///   carries the reason. Ledger state is unaffected.
/// - `CapacityExhausted`: the sequence-id space is spent; no further record
///   can be appended.
#[derive(Debug)]
pub enum ConesisError {
    ConcurrencyFatal,
    ClockFailure,
    PolicyViolation(String),
    DurabilityFailure(String),
    CapacityExhausted,
}

impl ConesisError {
    /// A human-readable label for the failure category.
    pub fn describe(&self) -> (r: &'static str)
        ensures
            (*self is ConcurrencyFatal) ==> r@ == "concurrency corruption: ledger untrustworthy"@,
            (*self is ClockFailure) ==> r@ == "time source unreadable"@,
            (*self is PolicyViolation) ==> r@ == "policy violation"@,
            (*self is DurabilityFailure) ==> r@ == "durability failure"@,
            (*self is CapacityExhausted) ==> r@ == "sequence id space exhausted"@,
    {
        match self {
            ConesisError::ConcurrencyFatal => "concurrency corruption: ledger untrustworthy",
            ConesisError::ClockFailure => "time source unreadable",
            ConesisError::PolicyViolation(_) => "policy violation",
            ConesisError::DurabilityFailure(_) => "durability failure",
            ConesisError::CapacityExhausted => "sequence id space exhausted",
        }
    }
}

} // verus!
