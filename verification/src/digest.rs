use vstd::prelude::*;
use crate::numeral::dec_digits;
use sha2::{Digest, Sha256};

verus! {

/// The hex digest the chain's integrity rests on, as a function of the
/// preimage text alone: the same text always yields the same digest.
pub uninterp spec fn sha256_hex(preimage: Seq<char>) -> Seq<char>;

/// The exact text a record's digest is computed over: the decimal id and
/// timestamp, then actor, payload, previous hash and signature, concatenated
/// without separators.
pub open spec fn digest_preimage(
    id: u64,
    timestamp: u64,
    actor: Seq<char>,
    payload: Seq<char>,
    prev_hash: Seq<char>,
    signature: Seq<char>,
) -> Seq<char> {
    dec_digits(id as nat) + dec_digits(timestamp as nat) + actor + payload + prev_hash + signature
}

/// Relies on sha2's `Sha256` (`Digest::new`, `update`, `finalize`): the
/// SHA-256 digest of the preimage's UTF-8 bytes, a 32-byte output written as
/// 64 lowercase hex digits by the `{:x}` formatting of the output block. The
/// preimage is the fields formatted in order, integers in decimal.
#[verifier::external_body]
pub(crate) fn digest_line(
    id: u64,
    timestamp: u64,
    actor: &str,
    payload: &str,
    prev_hash: &str,
    signature: &str,
) -> (r: String)
    ensures
        r@ == sha256_hex(digest_preimage(id, timestamp, actor@, payload@, prev_hash@, signature@)),
        r@.len() == 64,
{
    let mut hasher = Sha256::new();
    hasher.update(format!("{id}{timestamp}{actor}{payload}{prev_hash}{signature}"));
    format!("{:x}", hasher.finalize())
}

} // verus!
