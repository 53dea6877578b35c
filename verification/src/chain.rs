use vstd::prelude::*;
use crate::digest::{digest_line, digest_preimage, sha256_hex};
use crate::envelope::{genesis_hash, genesis_seq, AkashicEnvelope, RecordModel};
use crate::errors::ConesisError;

verus! {

/// The model of a sequence of envelopes.
pub open spec fn models(rs: Seq<AkashicEnvelope>) -> Seq<RecordModel> {
    rs.map_values(|e: AkashicEnvelope| e@)
}

/// The record's stored hash is reproducible from its six other fields.
pub open spec fn digest_ok(m: RecordModel) -> bool {
    m.hash == sha256_hex(
        digest_preimage(m.id, m.timestamp, m.actor, m.payload, m.prev_hash, m.signature),
    )
}

/// `ms` is a hash-verifiable chain rooted at `root`: ids rise by one from the
/// first record on, every record's `prev_hash` is its predecessor's `hash`
/// (the first carries `root`), and every stored hash is reproducible from the
/// record's own fields.
pub open spec fn chain_verifiable(ms: Seq<RecordModel>, root: Seq<char>) -> bool {
    &&& forall|i: int| #![trigger ms[i]] 0 < i < ms.len() ==> ms[i].id == ms[i - 1].id + 1
    &&& forall|i: int| #![trigger ms[i]] 0 < i < ms.len() ==> ms[i].prev_hash == ms[i - 1].hash
    &&& (ms.len() > 0 ==> ms[0].prev_hash == root)
    &&& forall|i: int| 0 <= i < ms.len() ==> digest_ok(#[trigger] ms[i])
}

/// What every copy of the live chain satisfies: contiguous ids, intact links,
/// reproducible digests, and a genesis root exactly when the chain starts at
/// id 1 (a pruned chain starts later and roots at the last archived hash).
pub open spec fn history_consistent(ms: Seq<RecordModel>) -> bool {
    &&& ms.len() > 0 ==> chain_verifiable(ms, ms[0].prev_hash)
    &&& ms.len() > 0 ==> ms[0].id >= 1
    &&& ms.len() > 0 ==> (ms[0].prev_hash == genesis_seq() <==> ms[0].id == 1)
}

/// The chain and its pruning floor: `floor_id` records have been archived
/// away; `floor_hash` is the last archived record's hash, or the genesis
/// sentinel when nothing was ever archived.
pub struct ChainState {
    pub records: Vec<AkashicEnvelope>,
    pub floor_id: u64,
    pub floor_hash: String,
}

impl ChainState {
    /// Records ever appended: archived plus live.
    pub open spec fn total(self) -> int {
        self.floor_id + self.records@.len()
    }

    /// The hash the next record will carry as `prev_hash`.
    pub open spec fn head_hash_spec(self) -> Seq<char> {
        if self.records@.len() == 0 {
            self.floor_hash@
        } else {
            self.records@.last().hash@
        }
    }

    /// Well-formedness: the live chain is verifiable from the floor, ids
    /// continue the archived run, the genesis sentinel is the floor exactly
    /// when nothing was archived, every stored hash has digest length, and
    /// the id space is not spent.
    pub open spec fn wf(self) -> bool {
        &&& chain_verifiable(models(self.records@), self.floor_hash@)
        &&& (self.records@.len() > 0 ==> self.records@[0].id == self.floor_id + 1)
        &&& (self.floor_id == 0 <==> self.floor_hash@ == genesis_seq())
        &&& (self.floor_id > 0 ==> self.floor_hash@.len() == 64)
        &&& (forall|i: int|
            0 <= i < self.records@.len() ==> (#[trigger] self.records@[i]).hash@.len() == 64)
        &&& self.total() < u64::MAX
    }

    /// A chain that has never held a record.
    pub fn empty() -> (r: Self)
        ensures
            r.wf(),
            r.records@.len() == 0,
            r.floor_id == 0,
            r.floor_hash@ == genesis_seq(),
    {
        let r = ChainState { records: Vec::new(), floor_id: 0, floor_hash: genesis_hash() };
        proof {
            assert(models(r.records@) =~= Seq::<RecordModel>::empty());
        }
        r
    }

    /// The last record's hash, or the floor (the genesis sentinel while the
    /// chain is empty and never pruned).
    pub fn head_hash(&self) -> (r: String)
        ensures
            r@ == self.head_hash_spec(),
            self.records@.len() > 0 ==> r@ == models(self.records@).last().hash,
            (self.records@.len() == 0 && self.floor_id == 0 && self.wf()) ==> r@ == genesis_seq(),
    {
        let n = self.records.len();
        if n == 0 {
            self.floor_hash.clone()
        } else {
            let r = self.records[n - 1].hash.clone();
            proof {
                assert(models(self.records@).last() == self.records@.last()@);
            }
            r
        }
    }

    /// Appends one fully linked record: captures `prev_hash` from the current
    /// head, stamps the given time, digests the full field tuple, then pushes.
    /// All-or-nothing: on failure the chain is exactly as it was.
    pub fn record_step(&mut self, actor: &str, payload: &str, signature: &str, timestamp: u64) -> (r:
        Result<u64, ConesisError>)
        requires
            old(self).wf(),
        ensures
            final(self).wf(),
            final(self).floor_id == old(self).floor_id,
            final(self).floor_hash == old(self).floor_hash,
            r is Ok <==> old(self).total() + 1 < u64::MAX,
            r matches Err(e) ==> e is CapacityExhausted && *final(self) == *old(self),
            r matches Ok(id) ==> {
                &&& id == old(self).total() + 1
                &&& final(self).records@.len() == old(self).records@.len() + 1
                &&& models(final(self).records@) == models(old(self).records@).push(
                    RecordModel {
                        id,
                        timestamp,
                        actor: actor@,
                        payload: payload@,
                        prev_hash: old(self).head_hash_spec(),
                        hash: sha256_hex(
                            digest_preimage(
                                id,
                                timestamp,
                                actor@,
                                payload@,
                                old(self).head_hash_spec(),
                                signature@,
                            ),
                        ),
                        signature: signature@,
                    },
                )
            },
    {
        let len = self.records.len();
        let total: u64 = self.floor_id + (len as u64);
        if total == u64::MAX - 1 {
            return Err(ConesisError::CapacityExhausted);
        }
        let id = total + 1;
        let prev_hash = if len == 0 {
            self.floor_hash.clone()
        } else {
            self.records[len - 1].hash.clone()
        };
        let hash = digest_line(id, timestamp, actor, payload, prev_hash.as_str(), signature);
        let env = AkashicEnvelope {
            id,
            timestamp,
            actor: actor.to_owned(),
            payload: payload.to_owned(),
            hash,
            prev_hash,
            signature: signature.to_owned(),
        };
        proof {
            let old_ms = models(self.records@);
            let new_ms = models(self.records@.push(env));
            assert(new_ms =~= old_ms.push(env@));
            if self.records@.len() > 0 {
                assert(old_ms.last() == self.records@.last()@);
            }
            assert(env@.prev_hash == self.head_hash_spec());
            assert forall|i: int|
                #![trigger new_ms[i]]
                0 < i < new_ms.len() implies new_ms[i].id == new_ms[i - 1].id + 1
                && new_ms[i].prev_hash == new_ms[i - 1].hash by {
                if i < old_ms.len() {
                    assert(new_ms[i] == old_ms[i] && new_ms[i - 1] == old_ms[i - 1]);
                } else {
                    assert(new_ms[i] == env@);
                    assert(new_ms[i - 1] == old_ms[i - 1]);
                    if old_ms.len() > 0 {
                        assert(old_ms[0] == self.records@[0]@);
                        lemma_contiguous_ids(old_ms, i - 1);
                        assert(old_ms[i - 1] == old_ms.last());
                    }
                }
            }
            assert forall|i: int| 0 <= i < new_ms.len() implies digest_ok(#[trigger] new_ms[i]) by {
                if i < old_ms.len() {
                    assert(new_ms[i] == old_ms[i]);
                } else {
                    assert(new_ms[i] == env@);
                }
            }
            assert(forall|i: int|
                0 <= i < self.records@.push(env).len() ==> (#[trigger] self.records@.push(env)[i]).hash@.len()
                    == 64);
        }
        self.records.push(env);
        Ok(id)
    }

    /// Retains the most recent `keep_count` records and removes the rest,
    /// handing the removed prefix back for archival; a no-op (empty prefix)
    /// when the chain is not longer than `keep_count`. Records are never
    /// mutated: the retained suffix keeps its ids and its carried-over
    /// `prev_hash`, so it is independently verifiable from the new floor, and
    /// the archive concatenated with the suffix reconstructs the original
    /// verifiable chain.
    #[verifier::rlimit(100)]
    #[verifier::spinoff_prover]
    pub fn prune_step(&mut self, keep_count: usize) -> (archived: Vec<AkashicEnvelope>)
        requires
            old(self).wf(),
        ensures
            final(self).wf(),
            final(self).total() == old(self).total(),
            old(self).records@.len() <= keep_count ==> {
                &&& *final(self) == *old(self)
                &&& archived@.len() == 0
            },
            old(self).records@.len() > keep_count ==> {
                let cut = old(self).records@.len() - keep_count;
                &&& archived@ == old(self).records@.take(cut as int)
                &&& final(self).records@ == old(self).records@.skip(cut as int)
                &&& final(self).records@.len() == keep_count
                &&& final(self).floor_id == old(self).floor_id + cut
                &&& final(self).floor_hash@ == archived@.last().hash@
                &&& archived@ + final(self).records@ == old(self).records@
                &&& chain_verifiable(models(final(self).records@), final(self).floor_hash@)
                &&& chain_verifiable(
                    models(archived@ + final(self).records@),
                    old(self).floor_hash@,
                )
            },
    {
        let len = self.records.len();
        if len <= keep_count {
            return Vec::new();
        }
        let cut = len - keep_count;
        let mut tail = self.records.split_off(cut);
        std::mem::swap(&mut self.records, &mut tail);
        // `tail` is now the archived prefix; `self.records` the retained suffix.
        self.floor_id = self.floor_id + (cut as u64);
        self.floor_hash = tail[cut - 1].hash.clone();
        proof {
            let old_ms = models(old(self).records@);
            let arch = models(tail@);
            let kept = models(self.records@);
            assert(arch =~= old_ms.take(cut as int));
            assert(kept =~= old_ms.skip(cut as int));
            assert(tail@ =~= old(self).records@.take(cut as int));
            assert(self.records@ =~= old(self).records@.skip(cut as int));
            assert(tail@ + self.records@ =~= old(self).records@);
            assert(tail@.last() == old(self).records@[cut - 1]);
            assert(old_ms[cut - 1] == old(self).records@[cut - 1]@);
            assert(old_ms[0] == old(self).records@[0]@);
            lemma_chain_split(old_ms, old(self).floor_hash@, cut as int);
            assert(self.floor_hash@ == old_ms[cut - 1].hash);
            if kept.len() > 0 {
                assert(kept[0] == self.records@[0]@);
            }
            // every retained hash keeps digest length
            assert forall|i: int|
                0 <= i < self.records@.len() implies (#[trigger] self.records@[i]).hash@.len()
                == 64 by {
                assert(self.records@[i] == old(self).records@[cut + i]);
            }
            // the new floor is not the genesis sentinel: it has digest length
            assert(self.floor_hash@.len() == 64);
            reveal_strlit("GENESIS_HASH");
            assert(genesis_seq().len() == 12);
            assert(self.floor_hash@ != genesis_seq());
            // reconstruction: archive plus suffix is the original chain
            assert(models(tail@ + self.records@) == old_ms);
        }
        tail
    }

    /// A fully materialized copy of the live chain.
    pub fn history_copy(&self) -> (r: Vec<AkashicEnvelope>)
        ensures
            r@ == self.records@,
    {
        let mut r: Vec<AkashicEnvelope> = Vec::new();
        let n = self.records.len();
        let mut i: usize = 0;
        while i < n
            invariant
                i <= n,
                n == self.records@.len(),
                r@.len() == i,
                forall|k: int| 0 <= k < i ==> r@[k] == self.records@[k],
            decreases n - i,
        {
            r.push(self.records[i].clone());
            i = i + 1;
        }
        proof {
            assert(r@ =~= self.records@);
        }
        r
    }
}

/// Recomputes every record's digest and rechecks every id and hash link, so
/// any mutation of a stored field is evident. Returns whether `records` is a
/// verifiable chain rooted at `root`.
pub fn verify_chain(records: &Vec<AkashicEnvelope>, root: &str) -> (r: bool)
    ensures
        r == chain_verifiable(models(records@), root@),
{
    let n = records.len();
    let root_s = root.to_owned();
    let ghost ms = models(records@);
    let mut i: usize = 0;
    while i < n
        invariant
            i <= n,
            n == records@.len(),
            ms == models(records@),
            root_s@ == root@,
            forall|k: int| #![trigger ms[k]] 0 < k < i ==> ms[k].id == ms[k - 1].id + 1,
            forall|k: int| #![trigger ms[k]] 0 < k < i ==> ms[k].prev_hash == ms[k - 1].hash,
            i > 0 ==> ms[0].prev_hash == root@,
            forall|k: int| 0 <= k < i ==> digest_ok(#[trigger] ms[k]),
        decreases n - i,
    {
        let e = &records[i];
        proof {
            assert(ms[i as int] == records@[i as int]@);
        }
        if i == 0 {
            if !(e.prev_hash == root_s) {
                return false;
            }
        } else {
            proof {
                assert(ms[i - 1] == records@[i - 1]@);
            }
            let p = &records[i - 1];
            if !(e.id >= 1 && e.id - 1 == p.id) {
                return false;
            }
            if !(e.prev_hash == p.hash) {
                return false;
            }
        }
        let d = digest_line(
            e.id,
            e.timestamp,
            e.actor.as_str(),
            e.payload.as_str(),
            e.prev_hash.as_str(),
            e.signature.as_str(),
        );
        if !(d == e.hash) {
            return false;
        }
        i = i + 1;
    }
    true
}

/// Law: splitting a verifiable chain leaves a verifiable prefix rooted where
/// the chain was rooted, and a verifiable suffix rooted at the prefix's head
/// hash, whose first id continues the prefix's run.
pub proof fn lemma_chain_split(ms: Seq<RecordModel>, root: Seq<char>, cut: int)
    requires
        chain_verifiable(ms, root),
        0 < cut <= ms.len(),
    ensures
        chain_verifiable(ms.take(cut), root),
        chain_verifiable(ms.skip(cut), ms[cut - 1].hash),
        ms.skip(cut).len() > 0 ==> ms.skip(cut)[0].id == ms[0].id + cut,
{
    let a = ms.take(cut);
    let b = ms.skip(cut);
    assert(forall|i: int| #![trigger a[i]] 0 <= i < a.len() ==> a[i] == ms[i]);
    assert(forall|i: int| #![trigger b[i]] 0 <= i < b.len() ==> b[i] == ms[cut + i]);
    assert forall|i: int|
        #![trigger b[i]]
        0 < i < b.len() implies b[i].id == b[i - 1].id + 1 && b[i].prev_hash == b[i - 1].hash by {
        assert(b[i] == ms[cut + i] && b[i - 1] == ms[cut + i - 1]);
    }
    if b.len() > 0 {
        assert(b[0] == ms[cut as int]);
        lemma_contiguous_ids(ms, cut);
    }
}

/// Law: ids along a consistent history grow by exactly one per record.
pub proof fn lemma_contiguous_ids(ms: Seq<RecordModel>, i: int)
    requires
        forall|k: int| #![trigger ms[k]] 0 < k < ms.len() ==> ms[k].id == ms[k - 1].id + 1,
        0 <= i < ms.len(),
    ensures
        ms[i].id == ms[0].id + i,
    decreases i,
{
    if i > 0 {
        lemma_contiguous_ids(ms, i - 1);
    }
}

/// Law: a consistent history that roots at the genesis sentinel numbers its
/// records 1..n in order, and every later record carries its predecessor's
/// hash as `prev_hash`.
pub proof fn lemma_genesis_history_ids(ms: Seq<RecordModel>)
    requires
        history_consistent(ms),
        ms.len() > 0,
        ms[0].prev_hash == genesis_seq(),
    ensures
        forall|i: int| 0 <= i < ms.len() ==> (#[trigger] ms[i]).id == i + 1,
        forall|i: int| #![trigger ms[i]] 0 < i < ms.len() ==> ms[i].prev_hash == ms[i - 1].hash,
{
    assert(ms[0].id == 1);
    assert forall|i: int| 0 <= i < ms.len() implies (#[trigger] ms[i]).id == i + 1 by {
        lemma_contiguous_ids(ms, i);
    }
}

/// Law: two verifiable chains concatenate into one verifiable chain when the
/// second roots at the first's head hash and continues its ids.
pub proof fn lemma_chain_concat(a: Seq<RecordModel>, b: Seq<RecordModel>, root: Seq<char>)
    requires
        chain_verifiable(a, root),
        chain_verifiable(b, if a.len() == 0 { root } else { a.last().hash }),
        b.len() > 0 && a.len() > 0 ==> b[0].id == a.last().id + 1,
    ensures
        chain_verifiable(a + b, root),
{
    let c = a + b;
    assert forall|i: int| #![trigger c[i]] 0 < i < c.len() implies c[i].id == c[i - 1].id + 1
        && c[i].prev_hash == c[i - 1].hash by {
        if i < a.len() {
            assert(c[i] == a[i] && c[i - 1] == a[i - 1]);
        } else if i == a.len() {
            assert(c[i] == b[0] && c[i - 1] == a[i - 1]);
            assert(a[i - 1] == a.last());
        } else {
            assert(c[i] == b[i - a.len()] && c[i - 1] == b[i - a.len() - 1]);
        }
    }
    assert forall|i: int| 0 <= i < c.len() implies digest_ok(#[trigger] c[i]) by {
        if i < a.len() {
            assert(c[i] == a[i]);
        } else {
            assert(c[i] == b[i - a.len()]);
        }
    }
    if c.len() > 0 {
        if a.len() > 0 {
            assert(c[0] == a[0]);
        } else {
            assert(c[0] == b[0]);
        }
    }
}

} // verus!
