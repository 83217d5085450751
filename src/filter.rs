//! Screening of the node's records for the sampled candidates into a verified decoy pool.
//!
//! Two variants share one shape. The node-trusted one believes the node's unlock flag; the
//! deterministic one ignores it and checks block depth and the transaction timelock locally.
use vstd::prelude::*;

use crate::sampler::DEFAULT_LOCK_WINDOW;
use crate::search::{partition_point, strictly_increasing};
use crate::types::{DecoyError, OutputRecord, RealSpend, RingMember, Timelock};

verus! {

/// Blocks by which consensus accepts a block timelock early.
pub const ACCEPTED_TIMELOCK_DELTA: u64 = 1;

/// Whether the 32 bytes decode to a curve point with no small-order (torsion) component.
pub uninterp spec fn torsion_free(encoding: Seq<u8>) -> bool;

/// Relies on curve25519_dalek's `CompressedEdwardsY::decompress` and
/// `EdwardsPoint::is_torsion_free`: the bytes decode to a point, and that point is torsion-free.
#[verifier::external_body]
fn is_torsion_free(encoding: &[u8; 32]) -> (r: bool)
    ensures
        r == torsion_free(encoding@),
{
    match curve25519_dalek::edwards::CompressedEdwardsY(*encoding).decompress() {
        Some(point) => point.is_torsion_free(),
        None => false,
    }
}

/// Whether two encodings hold the same bytes.
fn same_encoding(a: &[u8; 32], b: &[u8; 32]) -> (r: bool)
    ensures
        r == (a@ == b@),
{
    let mut i: usize = 0;
    while i < 32
        invariant
            i <= 32,
            a@.len() == 32,
            b@.len() == 32,
            forall|j: int| 0 <= j < i ==> a@[j] == b@[j],
        decreases 32 - i,
    {
        if a[i] != b[i] {
            return false;
        }
        i += 1;
    }
    assert(a@ =~= b@);
    true
}

/// The position of the output being spent among the candidates.
pub open spec fn spend_position(candidates: Seq<u64>, spent: u64) -> int {
    choose|i: int| 0 <= i < candidates.len() && candidates[i] == spent
}

/// Whether the node's record carries exactly the known key and commitment of the spend.
pub open spec fn matches_spend(record: OutputRecord, spend: RealSpend) -> bool {
    record.key@ == spend.key@ && record.commitment@ == spend.commitment@
}

/// Whether both points of a record decode and are torsion-free.
pub open spec fn torsion_free_record(record: OutputRecord) -> bool {
    torsion_free(record.key@) && torsion_free(record.commitment@)
}

/// The ring member that position `i` would contribute.
pub open spec fn member_at(candidates: Seq<u64>, records: Seq<OutputRecord>, i: int) -> RingMember {
    RingMember { index: candidates[i], key: records[i].key, commitment: records[i].commitment }
}

/// The members of the positions below `n` that `keep` marks, in candidate order.
pub open spec fn kept_members(
    candidates: Seq<u64>,
    records: Seq<OutputRecord>,
    keep: Seq<bool>,
    n: int,
) -> Seq<RingMember>
    decreases n,
{
    if n <= 0 {
        Seq::empty()
    } else {
        let before = kept_members(candidates, records, keep, n - 1);
        if keep[n - 1] {
            before.push(member_at(candidates, records, n - 1))
        } else {
            before
        }
    }
}

/// Whether the node-trusted filter keeps position `i`: not the spend, reported unlocked, and
/// torsion-free.
pub open spec fn node_keeps(
    spend: RealSpend,
    candidates: Seq<u64>,
    records: Seq<OutputRecord>,
    i: int,
) -> bool {
    &&& candidates[i] != spend.index
    &&& records[i].unlocked
    &&& torsion_free_record(records[i])
}

/// Whether a timelock is satisfied at block height `height`. A time-based lock never compares
/// as satisfied against a block height.
pub open spec fn timelock_satisfied(lock: Timelock, height: int) -> bool {
    match lock {
        Timelock::NoLock => true,
        Timelock::Block(b) => b <= height,
        Timelock::Time(_) => false,
    }
}

/// Whether an output is spendable at scan height `height` by the ledger's own rules: it lies
/// a lock window deep, and its transaction's timelock is met.
pub open spec fn unlocked_at(record: OutputRecord, lock: Timelock, height: u64) -> bool {
    &&& record.height + DEFAULT_LOCK_WINDOW <= height
    &&& timelock_satisfied(lock, height + ACCEPTED_TIMELOCK_DELTA - 1)
}

/// Whether the deterministic filter keeps position `i`: not the spend, unlocked by the ledger's
/// rules, and torsion-free.
pub open spec fn ledger_keeps(
    spend: RealSpend,
    candidates: Seq<u64>,
    records: Seq<OutputRecord>,
    locks: Seq<Timelock>,
    height: u64,
    i: int,
) -> bool {
    &&& candidates[i] != spend.index
    &&& unlocked_at(records[i], locks[i], height)
    &&& torsion_free_record(records[i])
}

/// The positions that the node-trusted filter keeps.
pub open spec fn node_mask(spend: RealSpend, candidates: Seq<u64>, records: Seq<OutputRecord>) -> Seq<
    bool,
> {
    Seq::new(candidates.len(), |i: int| node_keeps(spend, candidates, records, i))
}

/// The positions that the deterministic filter keeps.
pub open spec fn ledger_mask(
    spend: RealSpend,
    candidates: Seq<u64>,
    records: Seq<OutputRecord>,
    locks: Seq<Timelock>,
    height: u64,
) -> Seq<bool> {
    Seq::new(candidates.len(), |i: int| ledger_keeps(spend, candidates, records, locks, height, i))
}

/// What the node-trusted filter yields.
pub open spec fn node_screening(
    spend: RealSpend,
    candidates: Seq<u64>,
    records: Seq<OutputRecord>,
) -> Result<Seq<RingMember>, DecoyError> {
    if candidates.len() != records.len() {
        Err(DecoyError::ResponseLengthMismatch)
    } else if !matches_spend(records[spend_position(candidates, spend.index)], spend) {
        Err(DecoyError::SpendMismatch)
    } else {
        Ok(
            kept_members(
                candidates,
                records,
                node_mask(spend, candidates, records),
                candidates.len() as int,
            ),
        )
    }
}

/// What the deterministic filter yields.
pub open spec fn ledger_screening(
    spend: RealSpend,
    candidates: Seq<u64>,
    records: Seq<OutputRecord>,
    locks: Seq<Timelock>,
    height: u64,
) -> Result<Seq<RingMember>, DecoyError> {
    if candidates.len() != records.len() || candidates.len() != locks.len() {
        Err(DecoyError::ResponseLengthMismatch)
    } else if !matches_spend(records[spend_position(candidates, spend.index)], spend) {
        Err(DecoyError::SpendMismatch)
    } else {
        Ok(
            kept_members(
                candidates,
                records,
                ledger_mask(spend, candidates, records, locks, height),
                candidates.len() as int,
            ),
        )
    }
}

/// A pool fit for ring assembly: ascending indices, none of them the spend's, all torsion-free.
pub open spec fn verified_pool(pool: Seq<RingMember>, spent: u64) -> bool {
    &&& forall|i: int, j: int| 0 <= i < j < pool.len() ==> pool[i].index < pool[j].index
    &&& forall|i: int| 0 <= i < pool.len() ==> pool[i].index != spent
    &&& forall|i: int|
        0 <= i < pool.len() ==> torsion_free(pool[i].key@) && torsion_free(pool[i].commitment@)
}

/// The positions below `n` that `keep` marks, ascending.
pub open spec fn kept_positions(keep: Seq<bool>, n: int) -> Seq<int>
    decreases n,
{
    if n <= 0 {
        Seq::empty()
    } else if keep[n - 1] {
        kept_positions(keep, n - 1).push(n - 1)
    } else {
        kept_positions(keep, n - 1)
    }
}

/// Each kept member is the member of a marked position, those positions ascend, and so do the
/// members' indices.
pub proof fn lemma_kept_members(
    candidates: Seq<u64>,
    records: Seq<OutputRecord>,
    keep: Seq<bool>,
    n: int,
)
    requires
        strictly_increasing(candidates),
        0 <= n <= candidates.len(),
        n <= keep.len(),
        n <= records.len(),
    ensures
        kept_positions(keep, n).len() == kept_members(candidates, records, keep, n).len(),
        forall|t: int|
            #![trigger kept_positions(keep, n)[t]]
            0 <= t < kept_positions(keep, n).len() ==> {
                &&& 0 <= kept_positions(keep, n)[t] < n
                &&& keep[kept_positions(keep, n)[t]]
                &&& kept_members(candidates, records, keep, n)[t] == member_at(
                    candidates,
                    records,
                    kept_positions(keep, n)[t],
                )
            },
        forall|s: int, t: int|
            0 <= s < t < kept_members(candidates, records, keep, n).len() ==> kept_members(
                candidates,
                records,
                keep,
                n,
            )[s].index < kept_members(candidates, records, keep, n)[t].index,
    decreases n,
{
    if n > 0 {
        lemma_kept_members(candidates, records, keep, n - 1);
        let before = kept_members(candidates, records, keep, n - 1);
        let positions = kept_positions(keep, n - 1);
        assert forall|t: int| 0 <= t < before.len() implies before[t].index < candidates[n - 1] by {
            assert(positions[t] < n - 1);
        }
    }
}

/// Locates the spend among strictly increasing candidates.
fn find_spend(candidates: &Vec<u64>, spent: u64) -> (r: usize)
    requires
        strictly_increasing(candidates@),
        candidates@.contains(spent),
    ensures
        r < candidates.len(),
        candidates@[r as int] == spent,
        r as int == spend_position(candidates@, spent),
        forall|i: int| 0 <= i < candidates.len() ==> (candidates@[i] == spent <==> i == r),
{
    let pos = partition_point(candidates.as_slice(), spent);
    proof {
        let k = choose|k: int| 0 <= k < candidates@.len() && candidates@[k] == spent;
        assert(k == pos) by {
            if k > pos {
                assert(candidates@[pos as int] < candidates@[k]);
            }
        }
        assert forall|i: int| 0 <= i < candidates.len() implies (candidates@[i] == spent <==> i == pos) by {
            if i < pos {
                assert(candidates@[i] < spent);
            } else if i > pos {
                assert(candidates@[pos as int] < candidates@[i]);
            }
        }
    }
    pos
}

/// Screens the node's records for the candidates, trusting the node's unlock flags.
///
/// Fails with `ResponseLengthMismatch` when there is not one record per candidate, and with
/// `SpendMismatch` when the record at the spend's position does not carry the spend's own key
/// and commitment. Otherwise keeps, in order, each other position reported unlocked whose key
/// and commitment are torsion-free points.
pub fn filter_outputs(spend: &RealSpend, candidates: &Vec<u64>, records: &Vec<OutputRecord>) -> (r:
    Result<Vec<RingMember>, DecoyError>)
    requires
        strictly_increasing(candidates@),
        candidates@.contains(spend.index),
    ensures
        match node_screening(*spend, candidates@, records@) {
            Ok(pool) => r matches Ok(v) && v@ == pool,
            Err(e) => r == Err::<Vec<RingMember>, DecoyError>(e),
        },
        r matches Ok(v) ==> verified_pool(v@, spend.index),
{
    let len = candidates.len();
    if len != records.len() {
        return Err(DecoyError::ResponseLengthMismatch);
    }
    let pos = find_spend(candidates, spend.index);
    if !(same_encoding(&records[pos].key, &spend.key) && same_encoding(
        &records[pos].commitment,
        &spend.commitment,
    )) {
        return Err(DecoyError::SpendMismatch);
    }
    let ghost mask = node_mask(*spend, candidates@, records@);
    let mut pool: Vec<RingMember> = Vec::new();
    let mut i: usize = 0;
    while i < len
        invariant
            i <= len,
            len == candidates.len(),
            len == records.len(),
            pos < len,
            forall|j: int| 0 <= j < len ==> (candidates@[j] == spend.index <==> j == pos),
            mask == node_mask(*spend, candidates@, records@),
            pool@ == kept_members(candidates@, records@, mask, i as int),
        decreases len - i,
    {
        let record = records[i];
        if i != pos && record.unlocked && is_torsion_free(&record.key) && is_torsion_free(
            &record.commitment,
        ) {
            pool.push(RingMember { index: candidates[i], key: record.key, commitment: record.commitment });
        }
        proof {
            assert(mask[i as int] == node_keeps(*spend, candidates@, records@, i as int));
        }
        i += 1;
    }
    proof {
        lemma_kept_members(candidates@, records@, mask, len as int);
        assert forall|t: int| 0 <= t < pool@.len() implies pool@[t].index != spend.index
            && torsion_free(pool@[t].key@) && torsion_free(pool@[t].commitment@) by {
            let j = kept_positions(mask, len as int)[t];
            assert(node_keeps(*spend, candidates@, records@, j));
        }
    }
    Ok(pool)
}

/// Whether `lock` is met at scan height `height`, with the consensus acceptance delta.
fn timelock_met(lock: Timelock, height: u64) -> (r: bool)
    ensures
        r == timelock_satisfied(lock, height + ACCEPTED_TIMELOCK_DELTA - 1),
{
    match lock {
        Timelock::NoLock => true,
        Timelock::Block(b) => (b as u128) < (height as u128) + (ACCEPTED_TIMELOCK_DELTA as u128),
        Timelock::Time(_) => false,
    }
}

/// Screens the node's records for the candidates without trusting the node's unlock flags:
/// an output is kept only when it lies a lock window below `height` and its transaction's
/// timelock (`locks`, one per candidate) is met at `height`.
///
/// Fails with `ResponseLengthMismatch` when there is not one record and one timelock per
/// candidate, and with `SpendMismatch` as `filter_outputs` does.
pub fn filter_outputs_deterministic(
    spend: &RealSpend,
    candidates: &Vec<u64>,
    records: &Vec<OutputRecord>,
    locks: &Vec<Timelock>,
    height: u64,
) -> (r: Result<Vec<RingMember>, DecoyError>)
    requires
        strictly_increasing(candidates@),
        candidates@.contains(spend.index),
    ensures
        match ledger_screening(*spend, candidates@, records@, locks@, height) {
            Ok(pool) => r matches Ok(v) && v@ == pool,
            Err(e) => r == Err::<Vec<RingMember>, DecoyError>(e),
        },
        r matches Ok(v) ==> verified_pool(v@, spend.index),
{
    let len = candidates.len();
    if len != records.len() || len != locks.len() {
        return Err(DecoyError::ResponseLengthMismatch);
    }
    let pos = find_spend(candidates, spend.index);
    if !(same_encoding(&records[pos].key, &spend.key) && same_encoding(
        &records[pos].commitment,
        &spend.commitment,
    )) {
        return Err(DecoyError::SpendMismatch);
    }
    let ghost mask = ledger_mask(*spend, candidates@, records@, locks@, height);
    let mut pool: Vec<RingMember> = Vec::new();
    let mut i: usize = 0;
    while i < len
        invariant
            i <= len,
            len == candidates.len(),
            len == records.len(),
            len == locks.len(),
            pos < len,
            forall|j: int| 0 <= j < len ==> (candidates@[j] == spend.index <==> j == pos),
            mask == ledger_mask(*spend, candidates@, records@, locks@, height),
            pool@ == kept_members(candidates@, records@, mask, i as int),
        decreases len - i,
    {
        let record = records[i];
        let deep = (record.height as u128) + (DEFAULT_LOCK_WINDOW as u128) <= height as u128;
        if i != pos && deep && timelock_met(locks[i], height) && is_torsion_free(&record.key)
            && is_torsion_free(&record.commitment) {
            pool.push(RingMember { index: candidates[i], key: record.key, commitment: record.commitment });
        }
        proof {
            assert(mask[i as int] == ledger_keeps(*spend, candidates@, records@, locks@, height, i as int));
        }
        i += 1;
    }
    proof {
        lemma_kept_members(candidates@, records@, mask, len as int);
        assert forall|t: int| 0 <= t < pool@.len() implies pool@[t].index != spend.index
            && torsion_free(pool@[t].key@) && torsion_free(pool@[t].commitment@) by {
            let j = kept_positions(mask, len as int)[t];
            assert(ledger_keeps(*spend, candidates@, records@, locks@, height, j));
        }
    }
    Ok(pool)
}

} // verus!
