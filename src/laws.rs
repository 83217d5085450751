//! Properties that relate the stages to one another, proved over their specifications.
use vstd::prelude::*;

use crate::filter::{
    kept_positions, ledger_mask, ledger_screening, lemma_kept_members, node_mask, node_screening,
    spend_position, torsion_free, unlocked_at, verified_pool,
};
use crate::ring::ring_assembled;
use crate::search::strictly_increasing;
use crate::types::{DecoyError, OutputRecord, RealSpend, Ring, RingMember, Timelock};

verus! {

/// In an assembled ring only the member at the spend position stands at the spend's global
/// index. When no member of the pool carries the spend's key and commitment together, that
/// member is also the only one in the ring that does.
pub proof fn lemma_ring_has_one_spend(ring: Ring, ring_len: u8, spend: RealSpend, pool: Seq<RingMember>)
    requires
        ring_assembled(ring, ring_len, spend, pool),
    ensures
        forall|j: int|
            0 <= j < ring.members@.len() ==> (#[trigger] ring.members@[j].index == spend.index <==> j
                == ring.spend_position),
        (forall|i: int|
            0 <= i < pool.len() ==> !(#[trigger] pool[i].key == spend.key && pool[i].commitment
                == spend.commitment)) ==> forall|j: int|
            0 <= j < ring.members@.len() ==> ((#[trigger] ring.members@[j].key == spend.key
                && ring.members@[j].commitment == spend.commitment) <==> j == ring.spend_position),
{
    let members = ring.members@;
    let pos = ring.spend_position as int;
    assert forall|j: int| 0 <= j < members.len() implies (#[trigger] members[j].index == spend.index
        <==> j == pos) by {
        if j < pos {
            assert(members[j].index < members[pos].index);
        } else if j > pos {
            assert(members[pos].index < members[j].index);
        }
    }
    if forall|i: int|
        0 <= i < pool.len() ==> !(#[trigger] pool[i].key == spend.key && pool[i].commitment
            == spend.commitment) {
        assert forall|j: int| 0 <= j < members.len() implies ((#[trigger] members[j].key == spend.key
            && members[j].commitment == spend.commitment) <==> j == pos) by {
            if j != pos {
                assert(pool.contains(members[j]));
                let i = choose|i: int| 0 <= i < pool.len() && pool[i] == members[j];
                assert(!(pool[i].key == spend.key && pool[i].commitment == spend.commitment));
            }
        }
    }
}

/// When the ring's decoys come from a screened pool, no member but the spend's own carries
/// torsion; the spend's own member is the wallet's data and is not checked.
pub proof fn lemma_ring_torsion_free(ring: Ring, ring_len: u8, spend: RealSpend, pool: Seq<RingMember>)
    requires
        ring_assembled(ring, ring_len, spend, pool),
        verified_pool(pool, spend.index),
    ensures
        forall|j: int|
            0 <= j < ring.members@.len() && j != ring.spend_position ==> torsion_free(
                #[trigger] ring.members@[j].key@,
            ) && torsion_free(ring.members@[j].commitment@),
{
    let members = ring.members@;
    assert forall|j: int| 0 <= j < members.len() && j != ring.spend_position implies torsion_free(
        #[trigger] members[j].key@,
    ) && torsion_free(members[j].commitment@) by {
        assert(pool.contains(members[j]));
        let i = choose|i: int| 0 <= i < pool.len() && pool[i] == members[j];
    }
}

/// A record at the spend's position that carries another key than the spend's makes both
/// screenings fail with `SpendMismatch`.
pub proof fn lemma_spend_mismatch_detected(
    spend: RealSpend,
    candidates: Seq<u64>,
    records: Seq<OutputRecord>,
    locks: Seq<Timelock>,
    height: u64,
    position: int,
)
    requires
        strictly_increasing(candidates),
        records.len() == candidates.len(),
        locks.len() == candidates.len(),
        0 <= position < candidates.len(),
        candidates[position] == spend.index,
        records[position].key@ != spend.key@,
    ensures
        node_screening(spend, candidates, records) == Err::<Seq<RingMember>, DecoyError>(
            DecoyError::SpendMismatch,
        ),
        ledger_screening(spend, candidates, records, locks, height) == Err::<
            Seq<RingMember>,
            DecoyError,
        >(DecoyError::SpendMismatch),
{
    let k = spend_position(candidates, spend.index);
    assert(k == position) by {
        if k < position {
            assert(candidates[k] < candidates[position]);
        } else if k > position {
            assert(candidates[position] < candidates[k]);
        }
    }
}

/// When every unlock flag agrees with the ledger's own rule (depth and timelock at `height`),
/// the deterministic screening yields exactly what the node-trusted one yields; in particular
/// it excludes every output that the node reports as locked.
pub proof fn lemma_screenings_agree_on_honest_flags(
    spend: RealSpend,
    candidates: Seq<u64>,
    records: Seq<OutputRecord>,
    locks: Seq<Timelock>,
    height: u64,
)
    requires
        records.len() == candidates.len(),
        locks.len() == candidates.len(),
        forall|i: int|
            0 <= i < candidates.len() ==> #[trigger] records[i].unlocked == unlocked_at(
                records[i],
                locks[i],
                height,
            ),
    ensures
        ledger_screening(spend, candidates, records, locks, height) == node_screening(
            spend,
            candidates,
            records,
        ),
{
    assert(ledger_mask(spend, candidates, records, locks, height) =~= node_mask(
        spend,
        candidates,
        records,
    ));
}

/// Whatever the node reports, the deterministic screening keeps no output that lies less than a
/// lock window below `height` or whose transaction timelock is unmet there.
pub proof fn lemma_ledger_screening_excludes_locked(
    spend: RealSpend,
    candidates: Seq<u64>,
    records: Seq<OutputRecord>,
    locks: Seq<Timelock>,
    height: u64,
)
    requires
        strictly_increasing(candidates),
        records.len() == candidates.len(),
        locks.len() == candidates.len(),
    ensures
        ledger_screening(spend, candidates, records, locks, height) matches Ok(pool) ==> forall|
            i: int,
            t: int,
        |
            0 <= i < candidates.len() && 0 <= t < pool.len() && !unlocked_at(
                records[i],
                locks[i],
                height,
            ) ==> #[trigger] pool[t].index != #[trigger] candidates[i],
{
    let mask = ledger_mask(spend, candidates, records, locks, height);
    let n = candidates.len() as int;
    if ledger_screening(spend, candidates, records, locks, height) is Ok {
        lemma_kept_members(candidates, records, mask, n);
        let pool = ledger_screening(spend, candidates, records, locks, height)->Ok_0;
        assert forall|i: int, t: int|
            0 <= i < candidates.len() && 0 <= t < pool.len() && !unlocked_at(
                records[i],
                locks[i],
                height,
            ) implies #[trigger] pool[t].index != #[trigger] candidates[i] by {
            let q = kept_positions(mask, n)[t];
            assert(mask[q]);
            if q < i {
                assert(candidates[q] < candidates[i]);
            } else if q > i {
                assert(candidates[i] < candidates[q]);
            }
        }
    }
}

} // verus!
