//! Ring assembly: a uniform choice of decoys from the verified pool, merged with the real
//! spend, sorted, and offset-encoded.
use vstd::prelude::*;

use rand::rngs::StdRng;
use rand::seq::SliceRandom;

use crate::filter::{
    filter_outputs, filter_outputs_deterministic, ledger_screening, node_screening, verified_pool,
};
use crate::search::{insert_sorted, partition_point, strictly_increasing};
use crate::types::{DecoyError, FetchedRecords, RealSpend, Ring, RingMember};

verus! {

/// rand's standard seedable generator (a cryptographically secure one), carried opaquely.
#[verifier::external_type_specification]
#[verifier::external_body]
pub struct ExStdRng(StdRng);

/// Relies on rand's `SliceRandom::choose_multiple`: it yields `amount` elements (at most the
/// slice's length), each taken from a different position of the slice.
#[verifier::external_body]
fn choose_decoys(rng: &mut StdRng, pool: &[RingMember], amount: usize) -> (r: Vec<RingMember>)
    ensures
        r@.len() == if amount <= pool@.len() {
            amount as int
        } else {
            pool@.len() as int
        },
        forall|i: int| 0 <= i < r@.len() ==> pool@.contains(#[trigger] r@[i]),
        pool@.no_duplicates() ==> r@.no_duplicates(),
{
    pool.choose_multiple(rng, amount).cloned().collect()
}

/// No two members share a global index.
pub open spec fn distinct_indices(pool: Seq<RingMember>) -> bool {
    forall|i: int, j: int| 0 <= i < pool.len() && 0 <= j < pool.len() && i != j ==> pool[i].index != pool[j].index
}

/// The absolute index that the first `k + 1` offsets add up to.
pub open spec fn absolute_index(offsets: Seq<u64>, k: int) -> int
    decreases k,
{
    if k <= 0 {
        offsets[0] as int
    } else {
        absolute_index(offsets, k - 1) + offsets[k]
    }
}

/// What a finished ring looks like: `ring_len` members ascending by index, the spend's own
/// member at `spend_position` and each other member taken from `pool`, and offsets whose
/// running sums give back every member's index.
pub open spec fn ring_assembled(ring: Ring, ring_len: u8, spend: RealSpend, pool: Seq<RingMember>) -> bool {
    let members = ring.members@;
    let offsets = ring.offsets@;
    let pos = ring.spend_position as int;
    &&& members.len() == ring_len
    &&& offsets.len() == ring_len
    &&& forall|i: int, j: int| 0 <= i < j < members.len() ==> members[i].index < members[j].index
    &&& 0 <= pos < members.len()
    &&& members[pos] == spend.member()
    &&& forall|j: int| 0 <= j < members.len() && j != pos ==> pool.contains(#[trigger] members[j])
    &&& forall|k: int| 0 <= k < offsets.len() ==> #[trigger] absolute_index(offsets, k) == members[k].index
}

/// The outcome of assembling a ring of `ring_len` from `pool`.
pub open spec fn assembly_outcome(
    r: Result<Ring, DecoyError>,
    ring_len: u8,
    spend: RealSpend,
    pool: Seq<RingMember>,
) -> bool {
    if ring_len == 0 {
        r matches Err(e) && e == DecoyError::EmptyRing
    } else if pool.len() < ring_len - 1 {
        r matches Err(e) && e == DecoyError::PoolTooSmall
    } else {
        r matches Ok(ring) && ring_assembled(ring, ring_len, spend, pool)
    }
}

/// Running sums over a prefix ignore what is appended after it.
proof fn lemma_absolute_index_push(offsets: Seq<u64>, x: u64, k: int)
    requires
        0 <= k < offsets.len(),
    ensures
        absolute_index(offsets.push(x), k) == absolute_index(offsets, k),
    decreases k,
{
    if k > 0 {
        lemma_absolute_index_push(offsets, x, k - 1);
    }
}

/// The index of each member, in order.
pub open spec fn member_indices(members: Seq<RingMember>) -> Seq<u64> {
    members.map_values(|m: RingMember| m.index)
}

/// Puts `m` into `members`, kept ascending by index alongside `indices`; `None` when a member
/// with that index is already there.
fn insert_member(indices: &mut Vec<u64>, members: &mut Vec<RingMember>, m: RingMember) -> (r: Option<usize>)
    requires
        strictly_increasing(old(indices)@),
        old(indices)@ == member_indices(old(members)@),
    ensures
        strictly_increasing(final(indices)@),
        final(indices)@ == member_indices(final(members)@),
        old(indices)@.contains(m.index) ==> r is None && final(members)@ == old(members)@,
        !old(indices)@.contains(m.index) ==> r is Some && final(members)@ == old(members)@.insert(r->0 as int, m),
        r matches Some(p) ==> p <= old(members)@.len(),
{
    match insert_sorted(indices, m.index) {
        Some(p) => {
            members.insert(p, m);
            proof {
                assert(indices@ =~= member_indices(members@));
            }
            Some(p)
        },
        None => None,
    }
}

/// Assembles a ring of `ring_len` members: `ring_len - 1` decoys chosen uniformly from `pool`,
/// and the spend itself, taken from the wallet's own data.
///
/// Fails with `EmptyRing` when `ring_len` is 0 and with `PoolTooSmall` when `pool` holds fewer
/// than `ring_len - 1` members.
pub fn make_ring(rng: &mut StdRng, ring_len: u8, spend: &RealSpend, pool: &Vec<RingMember>) -> (r:
    Result<Ring, DecoyError>)
    requires
        distinct_indices(pool@),
        forall|i: int| 0 <= i < pool@.len() ==> pool@[i].index != spend.index,
    ensures
        assembly_outcome(r, ring_len, *spend, pool@),
{
    if ring_len == 0 {
        return Err(DecoyError::EmptyRing);
    }
    let need: usize = (ring_len - 1) as usize;
    if pool.len() < need {
        return Err(DecoyError::PoolTooSmall);
    }
    proof {
        assert(pool@.no_duplicates()) by {
            assert forall|i: int, j: int| 0 <= i < pool@.len() && 0 <= j < pool@.len() && i != j
                implies pool@[i] != pool@[j] by {
                assert(pool@[i].index != pool@[j].index);
            }
        }
    }
    let chosen = choose_decoys(rng, pool.as_slice(), need);
    let mut indices: Vec<u64> = Vec::new();
    let mut members: Vec<RingMember> = Vec::new();
    let mut t: usize = 0;
    proof {
        assert(indices@ =~= member_indices(members@));
    }
    while t < chosen.len()
        invariant
            t <= chosen.len(),
            chosen@.len() == need,
            chosen@.no_duplicates(),
            distinct_indices(pool@),
            forall|i: int| 0 <= i < chosen@.len() ==> pool@.contains(#[trigger] chosen@[i]),
            forall|i: int| 0 <= i < pool@.len() ==> pool@[i].index != spend.index,
            strictly_increasing(indices@),
            indices@ == member_indices(members@),
            members@.len() == t,
            forall|j: int| #![trigger members@[j]] 0 <= j < members@.len() ==> exists|s: int| 0 <= s < t && members@[j] == #[trigger] chosen@[s],
        decreases chosen.len() - t,
    {
        let m = chosen[t];
        proof {
            assert(!indices@.contains(m.index)) by {
                if indices@.contains(m.index) {
                    let j = choose|j: int| 0 <= j < indices@.len() && indices@[j] == m.index;
                    assert(members@[j].index == m.index);
                    let s = choose|s: int| 0 <= s < t && members@[j] == #[trigger] chosen@[s];
                    assert(pool@.contains(chosen@[s]));
                    assert(pool@.contains(chosen@[t as int]));
                    let a = choose|a: int| 0 <= a < pool@.len() && pool@[a] == chosen@[s];
                    let b = choose|b: int| 0 <= b < pool@.len() && pool@[b] == chosen@[t as int];
                    assert(a == b);
                    assert(chosen@[s] == chosen@[t as int]);
                }
            }
        }
        let ghost before = members@;
        let ins = insert_member(&mut indices, &mut members, m);
        proof {
            let p = ins->0 as int;
            assert forall|j: int| #![trigger members@[j]] 0 <= j < members@.len() implies exists|s: int| 0 <= s < t + 1 && members@[j] == #[trigger] chosen@[s] by {
                before.insert_ensures(p, m);
                if j < p {
                    let s = choose|s: int| 0 <= s < t && before[j] == #[trigger] chosen@[s];
                    assert(members@[j] == chosen@[s]);
                } else if j > p {
                    let s = choose|s: int| 0 <= s < t && before[j - 1] == #[trigger] chosen@[s];
                    assert(members@[j] == chosen@[s]);
                } else {
                    assert(members@[j] == chosen@[t as int]);
                }
            }
        }
        t += 1;
    }
    proof {
        assert(!indices@.contains(spend.index)) by {
            if indices@.contains(spend.index) {
                let j = choose|j: int| 0 <= j < indices@.len() && indices@[j] == spend.index;
                assert(members@[j].index == spend.index);
                let s = choose|s: int| 0 <= s < t && members@[j] == #[trigger] chosen@[s];
                assert(pool@.contains(chosen@[s]));
            }
        }
    }
    let own = RingMember { index: spend.index, key: spend.key, commitment: spend.commitment };
    let ghost decoys = members@;
    let ins = insert_member(&mut indices, &mut members, own);
    let pos = partition_point(indices.as_slice(), spend.index);
    proof {
        let p = ins->0 as int;
        decoys.insert_ensures(p, own);
        assert(indices@[p] == spend.index);
        assert(p == pos) by {
            if p < pos {
                assert(indices@[p] < spend.index);
            } else if p > pos {
                assert(indices@[pos as int] < indices@[p]);
            }
        }
        assert forall|j: int| 0 <= j < members@.len() && j != pos implies pool@.contains(#[trigger] members@[j]) by {
            let d = if j < p { j } else { j - 1 };
            assert(members@[j] == decoys[d]);
            let s = choose|s: int| 0 <= s < t && decoys[d] == #[trigger] chosen@[s];
        }
    }
    let len = members.len();
    let mut offsets: Vec<u64> = Vec::new();
    offsets.push(members[0].index);
    let mut m: usize = 1;
    while m < len
        invariant
            1 <= m <= len,
            len == members@.len(),
            offsets@.len() == m,
            strictly_increasing(indices@),
            indices@ == member_indices(members@),
            forall|k: int| 0 <= k < m ==> #[trigger] absolute_index(offsets@, k) == members@[k].index,
        decreases len - m,
    {
        assert(indices@[m - 1] < indices@[m as int]);
        let delta = members[m].index - members[m - 1].index;
        let ghost prev = offsets@;
        offsets.push(delta);
        proof {
            assert forall|k: int| 0 <= k < m + 1 implies #[trigger] absolute_index(offsets@, k) == members@[k].index by {
                if k < m {
                    lemma_absolute_index_push(prev, delta, k);
                } else {
                    lemma_absolute_index_push(prev, delta, k - 1);
                }
            }
        }
        m += 1;
    }
    proof {
        assert forall|i: int, j: int| 0 <= i < j < members@.len() implies members@[i].index < members@[j].index by {
            assert(indices@[i] < indices@[j]);
        }
    }
    Ok(Ring { offsets, spend_position: pos as u8, members })
}

/// What screening the fetched records yields, by the variant they come in.
pub open spec fn screening(spend: RealSpend, candidates: Seq<u64>, fetched: FetchedRecords) -> Result<
    Seq<RingMember>,
    DecoyError,
> {
    match fetched {
        FetchedRecords::NodeTrusted { records } => node_screening(spend, candidates, records@),
        FetchedRecords::Deterministic { records, locks, height } => ledger_screening(
            spend,
            candidates,
            records@,
            locks@,
            height,
        ),
    }
}

/// Screens the fetched records for the candidates and assembles a ring of `ring_len` from the
/// decoys that pass. A screening error is returned as is; otherwise the result is that of
/// `make_ring` on the screened pool.
pub fn build_ring(
    rng: &mut StdRng,
    ring_len: u8,
    spend: &RealSpend,
    candidates: &Vec<u64>,
    fetched: &FetchedRecords,
) -> (r: Result<Ring, DecoyError>)
    requires
        strictly_increasing(candidates@),
        candidates@.contains(spend.index),
    ensures
        match screening(*spend, candidates@, *fetched) {
            Ok(pool) => assembly_outcome(r, ring_len, *spend, pool) && verified_pool(pool, spend.index),
            Err(e) => r matches Err(x) && x == e,
        },
{
    let screened = match fetched {
        FetchedRecords::NodeTrusted { records } => filter_outputs(spend, candidates, records),
        FetchedRecords::Deterministic { records, locks, height } => filter_outputs_deterministic(
            spend,
            candidates,
            records,
            locks,
            *height,
        ),
    };
    match screened {
        Ok(pool) => {
            proof {
                assert(distinct_indices(pool@)) by {
                    assert forall|i: int, j: int|
                        0 <= i < pool@.len() && 0 <= j < pool@.len() && i != j implies pool@[i].index
                        != pool@[j].index by {
                        if i < j {
                            assert(pool@[i].index < pool@[j].index);
                        } else {
                            assert(pool@[j].index < pool@[i].index);
                        }
                    }
                }
            }
            make_ring(rng, ring_len, spend, &pool)
        },
        Err(e) => Err(e),
    }
}

} // verus!
