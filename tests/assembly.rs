use curve25519_dalek::constants::{ED25519_BASEPOINT_POINT, EIGHT_TORSION};
use curve25519_dalek::scalar::Scalar;
use monero_decoys::{
    build_ring, make_ring, BlockInfo, DecoyError, FetchedRecords, OutputRecord, RealSpend, Ring,
    RingMember, Timelock, ViewPairJson,
};
use rand::rngs::StdRng;
use rand::SeedableRng;

fn point(k: u64) -> [u8; 32] {
    (ED25519_BASEPOINT_POINT * Scalar::from(k)).compress().to_bytes()
}

fn member(index: u64) -> RingMember {
    RingMember { index, key: point(index), commitment: point(index + 1000) }
}

fn spend(index: u64) -> RealSpend {
    RealSpend { index, key: point(index), commitment: point(index + 1000) }
}

fn pool(indices: &[u64]) -> Vec<RingMember> {
    indices.iter().map(|&i| member(i)).collect()
}

fn check_ring(ring: &Ring, ring_len: usize, own: &RealSpend, pool: &[RingMember]) {
    assert_eq!(ring.members.len(), ring_len);
    assert_eq!(ring.offsets.len(), ring_len);
    assert!(ring.members.windows(2).all(|w| w[0].index < w[1].index));
    let pos = ring.spend_position as usize;
    let at = &ring.members[pos];
    assert_eq!((at.index, at.key, at.commitment), (own.index, own.key, own.commitment));
    let carrying = ring.members.iter().filter(|m| m.key == own.key && m.commitment == own.commitment).count();
    assert_eq!(carrying, 1);
    for (j, m) in ring.members.iter().enumerate() {
        if j != pos {
            assert!(pool.contains(m));
        }
    }
    let mut sum = 0u64;
    for (k, offset) in ring.offsets.iter().enumerate() {
        sum += offset;
        assert_eq!(sum, ring.members[k].index);
    }
}

#[test]
fn pool_too_small_for_ring_fails() {
    let mut rng = StdRng::seed_from_u64(1);
    let decoys = pool(&[1, 2, 3, 4, 5]);
    assert_eq!(make_ring(&mut rng, 11, &spend(9), &decoys).unwrap_err(), DecoyError::PoolTooSmall);
}

#[test]
fn empty_ring_fails_whatever_the_pool() {
    let mut rng = StdRng::seed_from_u64(1);
    let decoys = pool(&(0..100).filter(|&i| i != 50).collect::<Vec<u64>>());
    assert_eq!(make_ring(&mut rng, 0, &spend(50), &decoys).unwrap_err(), DecoyError::EmptyRing);
    assert_eq!(make_ring(&mut rng, 0, &spend(50), &Vec::new()).unwrap_err(), DecoyError::EmptyRing);
}

#[test]
fn ring_of_one_holds_only_the_spend() {
    let mut rng = StdRng::seed_from_u64(3);
    let ring = make_ring(&mut rng, 1, &spend(42), &Vec::new()).unwrap();
    assert_eq!(ring.offsets, vec![42]);
    assert_eq!(ring.spend_position, 0);
    assert_eq!(ring.members, vec![member(42)]);
}

#[test]
fn ring_uses_the_whole_pool_when_it_is_just_large_enough() {
    let mut rng = StdRng::seed_from_u64(4);
    let decoys = pool(&[90, 7, 35]);
    let ring = make_ring(&mut rng, 4, &spend(20), &decoys).unwrap();
    assert_eq!(ring.offsets, vec![7, 13, 15, 55]);
    assert_eq!(ring.spend_position, 1);
    assert_eq!(ring.members, vec![member(7), member(20), member(35), member(90)]);
}

#[test]
fn ring_takes_a_subset_of_a_larger_pool() {
    let decoys = pool(&(100..160).filter(|&i| i != 130).collect::<Vec<u64>>());
    for seed in 0..20 {
        let mut rng = StdRng::seed_from_u64(seed);
        let ring = make_ring(&mut rng, 16, &spend(130), &decoys).unwrap();
        check_ring(&ring, 16, &spend(130), &decoys);
    }
}

#[test]
fn spend_at_either_end() {
    let decoys = pool(&[10, 11, 12]);
    let mut rng = StdRng::seed_from_u64(5);
    let low = make_ring(&mut rng, 4, &spend(1), &decoys).unwrap();
    assert_eq!(low.spend_position, 0);
    assert_eq!(low.offsets, vec![1, 9, 1, 1]);
    let high = make_ring(&mut rng, 4, &spend(99), &decoys).unwrap();
    assert_eq!(high.spend_position, 3);
    check_ring(&high, 4, &spend(99), &decoys);
}

fn records_for(candidates: &[u64]) -> Vec<OutputRecord> {
    candidates
        .iter()
        .map(|&i| OutputRecord {
            height: 100,
            unlocked: true,
            key: point(i),
            commitment: point(i + 1000),
            transaction: [0; 32],
        })
        .collect()
}

#[test]
fn build_ring_from_node_records() {
    let candidates: Vec<u64> = vec![3, 8, 15, 22, 40, 41];
    let mut records = records_for(&candidates);
    records[1].key = (ED25519_BASEPOINT_POINT + EIGHT_TORSION[2]).compress().to_bytes();
    let fetched = FetchedRecords::NodeTrusted { records };
    let mut rng = StdRng::seed_from_u64(9);
    let ring = build_ring(&mut rng, 5, &spend(22), &candidates, &fetched).unwrap();
    assert_eq!(ring.members, vec![member(3), member(15), member(22), member(40), member(41)]);
    assert_eq!(ring.offsets, vec![3, 12, 7, 18, 1]);
    assert_eq!(ring.spend_position, 2);
    assert_eq!(
        build_ring(&mut rng, 6, &spend(22), &candidates, &fetched).unwrap_err(),
        DecoyError::PoolTooSmall
    );
}

#[test]
fn build_ring_deterministic_variant() {
    let candidates: Vec<u64> = vec![3, 8, 15, 22];
    let records = records_for(&candidates);
    let locks = vec![Timelock::NoLock, Timelock::Block(1000), Timelock::NoLock, Timelock::NoLock];
    let fetched = FetchedRecords::Deterministic { records, locks, height: 200 };
    let mut rng = StdRng::seed_from_u64(2);
    let ring = build_ring(&mut rng, 3, &spend(22), &candidates, &fetched).unwrap();
    assert_eq!(ring.members, vec![member(3), member(15), member(22)]);
    assert_eq!(
        build_ring(&mut rng, 4, &spend(22), &candidates, &fetched).unwrap_err(),
        DecoyError::PoolTooSmall
    );
}

#[test]
fn build_ring_reports_screening_errors_first() {
    let candidates: Vec<u64> = vec![3, 8, 15, 22];
    let mut records = records_for(&candidates);
    records[3].commitment = point(5);
    let fetched = FetchedRecords::NodeTrusted { records };
    let mut rng = StdRng::seed_from_u64(2);
    assert_eq!(build_ring(&mut rng, 0, &spend(22), &candidates, &fetched).unwrap_err(), DecoyError::SpendMismatch);
}

#[test]
fn display_records_hold_their_fields() {
    let info = BlockInfo { block_height: 7, block_timestamp: 1_700_000_000, block_hash: "ab".to_string() };
    assert_eq!(info.block_height, 7);
    let pair = ViewPairJson {
        view_key: "00".to_string(),
        mainnet_primary: "4".to_string(),
        stagenet_primary: "5".to_string(),
        testnet_primary: "9".to_string(),
    };
    assert_eq!(pair.mainnet_primary, "4");
}
