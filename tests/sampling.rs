use monero_decoys::sampler::{BLOCK_TIME, DEFAULT_LOCK_WINDOW, SAMPLING_ROUNDS};
use monero_decoys::{sample_candidates, DecoyError, Draw};
use rand::rngs::StdRng;
use rand::{RngCore, SeedableRng};
use rand_distr::{Distribution, Gamma};

fn young(recent: u64) -> Draw {
    Draw { age: 0, recent, pick: 0 }
}

fn gamma_draws(seed: u64, n: usize) -> Vec<Draw> {
    let mut rng = StdRng::seed_from_u64(seed);
    let gamma = Gamma::<f64>::new(19.28, 1.0 / 1.61).unwrap();
    (0..n)
        .map(|_| Draw {
            age: gamma.sample(&mut rng).exp() as u64,
            recent: rng.next_u64(),
            pick: rng.next_u64(),
        })
        .collect()
}

fn assert_sample_shape(v: &[u64], spent: u64, count: usize, bound: u64) {
    assert_eq!(v.len(), count + 1);
    assert!(v.windows(2).all(|w| w[0] < w[1]));
    assert!(v.contains(&spent));
    assert!(v.iter().all(|&i| i == spent || i < bound));
}

#[test]
fn one_output_per_block_scenario() {
    let distribution: Vec<u64> = (0..100).collect();
    let draws: Vec<Draw> = (0..10).map(|k| young(122 * k)).collect();
    let v = sample_candidates(50, &distribution, 10, &draws).unwrap();
    assert_eq!(v, vec![50, 79, 80, 81, 82, 83, 84, 85, 86, 87, 88]);
    assert!(v.iter().all(|&i| i <= 89));
}

#[test]
fn one_output_per_block_with_gamma_draws() {
    let distribution: Vec<u64> = (0..100).collect();
    let draws = gamma_draws(7, SAMPLING_ROUNDS * 10);
    let v = sample_candidates(50, &distribution, 10, &draws).unwrap();
    assert_sample_shape(&v, 50, 10, 90);
}

#[test]
fn busy_chain_with_gamma_draws() {
    let mut distribution = Vec::new();
    let mut total: u64 = 0;
    for h in 0..20_000u64 {
        total += 1 + h % 7;
        distribution.push(total);
    }
    let bound = distribution[distribution.len() - DEFAULT_LOCK_WINDOW];
    for seed in 0..5 {
        let draws = gamma_draws(seed, SAMPLING_ROUNDS);
        let v = sample_candidates(1234, &distribution, 15, &draws).unwrap();
        assert_sample_shape(&v, 1234, 15, bound);
    }
}

#[test]
fn old_age_moves_back_from_the_bound() {
    // age 1200 + 1212 seconds past the tip window: offset 1212 * 99 / 12000 = 9
    let distribution: Vec<u64> = (0..100).collect();
    let draws = vec![Draw { age: 1200 + 1212, recent: 0, pick: 5 }];
    let v = sample_candidates(50, &distribution, 1, &draws).unwrap();
    assert_eq!(v, vec![50, 79]);
}

#[test]
fn pick_spreads_within_a_block() {
    // ten outputs per block; offset 0 lands in the block holding index 89
    let distribution: Vec<u64> = (1..=100).map(|h| h * 10).collect();
    let draws = vec![Draw { age: 0, recent: 0, pick: 13 }];
    let v = sample_candidates(5, &distribution, 1, &draws).unwrap();
    assert_eq!(v, vec![5, 903]);
}

#[test]
fn real_spend_is_never_a_decoy() {
    let distribution: Vec<u64> = (0..100).collect();
    // the first draw lands on 88, the spend itself; the second on 87
    let draws = vec![young(0), young(122)];
    let v = sample_candidates(88, &distribution, 1, &draws).unwrap();
    assert_eq!(v, vec![87, 88]);
}

#[test]
fn repeated_picks_are_skipped() {
    let distribution: Vec<u64> = (0..100).collect();
    let draws = vec![young(0), young(0), young(122)];
    let v = sample_candidates(10, &distribution, 2, &draws).unwrap();
    assert_eq!(v, vec![10, 87, 88]);
}

#[test]
fn zero_candidates_returns_only_the_spend() {
    let distribution: Vec<u64> = (0..100).collect();
    assert_eq!(sample_candidates(50, &distribution, 0, &Vec::new()).unwrap(), vec![50]);
}

#[test]
fn short_history_fails() {
    let distribution: Vec<u64> = (0..9).collect();
    let draws = gamma_draws(1, 10);
    assert_eq!(sample_candidates(3, &distribution, 1, &draws), Err(DecoyError::NotEnoughBlocks));
}

#[test]
fn too_few_outputs_fails() {
    // bound 70: 70 - 60 = 10 < 11
    let distribution: Vec<u64> = (0..80).collect();
    let draws = gamma_draws(1, 10);
    assert_eq!(sample_candidates(3, &distribution, 11, &draws), Err(DecoyError::NotEnoughCandidates));
    assert!(sample_candidates(3, &distribution, 10, &(0..10).map(|k| young(122 * k)).collect()).is_ok());
}

#[test]
fn decreasing_distribution_fails() {
    let mut distribution: Vec<u64> = (0..100).collect();
    distribution[40] = 5;
    let draws = gamma_draws(1, 10);
    assert_eq!(
        sample_candidates(3, &distribution, 2, &draws),
        Err(DecoyError::NonMonotonicDistribution)
    );
}

#[test]
fn running_out_of_draws_fails() {
    let distribution: Vec<u64> = (0..100).collect();
    assert_eq!(sample_candidates(50, &distribution, 1, &Vec::new()), Err(DecoyError::RoundLimit));
    // every draw repeats the same pick
    let draws = vec![young(0); 50];
    assert_eq!(sample_candidates(50, &distribution, 2, &draws), Err(DecoyError::RoundLimit));
}

#[test]
fn exhausted_pool_fails_early() {
    // bound 130 and 70 decoys wanted: once 60 decoys and the spend are excluded,
    // 130 - 61 < 70 stops the search although the draws would still yield new outputs
    let distribution: Vec<u64> = (0..140).collect();
    let mut draws = vec![young(0)];
    for k in 1..70u64 {
        let seconds = (k * 16800 + 138) / 139;
        draws.push(Draw { age: 1200 + seconds, recent: 0, pick: 0 });
    }
    assert_eq!(sample_candidates(0, &distribution, 70, &draws), Err(DecoyError::RoundLimit));
    // 60 decoys stay clear of that limit
    let v = sample_candidates(0, &distribution, 60, &draws).unwrap();
    assert_eq!(v.len(), 61);
    assert_eq!(v[1..], (69..129).collect::<Vec<u64>>()[..]);
    assert_eq!(BLOCK_TIME, 120);
}
