//! Age-biased sampling of candidate decoy indices over a cumulative output distribution.
use vstd::prelude::*;

use crate::search::{
    insert_sorted, non_decreasing, partition_of, partition_point, strictly_increasing,
};
use crate::types::{DecoyError, Draw};

verus! {

/// Blocks an output must age before it may be spent or selected.
pub const DEFAULT_LOCK_WINDOW: usize = 10;

/// Blocks a coinbase output must age before it may be spent.
pub const COINBASE_LOCK_WINDOW: u64 = 60;

/// Target seconds between blocks.
pub const BLOCK_TIME: u64 = 120;

/// Blocks at the tip over which a too-young age is spread uniformly.
pub const RECENT_WINDOW: u64 = 15;

/// Blocks in a year at the target block time; the window of the output-rate average.
pub const BLOCKS_PER_YEAR: usize = 262800;

/// Seconds spanned by the lock window (its blocks at the target block time).
pub const TIP_APPLICATION: u64 = 1200;

/// Draws to supply in production use, one per round: sampling gives up at its thousandth round.
pub const SAMPLING_ROUNDS: usize = 999;

/// The first global index that may not be selected: the cumulative count of the block that
/// starts the lock window.
pub open spec fn exclusive_bound(d: Seq<u64>) -> u64 {
    d[d.len() - DEFAULT_LOCK_WINDOW]
}

/// Outputs available to decoys once the newest coinbase outputs are set aside, clamped at 0.
pub open spec fn coinbase_adjusted(bound: u64) -> int {
    if bound >= COINBASE_LOCK_WINDOW {
        bound - COINBASE_LOCK_WINDOW
    } else {
        0
    }
}

/// Blocks in the output-rate window: the whole history, at most a year.
pub open spec fn rate_blocks(d: Seq<u64>) -> int {
    if d.len() < BLOCKS_PER_YEAR {
        d.len() as int
    } else {
        BLOCKS_PER_YEAR as int
    }
}

/// Outputs created over the rate window (the newest cumulative count less the one just before
/// the window, clamped at 0).
pub open spec fn rate_outputs(d: Seq<u64>) -> int {
    let first = if d.len() > rate_blocks(d) {
        d.len() - 1 - rate_blocks(d)
    } else {
        0
    };
    if d[d.len() - 1] >= d[first] {
        d[d.len() - 1] - d[first]
    } else {
        0
    }
}

/// Seconds spanned by the rate window.
pub open spec fn rate_seconds(d: Seq<u64>) -> int {
    rate_blocks(d) * BLOCK_TIME
}

/// The spend age a draw stands for: its Gamma age less the lock window's span, or, for an age
/// inside the lock window, a uniform age within the recent window.
pub open spec fn age_seconds(draw: Draw) -> int {
    if draw.age > TIP_APPLICATION {
        draw.age - TIP_APPLICATION
    } else {
        (draw.recent as int) % ((RECENT_WINDOW * BLOCK_TIME) as int)
    }
}

/// How many outputs back from the bound a draw points: its age times the output rate.
pub open spec fn draw_offset(d: Seq<u64>, draw: Draw) -> int {
    age_seconds(draw) * rate_outputs(d) / rate_seconds(d)
}

/// The first global index of block `i`.
pub open spec fn block_start(d: Seq<u64>, i: int) -> int {
    if i == 0 {
        0
    } else {
        d[i - 1] as int
    }
}

/// The output a draw selects, if any: the block whose outputs hold the index `offset` places
/// below the bound, and the output in it that `pick` lands on. `None` when the offset reaches
/// past the bound or the block holds no output.
pub open spec fn pick_of(d: Seq<u64>, draw: Draw) -> Option<u64> {
    let bound = exclusive_bound(d);
    let offset = draw_offset(d, draw);
    if offset >= bound {
        None
    } else {
        let block = partition_of(d, (bound - 1 - offset) as u64);
        let start = block_start(d, block);
        let n = d[block] - start;
        if n <= 0 {
            None
        } else {
            Some((start + (draw.pick as int) % n) as u64)
        }
    }
}

/// The chosen decoys after one more draw: its output joins them unless it is the spent spend.
pub open spec fn after_draw(d: Seq<u64>, spent: u64, chosen: Set<u64>, draw: Draw) -> Set<u64> {
    match pick_of(d, draw) {
        Some(p) => if p == spent {
            chosen
        } else {
            chosen.insert(p)
        },
        None => chosen,
    }
}

/// The decoys that sampling settles on, starting from `chosen` with draw `k`; `None` when the
/// draws run out, or the indices not yet excluded become too few, before `count` are chosen.
pub open spec fn sampled_decoys(
    d: Seq<u64>,
    spent: u64,
    count: nat,
    draws: Seq<Draw>,
    k: nat,
    chosen: Set<u64>,
) -> Option<Set<u64>>
    decreases draws.len() - k,
{
    if chosen.len() >= count {
        Some(chosen)
    } else if k >= draws.len() || exclusive_bound(d) < chosen.len() + 1 + count {
        None
    } else {
        sampled_decoys(d, spent, count, draws, k + 1, after_draw(d, spent, chosen, draws[k as int]))
    }
}

/// Whether each cumulative count is at most the next one.
fn is_non_decreasing(d: &Vec<u64>) -> (r: bool)
    ensures
        r == non_decreasing(d@),
{
    let mut i: usize = 1;
    while i < d.len()
        invariant
            1 <= i,
            forall|a: int, b: int| 0 <= a <= b < i && b < d.len() ==> d@[a] <= d@[b],
        decreases d.len() - i,
    {
        if d[i - 1] > d[i] {
            return false;
        }
        assert forall|a: int, b: int| 0 <= a <= b < i + 1 && b < d.len() implies d@[a] <= d@[b] by {
            if b == i && a < i {
                assert(d@[a] <= d@[i - 1]);
            }
        }
        i += 1;
    }
    true
}

/// The output rate over the newest year of blocks, as outputs per a span of seconds.
fn output_rate(d: &Vec<u64>) -> (r: (u64, u64))
    requires
        d.len() >= DEFAULT_LOCK_WINDOW,
    ensures
        r.0 == rate_outputs(d@),
        r.1 == rate_seconds(d@),
        r.1 > 0,
{
    let len = d.len();
    let blocks: usize = if len < BLOCKS_PER_YEAR {
        len
    } else {
        BLOCKS_PER_YEAR
    };
    let first: usize = if len > blocks {
        len - 1 - blocks
    } else {
        0
    };
    let outputs: u64 = if d[len - 1] >= d[first] {
        d[len - 1] - d[first]
    } else {
        0
    };
    (outputs, blocks as u64 * BLOCK_TIME)
}

/// The output one draw selects (see `pick_of`).
fn pick_output(d: &Vec<u64>, bound: u64, outputs: u64, seconds: u64, draw: Draw) -> (r: Option<u64>)
    requires
        d.len() >= DEFAULT_LOCK_WINDOW,
        non_decreasing(d@),
        bound == exclusive_bound(d@),
        outputs == rate_outputs(d@),
        seconds == rate_seconds(d@),
        seconds > 0,
    ensures
        r == pick_of(d@, draw),
        r matches Some(p) ==> p < bound,
{
    let age: u64 = if draw.age > TIP_APPLICATION {
        draw.age - TIP_APPLICATION
    } else {
        draw.recent % (RECENT_WINDOW * BLOCK_TIME)
    };
    assert((age as int) * (outputs as int) <= (u64::MAX as int) * (u64::MAX as int)) by (nonlinear_arith)
        requires
            age <= u64::MAX,
            outputs <= u64::MAX,
    ;
    let offset: u128 = (age as u128) * (outputs as u128) / (seconds as u128);
    if offset >= bound as u128 {
        return None;
    }
    let target: u64 = bound - 1 - offset as u64;
    let block = partition_point(d.as_slice(), target);
    let ghost top = d@.len() - DEFAULT_LOCK_WINDOW;
    assert(block <= top) by {
        if block > top {
            assert(d@[top] < target);
        }
    }
    assert(d@[block as int] <= bound);
    let start: u64 = if block == 0 {
        0
    } else {
        d[block - 1]
    };
    let n: u64 = d[block] - start;
    if n == 0 {
        None
    } else {
        Some(start + draw.pick % n)
    }
}

/// Samples `count` decoy candidates for the output at global index `spent`, consuming one
/// draw per round, and returns them with `spent` added, in ascending order.
///
/// `distribution` holds the cumulative output count of each block. Sampling fails with
/// `NotEnoughBlocks` when it is shorter than the lock window, with `NotEnoughCandidates` when
/// the outputs below the bound, less a coinbase lock window of them, are fewer than `count`,
/// and with `NonMonotonicDistribution` when a cumulative count ever decreases.
///
/// A round maps its draw to an output (see `pick_of`) and keeps it unless it is `spent` or
/// already kept. Sampling fails with `RoundLimit` when it needs more rounds than there are
/// draws, or when fewer indices below the bound than `count` remain unexcluded (counting
/// `spent` and the outputs already kept as excluded).
pub fn sample_candidates(spent: u64, distribution: &Vec<u64>, count: usize, draws: &Vec<Draw>) -> (r:
    Result<Vec<u64>, DecoyError>)
    ensures
        distribution.len() < DEFAULT_LOCK_WINDOW ==> r == Err::<Vec<u64>, DecoyError>(
            DecoyError::NotEnoughBlocks,
        ),
        distribution.len() >= DEFAULT_LOCK_WINDOW && coinbase_adjusted(exclusive_bound(distribution@))
            < count ==> r == Err::<Vec<u64>, DecoyError>(DecoyError::NotEnoughCandidates),
        distribution.len() >= DEFAULT_LOCK_WINDOW && coinbase_adjusted(exclusive_bound(distribution@))
            >= count && !non_decreasing(distribution@) ==> r == Err::<Vec<u64>, DecoyError>(
            DecoyError::NonMonotonicDistribution,
        ),
        distribution.len() >= DEFAULT_LOCK_WINDOW && coinbase_adjusted(exclusive_bound(distribution@))
            >= count && non_decreasing(distribution@) ==> match sampled_decoys(
            distribution@,
            spent,
            count as nat,
            draws@,
            0,
            Set::empty(),
        ) {
            Some(decoys) => r matches Ok(v) && strictly_increasing(v@) && v@.to_set() == decoys.insert(
                spent,
            ),
            None => r == Err::<Vec<u64>, DecoyError>(DecoyError::RoundLimit),
        },
        r matches Ok(v) ==> {
            &&& v@.len() == count + 1
            &&& strictly_increasing(v@)
            &&& v@.contains(spent)
            &&& forall|i: int|
                0 <= i < v@.len() && v@[i] != spent ==> v@[i] < exclusive_bound(distribution@)
        },
{
    let len = distribution.len();
    if len < DEFAULT_LOCK_WINDOW {
        return Err(DecoyError::NotEnoughBlocks);
    }
    let bound = distribution[len - DEFAULT_LOCK_WINDOW];
    let adjusted: u64 = if bound >= COINBASE_LOCK_WINDOW {
        bound - COINBASE_LOCK_WINDOW
    } else {
        0
    };
    if adjusted < count as u64 {
        return Err(DecoyError::NotEnoughCandidates);
    }
    if !is_non_decreasing(distribution) {
        return Err(DecoyError::NonMonotonicDistribution);
    }
    let (outputs, seconds) = output_rate(distribution);
    let ghost d = distribution@;
    let mut chosen: Vec<u64> = Vec::new();
    let mut k: usize = 0;
    proof {
        assert(chosen@.to_set() =~= Set::<u64>::empty());
    }
    while chosen.len() < count
        invariant
            len == distribution.len(),
            d == distribution@,
            len >= DEFAULT_LOCK_WINDOW,
            coinbase_adjusted(exclusive_bound(d)) >= count,
            non_decreasing(d),
            bound == exclusive_bound(d),
            outputs == rate_outputs(d),
            seconds == rate_seconds(d),
            seconds > 0,
            k <= draws.len(),
            chosen.len() <= count,
            strictly_increasing(chosen@),
            chosen@.to_set().len() == chosen@.len(),
            forall|i: int| 0 <= i < chosen@.len() ==> chosen@[i] < bound && chosen@[i] != spent,
            sampled_decoys(d, spent, count as nat, draws@, 0, Set::empty()) == sampled_decoys(
                d,
                spent,
                count as nat,
                draws@,
                k as nat,
                chosen@.to_set(),
            ),
        decreases draws.len() - k,
    {
        if k >= draws.len() || (bound as u128) < chosen.len() as u128 + 1 + count as u128 {
            return Err(DecoyError::RoundLimit);
        }
        let draw = draws[k];
        let ghost before = chosen@;
        match pick_output(distribution, bound, outputs, seconds, draw) {
            Some(p) => {
                if p != spent {
                    insert_sorted(&mut chosen, p);
                }
            },
            None => {},
        }
        proof {
            assert(chosen@.to_set() == after_draw(d, spent, before.to_set(), draws@[k as int]));
            assert(chosen@.no_duplicates());
            chosen@.unique_seq_to_set();
            assert forall|i: int| 0 <= i < chosen@.len() implies chosen@[i] < bound && chosen@[i] != spent by {
                assert(chosen@.to_set().contains(chosen@[i]));
                if chosen@[i] != pick_of(d, draws@[k as int])->0 {
                    assert(before.to_set().contains(chosen@[i]));
                }
            }
        }
        k += 1;
    }
    let ghost decoys = chosen@.to_set();
    let mut result = chosen;
    insert_sorted(&mut result, spent);
    proof {
        assert(!decoys.contains(spent));
        assert(result@.no_duplicates());
        result@.unique_seq_to_set();
        assert(decoys.insert(spent).len() == decoys.len() + 1);
        assert forall|i: int| 0 <= i < result@.len() && result@[i] != spent implies result@[i] < bound by {
            assert(result@.to_set().contains(result@[i]));
            assert(decoys.contains(result@[i]));
        }
        assert(result@.contains(spent)) by {
            assert(result@.to_set().contains(spent));
        }
    }
    Ok(result)
}

} // verus!
