//! Ordered sequences of global indices and the partition-point search shared by the sampler
//! (block lookup) and the assembler (spend position).
use vstd::prelude::*;

verus! {

/// Each element is at most every later one.
pub open spec fn non_decreasing(s: Seq<u64>) -> bool {
    forall|i: int, j: int| 0 <= i <= j < s.len() ==> s[i] <= s[j]
}

/// Each element is below every later one; such a sequence holds no value twice.
pub open spec fn strictly_increasing(s: Seq<u64>) -> bool {
    forall|i: int, j: int| 0 <= i < j < s.len() ==> s[i] < s[j]
}

/// `i` splits `s` into the elements below `target` and those at or above it.
pub open spec fn is_partition_point(s: Seq<u64>, target: u64, i: int) -> bool {
    &&& 0 <= i <= s.len()
    &&& forall|j: int| 0 <= j < i ==> s[j] < target
    &&& forall|j: int| i <= j < s.len() ==> s[j] >= target
}

/// The split point of `s` for `target`: the number of elements of a sorted `s` below `target`.
pub open spec fn partition_of(s: Seq<u64>, target: u64) -> int {
    choose|i: int| is_partition_point(s, target, i)
}

/// A sequence has at most one split point for a given target.
pub proof fn lemma_partition_point_unique(s: Seq<u64>, target: u64, i: int, k: int)
    requires
        is_partition_point(s, target, i),
        is_partition_point(s, target, k),
    ensures
        i == k,
{
    if i < k {
        assert(s[i] >= target);
    } else if k < i {
        assert(s[k] >= target);
    }
}

/// Binary search for the split point of a sorted slice.
pub fn partition_point(s: &[u64], target: u64) -> (r: usize)
    requires
        non_decreasing(s@),
    ensures
        is_partition_point(s@, target, r as int),
        r as int == partition_of(s@, target),
{
    let mut lo: usize = 0;
    let mut hi: usize = s.len();
    while lo < hi
        invariant
            0 <= lo <= hi <= s.len(),
            non_decreasing(s@),
            forall|j: int| 0 <= j < lo ==> s@[j] < target,
            forall|j: int| hi <= j < s.len() ==> s@[j] >= target,
        decreases hi - lo,
    {
        let mid = lo + (hi - lo) / 2;
        if s[mid] < target {
            lo = mid + 1;
        } else {
            hi = mid;
        }
    }
    proof {
        assert(is_partition_point(s@, target, lo as int));
        lemma_partition_point_unique(s@, target, lo as int, partition_of(s@, target));
    }
    lo
}

/// Inserting a value at its split point keeps a strictly increasing sequence strictly
/// increasing, and adds exactly that value to its elements.
pub proof fn lemma_insert_at_partition(s: Seq<u64>, x: u64, pos: int)
    requires
        strictly_increasing(s),
        is_partition_point(s, x, pos),
        !s.contains(x),
    ensures
        strictly_increasing(s.insert(pos, x)),
        s.insert(pos, x).to_set() == s.to_set().insert(x),
        s.insert(pos, x).len() == s.len() + 1,
{
    let t = s.insert(pos, x);
    s.insert_ensures(pos, x);
    assert forall|i: int, j: int| 0 <= i < j < t.len() implies t[i] < t[j] by {
        if pos <= i - 1 && i >= 1 {
            assert(t[i] == s[i - 1]);
        }
        if j > pos {
            assert(t[j] == s[j - 1]);
            if j - 1 == pos {
                assert(s[pos] != x);
            }
        }
        if i > pos {
            assert(s[i - 1] < s[j - 1]);
        }
    }
    assert forall|y: u64| t.contains(y) <==> s.to_set().insert(x).contains(y) by {
        if t.contains(y) {
            let k = choose|k: int| 0 <= k < t.len() && t[k] == y;
            if k < pos {
                assert(s[k] == y);
            } else if k > pos {
                assert(s[k - 1] == y);
            }
        }
        if s.contains(y) {
            let k = choose|k: int| 0 <= k < s.len() && s[k] == y;
            if k < pos {
                assert(t[k] == y);
            } else {
                assert(t[k + 1] == y);
            }
        }
        if y == x {
            assert(t[pos] == x);
        }
    }
    assert(t.to_set() =~= s.to_set().insert(x));
}

/// Adds `x` to a strictly increasing vector at its split point, unless it is there already.
/// Returns the position of the insertion, or `None` when `x` was present.
pub fn insert_sorted(v: &mut Vec<u64>, x: u64) -> (r: Option<usize>)
    requires
        strictly_increasing(old(v)@),
    ensures
        strictly_increasing(final(v)@),
        final(v)@.to_set() == old(v)@.to_set().insert(x),
        old(v)@.contains(x) ==> r is None && final(v)@ == old(v)@,
        !old(v)@.contains(x) ==> r is Some && is_partition_point(old(v)@, x, r->0 as int)
            && final(v)@ == old(v)@.insert(r->0 as int, x),
{
    let pos = partition_point(v.as_slice(), x);
    if pos < v.len() && v[pos] == x {
        proof {
            assert(old(v)@.to_set().contains(x));
            assert(old(v)@.to_set().insert(x) =~= old(v)@.to_set());
        }
        None
    } else {
        proof {
            assert(!old(v)@.contains(x)) by {
                if old(v)@.contains(x) {
                    let k = choose|k: int| 0 <= k < old(v)@.len() && old(v)@[k] == x;
                    if k < pos {
                    } else if k > pos {
                        assert(old(v)@[pos as int] < old(v)@[k]);
                    }
                }
            }
            lemma_insert_at_partition(old(v)@, x, pos as int);
        }
        v.insert(pos, x);
        Some(pos)
    }
}

} // verus!
