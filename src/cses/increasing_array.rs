//! The fewest unit increments that make a list non-decreasing.
use vstd::prelude::*;

verus! {

/// The largest of the first `n` values.
pub open spec fn prefix_max(s: Seq<u64>, n: int) -> u64
    recommends
        1 <= n <= s.len(),
    decreases n,
{
    if n <= 1 {
        s[0]
    } else if s[n - 1] > prefix_max(s, n - 1) {
        s[n - 1]
    } else {
        prefix_max(s, n - 1)
    }
}

/// The increments needed to make the first `n` values non-decreasing: each
/// value below the largest before it is raised to that largest.
pub open spec fn moves(s: Seq<u64>, n: int) -> int
    decreases n,
{
    if n <= 1 {
        0
    } else {
        moves(s, n - 1) + if s[n - 1] < prefix_max(s, n - 1) {
            prefix_max(s, n - 1) - s[n - 1]
        } else {
            0
        }
    }
}

proof fn lemma_moves_monotone(s: Seq<u64>, i: int, n: int)
    requires
        1 <= i <= n,
    ensures
        moves(s, i) <= moves(s, n),
    decreases n - i,
{
    if i < n {
        lemma_moves_monotone(s, i, n - 1);
    }
}

/// The total of the increments needed to make `nums` non-decreasing.
pub fn do_solve(nums: &[u64]) -> (r: u64)
    requires
        nums@.len() >= 1,
        moves(nums@, nums@.len() as int) <= u64::MAX,
    ensures
        r == moves(nums@, nums@.len() as int),
{
    let mut increments: u64 = 0;
    let mut prev: u64 = nums[0];
    let mut i: usize = 1;
    while i < nums.len()
        invariant
            1 <= i <= nums@.len(),
            prev == prefix_max(nums@, i as int),
            increments == moves(nums@, i as int),
            moves(nums@, nums@.len() as int) <= u64::MAX,
        decreases nums@.len() - i,
    {
        let num = nums[i];
        proof {
            lemma_moves_monotone(nums@, i + 1, nums@.len() as int);
        }
        if num < prev {
            increments = increments + (prev - num);
        } else {
            prev = num;
        }
        i = i + 1;
    }
    increments
}

} // verus!
