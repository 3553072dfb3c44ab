//! The number of ways to make a sum by throwing a die one or more times.
use vstd::prelude::*;
use std::collections::VecDeque;

verus! {

/// Counts are taken modulo this prime.
pub const MODULUS: usize = 1_000_000_007;

/// The number of ordered throws of a die (faces 1 to 6) that sum to `n`,
/// modulo the prime; the empty throw counts for 0.
pub open spec fn ways(n: int) -> int
    decreases if n > 0 {
        n
    } else {
        0
    },
{
    if n <= 0 {
        if n == 0 {
            1
        } else {
            0
        }
    } else {
        (ways(n - 1) + ways(n - 2) + ways(n - 3) + ways(n - 4) + ways(n - 5) + ways(n - 6))
            % MODULUS as int
    }
}

/// The answer for `n`: the throws of at least one die that sum to `n`.
pub open spec fn dice_count(n: int) -> int {
    if n == 0 {
        0
    } else {
        ways(n)
    }
}

proof fn lemma_first_ways()
    ensures
        ways(0) == 1 && ways(1) == 1 && ways(2) == 2 && ways(3) == 4 && ways(4) == 8 && ways(5) == 16
            && ways(6) == 32,
{
    assert(ways(-1) == 0 && ways(-2) == 0 && ways(-3) == 0 && ways(-4) == 0 && ways(-5) == 0);
    assert(ways(0) == 1);
    assert(ways(1) == 1);
    assert(ways(2) == 2);
    assert(ways(3) == 4);
    assert(ways(4) == 8);
    assert(ways(5) == 16);
    assert(ways(6) == 32);
}

proof fn lemma_ways_bounded(n: int)
    ensures
        0 <= ways(n) < MODULUS,
    decreases n,
{
    if n > 0 {
        lemma_ways_bounded(n - 1);
    }
}

/// The sum of the six values of the window.
fn window_sum(t: &VecDeque<u64>) -> (r: u64)
    requires
        t@.len() == 6,
        forall|i: int| 0 <= i < 6 ==> #[trigger] t@[i] < MODULUS,
    ensures
        r == t@[0] + t@[1] + t@[2] + t@[3] + t@[4] + t@[5],
{
    t[0] + t[1] + t[2] + t[3] + t[4] + t[5]
}

/// The number of ways to throw a sum of `n`, modulo 10^9 + 7.
pub fn count_ways(n: usize) -> (r: usize)
    ensures
        r == dice_count(n as int),
{
    proof {
        lemma_first_ways();
    }
    let mut tally: VecDeque<u64> = VecDeque::new();
    tally.push_back(1);
    tally.push_back(1);
    tally.push_back(2);
    tally.push_back(4);
    tally.push_back(8);
    tally.push_back(16);
    if n <= 6 {
        let mut sum: u64 = 0;
        let mut i: usize = 0;
        while i < n
            invariant
                i <= n <= 6,
                tally@ == seq![1u64, 1, 2, 4, 8, 16],
                sum == if i == 0 {
                    0
                } else {
                    ways(i as int)
                },
                ways(0) == 1 && ways(1) == 1 && ways(2) == 2 && ways(3) == 4 && ways(4) == 8 && ways(5)
                    == 16 && ways(6) == 32,
            decreases n - i,
        {
            sum = sum + tally[i];
            i = i + 1;
        }
        return (sum % MODULUS as u64) as usize;
    }
    let mut k: usize = 0;
    while k < n - 6
        invariant
            n > 6,
            k <= n - 6,
            tally@.len() == 6,
            forall|i: int| 0 <= i < 6 ==> #[trigger] tally@[i] == ways(k + i),
        decreases n - 6 - k,
    {
        proof {
            assert forall|i: int| 0 <= i < 6 implies #[trigger] tally@[i] < MODULUS by {
                lemma_ways_bounded(k + i);
            }
        }
        let next = window_sum(&tally) % MODULUS as u64;
        assert(next == ways(k + 6));
        tally.push_back(next);
        tally.pop_front();
        k = k + 1;
    }
    proof {
        assert forall|i: int| 0 <= i < 6 implies #[trigger] tally@[i] < MODULUS by {
            lemma_ways_bounded(k + i);
        }
    }
    let total = window_sum(&tally) % MODULUS as u64;
    assert(total == ways(n as int));
    total as usize
}

} // verus!
