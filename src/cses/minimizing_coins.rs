//! The fewest coins that make an amount, each coin value usable any number
//! of times.
use vstd::prelude::*;

verus! {

/// Marks an amount that no combination of coins makes.
pub const IMPOSSIBLE: usize = usize::MAX;

/// The best count found for amount `i` after trying the first `k` coin
/// values, each on top of the best count for the amount that remains.
pub open spec fn best_after(coins: Seq<usize>, i: int, k: int) -> usize
    decreases i, k,
{
    if i <= 0 {
        0
    } else if k <= 0 || k > coins.len() {
        IMPOSSIBLE
    } else {
        let t = best_after(coins, i, k - 1);
        let c = coins[k - 1] as int;
        if 0 < c <= i && fewest(coins, i - c) != IMPOSSIBLE && fewest(coins, i - c) + 1 < t {
            (fewest(coins, i - c) + 1) as usize
        } else {
            t
        }
    }
}

/// The fewest coins that make amount `i`, or `IMPOSSIBLE`.
pub open spec fn fewest(coins: Seq<usize>, i: int) -> usize
    decreases i, coins.len() + 1,
{
    if i <= 0 {
        0
    } else {
        best_after(coins, i, coins.len() as int)
    }
}

/// The fewest coins that make `target`, or -1 when none does.
pub fn min_coins(target: usize, coins: &[usize]) -> (r: i32)
    requires
        target < usize::MAX,
    ensures
        r == if fewest(coins@, target as int) == IMPOSSIBLE {
            -1i32
        } else {
            #[verifier::truncate] (fewest(coins@, target as int) as i32)
        },
{
    let mut tally: Vec<usize> = Vec::new();
    let mut j: usize = 0;
    while j <= target
        invariant
            target < usize::MAX,
            j <= target + 1,
            tally@.len() == j,
            forall|m: int| 0 <= m < j ==> #[trigger] tally@[m] == IMPOSSIBLE,
        decreases target + 1 - j,
    {
        tally.push(IMPOSSIBLE);
        j = j + 1;
    }
    tally.set(0, 0);
    let mut current: usize = 1;
    while current <= target
        invariant
            target < usize::MAX,
            1 <= current <= target + 1,
            tally@.len() == target + 1,
            forall|m: int| 0 <= m < current ==> #[trigger] tally@[m] == fewest(coins@, m),
            forall|m: int| current <= m <= target ==> #[trigger] tally@[m] == IMPOSSIBLE,
        decreases target + 1 - current,
    {
        let mut k: usize = 0;
        while k < coins.len()
            invariant
                1 <= current <= target,
                k <= coins@.len(),
                tally@.len() == target + 1,
                forall|m: int| 0 <= m < current ==> #[trigger] tally@[m] == fewest(coins@, m),
                forall|m: int| current < m <= target ==> #[trigger] tally@[m] == IMPOSSIBLE,
                tally@[current as int] == best_after(coins@, current as int, k as int),
            decreases coins@.len() - k,
        {
            let coin = coins[k];
            if 0 < coin && coin <= current {
                let tally_remainder = tally[current - coin];
                if tally_remainder != IMPOSSIBLE {
                    let candidate = tally_remainder + 1;
                    if candidate < tally[current] {
                        tally.set(current, candidate);
                    }
                }
            }
            k = k + 1;
        }
        current = current + 1;
    }
    let best = tally[target];
    if best != IMPOSSIBLE {
        #[verifier::truncate] (best as i32)
    } else {
        -1
    }
}

} // verus!
