//! The number of ordered ways to make an amount from coin values, each
//! usable any number of times.
use vstd::prelude::*;

verus! {

/// Counts are taken modulo this prime.
pub const MODULUS: usize = 1_000_000_007;

/// The count for amount `i` after adding in the first `k` coin values, in
/// order, each time reduced modulo the prime. A coin of value 0 adds the
/// count found so far.
pub open spec fn ways_after(coins: Seq<usize>, i: int, k: int) -> int
    decreases i, k,
{
    if i <= 0 || k <= 0 || k > coins.len() {
        0
    } else {
        let t = ways_after(coins, i, k - 1);
        let c = coins[k - 1] as int;
        if c == 0 {
            (t + t) % MODULUS as int
        } else if c <= i {
            (t + ways(coins, i - c)) % MODULUS as int
        } else {
            t
        }
    }
}

/// The number of ordered ways to make amount `i`, modulo the prime.
pub open spec fn ways(coins: Seq<usize>, i: int) -> int
    decreases i, coins.len() + 1,
{
    if i < 0 {
        0
    } else if i == 0 {
        1
    } else {
        ways_after(coins, i, coins.len() as int)
    }
}

proof fn lemma_ways_after_bounded(coins: Seq<usize>, i: int, k: int)
    requires
        i >= 1,
        0 <= k <= coins.len(),
    ensures
        0 <= ways_after(coins, i, k) < MODULUS,
    decreases k,
{
    if k > 0 {
        lemma_ways_after_bounded(coins, i, k - 1);
    }
}

/// The number of ordered ways to make `x` from `coins`, modulo 10^9 + 7.
pub fn do_solve(x: usize, coins: &[usize]) -> (r: usize)
    requires
        x < usize::MAX,
    ensures
        r == ways(coins@, x as int),
{
    let mut combinations: Vec<usize> = Vec::new();
    let mut j: usize = 0;
    while j <= x
        invariant
            x < usize::MAX,
            j <= x + 1,
            combinations@.len() == j,
            forall|m: int| 0 <= m < j ==> #[trigger] combinations@[m] == 0,
        decreases x + 1 - j,
    {
        combinations.push(0);
        j = j + 1;
    }
    combinations.set(0, 1);
    let mut i: usize = 1;
    while i <= x
        invariant
            x < usize::MAX,
            1 <= i <= x + 1,
            combinations@.len() == x + 1,
            forall|m: int| 0 <= m < i ==> #[trigger] combinations@[m] == ways(coins@, m),
            forall|m: int| 0 <= m < i ==> #[trigger] combinations@[m] < MODULUS,
            forall|m: int| i <= m <= x ==> #[trigger] combinations@[m] == 0,
        decreases x + 1 - i,
    {
        let mut k: usize = 0;
        while k < coins.len()
            invariant
                1 <= i <= x,
                k <= coins@.len(),
                combinations@.len() == x + 1,
                forall|m: int| 0 <= m < i ==> #[trigger] combinations@[m] == ways(coins@, m),
                forall|m: int| 0 <= m < i ==> #[trigger] combinations@[m] < MODULUS,
                forall|m: int| i < m <= x ==> #[trigger] combinations@[m] == 0,
                combinations@[i as int] == ways_after(coins@, i as int, k as int),
            decreases coins@.len() - k,
        {
            proof {
                lemma_ways_after_bounded(coins@, i as int, k as int);
            }
            let coin = coins[k];
            if i >= coin {
                let add = combinations[i - coin];
                let sum = (combinations[i] + add) % MODULUS;
                combinations.set(i, sum);
            }
            k = k + 1;
        }
        proof {
            lemma_ways_after_bounded(coins@, i as int, coins@.len() as int);
        }
        i = i + 1;
    }
    combinations[x] % MODULUS
}

} // verus!
