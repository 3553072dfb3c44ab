//! The one number of `1..=n` missing from a list.
use vstd::prelude::*;

verus! {

/// The sum of the first `n` values.
pub open spec fn sum_of(s: Seq<u64>, n: int) -> int
    decreases n,
{
    if n <= 0 {
        0
    } else {
        sum_of(s, n - 1) + s[n - 1]
    }
}

proof fn lemma_sum_monotone(s: Seq<u64>, i: int, n: int)
    requires
        0 <= i <= n,
    ensures
        sum_of(s, i) <= sum_of(s, n),
    decreases n - i,
{
    if i < n {
        lemma_sum_monotone(s, i, n - 1);
    }
}

/// `1 + 2 + ... + n`.
pub fn sum_u64(n: u64) -> (r: u64)
    requires
        n * (n + 1) <= u64::MAX,
    ensures
        r == n * (n + 1) / 2,
{
    assert(n < 0x1_0000_0000) by (nonlinear_arith)
        requires
            n * (n + 1) <= u64::MAX,
    ;
    n * (n + 1) / 2
}

/// `1 + 2 + ... + n` less the sum of `numbers`: the missing number when
/// `numbers` holds `1..=n` but one.
pub fn do_solve(n: u64, numbers: &[u64]) -> (r: u64)
    requires
        n * (n + 1) <= u64::MAX,
        sum_of(numbers@, numbers@.len() as int) <= n * (n + 1) / 2,
    ensures
        r == n * (n + 1) / 2 - sum_of(numbers@, numbers@.len() as int),
{
    let expected = sum_u64(n);
    let mut actual: u64 = 0;
    let mut i: usize = 0;
    while i < numbers.len()
        invariant
            i <= numbers@.len(),
            actual == sum_of(numbers@, i as int),
            sum_of(numbers@, numbers@.len() as int) <= expected,
        decreases numbers@.len() - i,
    {
        proof {
            lemma_sum_monotone(numbers@, i + 1, numbers@.len() as int);
        }
        actual = actual + numbers[i];
        i = i + 1;
    }
    expected - actual
}

} // verus!
