//! The fewest steps that bring a number to zero, each step subtracting one
//! of its non-zero decimal digits.
use vstd::prelude::*;
use std::collections::VecDeque;

verus! {

/// Larger than any step count.
pub const UNREACHED: usize = usize::MAX;

/// The fewest steps from `i - d` over the non-zero decimal digits `d` of
/// `x`, or `UNREACHED` when `x` has none.
pub open spec fn best_digit(i: int, x: int) -> int
    decreases i, x,
{
    if i <= 0 || x <= 0 {
        UNREACHED as int
    } else {
        let d = x % 10;
        let rest = best_digit(i, x / 10);
        if d > 0 && d <= i && steps(i - d) < rest {
            steps(i - d)
        } else {
            rest
        }
    }
}

/// The fewest steps that bring `i` to zero.
pub open spec fn steps(i: int) -> int
    decreases i, i + 1,
{
    if i <= 0 {
        0
    } else {
        1 + best_digit(i, i)
    }
}

/// Walks the decimal digits of a number from the most significant one.
pub struct DigiIterator {
    n: usize,
    divisor: usize,
}

/// The largest power of ten not above `n` (1 for `n` below 10).
pub open spec fn top_power(n: int) -> int
    decreases n,
{
    if n < 10 {
        1
    } else {
        10 * top_power(n / 10)
    }
}

impl DigiIterator {
    /// The digits still to come, as the number they form.
    pub closed spec fn rest(&self) -> usize {
        self.n
    }

    /// The place value of the next digit, 0 when none is left.
    pub closed spec fn place(&self) -> usize {
        self.divisor
    }

    /// An iterator over the digits of `n` (one digit, 0, for 0).
    pub fn from(n: usize) -> (r: DigiIterator)
        ensures
            r.rest() == n,
            r.place() == top_power(n as int),
    {
        if n == 0 {
            return DigiIterator { n: 0, divisor: 1 };
        }
        let mut divisor: usize = 1;
        let mut temp: usize = n;
        while temp >= 10
            invariant
                1 <= temp <= n,
                divisor * top_power(temp as int) == top_power(n as int),
                divisor * temp <= n,
                divisor >= 1,
            decreases temp,
        {
            assert(divisor * (temp / 10) * 10 <= divisor * temp) by (nonlinear_arith)
                requires
                    divisor >= 1,
                    temp >= 10,
            ;
            assert(divisor * 10 <= divisor * temp) by (nonlinear_arith)
                requires
                    divisor >= 1,
                    temp >= 10,
            ;
            assert(divisor * top_power(temp as int) == (divisor * 10) * top_power(temp as int / 10)) by (
            nonlinear_arith)
                requires
                    top_power(temp as int) == 10 * top_power(temp as int / 10),
            ;
            assert((divisor * 10) * (temp / 10) <= divisor * temp) by (nonlinear_arith)
                requires
                    divisor >= 1,
                    temp >= 10,
            ;
            temp = temp / 10;
            divisor = divisor * 10;
        }
        assert(divisor * 1 == top_power(n as int));
        DigiIterator { n, divisor }
    }

    /// The next digit, or `None` once every digit has been given.
    pub fn next(&mut self) -> (r: Option<usize>)
        ensures
            old(self).place() == 0 ==> r is None && *final(self) == *old(self),
            old(self).place() != 0 ==> r == Some(old(self).rest() / old(self).place())
                && final(self).rest() == old(self).rest() % old(self).place()
                && final(self).place() == old(self).place() / 10,
    {
        if self.divisor == 0 {
            return None;
        }
        let digit = self.n / self.divisor;
        self.n = self.n % self.divisor;
        self.divisor = self.divisor / 10;
        Some(digit)
    }
}

/// A best over digits is never negative and never above `UNREACHED`; over
/// a number `1..=i` it is at most `i - 1`.
proof fn lemma_reaches(i: int, x: int)
    requires
        1 <= i <= usize::MAX,
        0 <= x,
    ensures
        0 <= best_digit(i, x) <= UNREACHED,
        1 <= x <= i ==> best_digit(i, x) <= i - 1,
    decreases i, x,
{
    if x > 0 {
        let d = x % 10;
        lemma_reaches(i, x / 10);
        if d > 0 && d <= i {
            lemma_steps_below(i - d);
        }
    }
}

proof fn lemma_steps_below(j: int)
    requires
        0 <= j < usize::MAX,
    ensures
        0 <= steps(j) <= j,
    decreases j, j + 2,
{
    if j > 0 {
        lemma_reaches(j, j);
    }
}

/// The fewest steps that bring `n` to zero.
pub fn min_steps(n: usize) -> (r: usize)
    ensures
        r == steps(n as int),
{
    if n == 0 {
        return 0;
    }
    let mut tally: VecDeque<usize> = VecDeque::new();
    tally.push_back(0);
    let mut i: usize = 1;
    while i <= n
        invariant
            1 <= i <= n,
            tally@.len() == i,
            forall|j: int| 0 <= j < i ==> #[trigger] tally@[j] == steps(j),
        decreases n + 1 - i,
    {
        let mut best: usize = UNREACHED;
        let mut x: usize = i;
        proof {
            lemma_reaches(i as int, i as int);
        }
        while x > 0
            invariant
                1 <= i <= n,
                x <= i,
                tally@.len() == i,
                forall|j: int| 0 <= j < i ==> #[trigger] tally@[j] == steps(j),
                best_digit(i as int, i as int) == if best_digit(i as int, x as int) < best {
                    best_digit(i as int, x as int)
                } else {
                    best as int
                },
            decreases x,
        {
            let d = x % 10;
            if d > 0 && d <= i {
                let candidate = tally[i - d];
                if candidate < best {
                    best = candidate;
                }
            }
            x = x / 10;
        }
        proof {
            lemma_reaches(i as int, i as int);
        }
        tally.push_back(best + 1);
        if i == n {
            return best + 1;
        }
        i = i + 1;
    }
    0
}

} // verus!
