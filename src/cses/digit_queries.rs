//! The digit at a given position of the string 123456789101112... formed
//! by writing the positive integers one after another.
use vstd::prelude::*;

verus! {

pub open spec fn pow10(e: int) -> int
    decreases e,
{
    if e <= 0 {
        1
    } else {
        10 * pow10(e - 1)
    }
}

/// The digit at position `k` (from 1) of the numbers written from `start`
/// on, where the `count` numbers from `start` have `digits` digits each and
/// every later block has one digit more and ten times as many numbers.
pub open spec fn digit_in_blocks(k: int, digits: int, count: int, start: int) -> int
    decreases 20 - digits,
{
    if k > digits * count && digits < 20 {
        digit_in_blocks(k - digits * count, digits + 1, count * 10, start * 10)
    } else {
        let number = start + (k - 1) / digits;
        let index = (k - 1) % digits;
        (number / pow10(digits - index - 1)) % 10
    }
}

/// The digit at position `k` (from 1) of 123456789101112...
pub open spec fn digit_at(k: int) -> int {
    digit_in_blocks(k, 1, 9, 1)
}

proof fn lemma_pow10_positive(n: int)
    ensures
        pow10(n) >= 1,
    decreases n,
{
    if n > 0 {
        lemma_pow10_positive(n - 1);
    }
}

proof fn lemma_pow10_monotone(a: int, b: int)
    requires
        0 <= a <= b,
    ensures
        1 <= pow10(a) <= pow10(b),
    decreases b,
{
    lemma_pow10_positive(a);
    if a < b {
        lemma_pow10_monotone(a, b - 1);
        lemma_pow10_positive(b - 1);
    }
}

/// `10^e`.
fn power_of_ten(e: u64) -> (r: u64)
    requires
        e <= 16,
    ensures
        r == pow10(e as int),
{
    let mut r: u64 = 1;
    let mut i: u64 = 0;
    while i < e
        invariant
            i <= e <= 16,
            r == pow10(i as int),
        decreases e - i,
    {
        proof {
            lemma_pow10_monotone(i as int, 15);
            assert(pow10(15) == 1_000_000_000_000_000) by {
                reveal_with_fuel(pow10, 16);
            }
        }
        r = r * 10;
        i = i + 1;
    }
    r
}

/// The digit of `number` (which has `total_digits` digits) at
/// `digit_index`, counting from the most significant one.
pub fn extract_digit(number: u64, total_digits: u64, digit_index: u64) -> (r: u64)
    requires
        digit_index < total_digits <= 17,
    ensures
        r == (number as int / pow10(total_digits - digit_index - 1)) % 10,
        r < 10,
{
    let divisor = power_of_ten(total_digits - digit_index - 1);
    proof {
        lemma_pow10_monotone(0, (total_digits - digit_index - 1) as int);
    }
    (number / divisor) % 10
}

/// The digit at position `k` (from 1) of 123456789101112...
pub fn do_solve(k: u64) -> (r: u64)
    requires
        1 <= k <= 1_000_000_000_000_000_000,
    ensures
        r == digit_at(k as int),
{
    let ghost k0 = k as int;
    let mut k = k;
    let mut digits: u64 = 1;
    let mut count: u64 = 9;
    let mut start: u64 = 1;
    proof {
        assert(pow10(16) == 10_000_000_000_000_000) by {
            reveal_with_fuel(pow10, 17);
        }
    }
    assert(1 * 9 <= 17 * 90_000_000_000_000_000);
    while k > digits * count
        invariant
            1 <= k <= 1_000_000_000_000_000_000,
            1 <= digits <= 17,
            start == pow10(digits - 1),
            count == 9 * start,
            pow10(16) == 10_000_000_000_000_000,
            digit_at(k0) == digit_in_blocks(k as int, digits as int, count as int, start as int),
            digits * count <= 17 * 90_000_000_000_000_000,
        decreases 20 - digits,
    {
        proof {
            lemma_pow10_monotone(digits - 1, 16);
            if digits == 17 {
                assert(start == pow10(16));
                assert(digits * count == 1_530_000_000_000_000_000);
            }
            lemma_pow10_monotone(digits as int, 16);
            assert(pow10(digits as int) == 10 * start);
            assert((digits + 1) * (count * 10) <= 17 * 90_000_000_000_000_000) by (nonlinear_arith)
                requires
                    digits <= 16,
                    count == 9 * start,
                    10 * start <= 10_000_000_000_000_000,
            ;
        }
        k = k - digits * count;
        digits = digits + 1;
        start = start * 10;
        count = count * 10;
    }
    proof {
        lemma_pow10_monotone(digits - 1, 16);
        assert((k as int - 1) / (digits as int) < count) by (nonlinear_arith)
            requires
                1 <= digits,
                1 <= k <= digits * count,
        ;
    }
    let number = start + (k - 1) / digits;
    let digit_index = (k - 1) % digits;
    extract_digit(number, digits, digit_index)
}

} // verus!
