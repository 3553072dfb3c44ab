//! The number at a given row and column of the number spiral.
use vstd::prelude::*;

verus! {

/// The value at row `y`, column `x` (both from 1). The layer of the spiral
/// is `n = max(y, x)`; layer `n` holds `(n-1)^2 + 1 ..= n^2`, filled
/// along row `n` and column `n` in a direction that alternates with `n`.
pub open spec fn spiral(y: int, x: int) -> int {
    let n = if y > x {
        y
    } else {
        x
    };
    if n % 2 == 0 {
        if y == n {
            n * n - (x - 1)
        } else {
            (n - 1) * (n - 1) + y
        }
    } else if x == n {
        n * n - (y - 1)
    } else {
        (n - 1) * (n - 1) + x
    }
}

/// The value at row `y`, column `x` of the spiral.
pub fn do_solve(y: u64, x: u64) -> (r: u64)
    requires
        y >= 1,
        x >= 1,
        y <= 0xFFFF_FFFF,
        x <= 0xFFFF_FFFF,
    ensures
        r == spiral(y as int, x as int),
{
    let n = if y > x {
        y
    } else {
        x
    };
    assert(n * n <= 0xFFFF_FFFE_0000_0001) by (nonlinear_arith)
        requires
            1 <= n <= 0xFFFF_FFFF,
    ;
    assert((n - 1) * (n - 1) <= n * n) by (nonlinear_arith)
        requires
            1 <= n,
    ;
    assert((n - 1) * (n - 1) + n <= n * n) by (nonlinear_arith)
        requires
            1 <= n,
    ;
    if n % 2 == 0 {
        if y == n {
            n * n - (x - 1)
        } else {
            (n - 1) * (n - 1) + y
        }
    } else if x == n {
        n * n - (y - 1)
    } else {
        (n - 1) * (n - 1) + x
    }
}

} // verus!
