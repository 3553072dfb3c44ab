//! The number of arrays that match a description: values in `1..=m`,
//! neighbours differing by at most one, and each non-zero entry of the
//! description fixed.
use vstd::prelude::*;

verus! {

/// Counts are taken modulo this prime.
pub const MODULUS: u32 = 1_000_000_007;

/// Value `v` is allowed at a position whose description is `d`.
pub open spec fn allowed(d: u8, v: int) -> bool {
    d == 0 || d == v
}

/// The arrays over the first `i + 1` positions that match the description
/// and end in `v`, counted modulo the prime (each neighbour term added and
/// reduced in turn).
pub open spec fn ending_in(desc: Seq<u8>, m: int, i: int, v: int) -> int
    decreases i,
{
    if v < 1 || v > m || i < 0 || !allowed(desc[i], v) {
        0
    } else if i == 0 {
        1
    } else {
        let a = ending_in(desc, m, i - 1, v) % MODULUS as int;
        let b = if v > 1 {
            (a + ending_in(desc, m, i - 1, v - 1)) % MODULUS as int
        } else {
            a
        };
        if v < m {
            (b + ending_in(desc, m, i - 1, v + 1)) % MODULUS as int
        } else {
            b
        }
    }
}

/// The counts for the last position, summed over values `1..=k`, reduced
/// after each addition.
pub open spec fn total_upto(desc: Seq<u8>, m: int, k: int) -> int
    decreases k,
{
    if k <= 0 {
        0
    } else {
        (total_upto(desc, m, k - 1) + ending_in(desc, m, desc.len() - 1, k)) % MODULUS as int
    }
}

proof fn lemma_ending_bounded(desc: Seq<u8>, m: int, i: int, v: int)
    ensures
        0 <= ending_in(desc, m, i, v) < MODULUS,
    decreases i,
{
    if i > 0 {
        lemma_ending_bounded(desc, m, i - 1, v);
        lemma_ending_bounded(desc, m, i - 1, v - 1);
        lemma_ending_bounded(desc, m, i - 1, v + 1);
    }
}

/// The number of arrays that match `desc` with values in `1..=m`, modulo
/// 10^9 + 7.
pub fn do_solve(m: usize, desc: &[u8]) -> (r: u32)
    requires
        desc@.len() >= 1,
        m < usize::MAX,
        forall|i: int| 0 <= i < desc@.len() ==> #[trigger] desc@[i] <= m,
    ensures
        r == total_upto(desc@, m as int, m as int),
{
    let n = desc.len();
    let mut prev: Vec<u32> = Vec::new();
    let mut v: usize = 0;
    while v <= m
        invariant
            m < usize::MAX,
            desc@.len() >= 1,
            v <= m + 1,
            prev@.len() == v,
            forall|w: int| 0 <= w < v ==> #[trigger] prev@[w] == ending_in(desc@, m as int, 0, w),
        decreases m + 1 - v,
    {
        let d = desc[0];
        let c: u32 = if v >= 1 && (d == 0 || d as usize == v) {
            1
        } else {
            0
        };
        prev.push(c);
        v = v + 1;
    }
    let mut i: usize = 1;
    while i < n
        invariant
            m < usize::MAX,
            n == desc@.len(),
            1 <= i <= n,
            prev@.len() == m + 1,
            forall|w: int| 0 <= w <= m ==> #[trigger] prev@[w] == ending_in(desc@, m as int, i - 1, w),
        decreases n - i,
    {
        let mut cur: Vec<u32> = Vec::new();
        let mut v: usize = 0;
        while v <= m
            invariant
                m < usize::MAX,
                n == desc@.len(),
                1 <= i < n,
                v <= m + 1,
                prev@.len() == m + 1,
                cur@.len() == v,
                forall|w: int| 0 <= w <= m ==> #[trigger] prev@[w] == ending_in(desc@, m as int, i - 1, w),
                forall|w: int| 0 <= w < v ==> #[trigger] cur@[w] == ending_in(desc@, m as int, i as int, w),
            decreases m + 1 - v,
        {
            let d = desc[i];
            let mut c: u32 = 0;
            if v >= 1 && (d == 0 || d as usize == v) {
                proof {
                    lemma_ending_bounded(desc@, m as int, i - 1, v as int);
                    lemma_ending_bounded(desc@, m as int, i - 1, v - 1);
                    lemma_ending_bounded(desc@, m as int, i - 1, v + 1);
                }
                c = (c + prev[v]) % MODULUS;
                if v > 1 {
                    c = (c + prev[v - 1]) % MODULUS;
                }
                if v < m {
                    c = (c + prev[v + 1]) % MODULUS;
                }
            }
            cur.push(c);
            v = v + 1;
        }
        prev = cur;
        i = i + 1;
    }
    let mut acc: u32 = 0;
    let mut k: usize = 1;
    while k <= m
        invariant
            m < usize::MAX,
            n == desc@.len(),
            1 <= k <= m + 1,
            prev@.len() == m + 1,
            forall|w: int| 0 <= w <= m ==> #[trigger] prev@[w] == ending_in(desc@, m as int, n - 1, w),
            acc == total_upto(desc@, m as int, k - 1),
            acc < MODULUS,
        decreases m + 1 - k,
    {
        proof {
            lemma_ending_bounded(desc@, m as int, n - 1, k as int);
        }
        acc = (acc + prev[k]) % MODULUS;
        k = k + 1;
    }
    acc
}

} // verus!
