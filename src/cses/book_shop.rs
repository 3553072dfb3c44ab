//! The most pages that a budget buys, each book bought at most once.
use vstd::prelude::*;

verus! {

/// The sum of the first `k` page counts.
pub open spec fn pages_sum(pages: Seq<usize>, k: int) -> int
    decreases k,
{
    if k <= 0 {
        0
    } else {
        pages_sum(pages, k - 1) + pages[k - 1]
    }
}

/// The most pages that budget `i` buys from the first `k` books.
pub open spec fn best(prices: Seq<usize>, pages: Seq<usize>, k: int, i: int) -> int
    decreases k,
{
    if k <= 0 {
        0
    } else {
        let without = best(prices, pages, k - 1, i);
        if prices[k - 1] <= i {
            let with = best(prices, pages, k - 1, i - prices[k - 1]) + pages[k - 1];
            if with > without {
                with
            } else {
                without
            }
        } else {
            without
        }
    }
}

proof fn lemma_best_bounded(prices: Seq<usize>, pages: Seq<usize>, k: int, i: int)
    requires
        0 <= k <= pages.len(),
    ensures
        0 <= best(prices, pages, k, i) <= pages_sum(pages, k),
    decreases k,
{
    if k > 0 {
        lemma_best_bounded(prices, pages, k - 1, i);
        lemma_best_bounded(prices, pages, k - 1, i - prices[k - 1]);
    }
}

proof fn lemma_sum_monotone(pages: Seq<usize>, k: int, n: int)
    requires
        0 <= k <= n,
    ensures
        pages_sum(pages, k) <= pages_sum(pages, n),
    decreases n - k,
{
    if k < n {
        lemma_sum_monotone(pages, k, n - 1);
    }
}

/// The most pages that budget `x` buys from books with the given prices and
/// page counts.
pub fn max_pages(x: usize, b_prices: &[usize], b_pages: &[usize]) -> (r: usize)
    requires
        b_prices@.len() == b_pages@.len(),
        x < usize::MAX,
        pages_sum(b_pages@, b_pages@.len() as int) <= u32::MAX,
    ensures
        r == best(b_prices@, b_pages@, b_pages@.len() as int, x as int),
{
    let ghost prices = b_prices@;
    let ghost pages = b_pages@;
    let ghost total = pages_sum(pages, pages.len() as int);
    let mut tally: Vec<u32> = Vec::new();
    let mut j: usize = 0;
    while j <= x
        invariant
            x < usize::MAX,
            j <= x + 1,
            tally@.len() == j,
            forall|m: int| 0 <= m < j ==> #[trigger] tally@[m] == 0,
        decreases x + 1 - j,
    {
        tally.push(0);
        j = j + 1;
    }
    let mut k: usize = 0;
    while k < b_prices.len()
        invariant
            prices == b_prices@,
            pages == b_pages@,
            prices.len() == pages.len(),
            total == pages_sum(pages, pages.len() as int),
            total <= u32::MAX,
            x < usize::MAX,
            k <= pages.len(),
            tally@.len() == x + 1,
            forall|m: int| 0 <= m <= x ==> #[trigger] tally@[m] == best(prices, pages, k as int, m),
        decreases pages.len() - k,
    {
        let price = b_prices[k];
        let page = b_pages[k];
        proof {
            lemma_sum_monotone(pages, k + 1, pages.len() as int);
        }
        if price <= x {
            let mut i: usize = x + 1;
            while i > price
                invariant
                    prices == b_prices@,
                    pages == b_pages@,
                    k < pages.len(),
                    price == prices[k as int],
                    page == pages[k as int],
                    pages_sum(pages, k + 1) <= u32::MAX,
                    price <= i <= x + 1,
                    tally@.len() == x + 1,
                    forall|m: int| 0 <= m < i ==> #[trigger] tally@[m] == best(prices, pages, k as int, m),
                    forall|m: int| i <= m <= x ==> #[trigger] tally@[m] == best(prices, pages, k + 1, m),
                decreases i,
            {
                i = i - 1;
                let remaining_budget = i - price;
                proof {
                    lemma_best_bounded(prices, pages, k as int, remaining_budget as int);
                    lemma_best_bounded(prices, pages, k + 1, i as int);
                }
                let with = tally[remaining_budget] + page as u32;
                if with > tally[i] {
                    tally.set(i, with);
                }
            }
        }
        k = k + 1;
    }
    tally[x] as usize
}

} // verus!
