//! Rearranges a string of capital letters so that no two neighbours are
//! equal, choosing the smallest letter allowed at each position.
use vstd::prelude::*;
use vstd::std_specs::iter::IteratorSpec;
use vstd::string::StrSliceExecFns;

verus! {

broadcast use vstd::string::axiom_spec_iter, vstd::string::next_postcondition;

/// The capital letters in order.
pub open spec fn letters() -> Seq<char> {
    seq![
        'A', 'B', 'C', 'D', 'E', 'F', 'G', 'H', 'I', 'J', 'K', 'L', 'M', 'N', 'O', 'P', 'Q', 'R', 'S',
        'T', 'U', 'V', 'W', 'X', 'Y', 'Z',
    ]
}

/// `c` is a capital letter.
pub open spec fn is_capital(c: char) -> bool {
    exists|i: int| 0 <= i < 26 && letters()[i] == c
}

/// The position of `c` among the letters.
pub open spec fn letter_index(c: char) -> int {
    choose|i: int| 0 <= i < 26 && letters()[i] == c
}

/// How often each letter occurs among the first `n` characters.
pub open spec fn letter_counts(s: Seq<char>, n: int) -> Seq<int>
    decreases n,
{
    if n <= 0 {
        Seq::new(26, |i: int| 0)
    } else {
        let t = letter_counts(s, n - 1);
        let k = letter_index(s[n - 1]);
        t.update(k, t[k] + 1)
    }
}

/// The first letter from `i` on whose count exceeds `threshold`.
pub open spec fn first_over(t: Seq<int>, threshold: int, i: int) -> Option<int>
    decreases 26 - i,
{
    if i >= 26 || i < 0 {
        None
    } else if t[i] > threshold {
        Some(i)
    } else {
        first_over(t, threshold, i + 1)
    }
}

/// The first letter from `i` on that is left and differs from `last`.
pub open spec fn first_other(t: Seq<int>, last: int, i: int) -> Option<int>
    decreases 26 - i,
{
    if i >= 26 || i < 0 {
        None
    } else if t[i] > 0 && i != last {
        Some(i)
    } else {
        first_other(t, last, i + 1)
    }
}

/// The letter placed next with `remaining` letters left: one that would
/// otherwise be left with too many, else the smallest that differs from the
/// one before.
pub open spec fn choice(t: Seq<int>, last: int, remaining: int) -> Option<int> {
    match first_over(t, remaining / 2, 0) {
        Some(i) => Some(i),
        None => first_other(t, last, 0),
    }
}

/// The letters placed greedily from the counts `t`, the previous letter
/// being `last` (-1 for none).
pub open spec fn arrange(t: Seq<int>, last: int, remaining: nat) -> Option<Seq<char>>
    decreases remaining,
{
    if remaining == 0 {
        Some(seq![])
    } else {
        match choice(t, last, remaining as int) {
            None => None,
            Some(i) => match arrange(t.update(i, t[i] - 1), i, (remaining - 1) as nat) {
                None => None,
                Some(rest) => Some(seq![letters()[i]] + rest),
            },
        }
    }
}

/// The rearrangement of `s`, or `None` when a letter fills more than half
/// (rounded up) of it.
pub open spec fn reorder(s: Seq<char>) -> Option<Seq<char>> {
    let t = letter_counts(s, s.len() as int);
    if exists|k: int| 0 <= k < 26 && t[k] > (s.len() + 1) / 2 {
        None
    } else {
        arrange(t, -1, s.len())
    }
}

/// Relies on `String::from_iter` over characters: the text is those
/// characters in order.
#[verifier::external_body]
fn chars_to_string(v: Vec<char>) -> (r: String)
    ensures
        r@ == v@,
{
    String::from_iter(v)
}

fn letter_table() -> (r: Vec<char>)
    ensures
        r@ == letters(),
{
    let r = vec![
        'A', 'B', 'C', 'D', 'E', 'F', 'G', 'H', 'I', 'J', 'K', 'L', 'M', 'N', 'O', 'P', 'Q', 'R', 'S',
        'T', 'U', 'V', 'W', 'X', 'Y', 'Z',
    ];
    assert(r@ =~= letters());
    r
}

/// The position of the capital letter `c`.
fn index_of(table: &Vec<char>, c: char) -> (r: usize)
    requires
        table@ == letters(),
        is_capital(c),
    ensures
        r == letter_index(c),
        r < 26,
{
    let mut i: usize = 0;
    while i < 26
        invariant
            table@ == letters(),
            is_capital(c),
            i <= 26,
            forall|j: int| 0 <= j < i ==> letters()[j] != c,
        decreases 26 - i,
    {
        if table[i] == c {
            let ghost k = letter_index(c);
            assert(letters()[k] == c);
            assert(k == i as int) by {
                if k < i {
                } else if k > i {
                    assert(letters()[i as int] != letters()[k]);
                }
            }
            return i;
        }
        i = i + 1;
    }
    assert(false);
    0
}


proof fn lemma_first_over_range(t: Seq<int>, threshold: int, j: int)
    requires
        0 <= j,
    ensures
        first_over(t, threshold, j) matches Some(i) ==> j <= i < 26 && t[i] > threshold,
    decreases 26 - j,
{
    if j < 26 && t[j] <= threshold {
        lemma_first_over_range(t, threshold, j + 1);
    }
}

proof fn lemma_first_other_range(t: Seq<int>, last: int, j: int)
    requires
        0 <= j,
    ensures
        first_other(t, last, j) matches Some(i) ==> j <= i < 26 && t[i] > 0,
    decreases 26 - j,
{
    if j < 26 && !(t[j] > 0 && j != last) {
        lemma_first_other_range(t, last, j + 1);
    }
}

/// The counts as integers.
pub open spec fn counts(v: Seq<u32>) -> Seq<int> {
    v.map_values(|x: u32| x as int)
}

/// The first index from 0 whose count exceeds `threshold`.
fn find_over(tally: &Vec<u32>, threshold: u32) -> (r: Option<usize>)
    requires
        tally@.len() == 26,
    ensures
        match first_over(counts(tally@), threshold as int, 0) {
            Some(i) => r == Some(i as usize),
            None => r is None,
        },
        r matches Some(i) ==> i < 26,
{
    let ghost t = counts(tally@);
    let mut i: usize = 0;
    while i < 26
        invariant
            tally@.len() == 26,
            t == counts(tally@),
            i <= 26,
            first_over(t, threshold as int, 0) == first_over(t, threshold as int, i as int),
        decreases 26 - i,
    {
        if tally[i] > threshold {
            return Some(i);
        }
        i = i + 1;
    }
    None
}

/// The first index from 0 whose count is positive and that is not `last`.
fn find_other(tally: &Vec<u32>, last: Option<usize>) -> (r: Option<usize>)
    requires
        tally@.len() == 26,
    ensures
        match first_other(
            counts(tally@),
            match last {
                Some(l) => l as int,
                None => -1,
            },
            0,
        ) {
            Some(i) => r == Some(i as usize),
            None => r is None,
        },
        r matches Some(i) ==> i < 26,
{
    let ghost t = counts(tally@);
    let ghost l: int = match last {
        Some(x) => x as int,
        None => -1,
    };
    let mut i: usize = 0;
    while i < 26
        invariant
            tally@.len() == 26,
            t == counts(tally@),
            i <= 26,
            l == match last {
                Some(x) => x as int,
                None => -1,
            },
            first_other(t, l, 0) == first_other(t, l, i as int),
        decreases 26 - i,
    {
        let differs = match last {
            Some(x) => x != i,
            None => true,
        };
        if tally[i] > 0 && differs {
            return Some(i);
        }
        i = i + 1;
    }
    None
}

/// Rearranges `input` so that no two neighbours are equal, taking at each
/// position a letter that must come now or else the smallest allowed;
/// `None` when a letter fills more than half (rounded up) of the input.
pub fn do_solve(input: &str) -> (r: Option<String>)
    requires
        forall|i: int| 0 <= i < input@.len() ==> is_capital(#[trigger] input@[i]),
        input@.len() <= u32::MAX,
    ensures
        match reorder(input@) {
            None => r is None,
            Some(v) => r matches Some(s) && s@ == v,
        },
{
    let table = letter_table();
    let ghost all = input@;
    let n = input.unicode_len() as u32;
    let mut tally: Vec<u32> = Vec::new();
    let mut k: usize = 0;
    while k < 26
        invariant
            k <= 26,
            tally@.len() == k,
            forall|j: int| 0 <= j < k ==> #[trigger] tally@[j] == 0,
        decreases 26 - k,
    {
        tally.push(0);
        k = k + 1;
    }
    assert(counts(tally@) =~= letter_counts(all, 0));
    let mut chars = input.chars();
    let mut i: usize = 0;
    loop
        invariant
            chars.obeys_prophetic_iter_laws(),
            all == input@,
            n == all.len(),
            n <= u32::MAX,
            table@ == letters(),
            forall|j: int| 0 <= j < all.len() ==> is_capital(#[trigger] all[j]),
            i <= all.len(),
            chars.remaining() == all.subrange(i as int, all.len() as int),
            tally@.len() == 26,
            counts(tally@) == letter_counts(all, i as int),
            forall|j: int| 0 <= j < 26 ==> #[trigger] tally@[j] <= i,
        ensures
            i == all.len(),
            tally@.len() == 26,
            counts(tally@) == letter_counts(all, i as int),
        decreases all.len() - i,
    {
        let ghost before = chars.remaining();
        match chars.next() {
            None => {
                assert(before.len() == 0);
                break;
            },
            Some(c) => {
                assert(c == all[i as int]);
                let idx = index_of(&table, c);
                let old_count = tally[idx];
                tally.set(idx, old_count + 1);
                assert(counts(tally@) =~= letter_counts(all, i + 1));
                assert(chars.remaining() =~= all.subrange(i + 1, all.len() as int));
                i = i + 1;
            },
        }
    }
    let ghost t0 = counts(tally@);
    let threshold = n / 2 + n % 2;
    let mut k: usize = 0;
    while k < 26
        invariant
            tally@.len() == 26,
            t0 == counts(tally@),
            t0 == letter_counts(all, all.len() as int),
            all == input@,
            n == all.len(),
            threshold == (n + 1) / 2,
            k <= 26,
            forall|j: int| 0 <= j < k ==> t0[j] <= threshold,
        decreases 26 - k,
    {
        if tally[k] > threshold {
            assert(t0[k as int] > (all.len() + 1) / 2);
            assert(letter_counts(input@, input@.len() as int)[k as int] > (input@.len() + 1) / 2);
            assert(reorder(input@) is None);
            return None;
        }
        k = k + 1;
    }
    assert(!exists|j: int| 0 <= j < 26 && t0[j] > (all.len() + 1) / 2);
    let mut result: Vec<char> = Vec::new();
    let mut last: Option<usize> = None;
    let mut remaining: u32 = n;
    while remaining > 0
        invariant
            tally@.len() == 26,
            table@ == letters(),
            all == input@,
            t0 == letter_counts(all, all.len() as int),
            !exists|j: int| 0 <= j < 26 && t0[j] > (all.len() + 1) / 2,
            n == all.len(),
            remaining <= n,
            last matches Some(l) ==> l < 26,
            arrange(t0, -1, n as nat) == match arrange(
                counts(tally@),
                match last {
                    Some(l) => l as int,
                    None => -1,
                },
                remaining as nat,
            ) {
                Some(rest) => Some(result@ + rest),
                None => None,
            },
        decreases remaining,
    {
        let ghost t = counts(tally@);
        let ghost l: int = match last {
            Some(x) => x as int,
            None => -1,
        };
        let half = remaining / 2;
        assert(half as int == remaining as int / 2);
        proof {
            lemma_first_over_range(t, half as int, 0);
            lemma_first_other_range(t, l, 0);
        }
        let forced = find_over(&tally, half);
        let chosen = match forced {
            Some(idx) => idx,
            None => match find_other(&tally, last) {
                Some(idx) => idx,
                None => {
                    assert(choice(t, l, remaining as int) is None);
                    assert(arrange(t, l, remaining as nat) is None);
                    return None;
                },
            },
        };
        assert(choice(t, l, remaining as int) == Some(chosen as int));
        assert(t[chosen as int] > 0);
        let letter = table[chosen];
        result.push(letter);
        let c = tally[chosen];
        tally.set(chosen, c - 1);
        assert(counts(tally@) =~= t.update(chosen as int, t[chosen as int] - 1));
        proof {
            match arrange(counts(tally@), chosen as int, (remaining - 1) as nat) {
                Some(rest) => {
                    assert(result@ + rest =~= result@.drop_last() + (seq![letters()[chosen as int]] + rest));
                },
                None => {},
            }
        }
        last = Some(chosen);
        remaining = remaining - 1;
    }
    assert(result@ + seq![] =~= result@);
    Some(chars_to_string(result))
}

} // verus!
