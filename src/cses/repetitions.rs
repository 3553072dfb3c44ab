//! The longest run of one repeated character.
use vstd::prelude::*;
use vstd::std_specs::iter::IteratorSpec;
use vstd::string::StrSliceExecFns;

verus! {

broadcast use vstd::string::axiom_spec_iter, vstd::string::next_postcondition;

/// The length of the run of equal characters that ends at index `i`.
pub open spec fn run_at(s: Seq<char>, i: int) -> nat
    decreases i,
{
    if i <= 0 {
        1
    } else if s[i] == s[i - 1] {
        run_at(s, i - 1) + 1
    } else {
        1
    }
}

/// The longest run among the first `n` characters.
pub open spec fn longest_run(s: Seq<char>, n: int) -> nat
    decreases n,
{
    if n <= 0 {
        0
    } else if run_at(s, n - 1) > longest_run(s, n - 1) {
        run_at(s, n - 1)
    } else {
        longest_run(s, n - 1)
    }
}

proof fn lemma_run_bounded(s: Seq<char>, i: int)
    requires
        0 <= i,
    ensures
        run_at(s, i) <= i + 1,
    decreases i,
{
    if i > 0 {
        lemma_run_bounded(s, i - 1);
    }
}

/// The length of the longest run of one repeated character in `s`.
pub fn do_solve(s: &str) -> (r: usize)
    ensures
        r == longest_run(s@, s@.len() as int),
{
    let mut largest_run: usize = 0;
    let mut current_run: usize = 0;
    let mut current_char: char = 'A';
    let mut chars = s.chars();
    let ghost all = s@;
    let n = s.unicode_len();
    let mut i: usize = 0;
    loop
        invariant
            chars.obeys_prophetic_iter_laws(),
            all == s@,
            n == all.len(),
            i <= all.len(),
            chars.remaining() == all.subrange(i as int, all.len() as int),
            i > 0 ==> current_char == all[i - 1],
            i > 0 ==> current_run == run_at(all, i - 1),
            i == 0 ==> current_run == 0 && current_char == 'A',
            largest_run == longest_run(all, i as int),
            largest_run <= i,
        ensures
            i == all.len(),
            largest_run == longest_run(all, i as int),
        decreases all.len() - i,
    {
        let ghost before = chars.remaining();
        match chars.next() {
            None => {
                assert(before.len() == 0);
                break;
            },
            Some(c) => {
                assert(before.len() > 0);
                assert(c == all[i as int]);
                proof {
                    if i > 0 {
                        lemma_run_bounded(all, i - 1);
                    }
                }
                if i > 0 && c == current_char {
                    current_run = current_run + 1;
                } else {
                    current_char = c;
                    current_run = 1;
                }
                if current_run > largest_run {
                    largest_run = current_run;
                }
                assert(chars.remaining() =~= all.subrange(i + 1, all.len() as int));
                i = i + 1;
            },
        }
    }
    largest_run
}

} // verus!
