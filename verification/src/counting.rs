//! Counting how often a value occurs in a sequence.

use vstd::prelude::*;

verus! {

/// The number of positions of `s` that hold `x`.
pub open spec fn occurrences<T>(s: Seq<T>, x: T) -> nat
    decreases s.len(),
{
    if s.len() == 0 {
        0
    } else {
        occurrences(s.drop_last(), x) + if s.last() == x {
            1nat
        } else {
            0nat
        }
    }
}

/// Appending `y` adds one occurrence of `y` and none of anything else.
pub proof fn lemma_occurrences_push<T>(s: Seq<T>, y: T, x: T)
    ensures
        occurrences(s.push(y), x) == occurrences(s, x) + if y == x {
            1nat
        } else {
            0nat
        },
{
    assert(s.push(y).drop_last() =~= s);
}

/// No value occurs more often than the sequence is long.
pub proof fn lemma_occurrences_bound<T>(s: Seq<T>, x: T)
    ensures
        occurrences(s, x) <= s.len(),
    decreases s.len(),
{
    if s.len() > 0 {
        lemma_occurrences_bound(s.drop_last(), x);
    }
}

/// Replacing the value at `i` by `y` takes one occurrence from the old value
/// and gives one to `y`.
pub proof fn lemma_occurrences_update<T>(s: Seq<T>, i: int, y: T, x: T)
    requires
        0 <= i < s.len(),
    ensures
        occurrences(s.update(i, y), x) + (if s[i] == x {
            1nat
        } else {
            0nat
        }) == occurrences(s, x) + if y == x {
            1nat
        } else {
            0nat
        },
    decreases s.len(),
{
    if i == s.len() - 1 {
        assert(s.update(i, y).drop_last() =~= s.drop_last());
    } else {
        assert(s.update(i, y).drop_last() =~= s.drop_last().update(i, y));
        lemma_occurrences_update(s.drop_last(), i, y, x);
    }
}

/// A value that stands at some position occurs at least once.
pub proof fn lemma_occurrences_present<T>(s: Seq<T>, k: int)
    requires
        0 <= k < s.len(),
    ensures
        occurrences(s, s[k]) >= 1,
    decreases s.len(),
{
    if k < s.len() - 1 {
        lemma_occurrences_present(s.drop_last(), k);
    }
}

/// A value that stands at no position does not occur.
pub proof fn lemma_occurrences_absent<T>(s: Seq<T>, x: T)
    requires
        forall|k: int| 0 <= k < s.len() ==> s[k] != x,
    ensures
        occurrences(s, x) == 0,
    decreases s.len(),
{
    if s.len() > 0 {
        lemma_occurrences_absent(s.drop_last(), x);
    }
}

/// A value that stands at every position occurs as often as the sequence is
/// long.
pub proof fn lemma_occurrences_everywhere<T>(s: Seq<T>, x: T)
    requires
        forall|k: int| 0 <= k < s.len() ==> s[k] == x,
    ensures
        occurrences(s, x) == s.len(),
    decreases s.len(),
{
    if s.len() > 0 {
        lemma_occurrences_everywhere(s.drop_last(), x);
    }
}

} // verus!
