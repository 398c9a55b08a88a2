//! Counting occurrences of a value in a sequence, and the small facts about
//! those counts that the board and game invariants rest on.

use vstd::prelude::*;

verus! {

/// Number of positions of `s` that hold exactly `v`.
pub open spec fn count_of<T>(s: Seq<T>, v: T) -> nat
    decreases s.len(),
{
    if s.len() == 0 {
        0
    } else {
        count_of(s.drop_last(), v) + (if s.last() == v {
            1nat
        } else {
            0nat
        })
    }
}

/// A count never exceeds the length of the sequence.
pub proof fn lemma_count_le_len<T>(s: Seq<T>, v: T)
    ensures
        count_of(s, v) <= s.len(),
    decreases s.len(),
{
    if s.len() > 0 {
        lemma_count_le_len(s.drop_last(), v);
    }
}

/// If no position holds `v`, the count of `v` is zero.
pub proof fn lemma_count_absent<T>(s: Seq<T>, v: T)
    requires
        forall|i: int| 0 <= i < s.len() ==> s[i] != v,
    ensures
        count_of(s, v) == 0,
    decreases s.len(),
{
    if s.len() > 0 {
        lemma_count_absent(s.drop_last(), v);
    }
}

/// How updating one position changes the count of `v`.
pub proof fn lemma_count_update<T>(s: Seq<T>, i: int, w: T, v: T)
    requires
        0 <= i < s.len(),
    ensures
        count_of(s.update(i, w), v) == count_of(s, v) + (if w == v {
            1int
        } else {
            0int
        }) - (if s[i] == v {
            1int
        } else {
            0int
        }),
    decreases s.len(),
{
    let t = s.update(i, w);
    if i == s.len() - 1 {
        assert(t.drop_last() =~= s.drop_last());
        assert(t.last() == w);
    } else {
        assert(t.drop_last() =~= s.drop_last().update(i, w));
        assert(t.last() == s.last());
        lemma_count_update(s.drop_last(), i, w, v);
    }
}

/// Counts of two different values share the length of the sequence.
pub proof fn lemma_count_disjoint<T>(s: Seq<T>, v: T, w: T)
    requires
        v != w,
    ensures
        count_of(s, v) + count_of(s, w) <= s.len(),
    decreases s.len(),
{
    if s.len() > 0 {
        lemma_count_disjoint(s.drop_last(), v, w);
    }
}

} // verus!
