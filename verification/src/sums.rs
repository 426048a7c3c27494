//! The total of a flux accumulator, and how single-slot updates move it.
//! Conservation of heat is stated as this total staying at zero.
use vstd::prelude::*;

verus! {

/// Sum of every entry of an accumulator field, as a mathematical integer.
pub open spec fn sum_i128(s: Seq<i128>) -> int
    decreases s.len(),
{
    if s.len() == 0 {
        0
    } else {
        sum_i128(s.drop_last()) + s.last()
    }
}

/// Replacing one entry moves the sum by exactly the difference between the
/// new and the old entry.
pub proof fn lemma_sum_update(s: Seq<i128>, i: int, v: i128)
    requires
        0 <= i < s.len(),
    ensures
        sum_i128(s.update(i, v)) == sum_i128(s) - s[i] + v,
    decreases s.len(),
{
    if i == s.len() - 1 {
        assert(s.update(i, v).drop_last() =~= s.drop_last());
        assert(s.update(i, v).last() == v);
    } else {
        assert(s.update(i, v).drop_last() =~= s.drop_last().update(i, v));
        assert(s.update(i, v).last() == s.last());
        lemma_sum_update(s.drop_last(), i, v);
    }
}

/// A field whose entries are all zero sums to zero.
pub proof fn lemma_sum_zero(s: Seq<i128>)
    requires
        forall|j: int| 0 <= j < s.len() ==> s[j] == 0,
    ensures
        sum_i128(s) == 0,
    decreases s.len(),
{
    if s.len() > 0 {
        lemma_sum_zero(s.drop_last());
    }
}

} // verus!
