//! Summation over sequences, used to account for jobs across the queue, the
//! workers, and the completion records.

use vstd::prelude::*;

verus! {

/// Sum of `f` over every element of `s`.
pub open spec fn sum_over<T>(s: Seq<T>, f: spec_fn(T) -> nat) -> nat
    decreases s.len(),
{
    if s.len() == 0 {
        0
    } else {
        f(s[0]) + sum_over(s.skip(1), f)
    }
}

/// Appending an element adds exactly its contribution to the sum.
pub proof fn lemma_sum_push<T>(s: Seq<T>, x: T, f: spec_fn(T) -> nat)
    ensures
        sum_over(s.push(x), f) == sum_over(s, f) + f(x),
    decreases s.len(),
{
    if s.len() == 0 {
        assert(s.push(x)[0] == x);
        assert(s.push(x).skip(1) =~= Seq::<T>::empty());
        assert(sum_over(Seq::<T>::empty(), f) == 0);
        assert(sum_over(s.push(x), f) == f(x));
    } else {
        assert(s.push(x)[0] == s[0]);
        assert(s.push(x).skip(1) =~= s.skip(1).push(x));
        lemma_sum_push(s.skip(1), x, f);
    }
}

/// Replacing one element exchanges its contribution for the new one's.
pub proof fn lemma_sum_update<T>(s: Seq<T>, i: int, x: T, f: spec_fn(T) -> nat)
    requires
        0 <= i < s.len(),
    ensures
        sum_over(s.update(i, x), f) + f(s[i]) == sum_over(s, f) + f(x),
    decreases s.len(),
{
    if i == 0 {
        assert(s.update(0, x).skip(1) =~= s.skip(1));
    } else {
        assert(s.update(i, x).skip(1) =~= s.skip(1).update(i - 1, x));
        lemma_sum_update(s.skip(1), i - 1, x, f);
    }
}

/// A sum of all-zero contributions is zero.
pub proof fn lemma_sum_zero<T>(s: Seq<T>, f: spec_fn(T) -> nat)
    requires
        forall|i: int| 0 <= i < s.len() ==> f(#[trigger] s[i]) == 0,
    ensures
        sum_over(s, f) == 0,
    decreases s.len(),
{
    if s.len() > 0 {
        lemma_sum_zero(s.skip(1), f);
    }
}

/// A sum of all-one contributions is the length.
pub proof fn lemma_sum_ones<T>(s: Seq<T>, f: spec_fn(T) -> nat)
    requires
        forall|i: int| 0 <= i < s.len() ==> f(#[trigger] s[i]) == 1,
    ensures
        sum_over(s, f) == s.len(),
    decreases s.len(),
{
    if s.len() > 0 {
        lemma_sum_ones(s.skip(1), f);
    }
}

} // verus!
