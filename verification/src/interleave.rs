//! Interleavings of two coroutines' update sequences.
//!
//! Cooperative scheduling fixes no order between the steps of different
//! coroutines beyond each one's own program order: what a shared counter
//! goes through is some interleaving of the two update sequences. The law
//! here says the end result does not depend on which interleaving occurred.

use vstd::prelude::*;

verus! {

/// `c` is an interleaving of `a` and `b`: it contains exactly the elements
/// of both, each sequence's elements in their own order.
pub open spec fn is_interleaving(a: Seq<int>, b: Seq<int>, c: Seq<int>) -> bool
    decreases c.len(),
{
    if c.len() == 0 {
        a.len() == 0 && b.len() == 0
    } else {
        ||| (a.len() > 0 && a.first() == c.first() && is_interleaving(
            a.drop_first(),
            b,
            c.drop_first(),
        ))
        ||| (b.len() > 0 && b.first() == c.first() && is_interleaving(
            a,
            b.drop_first(),
            c.drop_first(),
        ))
    }
}

/// The total movement a sequence of deltas applies to a counter.
pub open spec fn delta_sum(deltas: Seq<int>) -> int
    decreases deltas.len(),
{
    if deltas.len() == 0 {
        0
    } else {
        deltas.first() + delta_sum(deltas.drop_first())
    }
}

/// Order independence: whatever interleaving of two coroutines' updates the
/// scheduler produces, the counter moves by the sum of both sequences.
pub proof fn lemma_interleaving_sum(a: Seq<int>, b: Seq<int>, c: Seq<int>)
    requires
        is_interleaving(a, b, c),
    ensures
        delta_sum(c) == delta_sum(a) + delta_sum(b),
    decreases c.len(),
{
    if c.len() == 0 {
    } else {
        if a.len() > 0 && a.first() == c.first() && is_interleaving(
            a.drop_first(),
            b,
            c.drop_first(),
        ) {
            lemma_interleaving_sum(a.drop_first(), b, c.drop_first());
        } else {
            lemma_interleaving_sum(a, b.drop_first(), c.drop_first());
        }
    }
}

/// Two coroutines share a counter: one adds 1 five times, yielding after
/// each increment; the other adds 100 once. Whatever interleaving the
/// scheduler produces, the counter ends exactly 105 above where it started.
pub proof fn lemma_shared_counter_ends_at_105(increments: Seq<int>)
    requires
        is_interleaving(seq![1, 1, 1, 1, 1], seq![100], increments),
    ensures
        delta_sum(increments) == 105,
{
    lemma_interleaving_sum(seq![1, 1, 1, 1, 1], seq![100], increments);
    assert(delta_sum(seq![1int, 1, 1, 1, 1]) == 5) by {
        reveal_with_fuel(delta_sum, 7);
        assert(seq![1int, 1, 1, 1, 1].drop_first() =~= seq![1int, 1, 1, 1]);
        assert(seq![1int, 1, 1, 1].drop_first() =~= seq![1int, 1, 1]);
        assert(seq![1int, 1, 1].drop_first() =~= seq![1int, 1]);
        assert(seq![1int, 1].drop_first() =~= seq![1int]);
        assert(seq![1int].drop_first() =~= Seq::<int>::empty());
    }
    assert(delta_sum(seq![100int]) == 100) by {
        reveal_with_fuel(delta_sum, 2);
        assert(seq![100int].drop_first() =~= Seq::<int>::empty());
    }
}

} // verus!
