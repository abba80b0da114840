//! One sequence lying within another, in order.

use vstd::prelude::*;

verus! {

/// `small` can be had from `big` by leaving elements out: its elements occur
/// in `big`, in the same order.
pub open spec fn within<T>(small: Seq<T>, big: Seq<T>) -> bool
    decreases big.len(),
{
    if small.len() == 0 {
        true
    } else if big.len() == 0 {
        false
    } else {
        ||| small[0] == big[0] && within(small.skip(1), big.skip(1))
        ||| within(small, big.skip(1))
    }
}

/// A sequence lies within itself.
pub proof fn lemma_within_self<T>(s: Seq<T>)
    ensures
        within(s, s),
    decreases s.len(),
{
    if s.len() > 0 {
        lemma_within_self(s.skip(1));
    }
}

/// What lies within a sequence lies within it still when an element is put
/// in front of the sequence.
pub proof fn lemma_within_grows_front<T>(small: Seq<T>, big: Seq<T>, x: T)
    requires
        within(small, big),
    ensures
        within(small, seq![x] + big),
{
    let longer = seq![x] + big;
    assert(longer.skip(1) =~= big);
}

/// What lies within a sequence lies within it still when an element is
/// appended to the sequence.
pub proof fn lemma_within_grows_back<T>(small: Seq<T>, big: Seq<T>, x: T)
    requires
        within(small, big),
    ensures
        within(small, big.push(x)),
    decreases big.len(),
{
    if small.len() > 0 {
        assert(big.push(x).skip(1) =~= big.skip(1).push(x));
        if small[0] == big[0] && within(small.skip(1), big.skip(1)) {
            lemma_within_grows_back(small.skip(1), big.skip(1), x);
        } else {
            lemma_within_grows_back(small, big.skip(1), x);
        }
    }
}

/// What lies within a sequence lies within it still when the same element is
/// appended to both.
pub proof fn lemma_within_back_both<T>(small: Seq<T>, big: Seq<T>, x: T)
    requires
        within(small, big),
    ensures
        within(small.push(x), big.push(x)),
    decreases big.len(),
{
    if big.len() == 0 {
        assert(small.len() == 0);
        assert(small.push(x).skip(1) =~= Seq::<T>::empty());
        assert(big.push(x).skip(1) =~= Seq::<T>::empty());
        assert(within(small.push(x).skip(1), big.push(x).skip(1)));
    } else {
        assert(big.push(x).skip(1) =~= big.skip(1).push(x));
        if small.len() == 0 {
            lemma_within_back_both(small, big.skip(1), x);
            assert(within(small.push(x), big.push(x).skip(1)));
        } else if small[0] == big[0] && within(small.skip(1), big.skip(1)) {
            lemma_within_back_both(small.skip(1), big.skip(1), x);
            assert(small.push(x).skip(1) =~= small.skip(1).push(x));
            assert(within(small.push(x).skip(1), big.push(x).skip(1)));
        } else {
            lemma_within_back_both(small, big.skip(1), x);
            assert(within(small.push(x), big.push(x).skip(1)));
        }
    }
}

/// What lies within a sequence lies within it still when an element is put
/// into the sequence at any place.
pub proof fn lemma_within_insert<T>(small: Seq<T>, big: Seq<T>, at: int, x: T)
    requires
        0 <= at <= big.len(),
        within(small, big),
    ensures
        within(small, big.insert(at, x)),
    decreases big.len(),
{
    if at == 0 {
        assert(big.insert(0, x) =~= seq![x] + big);
        lemma_within_grows_front(small, big, x);
    } else if small.len() > 0 {
        assert(big.insert(at, x).skip(1) =~= big.skip(1).insert(at - 1, x));
        if small[0] == big[0] && within(small.skip(1), big.skip(1)) {
            lemma_within_insert(small.skip(1), big.skip(1), at - 1, x);
        } else {
            lemma_within_insert(small, big.skip(1), at - 1, x);
        }
    }
}

} // verus!
