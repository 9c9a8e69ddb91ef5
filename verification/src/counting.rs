//! Occurrence counting over card sequences.
//!
//! These spec functions and lemmas carry the conservation argument of the
//! round engine: the four hands and the play history together always hold
//! each of the 52 cards exactly once.

use vstd::prelude::*;
use crate::cards::suit_of;

verus! {

/// How many entries of `s` equal `c`.
pub open spec fn count_in(s: Seq<i32>, c: i32) -> int
    decreases s.len(),
{
    if s.len() == 0 {
        0
    } else {
        count_in(s.drop_last(), c) + if s.last() == c { 1int } else { 0int }
    }
}

/// How many entries of `s` are cards, that is, not empty slots.
pub open spec fn num_cards(s: Seq<i32>) -> int
    decreases s.len(),
{
    if s.len() == 0 {
        0
    } else {
        num_cards(s.drop_last()) + if s.last() == -1 { 0int } else { 1int }
    }
}

/// Whether `s` holds the card `c` somewhere.
pub open spec fn has_card(s: Seq<i32>, c: i32) -> bool {
    exists|i: int| 0 <= i < s.len() && s[i] == c
}

/// How many entries of `s` are cards of suit `suit`.
pub open spec fn suit_count(s: Seq<i32>, suit: int) -> int
    decreases s.len(),
{
    if s.len() == 0 {
        0
    } else {
        suit_count(s.drop_last(), suit)
            + if s.last() != -1 && suit_of(s.last()) == suit { 1int } else { 0int }
    }
}

pub proof fn lemma_count_in_push(s: Seq<i32>, x: i32, c: i32)
    ensures
        count_in(s.push(x), c) == count_in(s, c) + if x == c { 1int } else { 0int },
{
    assert(s.push(x).drop_last() =~= s);
}

pub proof fn lemma_count_in_update(s: Seq<i32>, i: int, x: i32, c: i32)
    requires
        0 <= i < s.len(),
    ensures
        count_in(s.update(i, x), c) == count_in(s, c)
            - (if s[i] == c { 1int } else { 0int })
            + (if x == c { 1int } else { 0int }),
    decreases s.len(),
{
    if i == s.len() - 1 {
        assert(s.update(i, x).drop_last() =~= s.drop_last());
        assert(s.update(i, x).last() == x);
    } else {
        assert(s.update(i, x).drop_last() =~= s.drop_last().update(i, x));
        assert(s.update(i, x).last() == s.last());
        lemma_count_in_update(s.drop_last(), i, x, c);
    }
}

pub proof fn lemma_num_cards_update(s: Seq<i32>, i: int, x: i32)
    requires
        0 <= i < s.len(),
    ensures
        num_cards(s.update(i, x)) == num_cards(s)
            - (if s[i] == -1 { 0int } else { 1int })
            + (if x == -1 { 0int } else { 1int }),
    decreases s.len(),
{
    if i == s.len() - 1 {
        assert(s.update(i, x).drop_last() =~= s.drop_last());
        assert(s.update(i, x).last() == x);
    } else {
        assert(s.update(i, x).drop_last() =~= s.drop_last().update(i, x));
        assert(s.update(i, x).last() == s.last());
        lemma_num_cards_update(s.drop_last(), i, x);
    }
}

pub proof fn lemma_count_in_concat(a: Seq<i32>, b: Seq<i32>, c: i32)
    ensures
        count_in(a + b, c) == count_in(a, c) + count_in(b, c),
    decreases b.len(),
{
    if b.len() == 0 {
        assert(a + b =~= a);
    } else {
        assert((a + b).drop_last() =~= a + b.drop_last());
        assert((a + b).last() == b.last());
        lemma_count_in_concat(a, b.drop_last(), c);
    }
}

/// A positive count is the same as membership.
pub proof fn lemma_count_in_positive(s: Seq<i32>, c: i32)
    ensures
        count_in(s, c) > 0 <==> has_card(s, c),
        count_in(s, c) >= 0,
    decreases s.len(),
{
    if s.len() > 0 {
        lemma_count_in_positive(s.drop_last(), c);
        if has_card(s.drop_last(), c) {
            let i = choose|i: int| 0 <= i < s.drop_last().len() && s.drop_last()[i] == c;
            assert(s[i] == c);
        }
        if has_card(s, c) && s.last() != c {
            let i = choose|i: int| 0 <= i < s.len() && s[i] == c;
            assert(s.drop_last()[i] == c);
        }
    }
}

/// A hand with no cards left has a zero count of every card.
pub proof fn lemma_empty_hand_counts(s: Seq<i32>, c: i32)
    requires
        num_cards(s) == 0,
        c != -1,
    ensures
        count_in(s, c) == 0,
    decreases s.len(),
{
    if s.len() > 0 {
        lemma_num_cards_nonneg(s.drop_last());
        lemma_empty_hand_counts(s.drop_last(), c);
    }
}

pub proof fn lemma_num_cards_nonneg(s: Seq<i32>)
    ensures
        0 <= num_cards(s) <= s.len(),
    decreases s.len(),
{
    if s.len() > 0 {
        lemma_num_cards_nonneg(s.drop_last());
    }
}

/// A hand with a card left has a non-sentinel entry.
pub proof fn lemma_num_cards_positive(s: Seq<i32>)
    requires
        num_cards(s) > 0,
    ensures
        exists|i: int| 0 <= i < s.len() && s[i] != -1,
    decreases s.len(),
{
    if s.len() > 0 {
        if s.last() != -1 {
            assert(s[s.len() - 1] != -1);
        } else {
            lemma_num_cards_positive(s.drop_last());
            let i = choose|i: int| 0 <= i < s.drop_last().len() && s.drop_last()[i] != -1;
            assert(s[i] != -1);
        }
    }
}

pub proof fn lemma_suit_count_bounds(s: Seq<i32>, suit: int)
    ensures
        0 <= suit_count(s, suit) <= s.len(),
    decreases s.len(),
{
    if s.len() > 0 {
        lemma_suit_count_bounds(s.drop_last(), suit);
    }
}

/// A hand whose slots are all full holds as many cards as slots.
pub proof fn lemma_num_cards_full(s: Seq<i32>)
    requires
        forall|i: int| 0 <= i < s.len() ==> #[trigger] s[i] != -1,
    ensures
        num_cards(s) == s.len(),
    decreases s.len(),
{
    if s.len() > 0 {
        lemma_num_cards_full(s.drop_last());
    }
}

/// Swapping two entries leaves every count unchanged.
pub proof fn lemma_count_swap(s: Seq<i32>, i: int, j: int)
    requires
        0 <= i < s.len(),
        0 <= j < s.len(),
    ensures
        forall|c: i32|
            #[trigger] count_in(s.update(i, s[j]).update(j, s[i]), c) == count_in(s, c),
{
    assert forall|c: i32|
        #[trigger] count_in(s.update(i, s[j]).update(j, s[i]), c) == count_in(s, c) by {
        lemma_count_in_update(s, i, s[j], c);
        lemma_count_in_update(s.update(i, s[j]), j, s[i], c);
    }
}

/// The sequence 0, 1, ..., n-1 holds each value below n exactly once.
pub proof fn lemma_count_in_iota(s: Seq<i32>, c: i32)
    requires
        forall|j: int| 0 <= j < s.len() ==> s[j] == j,
    ensures
        count_in(s, c) == if 0 <= c < s.len() { 1int } else { 0int },
    decreases s.len(),
{
    if s.len() > 0 {
        assert(forall|j: int| 0 <= j < s.drop_last().len() ==> s.drop_last()[j] == j);
        lemma_count_in_iota(s.drop_last(), c);
        assert(s.last() == s.len() - 1);
    }
}

} // verus!
