//! The trick engine: the turn order of a trick and the resolution of its
//! winner.

use vstd::prelude::*;
use crate::cards::suit_of;
use crate::legality::cards_ok;

verus! {

/// The index, among the first `n` plays, of the play that is winning so
/// far: the highest card of the leading suit.
pub open spec fn win_idx_upto(cards: Seq<i32>, n: int) -> int
    decreases n,
{
    if n <= 1 {
        0
    } else {
        let b = win_idx_upto(cards, n - 1);
        if suit_of(cards[n - 1]) == suit_of(cards[0]) && cards[b] < cards[n - 1] {
            n - 1
        } else {
            b
        }
    }
}

/// The index of the winning play of a complete trick.
pub open spec fn winner_index(cards: Seq<i32>) -> int {
    win_idx_upto(cards, cards.len() as int)
}

pub proof fn lemma_win_idx_upto_range(cards: Seq<i32>, n: int)
    ensures
        0 <= win_idx_upto(cards, n) < if n <= 1 { 1int } else { n },
    decreases n,
{
    if n > 1 {
        lemma_win_idx_upto_range(cards, n - 1);
    }
}

/// The winning index of a four-play trick is one of the four.
pub proof fn lemma_winner_index_range(cards: Seq<i32>)
    requires
        cards.len() >= 1,
    ensures
        0 <= winner_index(cards) < cards.len(),
{
    lemma_win_idx_upto_range(cards, cards.len() as int);
}

/// Exactly one play wins a trick: the winner's card follows the leading
/// suit, and no other play of the leading suit outranks it. When the plays
/// are distinct, every other play of the leading suit ranks strictly
/// below the winner's, so no other play wins.
pub proof fn lemma_trick_winner(cards: Seq<i32>)
    requires
        cards.len() >= 1,
    ensures
        0 <= winner_index(cards) < cards.len(),
        suit_of(cards[winner_index(cards)]) == suit_of(cards[0]),
        forall|k: int|
            0 <= k < cards.len() && suit_of(#[trigger] cards[k]) == suit_of(cards[0]) ==> cards[k]
                <= cards[winner_index(cards)],
{
    lemma_trick_winner_upto(cards, cards.len() as int);
}

proof fn lemma_trick_winner_upto(cards: Seq<i32>, n: int)
    requires
        1 <= n <= cards.len(),
    ensures
        0 <= win_idx_upto(cards, n) < n,
        suit_of(cards[win_idx_upto(cards, n)]) == suit_of(cards[0]),
        forall|k: int|
            0 <= k < n && suit_of(#[trigger] cards[k]) == suit_of(cards[0]) ==> cards[k]
                <= cards[win_idx_upto(cards, n)],
    decreases n,
{
    if n > 1 {
        lemma_trick_winner_upto(cards, n - 1);
    }
}

/// Distinct plays give a strict winner: any other play of the leading suit
/// ranks strictly below the winning one.
pub proof fn lemma_trick_winner_unique(cards: Seq<i32>)
    requires
        cards.len() >= 1,
        forall|i: int, j: int| 0 <= i < j < cards.len() ==> cards[i] != cards[j],
    ensures
        forall|k: int|
            0 <= k < cards.len() && k != winner_index(cards) && suit_of(#[trigger] cards[k])
                == suit_of(cards[0]) ==> cards[k] < cards[winner_index(cards)],
{
    lemma_trick_winner(cards);
    let w = winner_index(cards);
    assert forall|k: int|
        0 <= k < cards.len() && k != w && suit_of(#[trigger] cards[k]) == suit_of(
            cards[0],
        ) implies cards[k] < cards[w] by {
        if k < w {
            assert(cards[k] != cards[w]);
        } else {
            assert(cards[w] != cards[k]);
        }
    }
}

/// The turn order of a trick: the given leader first, then the remaining
/// players in fixed circular order of their indices.
pub fn determine_agent_order(winner: i32) -> (order: Vec<i32>)
    requires
        0 <= winner < 4,
    ensures
        order@.len() == 4,
        forall|i: int| 0 <= i < 4 ==> order@[i] == (winner + i) % 4,
        forall|i: int| 0 <= i < 4 ==> 0 <= #[trigger] order@[i] < 4,
{
    let mut order: Vec<i32> = Vec::new();
    let mut i: usize = 0;
    while i < 4
        invariant
            0 <= winner < 4,
            i <= 4,
            order@.len() == i,
            forall|j: int| 0 <= j < i ==> order@[j] == (winner + j) % 4,
            forall|j: int| 0 <= j < i ==> 0 <= #[trigger] order@[j] < 4,
        decreases 4 - i,
    {
        let v = if winner + (i as i32) < 4 {
            winner + (i as i32)
        } else {
            winner + (i as i32) - 4
        };
        order.push(v);
        i = i + 1;
    }
    order
}

/// Each player appears exactly once in a trick's turn order.
pub proof fn lemma_order_covers_players(order: Seq<i32>, winner: i32)
    requires
        0 <= winner < 4,
        order.len() == 4,
        forall|i: int| 0 <= i < 4 ==> order[i] == (winner + i) % 4,
    ensures
        forall|i: int, j: int| 0 <= i < j < 4 ==> order[i] != order[j],
        forall|p: i32| 0 <= p < 4 ==> #[trigger] order.contains(p),
{
    assert forall|p: i32| 0 <= p < 4 implies #[trigger] order.contains(p) by {
        let i = if p >= winner {
            p - winner
        } else {
            p + 4 - winner
        };
        assert(order[i] == (winner + i) % 4);
        assert((winner + i) % 4 == p);
        assert(order[i] == p);
    }
}

/// The winner of a trick: the player of the highest-ranked play that
/// follows the leading suit.
pub fn determine_winner(agent_order: &Vec<i32>, card_sequence: &Vec<i32>) -> (w: i32)
    requires
        agent_order@.len() == 4,
        card_sequence@.len() == 4,
        cards_ok(card_sequence@),
    ensures
        w == agent_order@[winner_index(card_sequence@)],
        0 <= winner_index(card_sequence@) < 4,
{
    let leading_card = card_sequence[0];
    let lc_suit = crate::cards::get_suit(leading_card);
    let mut best: usize = 0;
    let mut j: usize = 1;
    while j < 4
        invariant
            1 <= j <= 4,
            agent_order@.len() == 4,
            card_sequence@.len() == 4,
            cards_ok(card_sequence@),
            lc_suit == suit_of(card_sequence@[0]),
            best < j,
            best == win_idx_upto(card_sequence@, j as int),
        decreases 4 - j,
    {
        if crate::cards::get_suit(card_sequence[j]) == lc_suit
            && card_sequence[best] < card_sequence[j] {
            best = j;
        }
        j = j + 1;
    }
    agent_order[best]
}

} // verus!
