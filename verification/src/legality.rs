//! The legality checker: the single source of truth for whether a candidate
//! card may be played, given the hand, the trick so far, the trick index and
//! the breaking-hearts flag.

use vstd::prelude::*;
use crate::cards::{is_card, is_slot, suit_of, C_2, CLUB, DIA, SPADE, HEART};
use crate::counting::num_cards;

verus! {

/// Whether the hand holds at least one card of the given suit.
pub open spec fn has_suit(hand: Seq<i32>, suit: int) -> bool {
    exists|i: int| 0 <= i < hand.len() && hand[i] != -1 && suit_of(hand[i]) == suit
}

/// Every entry of a hand is an empty slot or a card.
pub open spec fn slots_ok(hand: Seq<i32>) -> bool {
    forall|i: int| 0 <= i < hand.len() ==> is_slot(#[trigger] hand[i])
}

/// Every entry of a play sequence is a card.
pub open spec fn cards_ok(s: Seq<i32>) -> bool {
    forall|i: int| 0 <= i < s.len() ==> is_card(#[trigger] s[i])
}

/// Whether `card`, drawn from `hand`, may be played when `trick` holds the
/// plays made so far in the current trick.
///
/// When the trick is empty the player leads: in trick 0 only the Two of
/// Clubs may lead; later, a heart may lead once hearts are broken, or
/// unconditionally when the hand has no club, no diamond and no spade.
/// When the trick is non-empty the player must follow the leading suit if
/// able, and may otherwise play anything.
pub open spec fn is_legal(
    hand: Seq<i32>,
    trick: Seq<i32>,
    card: i32,
    trick_index: int,
    breaking_hearts: bool,
) -> bool {
    if trick.len() == 0 {
        if trick_index == 0 {
            card == C_2
        } else if suit_of(card) == HEART {
            (!has_suit(hand, CLUB as int) && !has_suit(hand, DIA as int)
                && !has_suit(hand, SPADE as int)) || breaking_hearts
        } else {
            true
        }
    } else {
        let lead = suit_of(trick[0]);
        if has_suit(hand, lead) {
            suit_of(card) == lead
        } else {
            true
        }
    }
}

/// Whether any heart has been played in the given history.
pub open spec fn hearts_broken(history: Seq<i32>) -> bool {
    exists|i: int| 0 <= i < history.len() && suit_of(history[i]) == HEART
}

pub fn is_suit_in_hand(hand: &Vec<i32>, suit: i32) -> (r: bool)
    requires
        slots_ok(hand@),
    ensures
        r == has_suit(hand@, suit as int),
{
    let n = hand.len();
    let mut i: usize = 0;
    while i < n
        invariant
            i <= n,
            n == hand@.len(),
            slots_ok(hand@),
            forall|j: int| 0 <= j < i ==> !(hand@[j] != -1 && suit_of(#[trigger] hand@[j]) == suit),
        decreases n - i,
    {
        let h = hand[i];
        if h != -1 && crate::cards::get_suit(h) == suit {
            return true;
        }
        i = i + 1;
    }
    false
}

/// The legality predicate, used by every agent and by the round engine's
/// own validation of agent output.
pub fn is_valid_card(
    hand: &Vec<i32>,
    trick_so_far: &Vec<i32>,
    card: i32,
    trick: usize,
    bh_flag: bool,
) -> (r: bool)
    requires
        slots_ok(hand@),
        cards_ok(trick_so_far@),
        is_card(card),
    ensures
        r == is_legal(hand@, trick_so_far@, card, trick as int, bh_flag),
{
    if trick_so_far.len() == 0 {
        if trick == 0 {
            card == C_2
        } else if crate::cards::get_suit(card) == HEART {
            if !is_suit_in_hand(hand, CLUB) && !is_suit_in_hand(hand, DIA)
                && !is_suit_in_hand(hand, SPADE) {
                true
            } else {
                bh_flag
            }
        } else {
            true
        }
    } else {
        let lead_suit = crate::cards::get_suit(trick_so_far[0]);
        if is_suit_in_hand(hand, lead_suit) {
            crate::cards::get_suit(card) == lead_suit
        } else {
            true
        }
    }
}

/// Once a heart stands anywhere in the history, it stands in every later
/// history, and a heart lead is legal in every later trick: the
/// breaking-hearts latch never resets within a round.
pub proof fn lemma_hearts_stay_broken(history: Seq<i32>, later_plays: Seq<i32>)
    requires
        hearts_broken(history),
    ensures
        hearts_broken(history + later_plays),
{
    let i = choose|i: int| 0 <= i < history.len() && suit_of(history[i]) == HEART;
    assert((history + later_plays)[i] == history[i]);
}

/// With hearts broken, leading any heart is legal in every trick after the
/// first, whatever the hand holds.
pub proof fn lemma_heart_lead_legal_once_broken(hand: Seq<i32>, card: i32, trick_index: int)
    requires
        trick_index >= 1,
        suit_of(card) == HEART,
    ensures
        is_legal(hand, Seq::<i32>::empty(), card, trick_index, true),
{
}

/// The following-suit invariant: a legal play out of a hand that can follow
/// the leading suit always follows it.
pub proof fn lemma_following_suit(
    hand: Seq<i32>,
    trick: Seq<i32>,
    card: i32,
    trick_index: int,
    breaking_hearts: bool,
)
    requires
        trick.len() > 0,
        has_suit(hand, suit_of(trick[0])),
        is_legal(hand, trick, card, trick_index, breaking_hearts),
    ensures
        suit_of(card) == suit_of(trick[0]),
{
}

/// A non-empty hand always offers at least one legal card, provided the
/// leader of trick 0 holds the Two of Clubs.
pub proof fn lemma_legal_move_exists(
    hand: Seq<i32>,
    trick: Seq<i32>,
    trick_index: int,
    breaking_hearts: bool,
)
    requires
        num_cards(hand) > 0,
        slots_ok(hand),
        cards_ok(trick),
        trick.len() == 0 && trick_index == 0 ==> hand.contains(C_2),
    ensures
        exists|i: int|
            0 <= i < hand.len() && hand[i] != -1 && is_legal(
                hand,
                trick,
                hand[i],
                trick_index,
                breaking_hearts,
            ),
{
    if trick.len() == 0 && trick_index == 0 {
        let i = choose|i: int| 0 <= i < hand.len() && hand[i] == C_2;
        assert(hand[i] != -1 && is_legal(hand, trick, hand[i], trick_index, breaking_hearts));
    } else if trick.len() == 0 {
        if has_suit(hand, CLUB as int) {
            let i = choose|i: int|
                0 <= i < hand.len() && hand[i] != -1 && suit_of(hand[i]) == CLUB as int;
            assert(hand[i] != -1 && is_legal(hand, trick, hand[i], trick_index, breaking_hearts));
        } else if has_suit(hand, DIA as int) {
            let i = choose|i: int|
                0 <= i < hand.len() && hand[i] != -1 && suit_of(hand[i]) == DIA as int;
            assert(hand[i] != -1 && is_legal(hand, trick, hand[i], trick_index, breaking_hearts));
        } else if has_suit(hand, SPADE as int) {
            let i = choose|i: int|
                0 <= i < hand.len() && hand[i] != -1 && suit_of(hand[i]) == SPADE as int;
            assert(hand[i] != -1 && is_legal(hand, trick, hand[i], trick_index, breaking_hearts));
        } else {
            crate::counting::lemma_num_cards_positive(hand);
            let i = choose|i: int| 0 <= i < hand.len() && hand[i] != -1;
            crate::cards::lemma_suit_range(hand[i]);
            assert(suit_of(hand[i]) == HEART as int);
            assert(hand[i] != -1 && is_legal(hand, trick, hand[i], trick_index, breaking_hearts));
        }
    } else {
        let lead = suit_of(trick[0]);
        if has_suit(hand, lead) {
            let i = choose|i: int|
                0 <= i < hand.len() && hand[i] != -1 && suit_of(hand[i]) == lead;
            assert(hand[i] != -1 && is_legal(hand, trick, hand[i], trick_index, breaking_hearts));
        } else {
            crate::counting::lemma_num_cards_positive(hand);
            let i = choose|i: int| 0 <= i < hand.len() && hand[i] != -1;
            assert(hand[i] != -1 && is_legal(hand, trick, hand[i], trick_index, breaking_hearts));
        }
    }
}

} // verus!
