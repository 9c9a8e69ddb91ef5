//! The card model: the 52-card deck, suit/rank decomposition, and the
//! named special cards.
//!
//! A card is an `i32` in `0..52`. The suit is `card / 13` (club, diamond,
//! spade, heart in that order) and the rank symbol is `card % 13`
//! (0 = "2" up to 12 = "ace"). The value `-1` marks an empty hand slot.

use vstd::prelude::*;

verus! {

/// Number of cards in each suit: 2-10, J, Q, K and A.
pub const NUM_KC: usize = 13;

/// Number of cards in the whole deck.
pub const NUM_CARDS: usize = 52;

/// Hearts is played by exactly four players.
pub const NUM_PLAYERS: usize = 4;

pub const CLUB: i32 = 0;

pub const DIA: i32 = 1;

pub const SPADE: i32 = 2;

pub const HEART: i32 = 3;

/// The Two of Clubs, the forced opening lead.
pub const C_2: i32 = 0;

/// The Queen of Spades, worth 13 penalty points.
pub const S_Q: i32 = 36;

/// The King of Spades.
pub const S_K: i32 = 37;

/// The Ace of Spades.
pub const S_A: i32 = 38;

/// A value that denotes one of the 52 cards.
pub open spec fn is_card(card: i32) -> bool {
    0 <= card < 52
}

/// An entry of a hand: either an empty slot or a card.
pub open spec fn is_slot(v: i32) -> bool {
    v == -1 || is_card(v)
}

/// The suit of a card, 0 through 3.
pub open spec fn suit_of(card: i32) -> int {
    card as int / 13
}

/// The rank symbol of a card, 0 (the "2") through 12 (the ace).
pub open spec fn symbol_of(card: i32) -> int {
    card as int % 13
}

/// Every card's suit is one of the four.
pub proof fn lemma_suit_range(card: i32)
    requires
        is_card(card),
    ensures
        0 <= suit_of(card) <= 3,
        0 <= symbol_of(card) <= 12,
        suit_of(card) == HEART <==> 39 <= card < 52,
{
}

/// The suit of a card.
pub fn get_suit(card: i32) -> (s: i32)
    requires
        0 <= card,
    ensures
        s == suit_of(card),
{
    card / 13
}

} // verus!
