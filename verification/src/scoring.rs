//! The heuristic selection policy's scoring rules, as specification
//! functions: the exact score every candidate card receives when leading
//! and when following.

use vstd::prelude::*;
use crate::cards::{is_card, suit_of, symbol_of, S_Q, S_K, S_A, SPADE, HEART};
use crate::counting::{has_card, suit_count};
use crate::legality::{is_legal, slots_ok};

verus! {

/// The score of the best possible play.
pub const MAX_SCORE: i32 = i32::MAX;

/// The score of a slot that holds no legal card.
pub const MIN_SCORE: i32 = i32::MIN;

/// The plays already made in the current trick: the tail of the history
/// after the first `4 * trick` plays of the finished tricks.
pub open spec fn current_trick(history: Seq<i32>, trick: int) -> Seq<i32> {
    history.subrange(4 * trick, history.len() as int)
}

/// The leading score of a legal candidate `card`, cumulative over the
/// rules in order: aversion to the Queen of Spades; caution with the King
/// and Ace of Spades while the Queen is unseen; preference for low hearts;
/// shedding low cards late in the round; holding spades back while the
/// hand holds the Queen; leading from short suits; and leading low hearts
/// once hearts are broken.
pub open spec fn lead_score(
    hand: Seq<i32>,
    history: Seq<i32>,
    card: i32,
    trick: int,
    breaking_hearts: bool,
) -> int {
    let s0 = 0int;
    let s1 = if card == S_Q {
        -70int
    } else {
        s0
    };
    let s2 = if (card == S_K || card == S_A) && !has_card(history, S_Q) {
        -(card as int)
    } else {
        s1
    };
    let s3 = if suit_of(card) == HEART {
        -(card as int) + 20
    } else {
        s2
    };
    let s4 = if trick >= 6 {
        s3 - symbol_of(card)
    } else {
        s3
    };
    let s5 = if suit_of(card) == SPADE && has_card(hand, S_Q) {
        s4 - 50
    } else {
        s4
    };
    let s6 = if card != S_Q && card != S_K && card != S_A {
        10 - suit_count(hand, suit_of(card)) - suit_of(card) + s5
    } else {
        s5
    };
    if breaking_hearts && suit_of(card) == HEART {
        s6 + 50 - card
    } else {
        s6
    }
}

/// The following score of a legal candidate `card`. The first six rules
/// short-circuit; the remaining ones overwrite the base score.
pub open spec fn follow_score(
    history: Seq<i32>,
    trick_cards: Seq<i32>,
    card: i32,
    turn: int,
) -> int {
    let base = if card == S_Q {
        -70int
    } else if card == S_K || card == S_A {
        -(card as int)
    } else {
        0int
    };
    let lead = suit_of(trick_cards[0]);
    if card == S_Q && (has_card(trick_cards, S_K) || has_card(trick_cards, S_A)) {
        MAX_SCORE as int
    } else if card == S_Q && suit_of(card) != lead {
        MAX_SCORE as int
    } else if (card == S_K || card == S_A) && suit_of(card) != lead && !has_card(history, S_Q) {
        MAX_SCORE - (50 - card)
    } else if (card == S_K || card == S_A) && has_card(trick_cards, S_Q) && suit_of(card) == lead {
        -100 + card + base
    } else if (card == S_K || card == S_A) && !has_card(history, S_Q) {
        -50 + card + base
    } else if turn == 3 && (card == S_K || card == S_A) && !has_card(trick_cards, S_Q) {
        card as int
    } else if suit_of(card) == HEART && suit_of(card) != lead {
        card as int
    } else if suit_of(card) == HEART && lead == HEART {
        60 - card
    } else {
        base
    }
}

/// The score that the heuristic agent assigns to hand slot `i`: the
/// leading or following score of a slot that holds a legal card, and the
/// minimum score otherwise.
pub open spec fn slot_score(
    hand: Seq<i32>,
    history: Seq<i32>,
    trick: int,
    turn: int,
    breaking_hearts: bool,
    i: int,
) -> int {
    if 0 <= i < hand.len() && hand[i] != -1 && is_legal(
        hand,
        current_trick(history, trick),
        hand[i],
        trick,
        breaking_hearts,
    ) {
        if turn == 0 {
            lead_score(hand, history, hand[i], trick, breaking_hearts)
        } else {
            follow_score(history, current_trick(history, trick), hand[i], turn)
        }
    } else {
        MIN_SCORE as int
    }
}

/// The slot, among the first `n`, whose score is highest; equal scores
/// keep the later slot, matching a selection loop that prefers the
/// latest maximum in the hand's sorted order.
pub open spec fn best_slot(
    hand: Seq<i32>,
    history: Seq<i32>,
    trick: int,
    turn: int,
    breaking_hearts: bool,
    n: int,
) -> int
    decreases n,
{
    if n <= 1 {
        0
    } else {
        let b = best_slot(hand, history, trick, turn, breaking_hearts, n - 1);
        if slot_score(hand, history, trick, turn, breaking_hearts, n - 1) >= slot_score(
            hand,
            history,
            trick,
            turn,
            breaking_hearts,
            b,
        ) {
            n - 1
        } else {
            b
        }
    }
}

/// Every leading score is far above the minimum score.
pub proof fn lemma_lead_score_above_min(
    hand: Seq<i32>,
    history: Seq<i32>,
    card: i32,
    trick: int,
    breaking_hearts: bool,
)
    requires
        is_card(card),
        hand.len() <= 13,
    ensures
        lead_score(hand, history, card, trick, breaking_hearts) > MIN_SCORE + 1000,
{
    crate::cards::lemma_suit_range(card);
    crate::counting::lemma_suit_count_bounds(hand, suit_of(card));
}

/// Every following score is far above the minimum score.
pub proof fn lemma_follow_score_above_min(
    history: Seq<i32>,
    trick_cards: Seq<i32>,
    card: i32,
    turn: int,
)
    requires
        is_card(card),
    ensures
        follow_score(history, trick_cards, card, turn) > MIN_SCORE + 1000,
{
    crate::cards::lemma_suit_range(card);
}

/// The best slot is one of the first `n` and scores at least as high as
/// every one of them.
pub proof fn lemma_best_slot_is_max(
    hand: Seq<i32>,
    history: Seq<i32>,
    trick: int,
    turn: int,
    breaking_hearts: bool,
    n: int,
)
    ensures
        0 <= best_slot(hand, history, trick, turn, breaking_hearts, n) < if n <= 1 {
            1int
        } else {
            n
        },
        forall|j: int|
            0 <= j < n ==> #[trigger] slot_score(hand, history, trick, turn, breaking_hearts, j)
                <= slot_score(
                hand,
                history,
                trick,
                turn,
                breaking_hearts,
                best_slot(hand, history, trick, turn, breaking_hearts, n),
            ),
    decreases n,
{
    if n > 1 {
        lemma_best_slot_is_max(hand, history, trick, turn, breaking_hearts, n - 1);
    }
}

/// A hand that offers some legal card never selects an empty or illegal
/// slot: the best slot holds a legal card.
pub proof fn lemma_best_slot_legal(
    hand: Seq<i32>,
    history: Seq<i32>,
    trick: int,
    turn: int,
    breaking_hearts: bool,
)
    requires
        hand.len() == 13,
        slots_ok(hand),
        exists|i: int|
            0 <= i < 13 && hand[i] != -1 && is_legal(
                hand,
                current_trick(history, trick),
                hand[i],
                trick,
                breaking_hearts,
            ),
    ensures
        ({
            let b = best_slot(hand, history, trick, turn, breaking_hearts, 13);
            &&& 0 <= b < 13
            &&& hand[b] != -1
            &&& is_legal(hand, current_trick(history, trick), hand[b], trick, breaking_hearts)
        }),
{
    lemma_best_slot_is_max(hand, history, trick, turn, breaking_hearts, 13);
    let i = choose|i: int|
        0 <= i < 13 && hand[i] != -1 && is_legal(
            hand,
            current_trick(history, trick),
            hand[i],
            trick,
            breaking_hearts,
        );
    assert(is_card(hand[i]));
    if turn == 0 {
        lemma_lead_score_above_min(hand, history, hand[i], trick, breaking_hearts);
    } else {
        lemma_follow_score_above_min(history, current_trick(history, trick), hand[i], turn);
    }
    let b = best_slot(hand, history, trick, turn, breaking_hearts, 13);
    assert(slot_score(hand, history, trick, turn, breaking_hearts, i) <= slot_score(
        hand,
        history,
        trick,
        turn,
        breaking_hearts,
        b,
    ));
}

} // verus!
