//! The two card-playing agents and the hand operations they share.
//!
//! A hand is a fixed vector of 13 slots; a played card's slot is set to
//! `-1` and no card is ever added after the deal. The random agent picks
//! uniformly among its legal cards; the rule-based agent scores every
//! legal candidate with the heuristic rules of `scoring` and plays a
//! highest-scoring one.

use vstd::prelude::*;
use crate::cards::{is_card, HEART, S_A, S_K, S_Q, SPADE, symbol_of, suit_of};
use crate::counting::{count_in, has_card, num_cards, suit_count};
use crate::legality::{cards_ok, is_legal, is_valid_card, slots_ok};
use crate::scoring::{best_slot, current_trick, follow_score, lead_score, slot_score, MIN_SCORE};

verus! {

/// A 13-slot hand holding only empty slots or cards.
pub open spec fn hand_ok(hand: Seq<i32>) -> bool {
    hand.len() == 13 && slots_ok(hand)
}

/// Copies the 13 dealt cards into the hand and sorts them ascending, so
/// that later selections scan the hand in suit-then-rank order.
fn fill_hand_sorted(hand: &mut Vec<i32>, cards: &Vec<i32>)
    requires
        cards@.len() == 13,
        cards_ok(cards@),
    ensures
        hand_ok(final(hand)@),
        cards_ok(final(hand)@),
        num_cards(final(hand)@) == 13,
        forall|c: i32| #[trigger] count_in(final(hand)@, c) == count_in(cards@, c),
        forall|p: int, q: int| 0 <= p < q < 13 ==> final(hand)@[p] <= final(hand)@[q],
{
    hand.clear();
    let mut k: usize = 0;
    while k < 13
        invariant
            k <= 13,
            cards@.len() == 13,
            hand@.len() == k,
            forall|m: int| 0 <= m < k ==> hand@[m] == cards@[m],
        decreases 13 - k,
    {
        hand.push(cards[k]);
        k = k + 1;
    }
    assert(hand@ =~= cards@);

    let mut i: usize = 1;
    while i < 13
        invariant
            1 <= i <= 13,
            hand@.len() == 13,
            cards@.len() == 13,
            cards_ok(cards@),
            cards_ok(hand@),
            forall|c: i32| #[trigger] count_in(hand@, c) == count_in(cards@, c),
            forall|p: int, q: int| 0 <= p < q < i ==> hand@[p] <= hand@[q],
        decreases 13 - i,
    {
        let mut j: usize = i;
        while j > 0 && hand[j - 1] > hand[j]
            invariant
                j <= i < 13,
                hand@.len() == 13,
                cards@.len() == 13,
                cards_ok(cards@),
                cards_ok(hand@),
                forall|c: i32| #[trigger] count_in(hand@, c) == count_in(cards@, c),
                forall|p: int, q: int| 0 <= p < q <= i && q != j ==> hand@[p] <= hand@[q],
            decreases j,
        {
            let ghost before = hand@;
            let a = hand[j - 1];
            let b = hand[j];
            hand[j - 1] = b;
            hand[j] = a;
            proof {
                assert(hand@ =~= before.update(j - 1, before[j as int]).update(
                    j as int,
                    before[j - 1],
                ));
                crate::counting::lemma_count_swap(before, j - 1, j as int);
            }
            j = j - 1;
        }
        i = i + 1;
    }
    proof {
        crate::counting::lemma_num_cards_full(hand@);
    }
}

/// Removes the first slot holding `card` by marking it empty; a card that
/// is not in the hand leaves it unchanged.
fn remove_card(hand: &mut Vec<i32>, card: i32)
    requires
        card != -1,
    ensures
        final(hand)@.len() == old(hand)@.len(),
        forall|i: int|
            0 <= i < final(hand)@.len() ==> final(hand)@[i] == old(hand)@[i] || final(hand)@[i]
                == -1,
        forall|c: i32|
            c != card && c != -1 ==> #[trigger] count_in(final(hand)@, c) == count_in(
                old(hand)@,
                c,
            ),
        has_card(old(hand)@, card) ==> count_in(final(hand)@, card) == count_in(old(hand)@, card)
            - 1 && num_cards(final(hand)@) == num_cards(old(hand)@) - 1,
        !has_card(old(hand)@, card) ==> final(hand)@ == old(hand)@,
{
    let n = hand.len();
    let mut i: usize = 0;
    while i < n
        invariant
            i <= n,
            n == hand@.len(),
            card != -1,
            hand@ == old(hand)@,
            forall|j: int| 0 <= j < i ==> hand@[j] != card,
        decreases n - i,
    {
        if hand[i] == card {
            let ghost before = hand@;
            hand[i] = -1;
            proof {
                assert(hand@ =~= before.update(i as int, -1i32));
                assert forall|c: i32| c != card && c != -1 implies #[trigger] count_in(
                    hand@,
                    c,
                ) == count_in(before, c) by {
                    crate::counting::lemma_count_in_update(before, i as int, -1i32, c);
                }
                crate::counting::lemma_count_in_update(before, i as int, -1i32, card);
                crate::counting::lemma_num_cards_update(before, i as int, -1i32);
                assert(has_card(before, card));
            }
            return ;
        }
        i = i + 1;
    }
}

/// The reference agent: it plays a uniformly random card among the legal
/// ones in its hand.
pub struct RandomAgent {
    pub hand: Vec<i32>,
}

impl RandomAgent {
    pub fn new() -> (a: Self)
        ensures
            a.hand@.len() == 13,
            forall|i: int| 0 <= i < 13 ==> a.hand@[i] == -1,
            hand_ok(a.hand@),
    {
        Self { hand: vec![-1, -1, -1, -1, -1, -1, -1, -1, -1, -1, -1, -1, -1] }
    }

    pub fn get_hand(&self) -> (h: &Vec<i32>)
        ensures
            h@ == self.hand@,
    {
        &self.hand
    }

    pub fn set_hand(&mut self, cards: &Vec<i32>)
        requires
            cards@.len() == 13,
            cards_ok(cards@),
        ensures
            hand_ok(final(self).hand@),
            num_cards(final(self).hand@) == 13,
            forall|c: i32| #[trigger] count_in(final(self).hand@, c) == count_in(cards@, c),
    {
        fill_hand_sorted(&mut self.hand, cards);
    }

    pub fn update_hand(&mut self, card: i32)
        requires
            card != -1,
        ensures
            final(self).hand@.len() == old(self).hand@.len(),
            forall|i: int|
                0 <= i < final(self).hand@.len() ==> final(self).hand@[i] == old(self).hand@[i]
                    || final(self).hand@[i] == -1,
            forall|c: i32|
                c != card && c != -1 ==> #[trigger] count_in(final(self).hand@, c) == count_in(
                    old(self).hand@,
                    c,
                ),
            has_card(old(self).hand@, card) ==> count_in(final(self).hand@, card) == count_in(
                old(self).hand@,
                card,
            ) - 1 && num_cards(final(self).hand@) == num_cards(old(self).hand@) - 1,
            !has_card(old(self).hand@, card) ==> final(self).hand@ == old(self).hand@,
    {
        remove_card(&mut self.hand, card);
    }

    /// Picks a uniformly random card among the legal ones. The hand must
    /// offer a legal card; the round engine guarantees that it always
    /// does.
    pub fn select_card(
        &self,
        whole_card_sequence: &Vec<i32>,
        trick: usize,
        turn: usize,
        bh_flag: bool,
    ) -> (card: i32)
        requires
            hand_ok(self.hand@),
            trick < 13,
            turn < 4,
            whole_card_sequence@.len() == 4 * trick + turn,
            cards_ok(whole_card_sequence@),
            exists|i: int|
                0 <= i < 13 && self.hand@[i] != -1 && is_legal(
                    self.hand@,
                    current_trick(whole_card_sequence@, trick as int),
                    self.hand@[i],
                    trick as int,
                    bh_flag,
                ),
        ensures
            card != -1,
            has_card(self.hand@, card),
            is_legal(
                self.hand@,
                current_trick(whole_card_sequence@, trick as int),
                card,
                trick as int,
                bh_flag,
            ),
    {
        let trick_cards = gather_current_trick(whole_card_sequence, trick);
        let mut legal: Vec<i32> = Vec::new();
        let mut i: usize = 0;
        while i < 13
            invariant
                i <= 13,
                hand_ok(self.hand@),
                trick < 13,
                trick_cards@ == current_trick(whole_card_sequence@, trick as int),
                cards_ok(trick_cards@),
                forall|k: int|
                    0 <= k < legal@.len() ==> #[trigger] legal@[k] != -1 && has_card(
                        self.hand@,
                        legal@[k],
                    ) && is_legal(
                        self.hand@,
                        trick_cards@,
                        legal@[k],
                        trick as int,
                        bh_flag,
                    ),
                (exists|j: int|
                    0 <= j < i && self.hand@[j] != -1 && is_legal(
                        self.hand@,
                        trick_cards@,
                        self.hand@[j],
                        trick as int,
                        bh_flag,
                    )) ==> legal@.len() > 0,
            decreases 13 - i,
        {
            let h = self.hand[i];
            if h != -1 && is_valid_card(&self.hand, &trick_cards, h, trick, bh_flag) {
                legal.push(h);
            }
            i = i + 1;
        }
        let k = crate::rng::random_below(legal.len());
        legal[k]
    }
}

/// Builds the current trick's plays: the history entries after the
/// finished tricks.
fn gather_current_trick(whole_card_sequence: &Vec<i32>, trick: usize) -> (trick_cards: Vec<i32>)
    requires
        trick < 13,
        whole_card_sequence@.len() >= 4 * trick,
        cards_ok(whole_card_sequence@),
    ensures
        trick_cards@ == current_trick(whole_card_sequence@, trick as int),
        cards_ok(trick_cards@),
{
    let mut trick_cards: Vec<i32> = Vec::new();
    let start = trick * 4;
    let mut k = start;
    while k < whole_card_sequence.len()
        invariant
            start == 4 * trick,
            start <= k <= whole_card_sequence@.len(),
            cards_ok(whole_card_sequence@),
            trick_cards@.len() == k - start,
            forall|m: int| 0 <= m < k - start ==> trick_cards@[m] == whole_card_sequence@[start + m],
        decreases whole_card_sequence@.len() - k,
    {
        trick_cards.push(whole_card_sequence[k]);
        k = k + 1;
    }
    assert(trick_cards@ =~= current_trick(whole_card_sequence@, trick as int));
    trick_cards
}

/// The heuristic agent: an experienced-level player of the game.
pub struct RuleBasedAgent {
    pub hand: Vec<i32>,
}

impl RuleBasedAgent {
    pub fn new() -> (a: Self)
        ensures
            a.hand@.len() == 13,
            forall|i: int| 0 <= i < 13 ==> a.hand@[i] == -1,
            hand_ok(a.hand@),
    {
        Self { hand: vec![-1, -1, -1, -1, -1, -1, -1, -1, -1, -1, -1, -1, -1] }
    }

    pub fn get_hand(&self) -> (h: &Vec<i32>)
        ensures
            h@ == self.hand@,
    {
        &self.hand
    }

    pub fn set_hand(&mut self, cards: &Vec<i32>)
        requires
            cards@.len() == 13,
            cards_ok(cards@),
        ensures
            hand_ok(final(self).hand@),
            num_cards(final(self).hand@) == 13,
            forall|c: i32| #[trigger] count_in(final(self).hand@, c) == count_in(cards@, c),
    {
        fill_hand_sorted(&mut self.hand, cards);
    }

    pub fn update_hand(&mut self, card: i32)
        requires
            card != -1,
        ensures
            final(self).hand@.len() == old(self).hand@.len(),
            forall|i: int|
                0 <= i < final(self).hand@.len() ==> final(self).hand@[i] == old(self).hand@[i]
                    || final(self).hand@[i] == -1,
            forall|c: i32|
                c != card && c != -1 ==> #[trigger] count_in(final(self).hand@, c) == count_in(
                    old(self).hand@,
                    c,
                ),
            has_card(old(self).hand@, card) ==> count_in(final(self).hand@, card) == count_in(
                old(self).hand@,
                card,
            ) - 1 && num_cards(final(self).hand@) == num_cards(old(self).hand@) - 1,
            !has_card(old(self).hand@, card) ==> final(self).hand@ == old(self).hand@,
    {
        remove_card(&mut self.hand, card);
    }

    /// The rank symbol of a card.
    pub fn get_symbol(&self, card: i32) -> (s: i32)
        requires
            0 <= card,
        ensures
            s == symbol_of(card),
    {
        card % 13
    }

    pub fn is_card_in_hand(&self, card: i32) -> (r: bool)
        ensures
            r == has_card(self.hand@, card),
    {
        let n = self.hand.len();
        let mut i: usize = 0;
        while i < n
            invariant
                i <= n,
                n == self.hand@.len(),
                forall|j: int| 0 <= j < i ==> self.hand@[j] != card,
            decreases n - i,
        {
            if self.hand[i] == card {
                return true;
            }
            i = i + 1;
        }
        false
    }

    /// Whether `card` is among the plays of the current trick.
    pub fn is_card_discarded_in_trick(&self, card_sequence: &Vec<i32>, card: i32) -> (r: bool)
        ensures
            r == has_card(card_sequence@, card),
    {
        let n = card_sequence.len();
        let mut i: usize = 0;
        while i < n
            invariant
                i <= n,
                n == card_sequence@.len(),
                forall|j: int| 0 <= j < i ==> card_sequence@[j] != card,
            decreases n - i,
        {
            if card_sequence[i] == card {
                return true;
            }
            i = i + 1;
        }
        false
    }

    /// Whether `card` has been played anywhere in the round so far.
    pub fn is_card_discarded_in_game(&self, whole_card_sequence: &Vec<i32>, card: i32) -> (r: bool)
        ensures
            r == has_card(whole_card_sequence@, card),
    {
        let n = whole_card_sequence.len();
        let mut i: usize = 0;
        while i < n
            invariant
                i <= n,
                n == whole_card_sequence@.len(),
                forall|j: int| 0 <= j < i ==> whole_card_sequence@[j] != card,
            decreases n - i,
        {
            if whole_card_sequence[i] == card {
                return true;
            }
            i = i + 1;
        }
        false
    }

    /// How many cards of `card`'s suit the hand still holds.
    pub fn count_number_of_suit_in_hand(&self, card: i32) -> (n: i32)
        requires
            hand_ok(self.hand@),
            0 <= card,
        ensures
            n == suit_count(self.hand@, suit_of(card)),
            0 <= n <= 13,
    {
        let suit = crate::cards::get_suit(card);
        let mut count: i32 = 0;
        let mut i: usize = 0;
        while i < 13
            invariant
                i <= 13,
                hand_ok(self.hand@),
                suit == suit_of(card),
                0 <= count <= i,
                count == suit_count(self.hand@.subrange(0, i as int), suit as int),
            decreases 13 - i,
        {
            let h = self.hand[i];
            proof {
                assert(self.hand@.subrange(0, i + 1).drop_last() =~= self.hand@.subrange(
                    0,
                    i as int,
                ));
                assert(self.hand@.subrange(0, i + 1).last() == self.hand@[i as int]);
            }
            if h != -1 && crate::cards::get_suit(h) == suit {
                count = count + 1;
            }
            i = i + 1;
        }
        proof {
            assert(self.hand@.subrange(0, 13) =~= self.hand@);
        }
        count
    }

    /// The leading score of a legal candidate card.
    pub fn calc_score_first_turn(
        &self,
        whole_card_sequence: &Vec<i32>,
        card: i32,
        trick: usize,
        bh_flag: bool,
    ) -> (s: i32)
        requires
            hand_ok(self.hand@),
            is_card(card),
        ensures
            s == lead_score(self.hand@, whole_card_sequence@, card, trick as int, bh_flag),
    {
        proof {
            crate::cards::lemma_suit_range(card);
            crate::counting::lemma_suit_count_bounds(self.hand@, suit_of(card));
        }
        let mut score: i32 = 0;

        if card == S_Q {
            score = -70;
        }

        if (card == S_K || card == S_A) && !self.is_card_discarded_in_game(
            whole_card_sequence,
            S_Q,
        ) {
            score = -card;
        }

        if crate::cards::get_suit(card) == HEART {
            score = -card + 20;
        }

        if trick >= 6 {
            score = score - self.get_symbol(card);
        }

        if crate::cards::get_suit(card) == SPADE && self.is_card_in_hand(S_Q) {
            score = -50 + score;
        }

        if card != S_Q && card != S_K && card != S_A {
            score = 10 - self.count_number_of_suit_in_hand(card) - crate::cards::get_suit(card)
                + score;
        }

        if bh_flag && crate::cards::get_suit(card) == HEART {
            score = score + 50 - card;
        }

        score
    }

    /// The following score of a legal candidate card.
    pub fn calc_score_following_turn(
        &self,
        whole_card_sequence: &Vec<i32>,
        card_sequence: &Vec<i32>,
        card: i32,
        turn: usize,
    ) -> (s: i32)
        requires
            is_card(card),
            card_sequence@.len() >= 1,
            cards_ok(card_sequence@),
        ensures
            s == follow_score(whole_card_sequence@, card_sequence@, card, turn as int),
    {
        proof {
            crate::cards::lemma_suit_range(card);
        }
        let mut score: i32 = 0;
        let leading_card = card_sequence[0];

        if card == S_Q {
            score = -70;
        }

        if card == S_K || card == S_A {
            score = -card;
        }

        if card == S_Q && (self.is_card_discarded_in_trick(card_sequence, S_K)
            || self.is_card_discarded_in_trick(card_sequence, S_A)) {
            return i32::MAX;
        }

        if card == S_Q && crate::cards::get_suit(card) != crate::cards::get_suit(leading_card) {
            return i32::MAX;
        }

        if (card == S_K || card == S_A) && crate::cards::get_suit(card) != crate::cards::get_suit(
            leading_card,
        ) && !self.is_card_discarded_in_game(whole_card_sequence, S_Q) {
            return i32::MAX - (50 - card);
        }

        if (card == S_K || card == S_A) && self.is_card_discarded_in_trick(card_sequence, S_Q)
            && crate::cards::get_suit(card) == crate::cards::get_suit(leading_card) {
            return -100 + card + score;
        }

        if (card == S_K || card == S_A) && !self.is_card_discarded_in_game(
            whole_card_sequence,
            S_Q,
        ) {
            return -50 + card + score;
        }

        if turn == 3 && (card == S_K || card == S_A) && !self.is_card_discarded_in_trick(
            card_sequence,
            S_Q,
        ) {
            return card;
        }

        if crate::cards::get_suit(card) == HEART && crate::cards::get_suit(card)
            != crate::cards::get_suit(leading_card) {
            score = card;
        }

        if crate::cards::get_suit(card) == HEART && crate::cards::get_suit(leading_card) == HEART {
            score = 60 - card;
        }

        score
    }

    /// Scores all 13 hand slots: the heuristic score for slots holding a
    /// legal card, the minimum score for the rest.
    pub fn calc_score(
        &self,
        whole_card_sequence: &Vec<i32>,
        trick: usize,
        turn: usize,
        bh_flag: bool,
    ) -> (scores: Vec<i32>)
        requires
            hand_ok(self.hand@),
            trick < 13,
            turn < 4,
            whole_card_sequence@.len() == 4 * trick + turn,
            cards_ok(whole_card_sequence@),
        ensures
            scores@.len() == 13,
            forall|i: int|
                0 <= i < 13 ==> scores@[i] == slot_score(
                    self.hand@,
                    whole_card_sequence@,
                    trick as int,
                    turn as int,
                    bh_flag,
                    i,
                ),
    {
        let trick_cards = gather_current_trick(whole_card_sequence, trick);
        let mut scores: Vec<i32> = Vec::new();
        let mut i: usize = 0;
        while i < 13
            invariant
                i <= 13,
                hand_ok(self.hand@),
                trick < 13,
                turn < 4,
                whole_card_sequence@.len() == 4 * trick + turn,
                cards_ok(whole_card_sequence@),
                trick_cards@ == current_trick(whole_card_sequence@, trick as int),
                cards_ok(trick_cards@),
                trick_cards@.len() == turn,
                scores@.len() == i,
                forall|m: int|
                    0 <= m < i ==> scores@[m] == slot_score(
                        self.hand@,
                        whole_card_sequence@,
                        trick as int,
                        turn as int,
                        bh_flag,
                        m,
                    ),
            decreases 13 - i,
        {
            let h = self.hand[i];
            if h != -1 && is_valid_card(&self.hand, &trick_cards, h, trick, bh_flag) {
                if turn == 0 {
                    scores.push(
                        self.calc_score_first_turn(whole_card_sequence, h, trick, bh_flag),
                    );
                } else {
                    scores.push(
                        self.calc_score_following_turn(whole_card_sequence, &trick_cards, h, turn),
                    );
                }
            } else {
                scores.push(MIN_SCORE);
            }
            i = i + 1;
        }
        scores
    }

    /// Plays a highest-scoring legal card; equal scores keep the later
    /// slot in the hand's ascending order, preserving the selection
    /// loop's observed tie-break. The hand must offer a legal card; the
    /// round engine guarantees that it always does.
    pub fn select_card(
        &self,
        whole_card_sequence: &Vec<i32>,
        trick: usize,
        turn: usize,
        bh_flag: bool,
    ) -> (card: i32)
        requires
            hand_ok(self.hand@),
            trick < 13,
            turn < 4,
            whole_card_sequence@.len() == 4 * trick + turn,
            cards_ok(whole_card_sequence@),
            exists|i: int|
                0 <= i < 13 && self.hand@[i] != -1 && is_legal(
                    self.hand@,
                    current_trick(whole_card_sequence@, trick as int),
                    self.hand@[i],
                    trick as int,
                    bh_flag,
                ),
        ensures
            card == self.hand@[best_slot(
                self.hand@,
                whole_card_sequence@,
                trick as int,
                turn as int,
                bh_flag,
                13,
            )],
            card != -1,
            has_card(self.hand@, card),
            is_legal(
                self.hand@,
                current_trick(whole_card_sequence@, trick as int),
                card,
                trick as int,
                bh_flag,
            ),
    {
        let scores = self.calc_score(whole_card_sequence, trick, turn, bh_flag);

        let mut idx: usize = 0;
        let mut j: usize = 1;
        while j < 13
            invariant
                1 <= j <= 13,
                idx < j,
                scores@.len() == 13,
                forall|m: int|
                    0 <= m < 13 ==> scores@[m] == slot_score(
                        self.hand@,
                        whole_card_sequence@,
                        trick as int,
                        turn as int,
                        bh_flag,
                        m,
                    ),
                idx as int == best_slot(
                    self.hand@,
                    whole_card_sequence@,
                    trick as int,
                    turn as int,
                    bh_flag,
                    j as int,
                ),
            decreases 13 - j,
        {
            if scores[j] >= scores[idx] {
                idx = j;
            }
            j = j + 1;
        }
        proof {
            crate::scoring::lemma_best_slot_legal(
                self.hand@,
                whole_card_sequence@,
                trick as int,
                turn as int,
                bh_flag,
            );
        }
        self.hand[idx]
    }
}

} // verus!
