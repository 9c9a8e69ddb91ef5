//! The penalty scorer: replays a completed round's history and assigns each
//! trick's penalty points (one per heart, thirteen for the Queen of Spades)
//! to that trick's winner.

use vstd::prelude::*;
use crate::cards::{is_card, suit_of, S_Q, HEART};
use crate::counting::count_in;
use crate::legality::cards_ok;
use crate::trick::{winner_index, lemma_winner_index_range, determine_winner};

verus! {

/// The penalty value of a single card.
pub open spec fn penalty_of(card: i32) -> int {
    if suit_of(card) == HEART {
        1
    } else if card == S_Q {
        13
    } else {
        0
    }
}

/// The total penalty carried by a sequence of cards.
pub open spec fn penalty_sum(s: Seq<i32>) -> int
    decreases s.len(),
{
    if s.len() == 0 {
        0
    } else {
        penalty_sum(s.drop_last()) + penalty_of(s.last())
    }
}

/// How many hearts a sequence of cards holds.
pub open spec fn num_hearts(s: Seq<i32>) -> int
    decreases s.len(),
{
    if s.len() == 0 {
        0
    } else {
        num_hearts(s.drop_last()) + if suit_of(s.last()) == HEART { 1int } else { 0int }
    }
}

/// The sum of the occurrence counts in `s` of every card value in
/// `lo..hi`.
pub open spec fn count_range(s: Seq<i32>, lo: int, hi: int) -> int
    decreases hi - lo,
{
    if hi <= lo {
        0
    } else {
        count_range(s, lo, hi - 1) + count_in(s, (hi - 1) as i32)
    }
}

/// The four cards of trick `t` within a round history.
pub open spec fn trick_slice(cards: Seq<i32>, t: int) -> Seq<i32> {
    cards.subrange(4 * t, 4 * t + 4)
}

/// The player who won trick `t` of the round.
pub open spec fn trick_winner_of(cards: Seq<i32>, agents: Seq<i32>, t: int) -> int {
    agents[4 * t + winner_index(trick_slice(cards, t))] as int
}

/// The penalty points accumulated by player `p` over the first `t` tricks.
pub open spec fn player_points(cards: Seq<i32>, agents: Seq<i32>, p: int, t: int) -> int
    decreases t,
{
    if t <= 0 {
        0
    } else {
        player_points(cards, agents, p, t - 1) + if trick_winner_of(cards, agents, t - 1) == p {
            penalty_sum(trick_slice(cards, t - 1))
        } else {
            0
        }
    }
}

pub proof fn lemma_penalty_sum_bounds(s: Seq<i32>)
    ensures
        0 <= penalty_sum(s) <= 13 * s.len(),
    decreases s.len(),
{
    if s.len() > 0 {
        lemma_penalty_sum_bounds(s.drop_last());
    }
}

pub proof fn lemma_penalty_sum_concat(a: Seq<i32>, b: Seq<i32>)
    ensures
        penalty_sum(a + b) == penalty_sum(a) + penalty_sum(b),
    decreases b.len(),
{
    if b.len() == 0 {
        assert(a + b =~= a);
    } else {
        assert((a + b).drop_last() =~= a + b.drop_last());
        assert((a + b).last() == b.last());
        lemma_penalty_sum_concat(a, b.drop_last());
    }
}

/// The four players' points together cover the first `t` tricks' cards.
proof fn lemma_players_share_all_points(cards: Seq<i32>, agents: Seq<i32>, t: int)
    requires
        0 <= t,
        4 * t <= cards.len(),
        agents.len() == cards.len(),
        forall|i: int| 0 <= i < agents.len() ==> 0 <= #[trigger] agents[i] < 4,
    ensures
        player_points(cards, agents, 0, t) + player_points(cards, agents, 1, t) + player_points(
            cards,
            agents,
            2,
            t,
        ) + player_points(cards, agents, 3, t) == penalty_sum(cards.subrange(0, 4 * t)),
    decreases t,
{
    if t == 0 {
        assert(cards.subrange(0, 0) =~= Seq::<i32>::empty());
    } else {
        lemma_players_share_all_points(cards, agents, t - 1);
        lemma_winner_index_range(trick_slice(cards, t - 1));
        assert(cards.subrange(0, 4 * t) =~= cards.subrange(0, 4 * t - 4) + trick_slice(
            cards,
            t - 1,
        ));
        lemma_penalty_sum_concat(cards.subrange(0, 4 * t - 4), trick_slice(cards, t - 1));
        let w = trick_winner_of(cards, agents, t - 1);
        assert(0 <= w < 4);
    }
}

proof fn lemma_count_range_empty(lo: int, hi: int)
    ensures
        count_range(Seq::<i32>::empty(), lo, hi) == 0,
    decreases hi - lo,
{
    if hi > lo {
        lemma_count_range_empty(lo, hi - 1);
    }
}

proof fn lemma_count_range_push(s: Seq<i32>, x: i32, lo: int, hi: int)
    requires
        0 <= lo <= hi <= 52,
    ensures
        count_range(s.push(x), lo, hi) == count_range(s, lo, hi) + if lo <= x < hi {
            1int
        } else {
            0int
        },
    decreases hi - lo,
{
    if hi > lo {
        lemma_count_range_push(s, x, lo, hi - 1);
        crate::counting::lemma_count_in_push(s, x, (hi - 1) as i32);
    }
}

/// Over a sequence of cards, the number of hearts is the total count of
/// the thirteen heart values.
proof fn lemma_num_hearts_as_range(s: Seq<i32>)
    requires
        cards_ok(s),
    ensures
        num_hearts(s) == count_range(s, 39, 52),
    decreases s.len(),
{
    if s.len() == 0 {
        assert(s =~= Seq::<i32>::empty());
        lemma_count_range_empty(39, 52);
    } else {
        let dl = s.drop_last();
        assert(cards_ok(dl)) by {
            assert(forall|i: int| 0 <= i < dl.len() ==> dl[i] == s[i]);
        }
        lemma_num_hearts_as_range(dl);
        lemma_count_range_push(dl, s.last(), 39, 52);
        assert(dl.push(s.last()) =~= s);
        assert(is_card(s[s.len() - 1]));
        crate::cards::lemma_suit_range(s.last());
    }
}

/// Penalty decomposes into hearts and the Queen of Spades.
proof fn lemma_penalty_sum_formula(s: Seq<i32>)
    ensures
        penalty_sum(s) == num_hearts(s) + 13 * count_in(s, S_Q),
    decreases s.len(),
{
    if s.len() > 0 {
        lemma_penalty_sum_formula(s.drop_last());
    }
}

proof fn lemma_count_range_all_ones(s: Seq<i32>, lo: int, hi: int)
    requires
        0 <= lo <= hi <= 52,
        forall|c: i32| lo <= c < hi ==> #[trigger] count_in(s, c) == 1,
    ensures
        count_range(s, lo, hi) == hi - lo,
    decreases hi - lo,
{
    if hi > lo {
        lemma_count_range_all_ones(s, lo, hi - 1);
        assert(count_in(s, (hi - 1) as i32) == 1);
    }
}

/// A round's 52 plays carry exactly 26 penalty points: 13 hearts at one
/// point each, and the Queen of Spades at 13.
pub proof fn lemma_round_penalty_total(cards: Seq<i32>)
    requires
        cards.len() == 52,
        cards_ok(cards),
        forall|c: i32| is_card(c) ==> #[trigger] count_in(cards, c) == 1,
    ensures
        penalty_sum(cards) == 26,
{
    lemma_penalty_sum_formula(cards);
    lemma_num_hearts_as_range(cards);
    assert forall|c: i32| 39 <= c < 52 implies #[trigger] count_in(cards, c) == 1 by {
        assert(is_card(c));
    }
    lemma_count_range_all_ones(cards, 39, 52);
    assert(is_card(S_Q));
    assert(count_in(cards, S_Q) == 1);
}

/// The total penalty summed across all four players is exactly 26 in
/// every round whose history holds each of the 52 cards once.
pub proof fn lemma_total_penalty_is_26(cards: Seq<i32>, agents: Seq<i32>)
    requires
        cards.len() == 52,
        agents.len() == 52,
        cards_ok(cards),
        forall|c: i32| is_card(c) ==> #[trigger] count_in(cards, c) == 1,
        forall|i: int| 0 <= i < agents.len() ==> 0 <= #[trigger] agents[i] < 4,
    ensures
        player_points(cards, agents, 0, 13) + player_points(cards, agents, 1, 13) + player_points(
            cards,
            agents,
            2,
            13,
        ) + player_points(cards, agents, 3, 13) == 26,
{
    lemma_players_share_all_points(cards, agents, 13);
    assert(cards.subrange(0, 52) =~= cards);
    lemma_round_penalty_total(cards);
}

/// Replays a complete round history and returns the four players'
/// penalty totals.
pub fn calc_penalty_points(card_sequence: &Vec<i32>, agent_sequence: &Vec<i32>) -> (points: Vec<
    i32,
>)
    requires
        card_sequence@.len() == 52,
        agent_sequence@.len() == 52,
        cards_ok(card_sequence@),
        forall|i: int| 0 <= i < 52 ==> 0 <= #[trigger] agent_sequence@[i] < 4,
    ensures
        points@.len() == 4,
        forall|p: int|
            0 <= p < 4 ==> points@[p] == player_points(card_sequence@, agent_sequence@, p, 13),
{
    let mut points: Vec<i32> = vec![0, 0, 0, 0];
    let mut trick: usize = 0;
    while trick < 13
        invariant
            trick <= 13,
            points@.len() == 4,
            card_sequence@.len() == 52,
            agent_sequence@.len() == 52,
            cards_ok(card_sequence@),
            forall|i: int| 0 <= i < 52 ==> 0 <= #[trigger] agent_sequence@[i] < 4,
            forall|p: int|
                0 <= p < 4 ==> points@[p] == player_points(
                    card_sequence@,
                    agent_sequence@,
                    p,
                    trick as int,
                ),
            forall|p: int| 0 <= p < 4 ==> 0 <= #[trigger] points@[p] <= 52 * trick,
        decreases 13 - trick,
    {
        let ghost t = trick as int;
        let mut trick_cards: Vec<i32> = Vec::new();
        let mut trick_agents: Vec<i32> = Vec::new();
        let mut turn: usize = 0;
        while turn < 4
            invariant
                turn <= 4,
                trick < 13,
                card_sequence@.len() == 52,
                agent_sequence@.len() == 52,
                cards_ok(card_sequence@),
                forall|i: int| 0 <= i < 52 ==> 0 <= #[trigger] agent_sequence@[i] < 4,
                trick_cards@.len() == turn,
                trick_agents@.len() == turn,
                forall|k: int| 0 <= k < turn ==> trick_cards@[k] == card_sequence@[4 * trick + k],
                forall|k: int| 0 <= k < turn ==> trick_agents@[k] == agent_sequence@[4 * trick + k],
            decreases 4 - turn,
        {
            trick_cards.push(card_sequence[trick * 4 + turn]);
            trick_agents.push(agent_sequence[trick * 4 + turn]);
            turn = turn + 1;
        }
        assert(trick_cards@ =~= trick_slice(card_sequence@, t));
        assert(trick_agents@ =~= agent_sequence@.subrange(4 * t, 4 * t + 4));

        let w_player = determine_winner(&trick_agents, &trick_cards);
        assert(0 <= w_player < 4);
        let w = w_player as usize;
        proof {
            assert(trick_agents@[winner_index(trick_cards@)] == agent_sequence@[4 * t
                + winner_index(trick_slice(card_sequence@, t))]);
            assert(w as int == trick_winner_of(card_sequence@, agent_sequence@, t));
        }

        let ghost snap = points@;
        let mut j: usize = 0;
        while j < 4
            invariant
                j <= 4,
                w < 4,
                points@.len() == 4,
                trick_cards@.len() == 4,
                cards_ok(trick_cards@),
                forall|p: int| 0 <= p < 4 && p != w ==> points@[p] == snap[p],
                points@[w as int] == snap[w as int] + penalty_sum(trick_cards@.subrange(0, j as int)),
                forall|p: int| 0 <= p < 4 ==> 0 <= #[trigger] snap[p] <= 52 * 12,
            decreases 4 - j,
        {
            let card = trick_cards[j];
            let pen: i32 = if crate::cards::get_suit(card) == HEART {
                1
            } else if card == S_Q {
                13
            } else {
                0
            };
            proof {
                assert(trick_cards@.subrange(0, j + 1).drop_last() =~= trick_cards@.subrange(
                    0,
                    j as int,
                ));
                assert(trick_cards@.subrange(0, j + 1).last() == trick_cards@[j as int]);
                lemma_penalty_sum_bounds(trick_cards@.subrange(0, j as int));
            }
            points[w] = points[w] + pen;
            j = j + 1;
        }
        proof {
            assert(trick_cards@.subrange(0, 4) =~= trick_cards@);
            lemma_penalty_sum_bounds(trick_cards@);
            assert(0 <= penalty_sum(trick_cards@) <= 52);
            assert forall|p: int| 0 <= p < 4 implies points@[p] == player_points(
                card_sequence@,
                agent_sequence@,
                p,
                t + 1,
            ) && 0 <= points@[p] <= 52 * (t + 1) by {
                assert(snap[p] == player_points(card_sequence@, agent_sequence@, p, t));
                assert(0 <= snap[p] <= 52 * t);
                if p == w as int {
                    assert(points@[p] == snap[p] + penalty_sum(trick_cards@));
                } else {
                    assert(points@[p] == snap[p]);
                }
            }
        }
        trick = trick + 1;
    }
    points
}

} // verus!
