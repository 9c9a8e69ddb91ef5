//! The round engine: deals the four hands, sequences the 13 tricks, keeps
//! the breaking-hearts latch and the play history, and hands the finished
//! history out for scoring.

use vstd::prelude::*;
use crate::agent::{hand_ok, RandomAgent, RuleBasedAgent};
use crate::cards::{is_card, C_2, HEART};
use crate::counting::{count_in, has_card, num_cards};
use crate::legality::{cards_ok, hearts_broken, is_legal, is_valid_card};
use crate::scoring::current_trick;
use crate::trick::{determine_agent_order, determine_winner};

verus! {

/// A player: either the uniform-random reference agent or the heuristic
/// rule-based agent.
pub enum Agent {
    Random(RandomAgent),
    RuleBased(RuleBasedAgent),
}

impl Agent {
    /// The slots of this agent's hand.
    pub open spec fn hand_view(&self) -> Seq<i32> {
        match self {
            Agent::Random(a) => a.hand@,
            Agent::RuleBased(a) => a.hand@,
        }
    }

    pub fn get_hand(&self) -> (h: &Vec<i32>)
        ensures
            h@ == self.hand_view(),
    {
        match self {
            Agent::Random(a) => a.get_hand(),
            Agent::RuleBased(a) => a.get_hand(),
        }
    }

    pub fn set_hand(&mut self, cards: &Vec<i32>)
        requires
            cards@.len() == 13,
            cards_ok(cards@),
        ensures
            hand_ok(final(self).hand_view()),
            num_cards(final(self).hand_view()) == 13,
            forall|c: i32| #[trigger] count_in(final(self).hand_view(), c) == count_in(cards@, c),
    {
        match self {
            Agent::Random(a) => a.set_hand(cards),
            Agent::RuleBased(a) => a.set_hand(cards),
        }
    }

    pub fn update_hand(&mut self, card: i32)
        requires
            card != -1,
        ensures
            final(self).hand_view().len() == old(self).hand_view().len(),
            forall|i: int|
                0 <= i < final(self).hand_view().len() ==> final(self).hand_view()[i] == old(
                    self,
                ).hand_view()[i] || final(self).hand_view()[i] == -1,
            forall|c: i32|
                c != card && c != -1 ==> #[trigger] count_in(final(self).hand_view(), c)
                    == count_in(old(self).hand_view(), c),
            has_card(old(self).hand_view(), card) ==> count_in(final(self).hand_view(), card)
                == count_in(old(self).hand_view(), card) - 1 && num_cards(final(self).hand_view())
                == num_cards(old(self).hand_view()) - 1,
            !has_card(old(self).hand_view(), card) ==> final(self).hand_view() == old(
                self,
            ).hand_view(),
    {
        match self {
            Agent::Random(a) => a.update_hand(card),
            Agent::RuleBased(a) => a.update_hand(card),
        }
    }

    /// Asks the agent's policy for a card. Both policies return a legal
    /// card whenever the hand offers one.
    pub fn select_card(
        &self,
        whole_card_sequence: &Vec<i32>,
        trick: usize,
        turn: usize,
        bh_flag: bool,
    ) -> (card: i32)
        requires
            hand_ok(self.hand_view()),
            trick < 13,
            turn < 4,
            whole_card_sequence@.len() == 4 * trick + turn,
            cards_ok(whole_card_sequence@),
            exists|i: int|
                0 <= i < 13 && self.hand_view()[i] != -1 && is_legal(
                    self.hand_view(),
                    current_trick(whole_card_sequence@, trick as int),
                    self.hand_view()[i],
                    trick as int,
                    bh_flag,
                ),
        ensures
            card != -1,
            has_card(self.hand_view(), card),
            is_legal(
                self.hand_view(),
                current_trick(whole_card_sequence@, trick as int),
                card,
                trick as int,
                bh_flag,
            ),
    {
        match self {
            Agent::Random(a) => a.select_card(whole_card_sequence, trick, turn, bh_flag),
            Agent::RuleBased(a) => a.select_card(whole_card_sequence, trick, turn, bh_flag),
        }
    }
}

/// The ways a round can fail. A deal fails only if the randomness source
/// keeps producing degenerate orderings; an illegal move would be a
/// broken agent contract, and the built-in agents provably never give
/// one.
#[derive(Clone, Copy, Debug, PartialEq, Eq, Structural)]
pub enum HeartsError {
    DealFailed,
    IllegalMove,
}

/// The completed record of a round: the 52 played cards in order, and
/// the player who made each play.
pub struct RoundHistory {
    pub cards: Vec<i32>,
    pub players: Vec<i32>,
}

/// Hearts occupy the 13 consecutive positions starting at `start`.
pub open spec fn heart_run_at(s: Seq<i32>, start: int) -> bool {
    forall|k: int| start <= k < start + 13 ==> crate::cards::suit_of(#[trigger] s[k]) == HEART
}

/// Some 13 consecutive positions of the ordering are all hearts: the
/// degenerate shuffle that the deal provider must reject.
pub open spec fn has_heart_run(s: Seq<i32>) -> bool {
    exists|start: int| 0 <= start <= s.len() - 13 && #[trigger] heart_run_at(s, start)
}

/// Whether hearts occupy 13 consecutive positions of the ordering.
pub fn has_thirteen_heart_run(v: &Vec<i32>) -> (r: bool)
    requires
        v@.len() == 52,
        cards_ok(v@),
    ensures
        r == has_heart_run(v@),
{
    let mut count: usize = 0;
    let mut i: usize = 0;
    while i < 52
        invariant
            i <= 52,
            v@.len() == 52,
            cards_ok(v@),
            count <= i,
            count < 13,
            forall|k: int| i - count <= k < i ==> crate::cards::suit_of(#[trigger] v@[k]) == HEART,
            count < i ==> crate::cards::suit_of(v@[i - count - 1]) != HEART,
            forall|start: int| 0 <= start && start + 13 <= i ==> !#[trigger] heart_run_at(v@, start),
        decreases 52 - i,
    {
        if crate::cards::get_suit(v[i]) == HEART {
            count = count + 1;
            if count == 13 {
                assert(heart_run_at(v@, i - 12));
                return true;
            }
        } else {
            assert forall|start: int| 0 <= start && start + 13 <= i + 1 implies !#[trigger]
            heart_run_at(v@, start) by {
                if start + 13 == i + 1 {
                    assert(crate::cards::suit_of(v@[i as int]) != HEART);
                }
            }
            count = 0;
        }
        i = i + 1;
    }
    assert forall|start: int| 0 <= start <= v@.len() - 13 implies !#[trigger] heart_run_at(
        v@,
        start,
    ) by {}
    false
}

/// How often the deal provider reshuffles a degenerate ordering before
/// giving up, so that dealing provably terminates.
pub const RESHUFFLE_LIMIT: usize = 1000;

/// Deals the shuffled deck out as four 13-card hands. The shuffle is
/// redrawn while hearts occupy 13 consecutive positions; after
/// `RESHUFFLE_LIMIT` degenerate orderings in a row the deal fails.
pub fn deal_cards(agents: &mut Vec<Agent>) -> (r: Result<Vec<i32>, HeartsError>)
    requires
        old(agents)@.len() == 4,
    ensures
        final(agents)@.len() == 4,
        r matches Ok(v) ==> {
            &&& v@.len() == 52
            &&& cards_ok(v@)
            &&& forall|c: i32| #[trigger] count_in(v@, c) == if is_card(c) { 1int } else { 0int }
            &&& !has_heart_run(v@)
            &&& forall|p: int|
                0 <= p < 4 ==> hand_ok(#[trigger] final(agents)@[p].hand_view()) && num_cards(
                    final(agents)@[p].hand_view(),
                ) == 13
            &&& forall|p: int, c: i32|
                0 <= p < 4 ==> #[trigger] count_in(final(agents)@[p].hand_view(), c) == count_in(
                    v@.subrange(13 * p, 13 * p + 13),
                    c,
                )
        },
        r matches Err(e) ==> e == HeartsError::DealFailed,
{
    let mut v: Vec<i32> = Vec::new();
    let mut k: i32 = 0;
    while k < 52
        invariant
            0 <= k <= 52,
            v@.len() == k,
            forall|j: int| 0 <= j < k ==> v@[j] == j,
        decreases 52 - k,
    {
        v.push(k);
        k = k + 1;
    }
    proof {
        assert forall|c: i32| #[trigger] count_in(v@, c) == if is_card(c) { 1int } else { 0int } by {
            crate::counting::lemma_count_in_iota(v@, c);
        }
    }

    let mut ok = false;
    let mut attempts: usize = 0;
    while attempts < RESHUFFLE_LIMIT && !ok
        invariant
            v@.len() == 52,
            forall|c: i32| #[trigger] count_in(v@, c) == if is_card(c) { 1int } else { 0int },
            cards_ok(v@),
            ok ==> !has_heart_run(v@),
        decreases RESHUFFLE_LIMIT - attempts,
    {
        crate::rng::shuffle_cards(&mut v);
        proof {
            assert forall|i: int| 0 <= i < v@.len() implies is_card(#[trigger] v@[i]) by {
                crate::counting::lemma_count_in_positive(v@, v@[i]);
                assert(has_card(v@, v@[i]));
            }
        }
        if !has_thirteen_heart_run(&v) {
            ok = true;
        }
        attempts = attempts + 1;
    }
    if !ok {
        return Err(HeartsError::DealFailed);
    }

    let mut p: usize = 0;
    while p < 4
        invariant
            p <= 4,
            agents@.len() == 4,
            v@.len() == 52,
            cards_ok(v@),
            forall|q: int| p <= q < 4 ==> agents@[q] == old(agents)@[q],
            forall|q: int|
                0 <= q < p ==> hand_ok(#[trigger] agents@[q].hand_view()) && num_cards(
                    agents@[q].hand_view(),
                ) == 13,
            forall|q: int, c: i32|
                0 <= q < p ==> #[trigger] count_in(agents@[q].hand_view(), c) == count_in(
                    v@.subrange(13 * q, 13 * q + 13),
                    c,
                ),
        decreases 4 - p,
    {
        let mut chunk: Vec<i32> = Vec::new();
        let mut m: usize = 0;
        while m < 13
            invariant
                m <= 13,
                p < 4,
                v@.len() == 52,
                cards_ok(v@),
                chunk@.len() == m,
                forall|t: int| 0 <= t < m ==> chunk@[t] == v@[13 * p + t],
            decreases 13 - m,
        {
            chunk.push(v[p * 13 + m]);
            m = m + 1;
        }
        assert(chunk@ =~= v@.subrange(13 * p as int, 13 * p as int + 13));
        agents[p].set_hand(&chunk);
        p = p + 1;
    }
    Ok(v)
}

/// The total number of copies of `c` that the four hands hold.
pub open spec fn hands_count(agents: Seq<Agent>, c: i32) -> int {
    count_in(agents[0].hand_view(), c) + count_in(agents[1].hand_view(), c) + count_in(
        agents[2].hand_view(),
        c,
    ) + count_in(agents[3].hand_view(), c)
}

/// Player `p` is among the first `turn` entries of the trick's order,
/// that is, has already played in the trick.
pub open spec fn played_already(order: Seq<i32>, turn: int, p: int) -> bool {
    exists|k: int| 0 <= k < turn && order[k] == p
}

/// Runs the 13 tricks of a dealt round, every play validated against
/// the legality checker before it is accepted, and returns the full
/// history. Validation is strict: an illegal proposal would abort the
/// round, and the agents' contracts prove that this never happens, so
/// a well-formed deal always completes and the result is `Ok`.
///
/// The history of a completed round holds each of the 52 cards exactly
/// once, opens with the Two of Clubs, and attributes every play to one
/// of the four players; the hands end fully drained.
#[verifier::rlimit(50)]
pub fn run_tricks(agents: &mut Vec<Agent>, first_leader: usize) -> (r: Result<
    RoundHistory,
    HeartsError,
>)
    requires
        old(agents)@.len() == 4,
        first_leader < 4,
        forall|p: int| 0 <= p < 4 ==> hand_ok(#[trigger] old(agents)@[p].hand_view()),
        forall|p: int| 0 <= p < 4 ==> num_cards(#[trigger] old(agents)@[p].hand_view()) == 13,
        forall|c: i32| is_card(c) ==> #[trigger] hands_count(old(agents)@, c) == 1,
        has_card(old(agents)@[first_leader as int].hand_view(), C_2),
    ensures
        final(agents)@.len() == 4,
        r is Ok,
        r matches Ok(h) ==> {
            &&& h.cards@.len() == 52
            &&& h.players@.len() == 52
            &&& cards_ok(h.cards@)
            &&& forall|c: i32| is_card(c) ==> #[trigger] count_in(h.cards@, c) == 1
            &&& h.cards@[0] == C_2
            &&& forall|i: int| 0 <= i < 52 ==> 0 <= #[trigger] h.players@[i] < 4
            &&& forall|p: i32| 0 <= p < 4 ==> #[trigger] count_in(h.players@, p) == 13
            &&& forall|p: int| 0 <= p < 4 ==> num_cards(#[trigger] final(agents)@[p].hand_view()) == 0
        },
{
    let mut cards_hist: Vec<i32> = Vec::new();
    let mut players_hist: Vec<i32> = Vec::new();
    let mut bh_flag = false;
    let mut winner: i32 = first_leader as i32;

    let mut trick: usize = 0;
    while trick < 13
        invariant
            trick <= 13,
            agents@.len() == 4,
            cards_hist@.len() == 4 * trick,
            players_hist@.len() == 4 * trick,
            cards_ok(cards_hist@),
            forall|i: int| 0 <= i < players_hist@.len() ==> 0 <= #[trigger] players_hist@[i] < 4,
            forall|p: int| 0 <= p < 4 ==> hand_ok(#[trigger] agents@[p].hand_view()),
            forall|p: int|
                0 <= p < 4 ==> num_cards(#[trigger] agents@[p].hand_view()) == 13 - trick,
            forall|p: i32| 0 <= p < 4 ==> #[trigger] count_in(players_hist@, p) == trick,
            forall|c: i32|
                is_card(c) ==> count_in(cards_hist@, c) + #[trigger] hands_count(agents@, c) == 1,
            bh_flag == hearts_broken(cards_hist@),
            0 <= winner < 4,
            trick == 0 ==> has_card(agents@[winner as int].hand_view(), C_2),
            cards_hist@.len() > 0 ==> cards_hist@[0] == C_2,
        decreases 13 - trick,
    {
        let order = determine_agent_order(winner);
        proof {
            crate::trick::lemma_order_covers_players(order@, winner);
        }
        let ghost leader = winner;

        let mut trick_cards: Vec<i32> = Vec::new();
        let mut turn: usize = 0;
        while turn < 4
            invariant
                turn <= 4,
                trick < 13,
                agents@.len() == 4,
                order@.len() == 4,
                0 <= leader < 4,
                forall|i: int| 0 <= i < 4 ==> order@[i] == (leader + i) % 4,
                forall|i: int| 0 <= i < 4 ==> 0 <= #[trigger] order@[i] < 4,
                forall|i: int, j: int| 0 <= i < j < 4 ==> order@[i] != order@[j],
                cards_hist@.len() == 4 * trick + turn,
                players_hist@.len() == 4 * trick + turn,
                trick_cards@.len() == turn,
                trick_cards@ == current_trick(cards_hist@, trick as int),
                cards_ok(cards_hist@),
                cards_ok(trick_cards@),
                forall|i: int| 0 <= i < players_hist@.len() ==> 0 <= #[trigger] players_hist@[i] < 4,
                forall|p: int| 0 <= p < 4 ==> hand_ok(#[trigger] agents@[p].hand_view()),
                forall|p: int|
                    0 <= p < 4 ==> num_cards(#[trigger] agents@[p].hand_view()) == 13 - trick - (
                    if played_already(order@, turn as int, p) {
                        1int
                    } else {
                        0int
                    }),
                forall|p: i32|
                    0 <= p < 4 ==> #[trigger] count_in(players_hist@, p) == trick + (
                    if played_already(order@, turn as int, p as int) {
                        1int
                    } else {
                        0int
                    }),
                forall|c: i32|
                    is_card(c) ==> count_in(cards_hist@, c) + #[trigger] hands_count(agents@, c)
                        == 1,
                bh_flag == hearts_broken(cards_hist@),
                trick == 0 && turn == 0 ==> has_card(agents@[order@[0] as int].hand_view(), C_2),
                cards_hist@.len() > 0 ==> cards_hist@[0] == C_2,
            decreases 4 - turn,
        {
            let p_i32 = order[turn];
            let p = p_i32 as usize;

            proof {
                assert(!played_already(order@, turn as int, p as int));
                assert(num_cards(agents@[p as int].hand_view()) == 13 - trick);
                crate::legality::lemma_legal_move_exists(
                    agents@[p as int].hand_view(),
                    trick_cards@,
                    trick as int,
                    bh_flag,
                );
            }

            let card = agents[p].select_card(&cards_hist, trick, turn, bh_flag);

            // Validate the proposal against the legality checker before
            // accepting it; the agents' contracts make a failure here
            // unreachable.
            let valid = is_valid_card(agents[p].get_hand(), &trick_cards, card, trick, bh_flag);
            if card == -1 || !valid {
                proof {
                    assert(false);
                }
                return Err(HeartsError::IllegalMove);
            }

            proof {
                let hv = agents@[p as int].hand_view();
                let i = choose|i: int| 0 <= i < hv.len() && hv[i] == card;
                assert(crate::cards::is_slot(hv[i]));
                assert(is_card(card));
                crate::counting::lemma_count_in_positive(hv, card);
            }
            let ghost agents_before = agents@;
            let ghost hist_before = cards_hist@;
            let ghost players_before = players_hist@;

            agents[p].update_hand(card);
            trick_cards.push(card);
            cards_hist.push(card);
            players_hist.push(p_i32);

            if !bh_flag && crate::cards::get_suit(card) == HEART {
                bh_flag = true;
            }

            proof {
                // Conservation: the played card moves from the hand to
                // the history; every other count is untouched.
                assert(agents@[p as int].hand_view().len() == agents_before[p as int].hand_view().len());
                assert(count_in(agents@[p as int].hand_view(), card) == count_in(
                    agents_before[p as int].hand_view(),
                    card,
                ) - 1);
                assert(forall|c: i32|
                    c != card && c != -1 ==> #[trigger] count_in(agents@[p as int].hand_view(), c)
                        == count_in(agents_before[p as int].hand_view(), c));
                assert forall|c: i32| is_card(c) implies count_in(cards_hist@, c)
                    + #[trigger] hands_count(agents@, c) == 1 by {
                    crate::counting::lemma_count_in_push(hist_before, card, c);
                    assert(hands_count(agents_before, c) + count_in(hist_before, c) == 1);
                    assert(forall|q: int|
                        0 <= q < 4 && q != p ==> agents@[q] == agents_before[q]);
                    assert(c != -1);
                }

                // Hand sizes: the acting player has now played.
                assert forall|q: int| 0 <= q < 4 implies num_cards(
                    #[trigger] agents@[q].hand_view(),
                ) == 13 - trick - (if played_already(order@, turn + 1, q) {
                    1int
                } else {
                    0int
                }) by {
                    if q == p as int {
                        assert(order@[turn as int] == q);
                        assert(played_already(order@, turn + 1, q));
                    } else {
                        assert(agents@[q] == agents_before[q]);
                        assert(played_already(order@, turn + 1, q) == played_already(
                            order@,
                            turn as int,
                            q,
                        )) by {
                            if played_already(order@, turn + 1, q) {
                                let k = choose|k: int| 0 <= k < turn + 1 && order@[k] == q;
                                assert(k != turn);
                            }
                        }
                    }
                }

                // Play attribution: the acting player gains one play.
                assert forall|q: i32| 0 <= q < 4 implies #[trigger] count_in(players_hist@, q)
                    == trick + (if played_already(order@, turn + 1, q as int) {
                    1int
                } else {
                    0int
                }) by {
                    crate::counting::lemma_count_in_push(players_before, p_i32, q);
                    if q == p_i32 {
                        assert(order@[turn as int] == q);
                        assert(played_already(order@, turn + 1, q as int));
                    } else {
                        assert(played_already(order@, turn + 1, q as int) == played_already(
                            order@,
                            turn as int,
                            q as int,
                        )) by {
                            if played_already(order@, turn + 1, q as int) {
                                let k = choose|k: int| 0 <= k < turn + 1 && order@[k] == q as int;
                                assert(k != turn);
                            }
                        }
                    }
                }

                // The breaking-hearts latch tracks the history exactly.
                if crate::cards::suit_of(card) == HEART {
                    assert(cards_hist@[hist_before.len() as int] == card);
                    assert(hearts_broken(cards_hist@));
                } else if hearts_broken(hist_before) {
                    let i = choose|i: int|
                        0 <= i < hist_before.len() && crate::cards::suit_of(hist_before[i])
                            == HEART;
                    assert(crate::cards::suit_of(cards_hist@[i]) == HEART);
                    assert(hearts_broken(cards_hist@));
                } else {
                    if hearts_broken(cards_hist@) {
                        let i = choose|i: int|
                            0 <= i < cards_hist@.len() && crate::cards::suit_of(cards_hist@[i])
                                == HEART;
                        if i < hist_before.len() {
                            assert(crate::cards::suit_of(hist_before[i]) == HEART);
                            assert(hearts_broken(hist_before));
                            assert(false);
                        } else {
                            assert(cards_hist@[i] == card);
                            assert(false);
                        }
                    }
                    assert(!hearts_broken(cards_hist@));
                }
                assert(bh_flag == hearts_broken(cards_hist@));

                // The first play of the round is the forced Two of Clubs.
                if hist_before.len() == 0 {
                    assert(trick == 0 && turn == 0);
                    assert(trick_cards@.len() == 1);
                    assert(current_trick(hist_before, 0).len() == 0);
                    assert(card == C_2);
                }
                assert(trick_cards@ =~= current_trick(cards_hist@, trick as int));
            }
            turn = turn + 1;
        }

        winner = determine_winner(&order, &trick_cards);
        proof {
            assert forall|q: int| 0 <= q < 4 implies num_cards(#[trigger] agents@[q].hand_view())
                == 13 - (trick + 1) by {
                assert(order@.contains(q as i32));
                let k = choose|k: int| 0 <= k < 4 && order@[k] == q as i32;
                assert(played_already(order@, 4, q));
            }
            assert forall|q: i32| 0 <= q < 4 implies #[trigger] count_in(players_hist@, q) == trick
                + 1 by {
                assert(order@.contains(q));
                let k = choose|k: int| 0 <= k < 4 && order@[k] == q;
                assert(played_already(order@, 4, q as int));
            }
        }
        trick = trick + 1;
    }

    proof {
        // Drained hands leave the whole deck in the history: each card
        // stands there exactly once.
        assert forall|c: i32| is_card(c) implies #[trigger] count_in(cards_hist@, c) == 1 by {
            crate::counting::lemma_empty_hand_counts(agents@[0].hand_view(), c);
            crate::counting::lemma_empty_hand_counts(agents@[1].hand_view(), c);
            crate::counting::lemma_empty_hand_counts(agents@[2].hand_view(), c);
            crate::counting::lemma_empty_hand_counts(agents@[3].hand_view(), c);
            assert(hands_count(agents@, c) == 0);
        }
    }

    Ok(RoundHistory { cards: cards_hist, players: players_hist })
}

/// Plays one complete round: deals, then runs the 13 tricks. Only a
/// failed deal can fail the round; see `run_tricks` for the guarantees
/// on the returned history.
pub fn play_one_game(agents: &mut Vec<Agent>) -> (r: Result<RoundHistory, HeartsError>)
    requires
        old(agents)@.len() == 4,
    ensures
        final(agents)@.len() == 4,
        r matches Ok(h) ==> {
            &&& h.cards@.len() == 52
            &&& h.players@.len() == 52
            &&& cards_ok(h.cards@)
            &&& forall|c: i32| is_card(c) ==> #[trigger] count_in(h.cards@, c) == 1
            &&& h.cards@[0] == C_2
            &&& forall|i: int| 0 <= i < 52 ==> 0 <= #[trigger] h.players@[i] < 4
            &&& forall|p: i32| 0 <= p < 4 ==> #[trigger] count_in(h.players@, p) == 13
            &&& forall|p: int| 0 <= p < 4 ==> num_cards(#[trigger] final(agents)@[p].hand_view()) == 0
        },
        r matches Err(e) ==> e == HeartsError::DealFailed,
{
    let v = match deal_cards(agents) {
        Ok(v) => v,
        Err(_) => {
            return Err(HeartsError::DealFailed);
        },
    };

    // The deal hands the whole deck out: together the four hands hold
    // each card exactly once.
    proof {
        assert(v@ =~= v@.subrange(0, 13) + v@.subrange(13, 26) + v@.subrange(26, 39) + v@.subrange(
            39,
            52,
        ));
        assert forall|c: i32| is_card(c) implies #[trigger] hands_count(agents@, c) == 1 by {
            crate::counting::lemma_count_in_concat(
                v@.subrange(0, 13) + v@.subrange(13, 26) + v@.subrange(26, 39),
                v@.subrange(39, 52),
                c,
            );
            crate::counting::lemma_count_in_concat(
                v@.subrange(0, 13) + v@.subrange(13, 26),
                v@.subrange(26, 39),
                c,
            );
            crate::counting::lemma_count_in_concat(v@.subrange(0, 13), v@.subrange(13, 26), c);
        }
    }

    // The holder of the Two of Clubs leads the first trick.
    let mut pos: usize = 0;
    while pos < 52 && v[pos] != C_2
        invariant
            pos <= 52,
            v@.len() == 52,
            forall|j: int| 0 <= j < pos ==> v@[j] != C_2,
        decreases 52 - pos,
    {
        pos = pos + 1;
    }
    // The deck always holds the Two of Clubs, so the search cannot
    // miss; default to player 0 defensively all the same.
    proof {
        crate::counting::lemma_count_in_positive(v@, C_2);
        assert(is_card(C_2));
        if pos >= 52 {
            assert(has_card(v@, C_2));
            assert(false);
        }
    }
    let first_leader = if pos < 52 {
        pos / 13
    } else {
        0
    };
    proof {
        assert(pos < 52);
        assert(13 * (pos as int / 13) <= pos < 13 * (pos as int / 13) + 13) by (nonlinear_arith)
            requires 0 <= pos < 52;
        assert(has_card(v@.subrange(13 * first_leader as int, 13 * first_leader as int + 13), C_2));
        crate::counting::lemma_count_in_positive(
            v@.subrange(13 * first_leader as int, 13 * first_leader as int + 13),
            C_2,
        );
        crate::counting::lemma_count_in_positive(agents@[first_leader as int].hand_view(), C_2);
    }

    run_tricks(agents, first_leader)
}

} // verus!
