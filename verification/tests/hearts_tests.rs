use hearts::agent::{RandomAgent, RuleBasedAgent};
use hearts::cards::{C_2, S_A, S_K, S_Q};
use hearts::legality::{is_suit_in_hand, is_valid_card};
use hearts::penalty::calc_penalty_points;
use hearts::round::{deal_cards, has_thirteen_heart_run, play_one_game, Agent};
use hearts::trick::{determine_agent_order, determine_winner};

const QUEEN_OF_HEARTS: i32 = 49;
const FIVE_OF_CLUBS: i32 = 3;

#[test]
fn first_trick_lead_must_be_two_of_clubs() {
    // Hand: Two of Clubs, Five of Clubs, Queen of Hearts.
    let hand = vec![C_2, FIVE_OF_CLUBS, QUEEN_OF_HEARTS];
    let empty_trick: Vec<i32> = Vec::new();
    assert!(is_valid_card(&hand, &empty_trick, C_2, 0, false));
    assert!(!is_valid_card(&hand, &empty_trick, FIVE_OF_CLUBS, 0, false));
    assert!(!is_valid_card(&hand, &empty_trick, QUEEN_OF_HEARTS, 0, false));
}

#[test]
fn follower_must_follow_suit_when_able() {
    // Hand holds a club and a heart; a club was led.
    let hand = vec![7, 45, -1];
    let trick = vec![5];
    assert!(is_valid_card(&hand, &trick, 7, 2, false));
    assert!(!is_valid_card(&hand, &trick, 45, 2, false));
}

#[test]
fn void_follower_may_discard_anything() {
    // Hand holds no clubs; a club was led.
    let hand = vec![20, 45];
    let trick = vec![5];
    assert!(is_valid_card(&hand, &trick, 20, 2, false));
    assert!(is_valid_card(&hand, &trick, 45, 2, false));
}

#[test]
fn heart_lead_waits_for_breaking_hearts() {
    // Leading after trick 0: a heart lead is blocked until hearts are
    // broken, then allowed; non-heart leads are always fine.
    let hand = vec![39, 5];
    let empty_trick: Vec<i32> = Vec::new();
    assert!(!is_valid_card(&hand, &empty_trick, 39, 3, false));
    assert!(is_valid_card(&hand, &empty_trick, 39, 3, true));
    assert!(is_valid_card(&hand, &empty_trick, 5, 3, false));
}

#[test]
fn all_heart_hand_may_lead_hearts_unbroken() {
    let hand = vec![39, 44, 51];
    let empty_trick: Vec<i32> = Vec::new();
    assert!(is_valid_card(&hand, &empty_trick, 44, 5, false));
}

#[test]
fn suit_membership_ignores_empty_slots() {
    let hand = vec![-1, 14, -1];
    assert!(is_suit_in_hand(&hand, 1));
    assert!(!is_suit_in_hand(&hand, 0));
    assert!(!is_suit_in_hand(&hand, 3));
}

#[test]
fn agent_order_is_circular_from_winner() {
    let order = determine_agent_order(2);
    assert_eq!(order, vec![2, 3, 0, 1]);
    let order = determine_agent_order(0);
    assert_eq!(order, vec![0, 1, 2, 3]);
}

#[test]
fn trick_winner_is_highest_of_leading_suit() {
    let order = vec![0, 1, 2, 3];
    // Clubs led; the 40 is a heart and cannot win.
    let cards = vec![5, 7, 40, 3];
    assert_eq!(determine_winner(&order, &cards), 1);
}

#[test]
fn off_suit_high_cards_never_win() {
    let order = vec![3, 0, 1, 2];
    // The Two of Clubs leads; ace-high hearts and spades are off suit.
    let cards = vec![C_2, 51, 50, S_A];
    assert_eq!(determine_winner(&order, &cards), 3);
}

#[test]
fn penalty_points_sum_to_26() {
    // A synthetic round: the deck dealt out in order, four fixed players.
    let mut cards: Vec<i32> = Vec::new();
    let mut players: Vec<i32> = Vec::new();
    for t in 0..13 {
        for j in 0..4 {
            cards.push(t * 4 + j);
            players.push(j);
        }
    }
    let points = calc_penalty_points(&cards, &players);
    assert_eq!(points, vec![0, 0, 14, 12]);
    let total: i32 = points.iter().sum();
    assert_eq!(total, 26);
}

#[test]
fn following_score_king_of_spades_stays_low_behind_queen() {
    // Spades led, the Queen of Spades already in the trick: the King of
    // Spades must take the low-score branch, not a dump preference.
    let agent = RuleBasedAgent::new();
    let history: Vec<i32> = Vec::new();
    let trick = vec![S_Q];
    let score = agent.calc_score_following_turn(&history, &trick, S_K, 1);
    assert_eq!(score, -100);
}

#[test]
fn following_score_queen_dumps_off_suit() {
    let agent = RuleBasedAgent::new();
    let history: Vec<i32> = Vec::new();
    // A diamond was led and the hand is off suit: dump the Queen now.
    let trick = vec![13];
    assert_eq!(agent.calc_score_following_turn(&history, &trick, S_Q, 1), i32::MAX);
}

#[test]
fn following_score_queen_covers_played_king() {
    let agent = RuleBasedAgent::new();
    let history: Vec<i32> = Vec::new();
    let trick = vec![S_K];
    assert_eq!(agent.calc_score_following_turn(&history, &trick, S_Q, 1), i32::MAX);
}

#[test]
fn following_score_high_spade_dump_while_queen_live() {
    let agent = RuleBasedAgent::new();
    let history: Vec<i32> = Vec::new();
    // A diamond was led; the Ace of Spades is off suit and the Queen has
    // not been seen: near-maximal dump score.
    let trick = vec![13];
    assert_eq!(
        agent.calc_score_following_turn(&history, &trick, S_A, 1),
        i32::MAX - (50 - S_A)
    );
}

#[test]
fn following_score_hearts() {
    let agent = RuleBasedAgent::new();
    let history: Vec<i32> = Vec::new();
    // Off-suit heart: prefer dumping high ones.
    let trick = vec![5];
    assert_eq!(agent.calc_score_following_turn(&history, &trick, 45, 1), 45);
    // Forced to follow hearts: prefer low ones.
    let trick = vec![44];
    assert_eq!(agent.calc_score_following_turn(&history, &trick, 45, 1), 60 - 45);
}

#[test]
fn leading_score_queen_of_spades_is_strongly_avoided() {
    let agent = RuleBasedAgent::new();
    let history: Vec<i32> = Vec::new();
    assert_eq!(agent.calc_score_first_turn(&history, S_Q, 0, false), -70);
}

#[test]
fn leading_score_prefers_short_suits() {
    let mut agent = RuleBasedAgent::new();
    // All thirteen clubs: leading any club scores 10 - 13 - 0 = -3.
    let cards: Vec<i32> = (0..13).collect();
    agent.set_hand(&cards);
    let history: Vec<i32> = Vec::new();
    assert_eq!(agent.calc_score_first_turn(&history, 5, 1, false), -3);
}

#[test]
fn leading_score_low_hearts_once_broken() {
    let agent = RuleBasedAgent::new();
    let history: Vec<i32> = Vec::new();
    // Heart rank 8 (the 45): -45 + 20, then +50 - 45 once hearts broke,
    // then the short-suit term 10 - 0 - 3 with no hearts left in hand.
    assert_eq!(agent.calc_score_first_turn(&history, 45, 1, true), -45 + 20 + 7 + 50 - 45);
}

#[test]
fn set_hand_sorts_ascending() {
    let mut agent = RuleBasedAgent::new();
    let cards = vec![51, 3, 20, 0, 36, 45, 12, 7, 27, 31, 40, 16, 8];
    agent.set_hand(&cards);
    let hand = agent.get_hand();
    assert_eq!(hand.len(), 13);
    for i in 1..13 {
        assert!(hand[i - 1] < hand[i]);
    }
    assert_eq!(hand[0], 0);
    assert_eq!(hand[12], 51);
}

#[test]
fn update_hand_empties_the_slot() {
    let mut agent = RandomAgent::new();
    let cards: Vec<i32> = (10..23).collect();
    agent.set_hand(&cards);
    agent.update_hand(15);
    let hand = agent.get_hand();
    assert!(hand.iter().all(|&c| c != 15));
    assert_eq!(hand.iter().filter(|&&c| c == -1).count(), 1);
    agent.update_hand(15);
    assert_eq!(agent.get_hand().iter().filter(|&&c| c == -1).count(), 1);
}

#[test]
fn rule_based_agent_leads_two_of_clubs_in_first_trick() {
    let mut agent = RuleBasedAgent::new();
    let cards = vec![C_2, 5, 9, 14, 18, 22, 27, 30, 34, 41, 44, 47, 50];
    agent.set_hand(&cards);
    let history: Vec<i32> = Vec::new();
    assert_eq!(agent.select_card(&history, 0, 0, false), C_2);
}

#[test]
fn random_agent_plays_legal_cards_only() {
    let mut agent = RandomAgent::new();
    let cards = vec![C_2, 5, 9, 14, 18, 22, 27, 30, 34, 41, 44, 47, 50];
    agent.set_hand(&cards);
    let history: Vec<i32> = Vec::new();
    for _ in 0..20 {
        assert_eq!(agent.select_card(&history, 0, 0, false), C_2);
    }
}

#[test]
fn degenerate_all_heart_run_is_detected() {
    // The identity ordering ends with the 13 hearts in a row: one player
    // would be dealt every heart. The deal provider must detect it.
    let ordering: Vec<i32> = (0..52).collect();
    assert!(has_thirteen_heart_run(&ordering));

    // Swapping one heart out of the block breaks the run.
    let mut fixed = ordering.clone();
    fixed.swap(0, 45);
    assert!(!has_thirteen_heart_run(&fixed));
}

#[test]
fn deal_never_hands_out_a_heart_run() {
    let mut agents = vec![
        Agent::RuleBased(RuleBasedAgent::new()),
        Agent::RuleBased(RuleBasedAgent::new()),
        Agent::RuleBased(RuleBasedAgent::new()),
        Agent::RuleBased(RuleBasedAgent::new()),
    ];
    let v = deal_cards(&mut agents).unwrap();
    assert_eq!(v.len(), 52);
    assert!(!has_thirteen_heart_run(&v));
    // The shuffle is a permutation of the deck.
    let mut seen = [false; 52];
    for &c in v.iter() {
        assert!((0..52).contains(&c));
        assert!(!seen[c as usize]);
        seen[c as usize] = true;
    }
}

#[test]
fn full_round_history_holds_each_card_once() {
    let mut agents = vec![
        Agent::RuleBased(RuleBasedAgent::new()),
        Agent::RuleBased(RuleBasedAgent::new()),
        Agent::RuleBased(RuleBasedAgent::new()),
        Agent::RuleBased(RuleBasedAgent::new()),
    ];
    let h = play_one_game(&mut agents).unwrap();
    assert_eq!(h.cards.len(), 52);
    assert_eq!(h.players.len(), 52);
    // Each of the 52 cards exactly once.
    let mut count = [0usize; 52];
    for &c in h.cards.iter() {
        count[c as usize] += 1;
    }
    assert!(count.iter().all(|&n| n == 1));
    // Trick 0 opens with the Two of Clubs.
    assert_eq!(h.cards[0], C_2);
    // Every play belongs to one of the four players, 13 plays each.
    assert!(h.players.iter().all(|&p| (0..4).contains(&p)));
    let mut plays = [0usize; 4];
    for &p in h.players.iter() {
        plays[p as usize] += 1;
    }
    assert!(plays.iter().all(|&n| n == 13));
}

#[test]
fn full_round_penalties_total_26() {
    let mut agents = vec![
        Agent::Random(RandomAgent::new()),
        Agent::RuleBased(RuleBasedAgent::new()),
        Agent::Random(RandomAgent::new()),
        Agent::RuleBased(RuleBasedAgent::new()),
    ];
    for _ in 0..5 {
        let h = play_one_game(&mut agents).unwrap();
        let points = calc_penalty_points(&h.cards, &h.players);
        let total: i32 = points.iter().sum();
        assert_eq!(total, 26);
        assert!(points.iter().all(|&p| p >= 0));
    }
}

#[test]
fn card_helpers_decompose_cards() {
    assert_eq!(hearts::cards::get_suit(40), 3);
    assert_eq!(hearts::cards::get_suit(12), 0);
    let mut agent = RuleBasedAgent::new();
    assert_eq!(agent.get_symbol(40), 1);
    assert_eq!(agent.get_symbol(S_Q), 10);
    let cards: Vec<i32> = vec![C_2, 13, 14, 15, 16, 17, 18, 19, 20, 21, 22, 23, 24];
    agent.set_hand(&cards);
    assert!(agent.is_card_in_hand(C_2));
    assert!(!agent.is_card_in_hand(S_Q));
    assert_eq!(agent.count_number_of_suit_in_hand(13), 12);
    assert_eq!(agent.count_number_of_suit_in_hand(5), 1);
    let history = vec![C_2, 5, 13, S_Q];
    assert!(agent.is_card_discarded_in_game(&history, S_Q));
    assert!(!agent.is_card_discarded_in_game(&history, S_K));
    assert!(agent.is_card_discarded_in_trick(&history, 5));
}

#[test]
fn calc_score_marks_illegal_slots_minimal() {
    let mut agent = RuleBasedAgent::new();
    // One club (the forced Two of Clubs) and twelve diamonds.
    let cards: Vec<i32> = vec![C_2, 13, 14, 15, 16, 17, 18, 19, 20, 21, 22, 23, 24];
    agent.set_hand(&cards);
    let history: Vec<i32> = Vec::new();
    let scores = agent.calc_score(&history, 0, 0, false);
    assert_eq!(scores.len(), 13);
    // Leading the Two of Clubs from a one-club hand: 10 - 1 - 0 = 9.
    assert_eq!(scores[0], 9);
    // Every other card is illegal in trick 0 and scores the minimum.
    for i in 1..13 {
        assert_eq!(scores[i], i32::MIN);
    }
}

#[test]
fn hearts_stay_broken_for_later_leads() {
    // Once a heart has been played, a heart lead passes the legality
    // check in every later trick, whatever the hand holds besides.
    let hand = vec![39, 5, 20, 30];
    let empty_trick: Vec<i32> = Vec::new();
    for trick in 1..13 {
        assert!(is_valid_card(&hand, &empty_trick, 39, trick, true));
    }
}
