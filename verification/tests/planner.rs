use pinochle::belief::remove_first;
use pinochle::planner::{best_move, card_code, card_from_code, filter_points, step, tallies_of, tally, Tally};
use pinochle::{deck, Bot, Card, Player, PlayerState, PlayingPhase, Rank, State, Suit, Trick};
use rand::rngs::StdRng;
use rand::SeedableRng;

#[test]
fn test_candidate_hands_exclusive_constraints() {
    let mut rng = StdRng::seed_from_u64(1);
    let mut state = State::default();
    state
        .player_state_mut(Player::A)
        .set_highest_possible(Suit::Clubs, None);
    state
        .player_state_mut(Player::B)
        .set_highest_possible(Suit::Clubs, None);
    state
        .player_state_mut(Player::D)
        .set_highest_possible(Suit::Clubs, None);
    let res = state.produce_candidate_hands(&mut rng).unwrap();
    assert!(res[2].iter().all(|x| x.0 == Suit::Clubs));
    assert!(res.iter().all(|x| x.len() == 12));
}

#[test]
fn test_candidate_hands_inclusive_constraints() {
    let mut rng = StdRng::seed_from_u64(1);
    let mut state = State::default();
    state
        .player_state_mut(Player::C)
        .set_highest_possible(Suit::Hearts, None);
    state
        .player_state_mut(Player::C)
        .set_highest_possible(Suit::Clubs, None);
    state
        .player_state_mut(Player::C)
        .set_highest_possible(Suit::Diamonds, None);
    let res = state.produce_candidate_hands(&mut rng).unwrap();
    assert!(res[2].iter().all(|x| x.0 == Suit::Spades));
    assert!(res.iter().all(|x| x.len() == 12));
}

fn sorted(mut cards: Vec<Card>) -> Vec<Card> {
    cards.sort();
    cards
}

#[test]
fn a_candidate_deal_holds_the_deck_and_respects_the_bounds() {
    let mut state = State::default();
    state
        .player_state_mut(Player::A)
        .set_highest_possible(Suit::Hearts, Some(Rank::Queen));
    state
        .player_state_mut(Player::B)
        .set_highest_possible(Suit::Spades, None);
    state.player_state_mut(Player::D).known_cards = vec![Card(Suit::Spades, Rank::Ace)];
    for seed in 0..20 {
        let mut rng = StdRng::seed_from_u64(seed);
        let res = state.produce_candidate_hands(&mut rng).unwrap();
        let all: Vec<Card> = res.iter().flatten().copied().collect();
        assert_eq!(sorted(all), sorted(deck()));
        assert!(res.iter().all(|hand| hand.len() == 12));
        assert!(res[0].iter().all(|c| c.0 != Suit::Hearts || c.1 <= Rank::Queen));
        assert!(res[1].iter().all(|c| c.0 != Suit::Spades));
        assert_eq!(res[3][0], Card(Suit::Spades, Rank::Ace));
    }
}

#[test]
fn a_contradictory_belief_has_no_deal() {
    let mut rng = StdRng::seed_from_u64(1);
    let mut state = State::default();
    for seat in [Player::A, Player::B, Player::C, Player::D] {
        state.player_state_mut(seat).set_highest_possible(Suit::Clubs, None);
    }
    assert_eq!(state.produce_candidate_hands(&mut rng), None);
}

#[test]
fn solve_deals_forced_cards_first_and_backtracks() {
    let mut state = State::default();
    state.hand_sizes = [1, 1, 1, 0];
    state
        .player_state_mut(Player::A)
        .set_highest_possible(Suit::Clubs, None);
    state
        .player_state_mut(Player::B)
        .set_highest_possible(Suit::Hearts, None);
    state
        .player_state_mut(Player::C)
        .set_highest_possible(Suit::Hearts, None);
    state
        .player_state_mut(Player::C)
        .set_highest_possible(Suit::Spades, None);
    let cards = vec![
        Card(Suit::Spades, Rank::Nine),
        Card(Suit::Clubs, Rank::Nine),
        Card(Suit::Hearts, Rank::Nine),
    ];
    let res = state.solve(cards.clone(), [vec![], vec![], vec![], vec![]]).unwrap();
    assert_eq!(res[0], vec![Card(Suit::Hearts, Rank::Nine)]);
    assert_eq!(res[1], vec![Card(Suit::Spades, Rank::Nine)]);
    assert_eq!(res[2], vec![Card(Suit::Clubs, Rank::Nine)]);
    assert!(res[3].is_empty());
    let full = [vec![Card(Suit::Diamonds, Rank::Ace)], vec![], vec![], vec![]];
    assert_eq!(state.solve(cards.clone(), full), None);
    let over = [vec![], vec![], vec![], vec![Card(Suit::Diamonds, Rank::Ace)]];
    assert_eq!(state.solve(vec![], over), None);
}

#[test]
fn seats_are_tried_most_constrained_first() {
    assert_eq!(pinochle::solver::seat_order(&[3, 1, 2, 0]), [3, 1, 2, 0]);
    assert_eq!(pinochle::solver::seat_order(&[2, 2, 1, 1]), [2, 3, 0, 1]);
    assert_eq!(pinochle::solver::seat_order(&[0, 0, 0, 0]), [0, 1, 2, 3]);
}

#[test]
fn a_seat_may_hold_what_its_bounds_allow() {
    let mut seat = PlayerState::default();
    assert_eq!(seat.highest_possible(Suit::Hearts), Some(Rank::Ace));
    assert!(seat.could_have_card(Card(Suit::Hearts, Rank::Ace)));
    seat.set_highest_possible(Suit::Hearts, Some(Rank::King));
    assert!(seat.could_have_card(Card(Suit::Hearts, Rank::King)));
    assert!(seat.could_have_card(Card(Suit::Hearts, Rank::Nine)));
    assert!(!seat.could_have_card(Card(Suit::Hearts, Rank::Ten)));
    assert!(seat.could_have_card(Card(Suit::Clubs, Rank::Ace)));
    seat.set_highest_possible(Suit::Clubs, None);
    assert!(!seat.could_have_card(Card(Suit::Clubs, Rank::Nine)));
}

#[test]
fn a_discard_shows_two_void_suits() {
    let mut state = State::default();
    state.player_state_mut(Player::B).known_cards =
        vec![Card(Suit::Clubs, Rank::Nine), Card(Suit::Clubs, Rank::Nine)];
    let stack = vec![Card(Suit::Hearts, Rank::King)];
    state.update(Player::B, Card(Suit::Clubs, Rank::Nine), Suit::Spades, &stack);
    assert_eq!(state.played_cards, vec![Card(Suit::Clubs, Rank::Nine)]);
    assert_eq!(state.hand_sizes, [12, 11, 12, 12]);
    let seat = state.player_state(Player::B);
    assert_eq!(seat.known_cards, vec![Card(Suit::Clubs, Rank::Nine)]);
    assert_eq!(seat.highest_possible(Suit::Hearts), None);
    assert_eq!(seat.highest_possible(Suit::Spades), None);
    assert_eq!(seat.highest_possible(Suit::Clubs), Some(Rank::Ace));
    assert_eq!(seat.highest_possible(Suit::Diamonds), Some(Rank::Ace));
    assert_eq!(state.player_state(Player::A), &PlayerState::default());
}

#[test]
fn a_weak_follow_or_trump_lowers_the_bound_and_never_raises_it() {
    let mut state = State::default();
    let stack = vec![Card(Suit::Hearts, Rank::King), Card(Suit::Hearts, Rank::Ten)];
    state.update(Player::C, Card(Suit::Hearts, Rank::Queen), Suit::Spades, &stack);
    assert_eq!(state.player_state(Player::C).highest_possible(Suit::Hearts), Some(Rank::Ten));
    let stack = vec![Card(Suit::Hearts, Rank::Ace)];
    state.update(Player::C, Card(Suit::Hearts, Rank::Nine), Suit::Spades, &stack);
    assert_eq!(state.player_state(Player::C).highest_possible(Suit::Hearts), Some(Rank::Ten));
    let stack = vec![Card(Suit::Hearts, Rank::Queen)];
    state.update(Player::C, Card(Suit::Hearts, Rank::King), Suit::Spades, &stack);
    assert_eq!(state.player_state(Player::C).highest_possible(Suit::Hearts), Some(Rank::Ten));
    let stack = vec![Card(Suit::Clubs, Rank::Ace), Card(Suit::Spades, Rank::King)];
    state.update(Player::D, Card(Suit::Spades, Rank::Jack), Suit::Spades, &stack);
    let seat = state.player_state(Player::D);
    assert_eq!(seat.highest_possible(Suit::Clubs), None);
    assert_eq!(seat.highest_possible(Suit::Spades), Some(Rank::King));
    let stack = vec![Card(Suit::Diamonds, Rank::Ace)];
    state.update(Player::D, Card(Suit::Spades, Rank::Nine), Suit::Spades, &stack);
    let seat = state.player_state(Player::D);
    assert_eq!(seat.highest_possible(Suit::Diamonds), None);
    assert_eq!(seat.highest_possible(Suit::Spades), Some(Rank::King));
    state.update(Player::A, Card(Suit::Spades, Rank::Nine), Suit::Spades, &[]);
    assert_eq!(state.player_state(Player::A), &PlayerState::default());
}

#[test]
fn remove_first_takes_one_copy() {
    let nine = Card(Suit::Clubs, Rank::Nine);
    let ace = Card(Suit::Clubs, Rank::Ace);
    let mut cards = vec![ace, nine, ace, nine];
    remove_first(&mut cards, nine);
    assert_eq!(cards, vec![ace, ace, nine]);
    remove_first(&mut cards, Card(Suit::Hearts, Rank::Nine));
    assert_eq!(cards, vec![ace, ace, nine]);
}

fn opening_hand() -> Vec<Card> {
    vec![
        Card(Suit::Clubs, Rank::Ace),
        Card(Suit::Clubs, Rank::Ace),
        Card(Suit::Clubs, Rank::King),
        Card(Suit::Clubs, Rank::Queen),
        Card(Suit::Clubs, Rank::Ten),
        Card(Suit::Clubs, Rank::Jack),
        Card(Suit::Clubs, Rank::Nine),
        Card(Suit::Diamonds, Rank::Jack),
        Card(Suit::Hearts, Rank::Ace),
        Card(Suit::Hearts, Rank::King),
        Card(Suit::Hearts, Rank::Jack),
        Card(Suit::Hearts, Rank::Nine),
    ]
}

fn opening_phase(first_player: Player) -> PlayingPhase {
    PlayingPhase {
        trump: Suit::Spades,
        bid_winner: first_player,
        highest_bid: 0,
        extra_points: [0, 0],
        piles: [vec![], vec![]],
        trick: Trick {
            first_player,
            cards: vec![],
        },
    }
}

#[test]
fn a_new_bot_knows_its_hand_only() {
    let bot = Bot::new(Player::C, opening_hand(), opening_phase(Player::C));
    assert_eq!(bot.player, Player::C);
    assert_eq!(bot.hand, opening_hand());
    assert_eq!(bot.playing_phase, opening_phase(Player::C));
    assert_eq!(bot.state.hand_sizes, [12, 12, 12, 12]);
    assert!(bot.state.played_cards.is_empty());
    assert_eq!(bot.state.player_state(Player::C).known_cards, opening_hand());
    assert_eq!(bot.state.player_state(Player::A), &PlayerState::default());
}

#[test]
fn try_bot() {
    let hand = opening_hand();
    let bot = Bot::new(Player::A, hand.clone(), opening_phase(Player::A));
    let card = bot.get_move().unwrap();
    assert!(hand.contains(&card));
}

#[test]
fn the_bot_recommends_a_card_of_its_hand() {
    let bot = Bot::new(Player::A, opening_hand(), opening_phase(Player::A));
    let mut rng = StdRng::seed_from_u64(2);
    let card = bot.get_move_with(&mut rng, 200).unwrap();
    assert!(opening_hand().contains(&card));
    assert_eq!(bot.get_move_with(&mut rng, 0), None);
}

#[test]
fn the_bot_follows_the_play() {
    let mut bot = Bot::new(Player::B, opening_hand(), opening_phase(Player::A));
    let lead = Card(Suit::Hearts, Rank::Queen);
    bot.update(Player::A, lead, Suit::Spades, &[]);
    assert_eq!(bot.state.hand_sizes, [11, 12, 12, 12]);
    assert_eq!(bot.playing_phase.trick.cards, vec![lead]);
    assert_eq!(bot.hand.len(), 12);
    let mut rng = StdRng::seed_from_u64(9);
    let card = bot.get_move_with(&mut rng, 100).unwrap();
    assert!(card == Card(Suit::Hearts, Rank::Ace) || card == Card(Suit::Hearts, Rank::King));
    bot.update(Player::B, card, Suit::Spades, &[lead]);
    assert_eq!(bot.hand.len(), 11);
    assert!(!bot.hand.contains(&card));
    assert_eq!(bot.state.player_state(Player::B).known_cards, bot.hand);
    assert_eq!(bot.state.played_cards, vec![lead, card]);
    assert_eq!(bot.playing_phase.trick.cards, vec![lead, card]);
}

#[test]
fn with_every_card_known_the_recommendation_does_not_depend_on_the_draw() {
    let last = [
        Card(Suit::Hearts, Rank::Ace),
        Card(Suit::Hearts, Rank::King),
        Card(Suit::Clubs, Rank::Nine),
        Card(Suit::Spades, Rank::Nine),
    ];
    let mut played = deck();
    for card in last {
        remove_first(&mut played, card);
    }
    let mut state = State::default();
    state.hand_sizes = [1, 1, 1, 1];
    state.played_cards = played.clone();
    for (seat, card) in [Player::A, Player::B, Player::C, Player::D].into_iter().zip(last) {
        state.player_state_mut(seat).known_cards = vec![card];
    }
    let mut phase = opening_phase(Player::A);
    phase.piles = [played[..22].to_vec(), played[22..].to_vec()];
    let bot = Bot {
        state,
        player: Player::A,
        hand: vec![last[0]],
        playing_phase: phase,
    };
    for seed in 0..5 {
        let mut rng = StdRng::seed_from_u64(seed);
        let trial = bot.try_random_hand(&mut rng).unwrap();
        assert_eq!(trial.0, last[0]);
        assert_eq!(bot.get_move_with(&mut rng, 10 + 30 * (seed as u32)), Some(last[0]));
    }
}

#[test]
fn a_step_plays_the_first_legal_card() {
    let mut phase = opening_phase(Player::A);
    phase.trick.cards = vec![Card(Suit::Hearts, Rank::King)];
    let mut player = Player::B;
    let mut hands = [
        vec![],
        vec![
            Card(Suit::Clubs, Rank::Ace),
            Card(Suit::Hearts, Rank::Nine),
            Card(Suit::Hearts, Rank::Ace),
        ],
        vec![],
        vec![],
    ];
    assert_eq!(
        step(&mut phase, &mut player, &mut hands),
        Some((Card(Suit::Hearts, Rank::Ace), None))
    );
    assert_eq!(player, Player::C);
    assert_eq!(hands[1], vec![Card(Suit::Clubs, Rank::Ace), Card(Suit::Hearts, Rank::Nine)]);
    assert_eq!(phase.trick.cards.len(), 2);
    assert_eq!(step(&mut phase, &mut player, &mut hands), None);
    assert_eq!(player, Player::C);
}

#[test]
fn a_trial_counts_for_the_team_of_the_seat() {
    assert_eq!(filter_points(Player::A, (120, 130)), 120);
    assert_eq!(filter_points(Player::C, (-300, 130)), -300);
    assert_eq!(filter_points(Player::B, (120, 130)), 10);
    assert_eq!(filter_points(Player::D, (i32::MAX, i32::MIN)), -4294967295);
}

#[test]
fn the_best_mean_wins_and_the_first_among_equals() {
    let a = Card(Suit::Hearts, Rank::Ace);
    let b = Card(Suit::Hearts, Rank::King);
    let c = Card(Suit::Clubs, Rank::Nine);
    assert_eq!(best_move(&vec![]), None);
    let mut tallies = vec![tally(a, &vec![10, 20]), tally(b, &vec![30, 0]), tally(c, &vec![-5])];
    assert_eq!(
        tallies,
        vec![
            Tally { card: a, total: 30, count: 2 },
            Tally { card: b, total: 30, count: 2 },
            Tally { card: c, total: -5, count: 1 },
        ]
    );
    assert_eq!(best_move(&tallies), Some(a));
    tallies[2] = tally(c, &vec![-5, 40]);
    assert_eq!(best_move(&tallies), Some(c));
    tallies[1] = tally(b, &vec![30, 0, 30]);
    assert_eq!(best_move(&tallies), Some(b));
}

#[test]
fn trials_are_summed_card_by_card() {
    let a = Card(Suit::Hearts, Rank::Ace);
    let b = Card(Suit::Spades, Rank::Nine);
    let trials = vec![
        (card_code(a), 10),
        (card_code(b), -4),
        (card_code(a), 25),
        (card_code(a), 1),
        (card_code(b), 6),
    ];
    let mut tallies = tallies_of(trials);
    tallies.sort_by_key(|t| t.count);
    assert_eq!(
        tallies,
        vec![
            Tally { card: b, total: 2, count: 2 },
            Tally { card: a, total: 36, count: 3 },
        ]
    );
    assert!(tallies_of(vec![]).is_empty());
}

#[test]
fn cards_have_numbers() {
    assert_eq!(card_code(Card(Suit::Diamonds, Rank::Nine)), 0);
    assert_eq!(card_code(Card(Suit::Clubs, Rank::Queen)), 8);
    assert_eq!(card_code(Card(Suit::Spades, Rank::Ace)), 23);
    for card in deck() {
        assert_eq!(card_from_code(card_code(card)), card);
    }
}

#[test]
fn drawing_fills_each_hand_from_the_cards() {
    let state = State::default();
    let mut rng = StdRng::seed_from_u64(6);
    let out = state
        .random_solution(deck(), [vec![], vec![], vec![], vec![]], &mut rng)
        .unwrap();
    assert!(out.iter().all(|hand| hand.len() == 12));
    let all: Vec<Card> = out.iter().flatten().copied().collect();
    assert_eq!(sorted(all), sorted(deck()));
    assert_ne!(out[0], deck()[36..].iter().rev().copied().collect::<Vec<Card>>());
    assert_eq!(
        state.random_solution(deck()[..47].to_vec(), [vec![], vec![], vec![], vec![]], &mut rng),
        None
    );
}

#[test]
fn drawing_respects_the_bounds() {
    let mut state = State::default();
    state.hand_sizes = [2, 2, 0, 0];
    state
        .player_state_mut(Player::A)
        .set_highest_possible(Suit::Hearts, None);
    let known = Card(Suit::Clubs, Rank::Ace);
    let cards = vec![
        Card(Suit::Hearts, Rank::Nine),
        Card(Suit::Hearts, Rank::King),
        Card(Suit::Spades, Rank::Nine),
    ];
    for seed in 0..10 {
        let mut rng = StdRng::seed_from_u64(seed);
        let out = state
            .random_solution(cards.clone(), [vec![known], vec![], vec![known], vec![]], &mut rng)
            .unwrap();
        assert_eq!(out[0], vec![known, Card(Suit::Spades, Rank::Nine)]);
        assert_eq!(sorted(out[1].clone()), vec![cards[0], cards[1]]);
        assert_eq!(out[2], vec![known]);
        assert!(out[3].is_empty());
    }
}
