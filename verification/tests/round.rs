use pinochle::game::shuffled;
use pinochle::{
    deck, Action, Card, Error, Game, Phase, Player, PlayingPhase, Rank, RoundState, Suit, Trick,
};
use rand::rngs::StdRng;
use rand::SeedableRng;

fn sorted(mut cards: Vec<Card>) -> Vec<Card> {
    cards.sort();
    cards
}

fn all_cards(round: &RoundState) -> Vec<Card> {
    let mut cards: Vec<Card> = round.hands.iter().flatten().copied().collect();
    if let Phase::Play(p) = &round.phase {
        cards.extend(p.piles[0].iter().copied());
        cards.extend(p.piles[1].iter().copied());
        cards.extend(p.trick.cards.iter().copied());
    }
    sorted(cards)
}

fn play_first_legal(round: &mut RoundState) -> Option<(i32, i32)> {
    let seat = round.current_player.index();
    for index in 0..round.hands[seat].len() {
        match round.act(Action::Play(index)) {
            Ok(result) => return result,
            Err(e) => assert_eq!(e, Error::CardIsNotLegalToPlay),
        }
    }
    panic!("a hand always holds a legal card");
}

fn to_the_play(round: &mut RoundState, bids: [i32; 4], trump: Suit) {
    for bid in bids {
        assert_eq!(round.act(Action::Bid(bid)), Ok(None));
    }
    assert_eq!(round.act(Action::DeclareSuit(trump)), Ok(None));
    assert_eq!(round.act(Action::Pass(vec![0, 1, 2, 3])), Ok(None));
    assert_eq!(round.act(Action::Pass(vec![8, 9, 10, 11])), Ok(None));
    for _ in 0..4 {
        assert_eq!(round.act(Action::ShowPoints(vec![])), Ok(None));
    }
}

#[test]
fn shuffle_keeps_the_cards_and_changes_their_order() {
    let mut rng = StdRng::seed_from_u64(1);
    let cards = shuffled(&mut rng);
    assert_ne!(cards, deck());
    assert_eq!(sorted(cards), sorted(deck()));
}

#[test]
fn a_round_starts_with_twelve_cards_each_and_the_bidding() {
    let mut rng = StdRng::seed_from_u64(3);
    let round = RoundState::start(&mut rng, Player::C);
    assert_eq!(round.current_player, Player::C);
    for hand in &round.hands {
        assert_eq!(hand.len(), 12);
    }
    assert_eq!(
        round.phase,
        Phase::Bidding {
            first_bidder: Player::C,
            bids: vec![]
        }
    );
    assert_eq!(all_cards(&round), sorted(deck()));
}

#[test]
fn the_highest_bid_wins_and_the_earliest_among_equals() {
    let mut rng = StdRng::seed_from_u64(3);
    let mut round = RoundState::start(&mut rng, Player::B);
    assert_eq!(round.act(Action::Bid(20)), Ok(None));
    assert_eq!(round.current_player, Player::C);
    assert_eq!(round.act(Action::Bid(35)), Ok(None));
    assert_eq!(round.act(Action::Bid(35)), Ok(None));
    assert_eq!(
        round.phase,
        Phase::Bidding {
            first_bidder: Player::B,
            bids: vec![20, 35, 35]
        }
    );
    assert_eq!(round.act(Action::Bid(10)), Ok(None));
    assert_eq!(
        round.phase,
        Phase::DeclareTrump {
            bid_winner: Player::C,
            highest_bid: 35
        }
    );
    assert_eq!(round.current_player, Player::C);
}

#[test]
fn the_phases_follow_each_other() {
    let mut rng = StdRng::seed_from_u64(5);
    let mut round = RoundState::start(&mut rng, Player::A);
    for bid in [10, 40, 30, 20] {
        assert_eq!(round.act(Action::Bid(bid)), Ok(None));
    }
    assert_eq!(round.current_player, Player::B);
    assert_eq!(round.act(Action::DeclareSuit(Suit::Hearts)), Ok(None));
    assert_eq!(round.current_player, Player::D);
    assert_eq!(
        round.phase,
        Phase::PassingTo {
            bid_winner: Player::B,
            highest_bid: 40,
            trump: Suit::Hearts
        }
    );
    let given: Vec<Card> = vec![round.hands[3][7], round.hands[3][4], round.hands[3][2], round.hands[3][0]];
    assert_eq!(round.act(Action::Pass(vec![0, 2, 4, 7])), Ok(None));
    assert_eq!(round.current_player, Player::B);
    assert_eq!(round.hands[3].len(), 8);
    assert_eq!(round.hands[1][12..].to_vec(), given);
    assert_eq!(round.act(Action::Pass(vec![15, 14, 13, 12])), Ok(None));
    assert_eq!(round.hands[1].len(), 12);
    assert_eq!(round.hands[3].len(), 12);
    assert_eq!(sorted(round.hands[3][8..].to_vec()), sorted(given));
    assert_eq!(round.current_player, Player::B);
    assert_eq!(all_cards(&round), sorted(deck()));
    let shown = vec![round.hands[1][0], round.hands[1][3]];
    let bonus = pinochle::bonus_points(&shown, Suit::Hearts);
    assert_eq!(round.act(Action::ShowPoints(vec![0, 3])), Ok(None));
    assert_eq!(round.current_player, Player::C);
    assert_eq!(
        round.phase,
        Phase::RevealingCards {
            reveals: vec![shown],
            extra_points: [0, bonus],
            bid_winner: Player::B,
            highest_bid: 40,
            trump: Suit::Hearts
        }
    );
    for _ in 0..3 {
        assert_eq!(round.act(Action::ShowPoints(vec![])), Ok(None));
    }
    assert_eq!(round.current_player, Player::B);
    assert_eq!(
        round.phase,
        Phase::Play(PlayingPhase {
            trump: Suit::Hearts,
            bid_winner: Player::B,
            highest_bid: 40,
            extra_points: [0, bonus],
            piles: [vec![], vec![]],
            trick: Trick {
                first_player: Player::B,
                cards: vec![]
            },
        })
    );
}

#[test]
fn an_action_of_another_phase_is_incorrect_and_changes_nothing() {
    let mut rng = StdRng::seed_from_u64(5);
    let mut round = RoundState::start(&mut rng, Player::A);
    let before = round.clone();
    assert_eq!(round.act(Action::Play(0)), Err(Error::IncorrectAction));
    assert_eq!(round.act(Action::DeclareSuit(Suit::Clubs)), Err(Error::IncorrectAction));
    assert_eq!(round.act(Action::Pass(vec![0, 1, 2, 3])), Err(Error::IncorrectAction));
    assert_eq!(round.act(Action::ShowPoints(vec![])), Err(Error::IncorrectAction));
    assert_eq!(round, before);
    for bid in [10, 40, 30, 20] {
        assert_eq!(round.act(Action::Bid(bid)), Ok(None));
    }
    assert_eq!(round.act(Action::Bid(50)), Err(Error::IncorrectAction));
}

#[test]
fn passes_and_reveals_are_checked_before_anything_moves() {
    let mut rng = StdRng::seed_from_u64(5);
    let mut round = RoundState::start(&mut rng, Player::A);
    for bid in [10, 40, 30, 20] {
        assert_eq!(round.act(Action::Bid(bid)), Ok(None));
    }
    assert_eq!(round.act(Action::DeclareSuit(Suit::Hearts)), Ok(None));
    let before = round.clone();
    assert_eq!(round.act(Action::Pass(vec![0, 1, 2])), Err(Error::PassingWrongNumberOfCards));
    assert_eq!(round.act(Action::Pass(vec![0, 1, 1, 2])), Err(Error::PassingWrongNumberOfCards));
    assert_eq!(round.act(Action::Pass(vec![0, 1, 2, 12])), Err(Error::PlayingNonExtantCard));
    assert_eq!(round, before);
    assert_eq!(round.act(Action::Pass(vec![0, 1, 2, 3])), Ok(None));
    assert_eq!(round.act(Action::Pass(vec![0, 1, 2, 3])), Ok(None));
    let before = round.clone();
    assert_eq!(round.act(Action::ShowPoints(vec![0, 12])), Err(Error::PlayingNonExtantCard));
    assert_eq!(round, before);
}

#[test]
fn an_illegal_or_missing_card_is_turned_down() {
    let mut rng = StdRng::seed_from_u64(11);
    let mut round = RoundState::start(&mut rng, Player::A);
    to_the_play(&mut round, [30, 0, 0, 0], Suit::Spades);
    assert_eq!(round.act(Action::Play(12)), Err(Error::PlayingNonExtantCard));
    assert_eq!(round.act(Action::Play(0)), Ok(None));
    let lead = match &round.phase {
        Phase::Play(p) => p.trick.cards[0],
        _ => panic!("the play has begun"),
    };
    let seat = round.current_player.index();
    let hand = round.hands[seat].clone();
    let trick = vec![lead];
    let mut refused = 0;
    for index in 0..hand.len() {
        let legal = pinochle::is_legal_play(&trick, &hand, hand[index], Suit::Spades);
        let before = round.clone();
        if !legal {
            assert_eq!(round.act(Action::Play(index)), Err(Error::CardIsNotLegalToPlay));
            assert_eq!(round, before);
            refused += 1;
        }
    }
    assert!(refused > 0);
}

#[test]
fn the_deck_is_kept_through_a_whole_round() {
    let mut rng = StdRng::seed_from_u64(21);
    let mut round = RoundState::start(&mut rng, Player::D);
    let full = sorted(deck());
    to_the_play(&mut round, [0, 1, 2, 3], Suit::Diamonds);
    assert_eq!(all_cards(&round), full);
    let mut plays = 0;
    loop {
        let result = play_first_legal(&mut round);
        plays += 1;
        assert_eq!(all_cards(&round), full);
        if result.is_some() {
            break;
        }
    }
    assert_eq!(plays, 48);
    assert!(round.hands.iter().all(|hand| hand.is_empty()));
}

fn pile_points(pile: &Vec<Card>) -> i32 {
    pile.iter().map(|card| card.1.points()).sum()
}

#[test]
fn a_bid_that_is_not_made_is_lost() {
    let mut rng = StdRng::seed_from_u64(8);
    let mut round = RoundState::start(&mut rng, Player::A);
    to_the_play(&mut round, [1000, 0, 0, 0], Suit::Clubs);
    let scores = loop {
        if let Some(scores) = play_first_legal(&mut round) {
            break scores;
        }
    };
    let phase = match &round.phase {
        Phase::Play(p) => p.clone(),
        _ => panic!("the round ends in the play"),
    };
    assert_eq!(phase.bid_winner, Player::A);
    let last = if phase.trick.first_player.team() == 1 { 10 } else { 0 };
    assert_eq!(scores.0, -1000);
    assert_eq!(scores.1, pile_points(&phase.piles[1]) + last + phase.extra_points[1]);
    assert_eq!(pile_points(&phase.piles[0]) + pile_points(&phase.piles[1]), 240);
}

#[test]
fn a_bid_that_is_made_scores_the_points_taken() {
    let mut rng = StdRng::seed_from_u64(8);
    let mut round = RoundState::start(&mut rng, Player::A);
    to_the_play(&mut round, [0, -5, -5, -5], Suit::Clubs);
    let scores = loop {
        if let Some(scores) = play_first_legal(&mut round) {
            break scores;
        }
    };
    let phase = match &round.phase {
        Phase::Play(p) => p.clone(),
        _ => panic!("the round ends in the play"),
    };
    let last = if phase.trick.first_player.team() == 0 { 10 } else { 0 };
    assert_eq!(scores.0, pile_points(&phase.piles[0]) + last);
    assert_eq!(scores.0 + scores.1, 250);
}

#[test]
fn count_adds_the_last_trick_and_the_melds() {
    let pile = vec![
        Card(Suit::Hearts, Rank::Ace),
        Card(Suit::Hearts, Rank::King),
        Card(Suit::Clubs, Rank::Nine),
        Card(Suit::Clubs, Rank::Ten),
    ];
    assert_eq!(pinochle::play::count(&pile, false, 0, 0, false), 25);
    assert_eq!(pinochle::play::count(&pile, true, 40, 0, false), 75);
    assert_eq!(pinochle::play::count(&pile, true, 40, 75, true), 75);
    assert_eq!(pinochle::play::count(&pile, true, 40, 76, true), -76);
    assert_eq!(pinochle::play::count(&pile, true, 40, 76, false), 75);
}

#[test]
fn the_fourth_card_resolves_the_trick() {
    let mut phase = PlayingPhase {
        trump: Suit::Spades,
        bid_winner: Player::A,
        highest_bid: 0,
        extra_points: [0, 0],
        piles: [vec![], vec![]],
        trick: Trick {
            first_player: Player::C,
            cards: vec![],
        },
    };
    let hand = vec![Card(Suit::Hearts, Rank::King), Card(Suit::Clubs, Rank::Nine)];
    assert_eq!(phase.play(Player::C, &hand, hand[0]), Ok((Player::D, None)));
    let hand = vec![Card(Suit::Hearts, Rank::Ace), Card(Suit::Clubs, Rank::Nine)];
    assert_eq!(phase.play(Player::D, &hand, hand[1]), Err(Error::CardIsNotLegalToPlay));
    assert_eq!(phase.trick.cards.len(), 1);
    assert_eq!(phase.play(Player::D, &hand, hand[0]), Ok((Player::A, None)));
    let hand = vec![Card(Suit::Spades, Rank::Nine), Card(Suit::Clubs, Rank::Nine)];
    assert_eq!(phase.play(Player::A, &hand, hand[0]), Ok((Player::B, None)));
    let hand = vec![Card(Suit::Diamonds, Rank::Ace), Card(Suit::Clubs, Rank::Ace)];
    assert_eq!(phase.play(Player::B, &hand, hand[0]), Ok((Player::A, None)));
    assert_eq!(phase.trick.first_player, Player::A);
    assert!(phase.trick.cards.is_empty());
    assert_eq!(
        phase.piles[0],
        vec![
            Card(Suit::Hearts, Rank::King),
            Card(Suit::Hearts, Rank::Ace),
            Card(Suit::Spades, Rank::Nine),
            Card(Suit::Diamonds, Rank::Ace)
        ]
    );
    assert!(phase.piles[1].is_empty());
}

#[test]
fn the_last_card_of_the_hand_gives_the_scores() {
    let mut phase = PlayingPhase {
        trump: Suit::Spades,
        bid_winner: Player::B,
        highest_bid: 36,
        extra_points: [20, 0],
        piles: [vec![Card(Suit::Clubs, Rank::Ten)], vec![Card(Suit::Clubs, Rank::King)]],
        trick: Trick {
            first_player: Player::A,
            cards: vec![
                Card(Suit::Hearts, Rank::King),
                Card(Suit::Hearts, Rank::Ace),
                Card(Suit::Hearts, Rank::Nine),
            ],
        },
    };
    let hand = vec![Card(Suit::Hearts, Rank::Queen)];
    assert_eq!(
        phase.play(Player::D, &hand, hand[0]),
        Ok((Player::B, Some((30, -36))))
    );
}

#[test]
fn a_game_hands_the_turn_round_and_adds_the_scores() {
    let mut game = Game::new(StdRng::seed_from_u64(4));
    assert_eq!(game.scores, [0, 0]);
    assert_eq!(game.current_player, Player::A);
    assert_eq!(game.player_hand(Player::B), game.hand.hands[1]);
    assert_eq!(game.act(Player::B, Action::Bid(10)), Err(Error::NotTheCurrentPlayer));
    assert_eq!(game.act(Player::A, Action::Play(0)), Err(Error::IncorrectAction));
    for (seat, bid) in [(Player::A, 10), (Player::B, 20), (Player::C, 5), (Player::D, 300)] {
        assert_eq!(game.act(seat, Action::Bid(bid)), Ok(()));
    }
    assert_eq!(game.act(Player::D, Action::DeclareSuit(Suit::Hearts)), Ok(()));
    assert_eq!(game.act(Player::B, Action::Pass(vec![0, 1, 2, 3])), Ok(()));
    assert_eq!(game.act(Player::D, Action::Pass(vec![0, 1, 2, 3])), Ok(()));
    for seat in [Player::D, Player::A, Player::B, Player::C] {
        assert_eq!(game.act(seat, Action::ShowPoints(vec![])), Ok(()));
    }
    let mut plays = 0;
    while matches!(game.hand.phase, Phase::Play(_)) {
        let seat = game.hand.current_player;
        let mut played = false;
        for index in 0..game.player_hand(seat).len() {
            if game.act(seat, Action::Play(index)).is_ok() {
                played = true;
                break;
            }
        }
        assert!(played);
        plays += 1;
    }
    assert_eq!(plays, 48);
    assert_eq!(game.scores[1], -300);
    assert!(0 <= game.scores[0] && game.scores[0] <= 250);
    assert_eq!(game.current_player, Player::B);
    assert_eq!(game.hand.current_player, Player::B);
    assert_eq!(
        game.hand.phase,
        Phase::Bidding {
            first_bidder: Player::B,
            bids: vec![]
        }
    );
}

#[test]
fn the_public_view_shows_the_phase_and_the_scores() {
    let mut game = Game::new(StdRng::seed_from_u64(4));
    assert_eq!(game.act(Player::A, Action::Bid(10)), Ok(()));
    let info = pinochle::GameInfo::from_game(&game);
    assert_eq!(info.first_bidder, Player::A);
    assert_eq!(info.current_player, Player::B);
    assert_eq!(info.scores, [0, 0]);
    assert_eq!(info.phase, game.hand.phase);
    assert_eq!(
        info.phase,
        Phase::Bidding {
            first_bidder: Player::A,
            bids: vec![10]
        }
    );
}

#[test]
fn a_phase_is_copied_whole() {
    let mut rng = StdRng::seed_from_u64(13);
    let mut round = RoundState::start(&mut rng, Player::A);
    assert_eq!(round.phase.duplicate(), round.phase);
    to_the_play(&mut round, [0, 7, 0, 0], Suit::Hearts);
    for _ in 0..6 {
        play_first_legal(&mut round);
        assert_eq!(round.phase.duplicate(), round.phase);
    }
}
