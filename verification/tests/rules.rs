use pinochle::cards::partner;
use pinochle::each_player;
use pinochle::melds::bonus_points;
use pinochle::passing::take_indices;
use pinochle::precedence::compare;
use pinochle::rules::{best_strength, is_legal_play, winning_position};
use pinochle::{Card, Error, Player, Rank, RoundState, Suit, Trick};
use std::cmp::Ordering;
use Player::A;
use Rank::{Ace, Jack, King, Nine, Queen, Ten};
use Suit::{Clubs, Diamonds, Hearts, Spades};

#[test]
fn test_is_legal_to_play() {
    let card = Card(Clubs, King);
    let trick = Trick {
        first_player: A,
        cards: vec![Card(Clubs, Ten)],
    };
    let hand = vec![
        Card(Spades, Nine),
        Card(Spades, Nine),
        Card(Diamonds, Nine),
        Card(Clubs, Queen),
        Card(Spades, King),
        Card(Clubs, Ten),
        Card(Spades, Jack),
        Card(Spades, Ten),
        Card(Clubs, King),
        Card(Clubs, Nine),
        Card(Hearts, Ace),
    ];

    assert!(is_legal_play(&trick.cards, &hand, card, Spades));
    assert!(is_legal_play(&trick.cards, &hand, card, Diamonds));
    assert!(is_legal_play(&trick.cards, &hand, card, Hearts));
    assert!(is_legal_play(&trick.cards, &hand, card, Clubs));
}

#[test]
fn test_each_player() {
    let mut iter = each_player(Player::A).into_iter();
    assert_eq!(iter.next_back().unwrap(), Player::D);
    assert_eq!(iter.next().unwrap(), Player::A);
    assert_eq!(iter.next_back().unwrap(), Player::C);
    assert_eq!(iter.next_back().unwrap(), Player::B);
    assert!(iter.next_back().is_none());
}

#[test]
fn test_compare() {
    let ah = Card(Suit::Hearts, Rank::Ace);
    let kh = Card(Suit::Hearts, Rank::King);
    let ac = Card(Suit::Clubs, Rank::Ace);

    assert_eq!(
        compare(ah, kh, Suit::Diamonds, Suit::Hearts),
        Ordering::Greater
    );
    assert_eq!(
        compare(kh, ac, Suit::Hearts, Suit::Hearts),
        Ordering::Greater
    );
    assert_eq!(compare(kh, ac, Suit::Clubs, Suit::Hearts), Ordering::Less);
}

fn case(cards: &str, trump: Suit) -> i32 {
    let cards = cards
        .split(' ')
        .map(|x| {
            let rank = match x.chars().next().unwrap() {
                '9' => Nine,
                'J' => Jack,
                'Q' => Queen,
                'K' => King,
                'T' => Ten,
                'A' => Ace,
                other => panic!("no rank {other}"),
            };
            let suit = match x.chars().skip(1).next().unwrap() {
                'H' => Hearts,
                'D' => Diamonds,
                'C' => Clubs,
                'S' => Spades,
                other => panic!("no suit {other}"),
            };
            Card(suit, rank)
        })
        .collect();

    bonus_points(&cards, trump)
}

#[test]
fn test_bonus_points() {
    assert_eq!(case("AD AD AH AC", Clubs), 0);
    assert_eq!(case("AS AD AH AC", Clubs), 100);
    assert_eq!(case("AS AD AH AC AS AD AH AC", Clubs), 1000);
    assert_eq!(case("JD QS", Clubs), 40);
    assert_eq!(case("JD QS JD QS", Clubs), 300);
    assert_eq!(case("KD QD", Diamonds), 40);
    assert_eq!(case("KD QD", Clubs), 20);
    assert_eq!(case("KD QD TD AD JD", Diamonds), 150);
    assert_eq!(case("KD QD TD AD JD", Clubs), 20);
    assert_eq!(case("KD QD TD AD JD 9D", Diamonds), 160);
    assert_eq!(case("KD QD TD AD JD 9D KD QD TD AD JD 9D", Diamonds), 1520);
    assert_eq!(case("KD QD KD QD TD AD JD 9D", Diamonds), 200);
    assert_eq!(case("KD QD KS QS KH QH KC QC", Diamonds), 240);
    assert_eq!(case("AC AH AS KD QD TD AD JD 9D", Diamonds), 260);
}

#[test]
fn aces_around_score_the_same_under_any_trump() {
    for trump in [Suit::Diamonds, Suit::Clubs, Suit::Hearts, Suit::Spades] {
        assert_eq!(case("AS AD AH AC", trump), 100);
        assert_eq!(case("AS AD AH AC AS AD AH AC", trump), 1000);
    }
}

#[test]
fn nine_of_trump_and_empty_reveal() {
    assert_eq!(bonus_points(&vec![], Suit::Hearts), 0);
    assert_eq!(case("9H", Suit::Hearts), 10);
    assert_eq!(case("9H 9H", Suit::Hearts), 20);
    assert_eq!(case("9H 9H", Suit::Spades), 0);
    assert_eq!(case("KS QS KS QS", Suit::Hearts), 40);
    assert_eq!(case("KH QH KH QH", Suit::Hearts), 80);
}

#[test]
fn partner_is_the_opposite_seat() {
    assert_eq!(partner(Player::A), Player::C);
    assert_eq!(partner(Player::B), Player::D);
    for p in [Player::A, Player::B, Player::C, Player::D] {
        assert_eq!(partner(partner(p)), p);
        assert_ne!(partner(p), p);
        assert_eq!(partner(p).team(), p.team());
    }
}

#[test]
fn seats_and_indices() {
    assert_eq!(Player::from_index(0), Some(Player::A));
    assert_eq!(Player::from_index(3), Some(Player::D));
    assert_eq!(Player::from_index(4), None);
    assert_eq!(Player::D.next(), Player::A);
    assert_eq!(Player::A.previous(), Player::D);
    assert_eq!(Player::C.index(), 2);
    assert_eq!(Player::B.team(), 1);
}

#[test]
fn rank_points_and_strength() {
    let expected = [
        (Rank::Nine, 0, 0),
        (Rank::Jack, 0, 1),
        (Rank::Queen, 5, 2),
        (Rank::King, 5, 3),
        (Rank::Ten, 10, 4),
        (Rank::Ace, 10, 5),
    ];
    for (rank, points, strength) in expected {
        assert_eq!(rank.points(), points);
        assert_eq!(rank.strength(), strength);
    }
    assert!(Rank::King < Rank::Ten);
}

#[test]
fn any_card_may_lead() {
    let hand = vec![Card(Suit::Hearts, Rank::Nine), Card(Suit::Clubs, Rank::Ace)];
    assert!(is_legal_play(&[], &hand, hand[0], Suit::Spades));
    assert!(is_legal_play(&[], &hand, hand[1], Suit::Spades));
}

#[test]
fn must_follow_suit_and_beat_if_able() {
    let pile = vec![Card(Suit::Hearts, Rank::King)];
    let hand = vec![
        Card(Suit::Hearts, Rank::Nine),
        Card(Suit::Hearts, Rank::Ace),
        Card(Suit::Spades, Rank::Ace),
    ];
    assert!(!is_legal_play(&pile, &hand, hand[0], Suit::Spades));
    assert!(is_legal_play(&pile, &hand, hand[1], Suit::Spades));
    assert!(!is_legal_play(&pile, &hand, hand[2], Suit::Spades));
    let weak = vec![Card(Suit::Hearts, Rank::Nine), Card(Suit::Hearts, Rank::Queen)];
    assert!(is_legal_play(&pile, &weak, weak[0], Suit::Spades));
    assert!(is_legal_play(&pile, &weak, weak[1], Suit::Spades));
}

#[test]
fn must_trump_when_void_and_overtrump_if_able() {
    let pile = vec![Card(Suit::Hearts, Rank::King), Card(Suit::Spades, Rank::Queen)];
    let hand = vec![
        Card(Suit::Clubs, Rank::Ace),
        Card(Suit::Spades, Rank::Jack),
        Card(Suit::Spades, Rank::Ten),
    ];
    assert!(!is_legal_play(&pile, &hand, hand[0], Suit::Spades));
    assert!(!is_legal_play(&pile, &hand, hand[1], Suit::Spades));
    assert!(is_legal_play(&pile, &hand, hand[2], Suit::Spades));
    let low = vec![Card(Suit::Clubs, Rank::Ace), Card(Suit::Spades, Rank::Jack)];
    assert!(is_legal_play(&pile, &low, low[1], Suit::Spades));
    let none = vec![Card(Suit::Clubs, Rank::Ace), Card(Suit::Diamonds, Rank::Nine)];
    assert!(is_legal_play(&pile, &none, none[0], Suit::Spades));
    assert!(is_legal_play(&pile, &none, none[1], Suit::Spades));
}

#[test]
fn best_strength_of_a_suit() {
    let pile = vec![
        Card(Suit::Hearts, Rank::King),
        Card(Suit::Spades, Rank::Ace),
        Card(Suit::Hearts, Rank::Ten),
    ];
    assert_eq!(best_strength(&pile, Suit::Hearts), 4);
    assert_eq!(best_strength(&pile, Suit::Spades), 5);
    assert_eq!(best_strength(&pile, Suit::Clubs), -1);
}

#[test]
fn trick_goes_to_the_best_trump_or_else_the_best_of_the_led_suit() {
    let trick = vec![
        Card(Suit::Hearts, Rank::King),
        Card(Suit::Hearts, Rank::Ace),
        Card(Suit::Clubs, Rank::Ace),
        Card(Suit::Hearts, Rank::Ace),
    ];
    assert_eq!(winning_position(&trick, Suit::Spades), 1);
    assert_eq!(winning_position(&trick, Suit::Clubs), 2);
    assert_eq!(winning_position(&trick, Suit::Hearts), 1);
}

#[test]
fn compare_is_equal_between_two_side_suits() {
    let a = Card(Suit::Clubs, Rank::Ace);
    let b = Card(Suit::Diamonds, Rank::Nine);
    assert_eq!(compare(a, b, Suit::Spades, Suit::Hearts), Ordering::Equal);
    assert_eq!(compare(a, a, Suit::Spades, Suit::Hearts), Ordering::Equal);
    assert_eq!(compare(b, a, Suit::Spades, Suit::Diamonds), Ordering::Greater);
    assert_eq!(compare(b, a, Suit::Clubs, Suit::Diamonds), Ordering::Less);
}

#[test]
fn take_indices_takes_from_the_highest_position_down() {
    let mut source = vec![10, 11, 12, 13, 14];
    let taken = take_indices(&mut source, &vec![3, 0, 1]).unwrap();
    assert_eq!(taken, vec![13, 11, 10]);
    assert_eq!(source, vec![12, 14]);
    let mut other = vec![1, 2];
    assert_eq!(take_indices(&mut other, &vec![2]), Err(Error::PlayingNonExtantCard));
    assert_eq!(other, vec![1, 2]);
    assert_eq!(take_indices(&mut other, &vec![]), Ok(vec![]));
}

fn four_hands() -> [Vec<Card>; 4] {
    let deck = pinochle::deck();
    pinochle::dealt(deck)
}

#[test]
fn pass_moves_four_cards_to_the_partner() {
    let mut hands = four_hands();
    let before = hands.clone();
    assert_eq!(RoundState::pass_cards(&mut hands, Player::B, vec![11, 0, 5, 2]), Ok(()));
    assert_eq!(hands[1].len(), 8);
    assert_eq!(hands[3].len(), 16);
    assert_eq!(hands[0], before[0]);
    assert_eq!(hands[2], before[2]);
    assert_eq!(
        hands[3][12..].to_vec(),
        vec![before[1][11], before[1][5], before[1][2], before[1][0]]
    );
}

#[test]
fn pass_errors() {
    let mut hands = four_hands();
    let before = hands.clone();
    assert_eq!(
        RoundState::pass_cards(&mut hands, Player::A, vec![0, 1, 2]),
        Err(Error::PassingWrongNumberOfCards)
    );
    assert_eq!(
        RoundState::pass_cards(&mut hands, Player::A, vec![0, 1, 2, 2]),
        Err(Error::PassingWrongNumberOfCards)
    );
    assert_eq!(
        RoundState::pass_cards(&mut hands, Player::A, vec![0, 1, 2, 3, 4]),
        Err(Error::PassingWrongNumberOfCards)
    );
    assert_eq!(
        RoundState::pass_cards(&mut hands, Player::A, vec![0, 1, 2, 12]),
        Err(Error::PlayingNonExtantCard)
    );
    assert_eq!(hands, before);
}

#[test]
fn deal_gives_each_seat_a_quarter() {
    let deck = pinochle::deck();
    assert_eq!(deck.len(), 48);
    assert_eq!(deck[0], Card(Suit::Diamonds, Rank::Nine));
    assert_eq!(deck[1], Card(Suit::Diamonds, Rank::Nine));
    assert_eq!(deck[47], Card(Suit::Spades, Rank::Ace));
    let hands = pinochle::dealt(deck.clone());
    for k in 0..4 {
        assert_eq!(hands[k], deck[12 * k..12 * (k + 1)].to_vec());
    }
    let short = pinochle::dealt(deck[..6].to_vec());
    assert_eq!(short[0], vec![deck[0]]);
    assert_eq!(short[3], vec![deck[3]]);
}

#[test]
fn a_seat_from_a_number() {
    assert_eq!(Player::try_from(0usize), Ok(Player::A));
    assert_eq!(Player::try_from(2usize), Ok(Player::C));
    assert_eq!(Player::try_from(4usize), Err(()));
}

#[test]
fn ranks_and_suits_have_symbols() {
    let ranks = [Nine, Jack, Queen, King, Ten, Ace];
    let symbols: Vec<&str> = ranks.iter().map(|r| r.symbol()).collect();
    assert_eq!(symbols, vec!["9", "J", "Q", "K", "T", "A"]);
    let suits = [Diamonds, Clubs, Hearts, Spades];
    let symbols: Vec<&str> = suits.iter().map(|s| s.symbol()).collect();
    assert_eq!(symbols, vec!["\u{2666}", "\u{2663}", "\u{2665}", "\u{2660}"]);
}
