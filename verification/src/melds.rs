use crate::cards::{Card, Rank, Suit};
use vstd::prelude::*;

verus! {

/// Whether the revealed cards hold at least `times` copies of every card of
/// the pattern.
pub open spec fn shows(reveal: Seq<Card>, pattern: Seq<Card>, times: nat) -> bool {
    forall|i: int|
        0 <= i < pattern.len() ==> reveal.to_multiset().count(#[trigger] pattern[i]) >= times
}

/// A pattern scores `double` when shown twice over, `single` when shown once,
/// and nothing otherwise.
pub open spec fn pattern_score(reveal: Seq<Card>, pattern: Seq<Card>, single: int, double: int) -> int {
    if shows(reveal, pattern, 2) {
        double
    } else if shows(reveal, pattern, 1) {
        single
    } else {
        0
    }
}

/// Queen of spades and jack of diamonds.
pub open spec fn pinochle_pattern() -> Seq<Card> {
    seq![Card(Suit::Spades, Rank::Queen), Card(Suit::Diamonds, Rank::Jack)]
}

/// Jack, queen, king, ten and ace of one suit.
pub open spec fn run_pattern(suit: Suit) -> Seq<Card> {
    seq![
        Card(suit, Rank::Jack),
        Card(suit, Rank::Queen),
        Card(suit, Rank::King),
        Card(suit, Rank::Ten),
        Card(suit, Rank::Ace),
    ]
}

/// One rank in each of the four suits.
pub open spec fn round_pattern(rank: Rank) -> Seq<Card> {
    seq![
        Card(Suit::Diamonds, rank),
        Card(Suit::Clubs, rank),
        Card(Suit::Hearts, rank),
        Card(Suit::Spades, rank),
    ]
}

/// King and queen of one suit.
pub open spec fn marriage_pattern(suit: Suit) -> Seq<Card> {
    seq![Card(suit, Rank::King), Card(suit, Rank::Queen)]
}

pub open spec fn round_score(reveal: Seq<Card>, rank: Rank, single: int) -> int {
    pattern_score(reveal, round_pattern(rank), single, single * 10)
}

pub open spec fn marriage_score(reveal: Seq<Card>, suit: Suit) -> int {
    pattern_score(reveal, marriage_pattern(suit), 20, 40)
}

/// The meld bonus of a reveal: the sum of the pinochle, the run of trump, the
/// rounds of aces, kings, queens and jacks, the marriage of each suit, the
/// marriage of trump once more, and the nine of trump.
pub open spec fn bonus_spec(reveal: Seq<Card>, trump: Suit) -> int {
    pattern_score(reveal, pinochle_pattern(), 40, 300) + pattern_score(
        reveal,
        run_pattern(trump),
        110,
        1420,
    ) + round_score(reveal, Rank::Ace, 100) + round_score(reveal, Rank::King, 80) + round_score(
        reveal,
        Rank::Queen,
        60,
    ) + round_score(reveal, Rank::Jack, 40) + marriage_score(reveal, trump) + marriage_score(
        reveal,
        Suit::Diamonds,
    ) + marriage_score(reveal, Suit::Clubs) + marriage_score(reveal, Suit::Hearts)
        + marriage_score(reveal, Suit::Spades) + pattern_score(
        reveal,
        seq![Card(trump, Rank::Nine)],
        10,
        20,
    )
}

/// The most that one reveal can score.
pub const MELD_MAX: i32 = 4740;

/// No reveal scores less than nothing or more than the limit.
pub proof fn lemma_bonus_bounds(reveal: Seq<Card>, trump: Suit)
    ensures
        0 <= bonus_spec(reveal, trump) <= MELD_MAX,
{
}

/// Counts the copies of `card` among the revealed cards.
pub fn count_copies(reveal: &Vec<Card>, card: Card) -> (n: usize)
    ensures
        n == reveal@.to_multiset().count(card),
{
    let mut n: usize = 0;
    let mut i: usize = 0;
    proof {
        vstd::seq_lib::to_multiset_contains(reveal@.take(0), card);
    }
    while i < reveal.len()
        invariant
            i <= reveal@.len(),
            n <= i,
            n == reveal@.take(i as int).to_multiset().count(card),
        decreases reveal@.len() - i,
    {
        proof {
            assert(reveal@.take(i + 1) =~= reveal@.take(i as int).push(reveal@[i as int]));
            vstd::seq_lib::to_multiset_build(reveal@.take(i as int), reveal@[i as int]);
        }
        if reveal[i] == card {
            n += 1;
        }
        i += 1;
    }
    proof {
        assert(reveal@.take(reveal@.len() as int) =~= reveal@);
    }
    n
}

/// Scores one pattern against the revealed cards.
pub fn or_double(reveal: &Vec<Card>, pattern: &Vec<Card>, points: i32, double: i32) -> (r: i32)
    ensures
        r == pattern_score(reveal@, pattern@, points as int, double as int),
{
    let mut once = true;
    let mut twice = true;
    let mut i: usize = 0;
    while i < pattern.len()
        invariant
            i <= pattern@.len(),
            once == shows(reveal@, pattern@.take(i as int), 1),
            twice == shows(reveal@, pattern@.take(i as int), 2),
        decreases pattern@.len() - i,
    {
        let n = count_copies(reveal, pattern[i]);
        proof {
            let before = pattern@.take(i as int);
            let after = pattern@.take(i + 1);
            assert(after[i as int] == pattern@[i as int]);
            assert(forall|k: int| 0 <= k < i ==> before[k] == after[k]);
        }
        if n < 1 {
            once = false;
        }
        if n < 2 {
            twice = false;
        }
        i += 1;
    }
    proof {
        assert(pattern@.take(pattern@.len() as int) =~= pattern@);
    }
    if twice {
        double
    } else if once {
        points
    } else {
        0
    }
}

fn round(reveal: &Vec<Card>, rank: Rank, points: i32) -> (r: i32)
    requires
        0 <= points <= 100,
    ensures
        r == round_score(reveal@, rank, points as int),
{
    let pattern = vec![
        Card(Suit::Diamonds, rank),
        Card(Suit::Clubs, rank),
        Card(Suit::Hearts, rank),
        Card(Suit::Spades, rank),
    ];
    assert(pattern@ =~= round_pattern(rank));
    or_double(reveal, &pattern, points, points * 10)
}

fn marriage(reveal: &Vec<Card>, suit: Suit) -> (r: i32)
    ensures
        r == marriage_score(reveal@, suit),
{
    let pattern = vec![Card(suit, Rank::King), Card(suit, Rank::Queen)];
    assert(pattern@ =~= marriage_pattern(suit));
    or_double(reveal, &pattern, 20, 40)
}

/// Computes the meld bonus of the revealed cards under the given trump.
pub fn bonus_points(cards: &Vec<Card>, trump: Suit) -> (r: i32)
    ensures
        r == bonus_spec(cards@, trump),
        0 <= r <= MELD_MAX,
{
    let pinochle = vec![Card(Suit::Spades, Rank::Queen), Card(Suit::Diamonds, Rank::Jack)];
    assert(pinochle@ =~= pinochle_pattern());
    let run = vec![
        Card(trump, Rank::Jack),
        Card(trump, Rank::Queen),
        Card(trump, Rank::King),
        Card(trump, Rank::Ten),
        Card(trump, Rank::Ace),
    ];
    assert(run@ =~= run_pattern(trump));
    let nine = vec![Card(trump, Rank::Nine)];
    assert(nine@ =~= seq![Card(trump, Rank::Nine)]);
    let a: i32 = or_double(cards, &pinochle, 40, 300);
    let b: i32 = or_double(cards, &run, 110, 1420);
    let c: i32 = round(cards, Rank::Ace, 100) + round(cards, Rank::King, 80) + round(
        cards,
        Rank::Queen,
        60,
    ) + round(cards, Rank::Jack, 40);
    let d: i32 = marriage(cards, trump) + marriage(cards, Suit::Diamonds) + marriage(
        cards,
        Suit::Clubs,
    ) + marriage(cards, Suit::Hearts) + marriage(cards, Suit::Spades);
    let e: i32 = or_double(cards, &nine, 10, 20);
    a + b + c + d + e
}

} // verus!
