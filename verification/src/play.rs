use crate::cards::{copy_cards, each_player, seat_at, Card, Player, Suit};
use crate::rules::{is_legal_play, is_legal_spec, winning_position, wins_trick};
use vstd::prelude::*;

verus! {

/// Why an action was turned down. The state is left as it was.
#[derive(Debug, Clone, Copy, PartialEq, Eq, Structural)]
pub enum Error {
    PlayingNonExtantCard,
    PassingWrongNumberOfCards,
    IncorrectAction,
    NotTheCurrentPlayer,
    CardIsNotLegalToPlay,
}

/// The trick in progress: who led it and the cards played so far, in order.
#[derive(Debug, Clone, PartialEq, Eq)]
pub struct Trick {
    pub first_player: Player,
    pub cards: Vec<Card>,
}

/// The trick-taking part of a round.
#[derive(Debug, Clone, PartialEq, Eq)]
pub struct PlayingPhase {
    pub trump: Suit,
    pub bid_winner: Player,
    pub highest_bid: i32,
    pub extra_points: [i32; 2],
    pub piles: [Vec<Card>; 2],
    pub trick: Trick,
}

/// The most meld points a team can bring into the play: two reveals.
pub const EXTRA_MAX: i32 = 9480;

/// The card points in a pile of captured cards.
pub open spec fn pile_points(pile: Seq<Card>) -> int
    decreases pile.len(),
{
    if pile.len() == 0 {
        0
    } else {
        pile_points(pile.drop_last()) + pile.last().1.points_spec()
    }
}

/// A team's score for a round: its card points, ten for the last trick, and
/// its meld points; but the bidding team that falls short of the bid loses
/// the bid instead.
pub open spec fn team_score(pile: Seq<Card>, last_trick: bool, extra: int, bid: int, is_bidder: bool) -> int {
    let raw = pile_points(pile) + (if last_trick {
        10int
    } else {
        0int
    }) + extra;
    if is_bidder && raw < bid {
        -bid
    } else {
        raw
    }
}

/// A pile is worth at most ten points a card.
pub proof fn lemma_pile_points_bounds(pile: Seq<Card>)
    ensures
        0 <= pile_points(pile) <= 10 * pile.len(),
    decreases pile.len(),
{
    if pile.len() > 0 {
        lemma_pile_points_bounds(pile.drop_last());
    }
}

/// Computes a team's score for the round.
pub fn count(cards: &Vec<Card>, last_trick: bool, extra_points: i32, highest_bid: i32, is_bid_winner: bool) -> (r: i32)
    requires
        cards@.len() <= 48,
        0 <= extra_points <= EXTRA_MAX,
    ensures
        r == team_score(cards@, last_trick, extra_points as int, highest_bid as int, is_bid_winner),
{
    let mut sum: i32 = 0;
    let mut i: usize = 0;
    while i < cards.len()
        invariant
            i <= cards@.len() <= 48,
            sum == pile_points(cards@.take(i as int)),
            0 <= sum <= 10 * i,
        decreases cards@.len() - i,
    {
        proof {
            assert(cards@.take(i + 1).drop_last() =~= cards@.take(i as int));
        }
        sum += cards[i].1.points();
        i += 1;
    }
    proof {
        assert(cards@.take(cards@.len() as int) =~= cards@);
    }
    let score: i32 = sum + (if last_trick {
        10
    } else {
        0
    }) + extra_points;
    if is_bid_winner && score < highest_bid {
        -highest_bid
    } else {
        score
    }
}

impl PlayingPhase {
    /// The number of cards that have been played so far.
    pub open spec fn cards_held(&self) -> nat {
        self.piles@[0]@.len() + self.piles@[1]@.len() + self.trick.cards@.len()
    }

    /// The cards that have been played so far, as a bag.
    pub open spec fn played(&self) -> vstd::multiset::Multiset<Card> {
        self.piles@[0]@.to_multiset().add(self.piles@[1]@.to_multiset()).add(
            self.trick.cards@.to_multiset(),
        )
    }

    /// A trick in progress has at most three cards, no more than the deck has
    /// been played, and the meld points are those of at most two reveals a
    /// team.
    pub open spec fn wf(&self) -> bool {
        &&& self.trick.cards@.len() <= 3
        &&& self.cards_held() <= 48
        &&& 0 <= self.extra_points@[0] <= EXTRA_MAX
        &&& 0 <= self.extra_points@[1] <= EXTRA_MAX
    }

    /// Whether the two phases hold the same values.
    pub open spec fn agrees(&self, other: PlayingPhase) -> bool {
        &&& other.trump == self.trump
        &&& other.bid_winner == self.bid_winner
        &&& other.highest_bid == self.highest_bid
        &&& other.extra_points == self.extra_points
        &&& other.piles@[0]@ == self.piles@[0]@
        &&& other.piles@[1]@ == self.piles@[1]@
        &&& other.trick.first_player == self.trick.first_player
        &&& other.trick.cards@ == self.trick.cards@
    }

    /// Copies the phase.
    pub fn duplicate(&self) -> (r: PlayingPhase)
        ensures
            self.agrees(r),
    {
        PlayingPhase {
            trump: self.trump,
            bid_winner: self.bid_winner,
            highest_bid: self.highest_bid,
            extra_points: self.extra_points,
            piles: [copy_cards(&self.piles[0]), copy_cards(&self.piles[1])],
            trick: Trick { first_player: self.trick.first_player, cards: copy_cards(&self.trick.cards) },
        }
    }

    /// Whether `winner` is the seat whose card wins the completed trick
    /// `full`, which `first` led.
    pub open spec fn takes_trick(first: Player, full: Seq<Card>, trump: Suit, winner: Player) -> bool {
        exists|w: int| #[trigger] wins_trick(full, trump, w) && winner == seat_at(first.index_spec() + w)
    }

    /// The scores of the two teams once the last trick has gone to `winner`.
    pub open spec fn final_scores(&self, winner: Player) -> (int, int) {
        (
            team_score(
                self.piles@[0]@,
                winner.team_spec() == 0,
                self.extra_points@[0] as int,
                self.highest_bid as int,
                self.bid_winner.team_spec() == 0,
            ),
            team_score(
                self.piles@[1]@,
                winner.team_spec() == 1,
                self.extra_points@[1] as int,
                self.highest_bid as int,
                self.bid_winner.team_spec() == 1,
            ),
        )
    }

    /// What a legal play of `card` by `current_player` from `hand` leads to.
    /// Up to the third card the card joins the trick and the turn passes on.
    /// The fourth card completes the trick: its cards go to the pile of the
    /// winner's team, the winner leads next, and if that was the last card of
    /// the hand the round's scores are given.
    pub open spec fn play_result(
        &self,
        current_player: Player,
        hand: Seq<Card>,
        card: Card,
        after: PlayingPhase,
        next: Player,
        scores: Option<(i32, i32)>,
    ) -> bool {
        let full = self.trick.cards@.push(card);
        &&& after.trump == self.trump
        &&& after.bid_winner == self.bid_winner
        &&& after.highest_bid == self.highest_bid
        &&& after.extra_points == self.extra_points
        &&& if self.trick.cards@.len() < 3 {
            &&& after.trick.cards@ == full
            &&& after.trick.first_player == self.trick.first_player
            &&& after.piles == self.piles
            &&& next == seat_at(current_player.index_spec() + 1)
            &&& scores.is_none()
        } else {
            &&& Self::takes_trick(self.trick.first_player, full, self.trump, next)
            &&& after.trick.cards@ == Seq::<Card>::empty()
            &&& after.trick.first_player == next
            &&& after.piles@[next.team_spec()]@ == self.piles@[next.team_spec()]@ + full
            &&& after.piles@[1 - next.team_spec()] == self.piles@[1 - next.team_spec()]
            &&& if hand.len() == 1 {
                &&& scores.is_some()
                &&& scores.unwrap().0 == after.final_scores(next).0
                &&& scores.unwrap().1 == after.final_scores(next).1
            } else {
                scores.is_none()
            }
        }
    }

    /// Plays `card` for `current_player`, whose hand before the play is
    /// `current_hand`. An illegal card is turned down and nothing changes.
    pub fn play(&mut self, current_player: Player, current_hand: &[Card], card: Card) -> (r: Result<
        (Player, Option<(i32, i32)>),
        Error,
    >)
        requires
            old(self).wf(),
            old(self).cards_held() < 48,
        ensures
            final(self).wf(),
            r.is_ok() ==> final(self).played() == old(self).played().insert(card),
            !is_legal_spec(old(self).trick.cards@, current_hand@, card, old(self).trump) ==> r == Err::<
                (Player, Option<(i32, i32)>),
                Error,
            >(Error::CardIsNotLegalToPlay) && *final(self) == *old(self),
            is_legal_spec(old(self).trick.cards@, current_hand@, card, old(self).trump) ==> r.is_ok()
                && old(self).play_result(
                current_player,
                current_hand@,
                card,
                *final(self),
                r.unwrap().0,
                r.unwrap().1,
            ),
    {
        if !is_legal_play(self.trick.cards.as_slice(), current_hand, card, self.trump) {
            return Err(Error::CardIsNotLegalToPlay);
        }
        self.trick.cards.push(card);
        proof {
            vstd::seq_lib::to_multiset_build(old(self).trick.cards@, card);
            assert(self.played() =~= old(self).played().insert(card));
        }
        if self.trick.cards.len() == 4 {
            let w = winning_position(self.trick.cards.as_slice(), self.trump);
            let winning_player = each_player(self.trick.first_player)[w];
            let team = winning_player.team();
            let ghost full = self.trick.cards@;
            let ghost before = *self;
            self.piles[team].append(&mut self.trick.cards);
            self.trick.first_player = winning_player;
            proof {
                vstd::seq_lib::lemma_multiset_commutative(before.piles@[team as int]@, full);
                crate::cards::lemma_empty_bag(self.trick.cards@);
                assert(self.played() =~= before.played());
            }
            if current_hand.len() == 1 {
                let a = count(
                    &self.piles[0],
                    team == 0,
                    self.extra_points[0],
                    self.highest_bid,
                    self.bid_winner.team() == 0,
                );
                let b = count(
                    &self.piles[1],
                    team == 1,
                    self.extra_points[1],
                    self.highest_bid,
                    self.bid_winner.team() == 1,
                );
                Ok((winning_player, Some((a, b))))
            } else {
                Ok((winning_player, None))
            }
        } else {
            Ok((current_player.next(), None))
        }
    }
}

} // verus!
