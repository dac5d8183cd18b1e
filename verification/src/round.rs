use crate::cards::{
    copy_cards, each_player, full_deck, lemma_empty_bag, partner, partner_spec, seat_at, Card,
    Player, Suit,
};
use crate::melds::{bonus_points, bonus_spec, MELD_MAX};
use crate::passing::{any_out_of_range, hands_bag, out_of_range, pass_error, passed};
use crate::play::{Error, PlayingPhase, Trick};
use crate::rules::is_legal_spec;
use vstd::multiset::Multiset;
use vstd::prelude::*;

verus! {

/// What a player can submit.
#[derive(Clone, Debug)]
pub enum Action {
    Bid(i32),
    DeclareSuit(Suit),
    ShowPoints(Vec<usize>),
    Pass(Vec<usize>),
    Play(usize),
}

/// The phases of a round, each with the data it needs.
#[derive(Debug, Clone, PartialEq, Eq)]
pub enum Phase {
    Bidding { first_bidder: Player, bids: Vec<i32> },
    DeclareTrump { bid_winner: Player, highest_bid: i32 },
    PassingTo { bid_winner: Player, highest_bid: i32, trump: Suit },
    PassingBack { bid_winner: Player, highest_bid: i32, trump: Suit },
    RevealingCards {
        reveals: Vec<Vec<Card>>,
        extra_points: [i32; 2],
        bid_winner: Player,
        highest_bid: i32,
        trump: Suit,
    },
    Play(PlayingPhase),
}

impl Phase {
    /// Whether the two phases hold the same values.
    pub open spec fn agrees(&self, other: Phase) -> bool {
        match (*self, other) {
            (Phase::Bidding { first_bidder: a, bids: b }, Phase::Bidding { first_bidder: c, bids: d }) => a == c
                && b@ == d@,
            (Phase::DeclareTrump { .. }, Phase::DeclareTrump { .. }) => *self == other,
            (Phase::PassingTo { .. }, Phase::PassingTo { .. }) => *self == other,
            (Phase::PassingBack { .. }, Phase::PassingBack { .. }) => *self == other,
            (
                Phase::RevealingCards { reveals: r1, extra_points: e1, bid_winner: b1, highest_bid: h1, trump: t1 },
                Phase::RevealingCards { reveals: r2, extra_points: e2, bid_winner: b2, highest_bid: h2, trump: t2 },
            ) => {
                &&& e1 == e2
                &&& b1 == b2
                &&& h1 == h2
                &&& t1 == t2
                &&& r1@.len() == r2@.len()
                &&& forall|k: int| 0 <= k < r1@.len() ==> (#[trigger] r1@[k])@ == r2@[k]@
            },
            (Phase::Play(p), Phase::Play(q)) => p.agrees(q),
            _ => false,
        }
    }

    /// Copies the phase.
    pub fn duplicate(&self) -> (r: Phase)
        ensures
            self.agrees(r),
    {
        match self {
            Phase::Bidding { first_bidder, bids } => {
                let mut copy: Vec<i32> = Vec::new();
                let mut i: usize = 0;
                while i < bids.len()
                    invariant
                        i <= bids@.len(),
                        copy@ == bids@.take(i as int),
                    decreases bids@.len() - i,
                {
                    copy.push(bids[i]);
                    assert(bids@.take(i + 1) =~= bids@.take(i as int).push(bids@[i as int]));
                    i += 1;
                }
                assert(bids@.take(bids@.len() as int) =~= bids@);
                Phase::Bidding { first_bidder: *first_bidder, bids: copy }
            },
            Phase::DeclareTrump { bid_winner, highest_bid } => Phase::DeclareTrump {
                bid_winner: *bid_winner,
                highest_bid: *highest_bid,
            },
            Phase::PassingTo { bid_winner, highest_bid, trump } => Phase::PassingTo {
                bid_winner: *bid_winner,
                highest_bid: *highest_bid,
                trump: *trump,
            },
            Phase::PassingBack { bid_winner, highest_bid, trump } => Phase::PassingBack {
                bid_winner: *bid_winner,
                highest_bid: *highest_bid,
                trump: *trump,
            },
            Phase::RevealingCards { reveals, extra_points, bid_winner, highest_bid, trump } => {
                let mut copy: Vec<Vec<Card>> = Vec::new();
                let mut i: usize = 0;
                while i < reveals.len()
                    invariant
                        i <= reveals@.len(),
                        copy@.len() == i,
                        forall|k: int| 0 <= k < i ==> (#[trigger] reveals@[k])@ == copy@[k]@,
                    decreases reveals@.len() - i,
                {
                    copy.push(copy_cards(&reveals[i]));
                    i += 1;
                }
                Phase::RevealingCards {
                    reveals: copy,
                    extra_points: *extra_points,
                    bid_winner: *bid_winner,
                    highest_bid: *highest_bid,
                    trump: *trump,
                }
            },
            Phase::Play(p) => Phase::Play(p.duplicate()),
        }
    }
}

/// One round: whose turn it is, the four hands, and the phase.
#[derive(Debug, Clone, PartialEq, Eq)]
pub struct RoundState {
    pub current_player: Player,
    pub hands: [Vec<Card>; 4],
    pub phase: Phase,
}

/// Whether position `w` holds the winning bid: no bid is higher, and every
/// earlier bid is lower.
pub open spec fn highest_first(bids: Seq<i32>, w: int) -> bool {
    &&& 0 <= w < bids.len()
    &&& forall|j: int| 0 <= j < bids.len() ==> #[trigger] bids[j] <= bids[w]
    &&& forall|j: int| 0 <= j < w ==> #[trigger] bids[j] < bids[w]
}

/// Finds the winning bid.
pub fn winning_bid(bids: &Vec<i32>) -> (w: usize)
    requires
        bids@.len() > 0,
    ensures
        highest_first(bids@, w as int),
{
    let mut w: usize = 0;
    let mut i: usize = 1;
    while i < bids.len()
        invariant
            1 <= i <= bids@.len(),
            highest_first(bids@.take(i as int), w as int),
        decreases bids@.len() - i,
    {
        proof {
            let before = bids@.take(i as int);
            let after = bids@.take(i + 1);
            assert(forall|j: int| 0 <= j < i ==> before[j] == after[j]);
        }
        if bids[i] > bids[w] {
            w = i;
        }
        i += 1;
    }
    proof {
        assert(bids@.take(bids@.len() as int) =~= bids@);
    }
    w
}

/// The cards at the listed positions of a hand, in the order listed.
pub open spec fn shown(hand: Seq<Card>, indices: Seq<usize>) -> Seq<Card> {
    Seq::new(indices.len(), |k: int| hand[indices[k] as int])
}

/// Collects the cards at the listed positions of a hand.
pub fn pick_cards(hand: &Vec<Card>, indices: &Vec<usize>) -> (r: Vec<Card>)
    requires
        !out_of_range(indices@, hand@.len() as int),
    ensures
        r@ == shown(hand@, indices@),
{
    let mut out: Vec<Card> = Vec::new();
    let mut k: usize = 0;
    while k < indices.len()
        invariant
            k <= indices@.len(),
            !out_of_range(indices@, hand@.len() as int),
            out@.len() == k,
            forall|j: int| 0 <= j < k ==> out@[j] == hand@[indices@[j] as int],
        decreases indices@.len() - k,
    {
        assert(indices@[k as int] < hand@.len());
        out.push(hand[indices[k]]);
        k += 1;
    }
    assert(out@ =~= shown(hand@, indices@));
    out
}

/// The deck has 48 cards.
pub proof fn lemma_deck_size()
    ensures
        full_deck().len() == 48,
{
    vstd::seq_lib::to_multiset_len(crate::cards::deck_seq());
}

/// A round in play holds as many cards as its hands, piles and trick have.
pub proof fn lemma_card_count(round: RoundState)
    requires
        round.cards() == full_deck(),
    ensures
        match round.phase {
            Phase::Play(p) => round.hands@[0]@.len() + round.hands@[1]@.len() + round.hands@[2]@.len()
                + round.hands@[3]@.len() + p.cards_held() == 48,
            _ => round.hands@[0]@.len() + round.hands@[1]@.len() + round.hands@[2]@.len()
                + round.hands@[3]@.len() == 48,
        },
{
    broadcast use vstd::multiset::group_multiset_axioms;

    lemma_deck_size();
    vstd::seq_lib::to_multiset_len(round.hands@[0]@);
    vstd::seq_lib::to_multiset_len(round.hands@[1]@);
    vstd::seq_lib::to_multiset_len(round.hands@[2]@);
    vstd::seq_lib::to_multiset_len(round.hands@[3]@);
    match round.phase {
        Phase::Play(p) => {
            vstd::seq_lib::to_multiset_len(p.piles@[0]@);
            vstd::seq_lib::to_multiset_len(p.piles@[1]@);
            vstd::seq_lib::to_multiset_len(p.trick.cards@);
        },
        _ => {},
    }
}

/// At every point of a round the hands, the piles and the trick hold the
/// deck: each of the 24 faces twice, 48 cards in all.
pub proof fn lemma_round_holds_the_deck(round: RoundState, card: Card)
    requires
        round.wf(),
    ensures
        round.cards() == full_deck(),
        round.cards().len() == 48,
        round.cards().count(card) == 2,
{
    lemma_deck_size();
    crate::cards::lemma_two_of_each(card);
}

/// Whatever an accepted action leads to holds the deck again: no card is
/// lost, none is added, none is in two places.
pub proof fn lemma_step_keeps_the_deck(before: RoundState, action: Action, after: RoundState, scores: Option<(i32, i32)>)
    requires
        before.wf(),
        before.refusal(action).is_none(),
        before.step(action, after, scores),
    ensures
        after.cards() == full_deck(),
{
    broadcast use vstd::multiset::group_multiset_axioms;

    match (before.phase, action) {
        (Phase::PassingTo { .. }, Action::Pass(indices)) => {
            crate::passing::lemma_pass_keeps_the_cards(
                before.hands@,
                before.current_player,
                indices@,
                after.hands@,
            );
        },
        (Phase::PassingBack { .. }, Action::Pass(indices)) => {
            crate::passing::lemma_pass_keeps_the_cards(
                before.hands@,
                before.current_player,
                indices@,
                after.hands@,
            );
        },
        (Phase::RevealingCards { reveals, .. }, Action::ShowPoints(_)) => {
            match after.phase {
                Phase::Play(p) => {
                    lemma_empty_bag(p.piles@[0]@);
                    lemma_empty_bag(p.piles@[1]@);
                    lemma_empty_bag(p.trick.cards@);
                    assert(after.cards() =~= before.cards());
                },
                _ => {},
            }
        },
        (Phase::Play(p), Action::Play(index)) => {
            let c = before.current_player.index_spec();
            let hand = before.hands@[c]@;
            let card = hand[index as int];
            match after.phase {
                Phase::Play(q) => {
                    vstd::seq_lib::to_multiset_remove(hand, index as int);
                    vstd::seq_lib::to_multiset_contains(hand, card);
                    assert(hand.contains(card));
                    vstd::seq_lib::to_multiset_build(p.trick.cards@, card);
                    assert(forall|k: int| 0 <= k < 4 && k != c ==> after.hands@[k] == before.hands@[k]);
                    if p.trick.cards@.len() < 3 {
                        assert(q.played() =~= p.played().insert(card));
                    } else {
                        let t = after.current_player.team_spec();
                        vstd::seq_lib::lemma_multiset_commutative(p.piles@[t]@, p.trick.cards@.push(card));
                        lemma_empty_bag(q.trick.cards@);
                        assert(q.played() =~= p.played().insert(card));
                    }
                    assert(hands_bag(after.hands@).add(q.played()) =~= hands_bag(before.hands@).add(p.played()));
                },
                _ => {},
            }
        },
        _ => {},
    }
}

impl RoundState {
    /// All cards of the round as a bag: the hands, the piles and the trick.
    pub open spec fn cards(&self) -> Multiset<Card> {
        match self.phase {
            Phase::Play(p) => hands_bag(self.hands@).add(p.played()),
            _ => hands_bag(self.hands@),
        }
    }

    /// The round holds the deck exactly once, the turn is with the seat the
    /// phase expects, and the phase's own data are within their limits.
    pub open spec fn wf(&self) -> bool {
        &&& self.cards() == full_deck()
        &&& match self.phase {
            Phase::Bidding { first_bidder, bids } => {
                &&& bids@.len() < 4
                &&& self.current_player == seat_at(first_bidder.index_spec() + bids@.len())
            },
            Phase::DeclareTrump { bid_winner, .. } => self.current_player == bid_winner,
            Phase::PassingTo { bid_winner, .. } => self.current_player == partner_spec(bid_winner),
            Phase::PassingBack { bid_winner, .. } => self.current_player == bid_winner,
            Phase::RevealingCards { reveals, extra_points, bid_winner, .. } => {
                let n = reveals@.len() as int;
                let t = bid_winner.team_spec();
                &&& n < 4
                &&& self.current_player == seat_at(bid_winner.index_spec() + n)
                &&& 0 <= extra_points@[t] <= MELD_MAX * ((n + 1) / 2)
                &&& 0 <= extra_points@[1 - t] <= MELD_MAX * (n / 2)
            },
            Phase::Play(p) => {
                &&& p.wf()
                &&& self.current_player == seat_at(
                    p.trick.first_player.index_spec() + p.trick.cards@.len(),
                )
            },
        }
    }

    /// A bid is added to the list and the turn passes on. The fourth bid ends
    /// the bidding: the highest bid wins, the earliest among equal ones, and
    /// its bidder is to declare trump.
    pub open spec fn bid_step(&self, first_bidder: Player, bids: Seq<i32>, amount: i32, after: RoundState) -> bool {
        let all = bids.push(amount);
        &&& after.hands == self.hands
        &&& if all.len() < 4 {
            &&& after.current_player == seat_at(self.current_player.index_spec() + 1)
            &&& match after.phase {
                Phase::Bidding { first_bidder: f, bids: b } => f == first_bidder && b@ == all,
                _ => false,
            }
        } else {
            exists|w: int|
                {
                    &&& #[trigger] highest_first(all, w)
                    &&& after.current_player == seat_at(first_bidder.index_spec() + w)
                    &&& after.phase == (Phase::DeclareTrump {
                        bid_winner: after.current_player,
                        highest_bid: all[w],
                    })
                }
        }
    }

    /// A reveal adds the meld bonus of the shown cards to the team of the
    /// seat that reveals, and the turn passes on. After the fourth reveal the
    /// play begins with the bid winner to lead.
    pub open spec fn reveal_step(
        &self,
        reveals: Seq<Vec<Card>>,
        extra_points: [i32; 2],
        bid_winner: Player,
        highest_bid: i32,
        trump: Suit,
        indices: Seq<usize>,
        after: RoundState,
    ) -> bool {
        let cur = self.current_player;
        let cards = shown(self.hands@[cur.index_spec()]@, indices);
        let t = cur.team_spec();
        let sum = extra_points@[t] + bonus_spec(cards, trump);
        &&& after.hands == self.hands
        &&& if reveals.len() < 3 {
            &&& after.current_player == seat_at(cur.index_spec() + 1)
            &&& match after.phase {
                Phase::RevealingCards { reveals: r, extra_points: e, bid_winner: b, highest_bid: h, trump: s } => {
                    &&& r@.len() == reveals.len() + 1
                    &&& forall|k: int| 0 <= k < reveals.len() ==> r@[k] == reveals[k]
                    &&& r@[reveals.len() as int]@ == cards
                    &&& e@[t] == sum
                    &&& e@[1 - t] == extra_points@[1 - t]
                    &&& b == bid_winner
                    &&& h == highest_bid
                    &&& s == trump
                },
                _ => false,
            }
        } else {
            &&& after.current_player == bid_winner
            &&& match after.phase {
                Phase::Play(p) => {
                    &&& p.trump == trump
                    &&& p.bid_winner == bid_winner
                    &&& p.highest_bid == highest_bid
                    &&& p.extra_points@[t] == sum
                    &&& p.extra_points@[1 - t] == extra_points@[1 - t]
                    &&& p.piles@[0]@.len() == 0
                    &&& p.piles@[1]@.len() == 0
                    &&& p.trick.first_player == bid_winner
                    &&& p.trick.cards@.len() == 0
                },
                _ => false,
            }
        }
    }

    /// A card is played from the hand of the seat whose turn it is: the hand
    /// loses it, and the playing phase moves on as its own rule says.
    pub open spec fn play_step(&self, p: PlayingPhase, index: int, after: RoundState, scores: Option<(i32, i32)>) -> bool {
        let cur = self.current_player;
        let hand = self.hands@[cur.index_spec()]@;
        &&& after.hands@[cur.index_spec()]@ == hand.remove(index)
        &&& forall|k: int| 0 <= k < 4 && k != cur.index_spec() ==> after.hands@[k] == self.hands@[k]
        &&& match after.phase {
            Phase::Play(q) => p.play_result(cur, hand, hand[index], q, after.current_player, scores),
            _ => false,
        }
    }

    /// The error that an action meets in this state, if any. An action that
    /// the phase does not expect is incorrect; a position that the hand does
    /// not have names no card; a pass lists four different positions; a card
    /// must be legal to play.
    pub open spec fn refusal(&self, action: Action) -> Option<Error> {
        let hand = self.hands@[self.current_player.index_spec()]@;
        match (self.phase, action) {
            (Phase::Bidding { .. }, Action::Bid(_)) => None,
            (Phase::DeclareTrump { .. }, Action::DeclareSuit(_)) => None,
            (Phase::PassingTo { .. }, Action::Pass(indices)) => pass_error(hand.len() as int, indices@),
            (Phase::PassingBack { .. }, Action::Pass(indices)) => pass_error(hand.len() as int, indices@),
            (Phase::RevealingCards { .. }, Action::ShowPoints(indices)) => if out_of_range(
                indices@,
                hand.len() as int,
            ) {
                Some(Error::PlayingNonExtantCard)
            } else {
                None
            },
            (Phase::Play(p), Action::Play(index)) => if index >= hand.len() {
                Some(Error::PlayingNonExtantCard)
            } else if !is_legal_spec(p.trick.cards@, hand, hand[index as int], p.trump) {
                Some(Error::CardIsNotLegalToPlay)
            } else {
                None
            },
            _ => Some(Error::IncorrectAction),
        }
    }

    /// What an accepted action does to the state, phase by phase, and the
    /// scores it returns: none until the last card of the round is played.
    pub open spec fn step(&self, action: Action, after: RoundState, scores: Option<(i32, i32)>) -> bool {
        match (self.phase, action) {
            (Phase::Bidding { first_bidder, bids }, Action::Bid(amount)) => scores.is_none()
                && self.bid_step(first_bidder, bids@, amount, after),
            (Phase::DeclareTrump { bid_winner, highest_bid }, Action::DeclareSuit(suit)) => {
                &&& scores.is_none()
                &&& after.hands == self.hands
                &&& after.current_player == partner_spec(bid_winner)
                &&& after.phase == (Phase::PassingTo { bid_winner, highest_bid, trump: suit })
            },
            (Phase::PassingTo { bid_winner, highest_bid, trump }, Action::Pass(indices)) => {
                &&& scores.is_none()
                &&& passed(self.hands@, self.current_player, indices@, after.hands@)
                &&& after.current_player == bid_winner
                &&& after.phase == (Phase::PassingBack { bid_winner, highest_bid, trump })
            },
            (Phase::PassingBack { bid_winner, highest_bid, trump }, Action::Pass(indices)) => {
                &&& scores.is_none()
                &&& passed(self.hands@, self.current_player, indices@, after.hands@)
                &&& after.current_player == bid_winner
                &&& match after.phase {
                    Phase::RevealingCards { reveals: r, extra_points: e, bid_winner: b, highest_bid: h, trump: s } => {
                        &&& r@.len() == 0
                        &&& e@[0] == 0
                        &&& e@[1] == 0
                        &&& b == bid_winner
                        &&& h == highest_bid
                        &&& s == trump
                    },
                    _ => false,
                }
            },
            (
                Phase::RevealingCards { reveals, extra_points, bid_winner, highest_bid, trump },
                Action::ShowPoints(indices),
            ) => scores.is_none() && self.reveal_step(
                reveals@,
                extra_points,
                bid_winner,
                highest_bid,
                trump,
                indices@,
                after,
            ),
            (Phase::Play(p), Action::Play(index)) => self.play_step(p, index as int, after, scores),
            _ => false,
        }
    }
    fn do_bid(&mut self, amount: i32) -> (r: Result<Option<(i32, i32)>, Error>)
        requires
            old(self).wf(),
        ensures
            final(self).wf(),
            match old(self).refusal(Action::Bid(amount)) {
                Some(e) => r == Err::<Option<(i32, i32)>, Error>(e) && *final(self) == *old(self),
                None => r.is_ok() && old(self).step(Action::Bid(amount), *final(self), r.unwrap()),
            },
    {
        let cur = self.current_player;
        match &mut self.phase {
            Phase::Bidding { first_bidder, bids } => {
                bids.push(amount);
                if bids.len() == 4 {
                    let w = winning_bid(bids);
                    let winner = each_player(*first_bidder)[w];
                    let highest_bid = bids[w];
                    self.current_player = winner;
                    self.phase = Phase::DeclareTrump { bid_winner: winner, highest_bid };
                } else {
                    self.current_player = cur.next();
                }
                Ok(None)
            },
            _ => Err(Error::IncorrectAction),
        }
    }

    fn do_declare(&mut self, suit: Suit) -> (r: Result<Option<(i32, i32)>, Error>)
        requires
            old(self).wf(),
        ensures
            final(self).wf(),
            match old(self).refusal(Action::DeclareSuit(suit)) {
                Some(e) => r == Err::<Option<(i32, i32)>, Error>(e) && *final(self) == *old(self),
                None => r.is_ok() && old(self).step(Action::DeclareSuit(suit), *final(self), r.unwrap()),
            },
    {
        match &self.phase {
            Phase::DeclareTrump { bid_winner, highest_bid } => {
                let bid_winner = *bid_winner;
                let highest_bid = *highest_bid;
                self.current_player = partner(bid_winner);
                self.phase = Phase::PassingTo { bid_winner, highest_bid, trump: suit };
                Ok(None)
            },
            _ => Err(Error::IncorrectAction),
        }
    }

    fn do_pass(&mut self, indices: Vec<usize>) -> (r: Result<Option<(i32, i32)>, Error>)
        requires
            old(self).wf(),
        ensures
            final(self).wf(),
            match old(self).refusal(Action::Pass(indices)) {
                Some(e) => r == Err::<Option<(i32, i32)>, Error>(e) && *final(self) == *old(self),
                None => r.is_ok() && old(self).step(Action::Pass(indices), *final(self), r.unwrap()),
            },
    {
        let cur = self.current_player;
        match &self.phase {
            Phase::PassingTo { bid_winner, highest_bid, trump } => {
                let bid_winner = *bid_winner;
                let highest_bid = *highest_bid;
                let trump = *trump;
                match Self::pass_cards(&mut self.hands, cur, indices) {
                    Err(e) => Err(e),
                    Ok(()) => {
                        self.current_player = bid_winner;
                        self.phase = Phase::PassingBack { bid_winner, highest_bid, trump };
                        Ok(None)
                    },
                }
            },
            Phase::PassingBack { bid_winner, highest_bid, trump } => {
                let bid_winner = *bid_winner;
                let highest_bid = *highest_bid;
                let trump = *trump;
                match Self::pass_cards(&mut self.hands, cur, indices) {
                    Err(e) => Err(e),
                    Ok(()) => {
                        self.current_player = bid_winner;
                        self.phase = Phase::RevealingCards {
                            reveals: Vec::new(),
                            extra_points: [0, 0],
                            bid_winner,
                            highest_bid,
                            trump,
                        };
                        Ok(None)
                    },
                }
            },
            _ => Err(Error::IncorrectAction),
        }
    }

    fn do_reveal(&mut self, indices: Vec<usize>) -> (r: Result<Option<(i32, i32)>, Error>)
        requires
            old(self).wf(),
        ensures
            final(self).wf(),
            match old(self).refusal(Action::ShowPoints(indices)) {
                Some(e) => r == Err::<Option<(i32, i32)>, Error>(e) && *final(self) == *old(self),
                None => r.is_ok() && old(self).step(Action::ShowPoints(indices), *final(self), r.unwrap()),
            },
    {
        let cur = self.current_player;
        let seat = cur.index();
        match &mut self.phase {
            Phase::RevealingCards { reveals, extra_points, bid_winner, highest_bid, trump } => {
                if any_out_of_range(&indices, self.hands[seat].len()) {
                    return Err(Error::PlayingNonExtantCard);
                }
                let the_cards = pick_cards(&self.hands[seat], &indices);
                let team = cur.team();
                let bonus = bonus_points(&the_cards, *trump);
                extra_points[team] = extra_points[team] + bonus;
                reveals.push(the_cards);
                if reveals.len() == 4 {
                    let playing_phase = PlayingPhase {
                        trump: *trump,
                        bid_winner: *bid_winner,
                        highest_bid: *highest_bid,
                        extra_points: *extra_points,
                        piles: [Vec::new(), Vec::new()],
                        trick: Trick { first_player: *bid_winner, cards: Vec::new() },
                    };
                    proof {
                        lemma_empty_bag(playing_phase.piles@[0]@);
                        lemma_empty_bag(playing_phase.piles@[1]@);
                        lemma_empty_bag(playing_phase.trick.cards@);
                        assert(hands_bag(self.hands@).add(playing_phase.played()) =~= hands_bag(
                            self.hands@,
                        ));
                    }
                    self.current_player = playing_phase.bid_winner;
                    self.phase = Phase::Play(playing_phase);
                } else {
                    self.current_player = cur.next();
                }
                Ok(None)
            },
            _ => Err(Error::IncorrectAction),
        }
    }

    fn do_play(&mut self, index: usize) -> (r: Result<Option<(i32, i32)>, Error>)
        requires
            old(self).wf(),
        ensures
            final(self).wf(),
            match old(self).refusal(Action::Play(index)) {
                Some(e) => r == Err::<Option<(i32, i32)>, Error>(e) && *final(self) == *old(self),
                None => r.is_ok() && old(self).step(Action::Play(index), *final(self), r.unwrap()),
            },
    {
        let cur = self.current_player;
        let seat = cur.index();
        match &mut self.phase {
            Phase::Play(playing_phase) => {
                if index >= self.hands[seat].len() {
                    return Err(Error::PlayingNonExtantCard);
                }
                let card = self.hands[seat][index];
                proof {
                    lemma_card_count(*old(self));
                }
                let ghost before = *playing_phase;
                match playing_phase.play(cur, self.hands[seat].as_slice(), card) {
                    Err(e) => Err(e),
                    Ok((next_player, res)) => {
                        self.hands[seat].remove(index);
                        self.current_player = next_player;
                        proof {
                            let h0 = old(self).hands@;
                            let h1 = self.hands@;
                            vstd::seq_lib::to_multiset_remove(h0[seat as int]@, index as int);
                            vstd::seq_lib::to_multiset_contains(h0[seat as int]@, card);
                            assert(h0[seat as int]@.contains(card));
                            assert(forall|k: int| 0 <= k < 4 && k != seat ==> h1[k] == h0[k]);
                            assert(hands_bag(h1).add(before.played().insert(card)) =~= hands_bag(h0).add(
                                before.played(),
                            ));
                            if before.trick.cards@.len() == 3 {
                                let w = choose|w: int| #[trigger]
                                    crate::rules::wins_trick(before.trick.cards@.push(card), before.trump, w)
                                        && next_player == seat_at(
                                        before.trick.first_player.index_spec() + w,
                                    );
                            }
                        }
                        Ok(res)
                    },
                }
            },
            _ => Err(Error::IncorrectAction),
        }
    }

    /// Applies an action of the seat whose turn it is. An action that is
    /// turned down changes nothing.
    pub fn act(&mut self, action: Action) -> (r: Result<Option<(i32, i32)>, Error>)
        requires
            old(self).wf(),
        ensures
            final(self).wf(),
            match old(self).refusal(action) {
                Some(e) => r == Err::<Option<(i32, i32)>, Error>(e) && *final(self) == *old(self),
                None => r.is_ok() && old(self).step(action, *final(self), r.unwrap()),
            },
    {
        match action {
            Action::Bid(amount) => self.do_bid(amount),
            Action::DeclareSuit(suit) => self.do_declare(suit),
            Action::Pass(indices) => self.do_pass(indices),
            Action::ShowPoints(indices) => self.do_reveal(indices),
            Action::Play(index) => self.do_play(index),
        }
    }
}

} // verus!
