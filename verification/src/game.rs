use crate::cards::{copy_cards, deck, full_deck, seat_at, Card, Player};
use crate::passing::hands_bag;
use crate::play::Error;
use crate::round::{Action, Phase, RoundState};
use crate::shuffle::{entropy_rng, shuffle_cards};
use rand::rngs::StdRng;
use vstd::prelude::*;

verus! {

/// Builds the double deck in a random order.
pub fn shuffled(rng: &mut StdRng) -> (r: Vec<Card>)
    ensures
        r@.to_multiset() == full_deck(),
        r@.len() == 48,
{
    let mut cards = deck();
    shuffle_cards(&mut cards, rng);
    cards
}

/// Copies `count` cards of `deck` starting at position `from`.
fn deal_hand(deck: &Vec<Card>, from: usize, count: usize) -> (r: Vec<Card>)
    requires
        from + count <= deck@.len(),
    ensures
        r@ == deck@.subrange(from as int, from + count),
{
    let mut out: Vec<Card> = Vec::new();
    let mut i: usize = 0;
    while i < count
        invariant
            i <= count,
            from + count <= deck.len(),
            out@ == deck@.subrange(from as int, from + i),
        decreases count - i,
    {
        out.push(deck[from + i]);
        assert(deck@.subrange(from as int, from + i + 1) =~= deck@.subrange(from as int, from + i).push(
            deck@[from + i],
        ));
        i += 1;
    }
    out
}

/// Deals a deck to the four seats: each gets a quarter of it, seat A the
/// first quarter. Cards beyond four equal quarters are left out.
pub fn dealt(deck: Vec<Card>) -> (r: [Vec<Card>; 4])
    ensures
        ({
            let q = (deck@.len() / 4) as int;
            &&& r@[0]@ == deck@.subrange(0, q)
            &&& r@[1]@ == deck@.subrange(q, 2 * q)
            &&& r@[2]@ == deck@.subrange(2 * q, 3 * q)
            &&& r@[3]@ == deck@.subrange(3 * q, 4 * q)
        }),
        deck@.len() % 4 == 0 ==> hands_bag(r@) == deck@.to_multiset(),
{
    let q = deck.len() / 4;
    let a = deal_hand(&deck, 0, q);
    let b = deal_hand(&deck, q, q);
    let c = deal_hand(&deck, 2 * q, q);
    let d = deal_hand(&deck, 3 * q, q);
    proof {
        if deck@.len() % 4 == 0 {
            assert(deck@ =~= ((a@ + b@) + c@) + d@);
            vstd::seq_lib::lemma_multiset_commutative(a@, b@);
            vstd::seq_lib::lemma_multiset_commutative(a@ + b@, c@);
            vstd::seq_lib::lemma_multiset_commutative((a@ + b@) + c@, d@);
        }
    }
    [a, b, c, d]
}

impl RoundState {
    /// Deals a freshly shuffled deck, twelve cards a seat, and opens the
    /// bidding with `player`.
    pub fn start(rng: &mut StdRng, player: Player) -> (r: RoundState)
        ensures
            r.wf(),
            r.current_player == player,
            forall|k: int| 0 <= k < 4 ==> (#[trigger] r.hands@[k])@.len() == 12,
            match r.phase {
                Phase::Bidding { first_bidder, bids } => first_bidder == player && bids@.len() == 0,
                _ => false,
            },
    {
        RoundState {
            current_player: player,
            hands: dealt(shuffled(rng)),
            phase: Phase::Bidding { first_bidder: player, bids: Vec::new() },
        }
    }
}

/// The most a team can score in one round: all card points, the last trick
/// and two reveals.
pub const ROUND_MAX: i32 = 9970;

/// The scores that end a round stay within the most a round can give and,
/// below, within the bid that was lost.
pub proof fn lemma_round_score_bounds(before: RoundState, action: Action, after: RoundState, a: i32, b: i32)
    requires
        before.wf(),
        after.wf(),
        before.step(action, after, Some((a, b))),
    ensures
        match before.phase {
            Phase::Play(p) => {
                &&& -(if p.highest_bid > 0 {
                    p.highest_bid as int
                } else {
                    0
                }) <= a <= ROUND_MAX
                &&& -(if p.highest_bid > 0 {
                    p.highest_bid as int
                } else {
                    0
                }) <= b <= ROUND_MAX
            },
            _ => false,
        },
{
    match (before.phase, after.phase) {
        (Phase::Play(p), Phase::Play(q)) => {
            crate::round::lemma_card_count(after);
            crate::play::lemma_pile_points_bounds(q.piles@[0]@);
            crate::play::lemma_pile_points_bounds(q.piles@[1]@);
        },
        _ => {},
    }
}

/// A game: rounds played one after another, with the scores of the two
/// teams and the seat that opens the bidding of the current round.
#[derive(Debug)]
pub struct Game {
    pub rng: StdRng,
    pub hand: RoundState,
    pub scores: [i32; 2],
    pub current_player: Player,
}

/// What everybody may see of a game: who opened the bidding of the round,
/// whose turn it is, the phase, and the scores. The hands are not in it.
#[derive(Debug)]
pub struct GameInfo {
    pub first_bidder: Player,
    pub current_player: Player,
    pub phase: Phase,
    pub scores: [i32; 2],
}

impl GameInfo {
    /// The public view of a game.
    pub fn from_game(value: &Game) -> (r: GameInfo)
        ensures
            r.first_bidder == value.current_player,
            r.current_player == value.hand.current_player,
            value.hand.phase.agrees(r.phase),
            r.scores == value.scores,
    {
        GameInfo {
            first_bidder: value.current_player,
            current_player: value.hand.current_player,
            phase: value.hand.phase.duplicate(),
            scores: value.scores,
        }
    }
}

impl Default for Game {
    /// A game whose deals are drawn from a generator that the operating
    /// system seeds.
    fn default() -> (r: Self)
        ensures
            r.wf(),
            r.scores@[0] == 0,
            r.scores@[1] == 0,
            r.current_player == Player::A,
    {
        Game::new(entropy_rng())
    }
}

impl Game {
    /// The current round is well formed.
    pub open spec fn wf(&self) -> bool {
        self.hand.wf()
    }

    /// The scores can take the outcome of the current round without leaving
    /// the range of the machine integers.
    pub open spec fn has_room(&self) -> bool {
        match self.hand.phase {
            Phase::Play(p) => forall|t: int|
                0 <= t < 2 ==> i32::MIN <= #[trigger] self.scores@[t] - (if p.highest_bid > 0 {
                    p.highest_bid as int
                } else {
                    0
                }) && self.scores@[t] + ROUND_MAX <= i32::MAX,
            _ => true,
        }
    }

    /// Starts a game: no points yet, and seat A opens the first round.
    pub fn new(rng: StdRng) -> (r: Game)
        ensures
            r.wf(),
            r.scores@[0] == 0,
            r.scores@[1] == 0,
            r.current_player == Player::A,
            r.hand.current_player == Player::A,
            forall|k: int| 0 <= k < 4 ==> (#[trigger] r.hand.hands@[k])@.len() == 12,
            match r.hand.phase {
                Phase::Bidding { first_bidder, bids } => first_bidder == Player::A && bids@.len() == 0,
                _ => false,
            },
    {
        let mut rng = rng;
        let hand = RoundState::start(&mut rng, Player::A);
        Game { hand, rng, current_player: Player::A, scores: [0, 0] }
    }

    /// What an accepted action does to the game. While the round goes on,
    /// only the round changes. When the round ends, its scores are added to
    /// the teams' scores, the opening seat moves on by one, and a new round
    /// starts with that seat.
    pub open spec fn step(&self, action: Action, after: Game) -> bool {
        ||| {
            &&& self.hand.step(action, after.hand, None)
            &&& after.scores == self.scores
            &&& after.current_player == self.current_player
        }
        ||| exists|last: RoundState, a: i32, b: i32|
            {
                &&& #[trigger] self.hand.step(action, last, Some((a, b)))
                &&& after.scores@[0] == self.scores@[0] + a
                &&& after.scores@[1] == self.scores@[1] + b
                &&& after.current_player == seat_at(self.current_player.index_spec() + 1)
                &&& after.hand.current_player == after.current_player
                &&& match after.hand.phase {
                    Phase::Bidding { first_bidder, bids } => first_bidder == after.current_player
                        && bids@.len() == 0,
                    _ => false,
                }
            }
    }

    /// Applies an action submitted by `player`. It is turned down if it is
    /// not that seat's turn, or if the round turns it down; the game is then
    /// unchanged.
    pub fn act(&mut self, player: Player, action: Action) -> (r: Result<(), Error>)
        requires
            old(self).wf(),
            old(self).has_room(),
        ensures
            final(self).wf(),
            player != old(self).hand.current_player ==> r == Err::<(), Error>(Error::NotTheCurrentPlayer)
                && *final(self) == *old(self),
            player == old(self).hand.current_player ==> match old(self).hand.refusal(action) {
                Some(e) => r == Err::<(), Error>(e) && *final(self) == *old(self),
                None => r.is_ok() && old(self).step(action, *final(self)),
            },
    {
        if player != self.hand.current_player {
            return Err(Error::NotTheCurrentPlayer);
        }
        match self.hand.act(action) {
            Err(e) => Err(e),
            Ok(None) => Ok(()),
            Ok(Some((a, b))) => {
                proof {
                    lemma_round_score_bounds(old(self).hand, action, self.hand, a, b);
                }
                self.scores[0] = self.scores[0] + a;
                self.scores[1] = self.scores[1] + b;
                self.current_player = self.current_player.next();
                self.hand = RoundState::start(&mut self.rng, self.current_player);
                Ok(())
            },
        }
    }

    /// The cards in the hand of `player`.
    pub fn player_hand(&self, player: Player) -> (r: Vec<Card>)
        ensures
            r@ == self.hand.hands@[player.index_spec()]@,
    {
        copy_cards(&self.hand.hands[player.index()])
    }
}

} // verus!
