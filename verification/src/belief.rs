use crate::cards::{rank_at, rank_from_index, Card, Player, Rank, Suit};
use crate::rules::{best_strength, top_strength};
use vstd::prelude::*;

verus! {

/// What an observer knows of one seat: cards known to be in its hand, and
/// for each suit the highest rank it may still hold (`None`: it is void).
#[derive(Clone, PartialEq, Eq, Debug)]
pub struct PlayerState {
    pub known_cards: Vec<Card>,
    pub highest_possible: [Option<Rank>; 4],
}

/// A bound as a number: the strength of the rank, or -1 for a void suit.
pub open spec fn bound_value(bound: Option<Rank>) -> int {
    match bound {
        Some(rank) => rank.strength_spec(),
        None => -1,
    }
}

/// The lower of a bound and the rank of strength `best`.
pub open spec fn tighten(bound: Option<Rank>, best: int) -> Option<Rank> {
    if bound_value(bound) <= best {
        bound
    } else {
        Some(rank_at(best))
    }
}

/// The bounds of a seat after it was seen to play `played` onto `stack`.
/// A seat that does not follow suit is void in the led suit; if it did not
/// trump either it is void in trump, and if it trumped without beating the
/// best trump of the trick it holds no higher trump than that one. A seat
/// that follows suit without beating the best card of the suit holds no
/// higher card of the suit than that one.
pub open spec fn inferred(bounds: Seq<Option<Rank>>, played: Card, trump: Suit, stack: Seq<Card>) -> Seq<Option<Rank>> {
    if stack.len() == 0 {
        bounds
    } else {
        let lead = stack[0].0;
        if played.0 != lead {
            let void_lead = bounds.update(lead.index_spec(), None);
            if played.0 != trump {
                void_lead.update(trump.index_spec(), None)
            } else {
                let best = top_strength(stack, trump);
                if best >= 0 && played.1.strength_spec() <= best {
                    void_lead.update(trump.index_spec(), tighten(void_lead[trump.index_spec()], best))
                } else {
                    void_lead
                }
            }
        } else {
            let best = top_strength(stack, lead);
            if played.1.strength_spec() <= best {
                bounds.update(lead.index_spec(), tighten(bounds[lead.index_spec()], best))
            } else {
                bounds
            }
        }
    }
}

/// An observation never loosens a bound.
pub proof fn lemma_inferred_never_loosens(bounds: Seq<Option<Rank>>, played: Card, trump: Suit, stack: Seq<Card>)
    requires
        bounds.len() == 4,
    ensures
        inferred(bounds, played, trump, stack).len() == 4,
        forall|s: int|
            0 <= s < 4 ==> bound_value(#[trigger] inferred(bounds, played, trump, stack)[s]) <= bound_value(
                bounds[s],
            ),
{
    if stack.len() > 0 {
        crate::rules::lemma_top_strength_is_max(stack, trump);
        crate::rules::lemma_top_strength_is_max(stack, stack[0].0);
    }
}

/// The sequence without the first occurrence of `card`, if it has one.
pub open spec fn without_first(cards: Seq<Card>, card: Card) -> Seq<Card> {
    match cards.index_of_first(card) {
        Some(i) => cards.remove(i),
        None => cards,
    }
}

/// Removes the first occurrence of `card`, if there is one.
pub fn remove_first(cards: &mut Vec<Card>, card: Card)
    ensures
        final(cards)@ == without_first(old(cards)@, card),
{
    let mut i: usize = 0;
    while i < cards.len()
        invariant
            i <= cards@.len(),
            cards@ == old(cards)@,
            forall|k: int| 0 <= k < i ==> cards@[k] != card,
        decreases cards@.len() - i,
    {
        if cards[i] == card {
            proof {
                assert(cards@.contains(card));
                cards@.index_of_first_ensures(card);
            }
            cards.remove(i);
            return ;
        }
        i += 1;
    }
    proof {
        cards@.index_of_first_ensures(card);
    }
}

impl Default for PlayerState {
    fn default() -> (r: Self)
        ensures
            r.known_cards@.len() == 0,
            forall|s: int| 0 <= s < 4 ==> #[trigger] r.highest_possible@[s] == Some(Rank::Ace),
    {
        PlayerState {
            known_cards: Vec::new(),
            highest_possible: [Some(Rank::Ace), Some(Rank::Ace), Some(Rank::Ace), Some(Rank::Ace)],
        }
    }
}

impl PlayerState {
    /// Whether the seat may still hold `card` as far as the bounds go.
    pub open spec fn may_hold(&self, card: Card) -> bool {
        card.1.strength_spec() <= bound_value(self.highest_possible@[card.0.index_spec()])
    }

    pub fn highest_possible(&self, suit: Suit) -> (r: Option<Rank>)
        ensures
            r == self.highest_possible@[suit.index_spec()],
    {
        self.highest_possible[suit.index()]
    }

    pub fn set_highest_possible(&mut self, suit: Suit, rank: Option<Rank>)
        ensures
            final(self).highest_possible@ == old(self).highest_possible@.update(suit.index_spec(), rank),
            final(self).known_cards == old(self).known_cards,
    {
        self.highest_possible[suit.index()] = rank;
    }

    pub fn could_have_card(&self, candidate: Card) -> (r: bool)
        ensures
            r == self.may_hold(candidate),
    {
        match self.highest_possible(candidate.0) {
            Some(highest) => highest.strength() >= candidate.1.strength(),
            None => false,
        }
    }

    /// Lowers the bound of `suit` to the rank of strength `best`, unless it
    /// is lower already.
    pub fn tighten_to(&mut self, suit: Suit, best: i32)
        requires
            0 <= best <= 5,
        ensures
            final(self).highest_possible@ == old(self).highest_possible@.update(
                suit.index_spec(),
                tighten(old(self).highest_possible@[suit.index_spec()], best as int),
            ),
            final(self).known_cards == old(self).known_cards,
    {
        let keep = match self.highest_possible(suit) {
            Some(highest) => (highest.strength() as i32) <= best,
            None => true,
        };
        if !keep {
            self.set_highest_possible(suit, Some(rank_from_index(best as usize)));
        } else {
            assert(self.highest_possible@ =~= old(self).highest_possible@.update(
                suit.index_spec(),
                old(self).highest_possible@[suit.index_spec()],
            ));
        }
    }

    /// Takes in that the seat played `played` onto `stack`.
    pub fn observe(&mut self, played: Card, trump: Suit, stack: &[Card])
        ensures
            final(self).known_cards@ == without_first(old(self).known_cards@, played),
            final(self).highest_possible@ == inferred(old(self).highest_possible@, played, trump, stack@),
    {
        remove_first(&mut self.known_cards, played);
        if stack.len() > 0 {
            let lead = stack[0].0;
            if played.0 != lead {
                self.set_highest_possible(lead, None);
                if played.0 != trump {
                    self.set_highest_possible(trump, None);
                } else {
                    let best = best_strength(stack, trump);
                    if best >= 0 && (played.1.strength() as i32) <= best {
                        self.tighten_to(trump, best);
                    }
                }
            } else {
                let best = best_strength(stack, lead);
                if (played.1.strength() as i32) <= best {
                    proof {
                        crate::rules::lemma_top_strength_is_max(stack@, lead);
                    }
                    self.tighten_to(lead, best);
                }
            }
        }
    }
}

/// What an observer knows of the round: the cards played so far, how many
/// cards each seat still holds, and the knowledge of each seat.
#[derive(Clone, PartialEq, Eq, Debug)]
pub struct State {
    pub played_cards: Vec<Card>,
    pub hand_sizes: [u8; 4],
    pub players: [PlayerState; 4],
}

impl Default for State {
    fn default() -> (r: Self)
        ensures
            r.played_cards@.len() == 0,
            forall|k: int| 0 <= k < 4 ==> #[trigger] r.hand_sizes@[k] == 12,
            forall|k: int| 0 <= k < 4 ==> (#[trigger] r.players@[k]).known_cards@.len() == 0,
            forall|k: int, s: int|
                0 <= k < 4 && 0 <= s < 4 ==> #[trigger] r.players@[k].highest_possible@[s] == Some(Rank::Ace),
    {
        State {
            played_cards: Vec::new(),
            hand_sizes: [12, 12, 12, 12],
            players: [
                PlayerState::default(),
                PlayerState::default(),
                PlayerState::default(),
                PlayerState::default(),
            ],
        }
    }
}

impl State {
    pub fn player_state(&self, player: Player) -> (r: &PlayerState)
        ensures
            *r == self.players@[player.index_spec()],
    {
        &self.players[player.index()]
    }

    pub fn player_state_mut(&mut self, player: Player) -> (r: &mut PlayerState)
        ensures
            *r == old(self).players@[player.index_spec()],
            final(self).players@ == old(self).players@.update(player.index_spec(), *final(r)),
            final(self).played_cards == old(self).played_cards,
            final(self).hand_sizes == old(self).hand_sizes,
    {
        &mut self.players[player.index()]
    }

    /// Whether `after` is this state once `player` was seen to play `played`
    /// onto `stack`: the card is recorded as played, the seat holds one card
    /// less, and what is known of the seat is updated. Nothing changes for
    /// the other seats.
    pub open spec fn observed(&self, player: Player, played: Card, trump: Suit, stack: Seq<Card>, after: State) -> bool {
        let p = player.index_spec();
        &&& after.played_cards@ == self.played_cards@.push(played)
        &&& after.hand_sizes@ == self.hand_sizes@.update(p, (self.hand_sizes@[p] - 1) as u8)
        &&& forall|k: int| 0 <= k < 4 && k != p ==> #[trigger] after.players@[k] == self.players@[k]
        &&& after.players@[p].known_cards@ == without_first(self.players@[p].known_cards@, played)
        &&& after.players@[p].highest_possible@ == inferred(
            self.players@[p].highest_possible@,
            played,
            trump,
            stack,
        )
    }

    /// Takes in that `player` played `played` onto `stack`. No bound of the
    /// seat is loosened by it.
    pub fn update(&mut self, player: Player, played: Card, trump: Suit, stack: &[Card])
        requires
            old(self).hand_sizes@[player.index_spec()] > 0,
        ensures
            old(self).observed(player, played, trump, stack@, *final(self)),
            forall|s: int|
                0 <= s < 4 ==> bound_value(
                    #[trigger] final(self).players@[player.index_spec()].highest_possible@[s],
                ) <= bound_value(old(self).players@[player.index_spec()].highest_possible@[s]),
    {
        self.played_cards.push(played);
        let seat = player.index();
        self.hand_sizes[seat] = self.hand_sizes[seat] - 1;
        proof {
            lemma_inferred_never_loosens(
                old(self).players@[player.index_spec()].highest_possible@,
                played,
                trump,
                stack@,
            );
        }
        let player_state = self.player_state_mut(player);
        player_state.observe(played, trump, stack);
    }
}

} // verus!
