use crate::cards::{Card, Suit};
use vstd::prelude::*;

verus! {

/// The strength of the strongest card of `suit` in `pile`, or -1 if the pile
/// holds no card of that suit.
pub open spec fn top_strength(pile: Seq<Card>, suit: Suit) -> int
    decreases pile.len(),
{
    if pile.len() == 0 {
        -1
    } else {
        let rest = top_strength(pile.drop_last(), suit);
        let last = pile.last();
        if last.0 == suit && last.1.strength_spec() > rest {
            last.1.strength_spec()
        } else {
            rest
        }
    }
}

/// Whether `hand` holds a card of `suit` that is stronger than `bound`.
/// With a bound of -1 this asks for any card of the suit.
pub open spec fn holds_stronger(hand: Seq<Card>, suit: Suit, bound: int) -> bool {
    exists|i: int| 0 <= i < hand.len() && #[trigger] hand[i].0 == suit && hand[i].1.strength_spec() > bound
}

/// Whether `hand` holds any card of `suit`.
pub open spec fn holds_suit(hand: Seq<Card>, suit: Suit) -> bool {
    holds_stronger(hand, suit, -1)
}

/// The rule of play. Any card may lead. A card of the led suit must beat the
/// best card of that suit in the trick if the hand can. Another suit may be
/// played only from a hand without the led suit; it must then be trump if the
/// hand has trump, and a trump must beat the best trump in the trick if the
/// hand can.
pub open spec fn is_legal_spec(pile: Seq<Card>, hand: Seq<Card>, card: Card, trump: Suit) -> bool {
    if pile.len() == 0 {
        true
    } else {
        let lead = pile[0].0;
        if card.0 == lead {
            let best = top_strength(pile, lead);
            card.1.strength_spec() > best || !holds_stronger(hand, lead, best)
        } else if holds_suit(hand, lead) {
            false
        } else if card.0 == trump {
            let best = top_strength(pile, trump);
            card.1.strength_spec() > best || !holds_stronger(hand, trump, best)
        } else {
            !holds_suit(hand, trump)
        }
    }
}

/// `top_strength` is the maximum over the cards of the suit: it bounds each of
/// them, and unless it is -1 some card of the suit attains it.
pub proof fn lemma_top_strength_is_max(pile: Seq<Card>, suit: Suit)
    ensures
        -1 <= top_strength(pile, suit) <= 5,
        forall|i: int|
            0 <= i < pile.len() && #[trigger] pile[i].0 == suit ==> pile[i].1.strength_spec()
                <= top_strength(pile, suit),
        top_strength(pile, suit) >= 0 ==> exists|i: int|
            0 <= i < pile.len() && #[trigger] pile[i].0 == suit && pile[i].1.strength_spec()
                == top_strength(pile, suit),
    decreases pile.len(),
{
    if pile.len() > 0 {
        let front = pile.drop_last();
        lemma_top_strength_is_max(front, suit);
        assert forall|i: int| 0 <= i < pile.len() && #[trigger] pile[i].0 == suit implies pile[i].1.strength_spec()
            <= top_strength(pile, suit) by {
            if i < front.len() {
                assert(front[i] == pile[i]);
            }
        }
        if top_strength(pile, suit) >= 0 {
            if top_strength(pile, suit) == top_strength(front, suit) {
                let i = choose|i: int|
                    0 <= i < front.len() && #[trigger] front[i].0 == suit && front[i].1.strength_spec()
                        == top_strength(front, suit);
                assert(pile[i] == front[i]);
            } else {
                assert(pile[pile.len() - 1].0 == suit);
            }
        }
    }
}

/// Computes `top_strength`.
pub fn best_strength(pile: &[Card], suit: Suit) -> (r: i32)
    ensures
        r == top_strength(pile@, suit),
        -1 <= r <= 5,
{
    let mut best: i32 = -1;
    let mut i: usize = 0;
    while i < pile.len()
        invariant
            i <= pile@.len(),
            best == top_strength(pile@.take(i as int), suit),
            -1 <= best <= 5,
        decreases pile@.len() - i,
    {
        let c = pile[i];
        proof {
            assert(pile@.take(i + 1).drop_last() =~= pile@.take(i as int));
        }
        if c.0 == suit && (c.1.strength() as i32) > best {
            best = c.1.strength() as i32;
        }
        i += 1;
    }
    proof {
        assert(pile@.take(pile@.len() as int) =~= pile@);
    }
    best
}

/// Computes `holds_stronger`.
pub fn has_stronger(hand: &[Card], suit: Suit, bound: i32) -> (r: bool)
    ensures
        r == holds_stronger(hand@, suit, bound as int),
{
    let mut i: usize = 0;
    while i < hand.len()
        invariant
            i <= hand@.len(),
            forall|k: int| 0 <= k < i ==> !(#[trigger] hand@[k].0 == suit && hand@[k].1.strength_spec() > bound),
        decreases hand@.len() - i,
    {
        let c = hand[i];
        if c.0 == suit && (c.1.strength() as i32) > bound {
            return true;
        }
        i += 1;
    }
    false
}

/// Decides whether `card` may be played from `hand` onto the trick `pile`.
pub fn is_legal_play(pile: &[Card], hand: &[Card], card: Card, trump: Suit) -> (r: bool)
    ensures
        r == is_legal_spec(pile@, hand@, card, trump),
{
    if pile.len() == 0 {
        return true;
    }
    let lead = pile[0].0;
    if card.0 == lead {
        let best = best_strength(pile, lead);
        (card.1.strength() as i32) > best || !has_stronger(hand, lead, best)
    } else if has_stronger(hand, lead, -1) {
        false
    } else if card.0 == trump {
        let best = best_strength(pile, trump);
        (card.1.strength() as i32) > best || !has_stronger(hand, trump, best)
    } else {
        !has_stronger(hand, trump, -1)
    }
}

/// From an empty hand nothing is forbidden: no card of it could have been owed.
pub proof fn lemma_empty_hand_is_free(pile: Seq<Card>, card: Card, trump: Suit)
    ensures
        is_legal_spec(pile, Seq::<Card>::empty(), card, trump),
{
}

/// What a card is worth in a trick: a trump beats every other suit, the led
/// suit beats the remaining suits, and within trump or the led suit the rank
/// decides. Cards of the remaining suits are worth nothing.
pub open spec fn power(card: Card, trump: Suit, lead: Suit) -> int {
    if card.0 == trump {
        12 + card.1.strength_spec()
    } else if card.0 == lead {
        6 + card.1.strength_spec()
    } else {
        0
    }
}

/// Whether position `w` of a trick wins it: no card is worth more, and every
/// earlier card is worth less. The led suit is that of the first card.
pub open spec fn wins_trick(cards: Seq<Card>, trump: Suit, w: int) -> bool {
    &&& 0 <= w < cards.len()
    &&& forall|j: int|
        0 <= j < cards.len() ==> power(#[trigger] cards[j], trump, cards[0].0) <= power(
            cards[w],
            trump,
            cards[0].0,
        )
    &&& forall|j: int|
        0 <= j < w ==> power(#[trigger] cards[j], trump, cards[0].0) < power(
            cards[w],
            trump,
            cards[0].0,
        )
}

/// A trick has one winner.
pub proof fn lemma_winner_unique(cards: Seq<Card>, trump: Suit, v: int, w: int)
    requires
        wins_trick(cards, trump, v),
        wins_trick(cards, trump, w),
    ensures
        v == w,
{
    if v < w {
        assert(power(cards[v], trump, cards[0].0) < power(cards[w], trump, cards[0].0));
    } else if w < v {
        assert(power(cards[w], trump, cards[0].0) < power(cards[v], trump, cards[0].0));
    }
}

/// The winning card of a trick is a trump or of the led suit.
pub proof fn lemma_winner_is_trump_or_lead(cards: Seq<Card>, trump: Suit, w: int)
    requires
        wins_trick(cards, trump, w),
    ensures
        cards[w].0 == trump || cards[w].0 == cards[0].0,
{
    assert(power(cards[0], trump, cards[0].0) >= 6);
}

/// Legality agrees with how a trick is won. A legal card of the led suit,
/// played from a hand that holds a card of that suit above the best one in
/// the trick, is itself above it; so unless a trump of another suit lies in
/// the trick, the card wins the trick as it then stands.
pub proof fn lemma_legal_follow_takes_the_trick(pile: Seq<Card>, hand: Seq<Card>, card: Card, trump: Suit)
    requires
        pile.len() > 0,
        card.0 == pile[0].0,
        is_legal_spec(pile, hand, card, trump),
        holds_stronger(hand, pile[0].0, top_strength(pile, pile[0].0)),
    ensures
        card.1.strength_spec() > top_strength(pile, pile[0].0),
        trump == pile[0].0 || top_strength(pile, trump) < 0 ==> wins_trick(pile.push(card), trump, pile.len() as int),
{
    let lead = pile[0].0;
    let full = pile.push(card);
    lemma_top_strength_is_max(pile, lead);
    lemma_top_strength_is_max(pile, trump);
    if trump == lead || top_strength(pile, trump) < 0 {
        assert(full[0] == pile[0]);
        assert forall|j: int| 0 <= j < pile.len() implies power(#[trigger] full[j], trump, lead) < power(
            card,
            trump,
            lead,
        ) by {
            assert(full[j] == pile[j]);
            if pile[j].0 == lead {
                assert(pile[j].1.strength_spec() <= top_strength(pile, lead));
            } else if pile[j].0 == trump {
                assert(pile[j].1.strength_spec() <= top_strength(pile, trump));
            }
        }
        assert(full[pile.len() as int] == card);
    }
}

/// A hand that is not empty holds a card that is legal to play.
pub proof fn lemma_some_card_is_legal(pile: Seq<Card>, hand: Seq<Card>, trump: Suit)
    requires
        hand.len() > 0,
    ensures
        exists|i: int| 0 <= i < hand.len() && is_legal_spec(pile, hand, #[trigger] hand[i], trump),
{
    if pile.len() == 0 {
        assert(is_legal_spec(pile, hand, hand[0], trump));
    } else {
        let lead = pile[0].0;
        if holds_suit(hand, lead) {
            lemma_best_of_suit(hand, lead);
            let i = choose|i: int|
                0 <= i < hand.len() && #[trigger] hand[i].0 == lead && !holds_stronger(
                    hand,
                    lead,
                    hand[i].1.strength_spec(),
                );
            lemma_holds_stronger_is_monotone(hand, lead, hand[i].1.strength_spec(), top_strength(pile, lead));
            assert(is_legal_spec(pile, hand, hand[i], trump));
        } else if holds_suit(hand, trump) {
            lemma_best_of_suit(hand, trump);
            let i = choose|i: int|
                0 <= i < hand.len() && #[trigger] hand[i].0 == trump && !holds_stronger(
                    hand,
                    trump,
                    hand[i].1.strength_spec(),
                );
            lemma_holds_stronger_is_monotone(hand, trump, hand[i].1.strength_spec(), top_strength(pile, trump));
            assert(is_legal_spec(pile, hand, hand[i], trump));
        } else {
            assert(is_legal_spec(pile, hand, hand[0], trump));
        }
    }
}

/// What holds above a higher bound holds above a lower one.
pub proof fn lemma_holds_stronger_is_monotone(hand: Seq<Card>, suit: Suit, high: int, low: int)
    ensures
        low <= high && holds_stronger(hand, suit, high) ==> holds_stronger(hand, suit, low),
{
    if low <= high && holds_stronger(hand, suit, high) {
        let i = choose|i: int| 0 <= i < hand.len() && #[trigger] hand[i].0 == suit && hand[i].1.strength_spec() > high;
        assert(hand[i].0 == suit && hand[i].1.strength_spec() > low);
    }
}

/// A hand that holds a suit holds a best card of it.
pub proof fn lemma_best_of_suit(hand: Seq<Card>, suit: Suit)
    requires
        holds_suit(hand, suit),
    ensures
        exists|i: int|
            0 <= i < hand.len() && #[trigger] hand[i].0 == suit && !holds_stronger(
                hand,
                suit,
                hand[i].1.strength_spec(),
            ),
{
    lemma_top_strength_is_max(hand, suit);
    let i0 = choose|i: int| 0 <= i < hand.len() && #[trigger] hand[i].0 == suit && hand[i].1.strength_spec() > -1;
    assert(hand[i0].1.strength_spec() <= top_strength(hand, suit));
    let i = choose|i: int|
        0 <= i < hand.len() && #[trigger] hand[i].0 == suit && hand[i].1.strength_spec() == top_strength(hand, suit);
    assert(!holds_stronger(hand, suit, hand[i].1.strength_spec()));
}

pub fn card_power(card: Card, trump: Suit, lead: Suit) -> (r: u8)
    ensures
        r == power(card, trump, lead),
{
    if card.0 == trump {
        12 + card.1.strength()
    } else if card.0 == lead {
        6 + card.1.strength()
    } else {
        0
    }
}

/// Finds the position of the card that wins a trick.
pub fn winning_position(cards: &[Card], trump: Suit) -> (w: usize)
    requires
        cards@.len() > 0,
    ensures
        wins_trick(cards@, trump, w as int),
{
    let lead = cards[0].0;
    let mut w: usize = 0;
    let mut i: usize = 1;
    while i < cards.len()
        invariant
            1 <= i <= cards@.len(),
            lead == cards@[0].0,
            wins_trick(cards@.take(i as int), trump, w as int),
        decreases cards@.len() - i,
    {
        let ghost before = cards@.take(i as int);
        let ghost after = cards@.take(i + 1);
        proof {
            assert(after[0] == cards@[0] && before[0] == cards@[0]);
            assert(forall|j: int| 0 <= j < i ==> before[j] == after[j]);
        }
        if card_power(cards[i], trump, lead) > card_power(cards[w], trump, lead) {
            w = i;
        }
        i += 1;
    }
    proof {
        assert(cards@.take(cards@.len() as int) =~= cards@);
    }
    w
}

} // verus!
