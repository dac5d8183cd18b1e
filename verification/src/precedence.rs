use crate::cards::{Card, Suit};
use std::cmp::Ordering;
use vstd::prelude::*;

verus! {

/// How two cards of a trick stand to each other. Cards of one suit go by rank.
/// Of two suits, a trump is greater than any other card, and a card of the led
/// suit is greater than a card that is neither trump nor led; two cards of
/// different suits that are neither count as equal.
pub open spec fn compare_spec(a: Card, b: Card, trump: Suit, lead: Suit) -> Ordering {
    if a.0 == b.0 {
        if a.1.strength_spec() < b.1.strength_spec() {
            Ordering::Less
        } else if a.1.strength_spec() == b.1.strength_spec() {
            Ordering::Equal
        } else {
            Ordering::Greater
        }
    } else if a.0 == trump {
        Ordering::Greater
    } else if b.0 == trump {
        Ordering::Less
    } else if a.0 == lead {
        Ordering::Greater
    } else if b.0 == lead {
        Ordering::Less
    } else {
        Ordering::Equal
    }
}

/// Compares two cards played to a trick with the given trump and led suit.
pub fn compare(a: Card, b: Card, trump: Suit, lead: Suit) -> (r: Ordering)
    ensures
        r == compare_spec(a, b, trump, lead),
{
    if a.0 == b.0 {
        let x = a.1.strength();
        let y = b.1.strength();
        if x < y {
            Ordering::Less
        } else if x == y {
            Ordering::Equal
        } else {
            Ordering::Greater
        }
    } else if a.0 == trump {
        Ordering::Greater
    } else if b.0 == trump {
        Ordering::Less
    } else if a.0 == lead {
        Ordering::Greater
    } else if b.0 == lead {
        Ordering::Less
    } else {
        Ordering::Equal
    }
}

/// Swapping the two cards reverses the outcome.
pub proof fn lemma_compare_antisymmetric(a: Card, b: Card, trump: Suit, lead: Suit)
    ensures
        compare_spec(a, b, trump, lead) == Ordering::Less <==> compare_spec(b, a, trump, lead)
            == Ordering::Greater,
        compare_spec(a, b, trump, lead) == Ordering::Equal <==> compare_spec(b, a, trump, lead)
            == Ordering::Equal,
{
}

/// Where one of the two cards is a trump or of the led suit, the comparison
/// agrees with the cards' worth in the trick.
pub proof fn lemma_compare_agrees_with_power(a: Card, b: Card, trump: Suit, lead: Suit)
    requires
        a.0 == trump || a.0 == lead || b.0 == trump || b.0 == lead,
    ensures
        compare_spec(a, b, trump, lead) == Ordering::Less <==> crate::rules::power(a, trump, lead)
            < crate::rules::power(b, trump, lead),
        compare_spec(a, b, trump, lead) == Ordering::Greater <==> crate::rules::power(a, trump, lead)
            > crate::rules::power(b, trump, lead),
{
}

/// The card that wins a trick is maximal under the comparison: no card of
/// the trick is greater, and every card played before it is less.
pub proof fn lemma_winner_is_maximal(cards: Seq<Card>, trump: Suit, w: int)
    requires
        crate::rules::wins_trick(cards, trump, w),
    ensures
        forall|j: int|
            0 <= j < cards.len() ==> compare_spec(cards[w], #[trigger] cards[j], trump, cards[0].0) != Ordering::Less,
        forall|j: int|
            0 <= j < w ==> compare_spec(cards[w], #[trigger] cards[j], trump, cards[0].0) == Ordering::Greater,
{
    crate::rules::lemma_winner_is_trump_or_lead(cards, trump, w);
    assert forall|j: int| 0 <= j < cards.len() implies compare_spec(cards[w], #[trigger] cards[j], trump, cards[0].0)
        != Ordering::Less by {
        lemma_compare_agrees_with_power(cards[w], cards[j], trump, cards[0].0);
    }
    assert forall|j: int| 0 <= j < w implies compare_spec(cards[w], #[trigger] cards[j], trump, cards[0].0)
        == Ordering::Greater by {
        lemma_compare_agrees_with_power(cards[w], cards[j], trump, cards[0].0);
    }
}

} // verus!
