use crate::cards::Card;
use rand::rngs::StdRng;
use rand::seq::SliceRandom;
use rand::SeedableRng;
use vstd::prelude::*;

verus! {

/// The generator `rand::rngs::StdRng`, carried through as an opaque value.
#[verifier::external_type_specification]
#[verifier::external_body]
pub struct ExStdRng(StdRng);

/// Calls `rand::seq::SliceRandom::shuffle` on the cards. Trusted: the shuffle
/// only swaps elements of the slice, so the cards afterwards are the cards
/// before in some order. Nothing is claimed about which order.
#[verifier::external_body]
pub(crate) fn shuffle_cards(cards: &mut Vec<Card>, rng: &mut StdRng)
    ensures
        final(cards)@.to_multiset() == old(cards)@.to_multiset(),
        final(cards)@.len() == old(cards)@.len(),
{
    cards.shuffle(rng);
}

/// Calls `rand::SeedableRng::from_entropy` for a generator seeded by the
/// operating system. Trusted, with nothing claimed about the generator. The
/// call fails only where the operating system has no entropy to give.
#[verifier::external_body]
pub(crate) fn entropy_rng() -> (rng: StdRng) {
    StdRng::from_entropy()
}

} // verus!
