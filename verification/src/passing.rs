use crate::cards::{partner, partner_spec, Card, Player};
use crate::play::Error;
use crate::round::RoundState;
use vstd::multiset::Multiset;
use vstd::prelude::*;

verus! {

/// Whether position `p` is one of the listed positions.
pub open spec fn marked(indices: Seq<usize>, p: int) -> bool {
    exists|k: int| 0 <= k < indices.len() && #[trigger] indices[k] == p
}

/// Whether some listed position lies outside a sequence of length `len`.
pub open spec fn out_of_range(indices: Seq<usize>, len: int) -> bool {
    exists|k: int| 0 <= k < indices.len() && #[trigger] indices[k] >= len
}

/// The elements of `s` from position `from` on that are not listed, in order.
pub open spec fn kept_from<T>(s: Seq<T>, indices: Seq<usize>, from: int) -> Seq<T>
    decreases s.len() - from,
{
    if from < 0 || from >= s.len() {
        Seq::empty()
    } else if marked(indices, from) {
        kept_from(s, indices, from + 1)
    } else {
        seq![s[from]] + kept_from(s, indices, from + 1)
    }
}

/// The elements of `s` from position `from` on that are listed, the one at
/// the highest position first.
pub open spec fn taken_from<T>(s: Seq<T>, indices: Seq<usize>, from: int) -> Seq<T>
    decreases s.len() - from,
{
    if from < 0 || from >= s.len() {
        Seq::empty()
    } else if marked(indices, from) {
        taken_from(s, indices, from + 1).push(s[from])
    } else {
        taken_from(s, indices, from + 1)
    }
}

/// Computes `marked`.
pub fn is_marked(indices: &Vec<usize>, p: usize) -> (r: bool)
    ensures
        r == marked(indices@, p as int),
{
    let mut k: usize = 0;
    while k < indices.len()
        invariant
            k <= indices@.len(),
            forall|j: int| 0 <= j < k ==> #[trigger] indices@[j] != p,
        decreases indices@.len() - k,
    {
        if indices[k] == p {
            return true;
        }
        k += 1;
    }
    false
}

/// Computes `out_of_range`.
pub fn any_out_of_range(indices: &Vec<usize>, len: usize) -> (r: bool)
    ensures
        r == out_of_range(indices@, len as int),
{
    let mut k: usize = 0;
    while k < indices.len()
        invariant
            k <= indices@.len(),
            forall|j: int| 0 <= j < k ==> #[trigger] indices@[j] < len,
        decreases indices@.len() - k,
    {
        if indices[k] >= len {
            return true;
        }
        k += 1;
    }
    false
}

/// Whether no position is listed twice.
pub fn all_distinct(indices: &Vec<usize>) -> (r: bool)
    ensures
        r == indices@.no_duplicates(),
{
    let mut i: usize = 0;
    while i < indices.len()
        invariant
            i <= indices@.len(),
            forall|a: int, b: int| 0 <= a < i && 0 <= b < indices@.len() && a != b ==> indices@[a] != indices@[b],
        decreases indices@.len() - i,
    {
        let mut j: usize = 0;
        while j < indices.len()
            invariant
                i < indices@.len(),
                j <= indices@.len(),
                forall|b: int| 0 <= b < j && b != i ==> indices@[i as int] != indices@[b],
            decreases indices@.len() - j,
        {
            if j != i && indices[i] == indices[j] {
                return false;
            }
            j += 1;
        }
        i += 1;
    }
    true
}

/// Takes the elements at the listed positions out of `source` and returns
/// them, the one from the highest position first. If a position lies outside
/// `source`, nothing is taken.
pub fn take_indices<T>(source: &mut Vec<T>, indices: &Vec<usize>) -> (r: Result<Vec<T>, Error>)
    ensures
        out_of_range(indices@, old(source)@.len() as int) ==> r == Err::<Vec<T>, Error>(
            Error::PlayingNonExtantCard,
        ) && *final(source) == *old(source),
        !out_of_range(indices@, old(source)@.len() as int) ==> r.is_ok() && final(source)@
            == kept_from(old(source)@, indices@, 0) && r.unwrap()@ == taken_from(
            old(source)@,
            indices@,
            0,
        ) && final(source)@.to_multiset().add(r.unwrap()@.to_multiset()) == old(source)@.to_multiset(),
{
    if any_out_of_range(indices, source.len()) {
        return Err(Error::PlayingNonExtantCard);
    }
    let mut taken: Vec<T> = Vec::new();
    let mut i: usize = source.len();
    proof {
        assert(source@ =~= old(source)@.take(i as int) + kept_from(old(source)@, indices@, i as int));
        crate::cards::lemma_empty_bag(taken@);
        assert(source@.to_multiset().add(taken@.to_multiset()) =~= old(source)@.to_multiset());
    }
    while i > 0
        invariant
            i <= old(source)@.len(),
            source@ == old(source)@.take(i as int) + kept_from(old(source)@, indices@, i as int),
            taken@ == taken_from(old(source)@, indices@, i as int),
            source@.to_multiset().add(taken@.to_multiset()) == old(source)@.to_multiset(),
        decreases i,
    {
        i -= 1;
        let ghost before = source@;
        let ghost got = taken@;
        if is_marked(indices, i) {
            let x = source.remove(i);
            taken.push(x);
            proof {
                vstd::seq_lib::to_multiset_remove(before, i as int);
                vstd::seq_lib::to_multiset_build(got, x);
                vstd::seq_lib::to_multiset_contains(before, x);
                assert(before.contains(x));
                assert(source@.to_multiset().add(taken@.to_multiset()) =~= before.to_multiset().add(
                    got.to_multiset(),
                ));
            }
        }
        proof {
            assert(source@ =~= old(source)@.take(i as int) + kept_from(old(source)@, indices@, i as int));
        }
    }
    Ok(taken)
}

/// The four hands together, as a bag of cards.
pub open spec fn hands_bag(hands: Seq<Vec<Card>>) -> Multiset<Card> {
    hands[0]@.to_multiset().add(hands[1]@.to_multiset()).add(hands[2]@.to_multiset()).add(
        hands[3]@.to_multiset(),
    )
}

/// What is kept and what is taken are together what was there.
pub proof fn lemma_kept_and_taken<T>(s: Seq<T>, indices: Seq<usize>, from: int)
    requires
        0 <= from <= s.len(),
    ensures
        kept_from(s, indices, from).to_multiset().add(taken_from(s, indices, from).to_multiset()) == s.skip(
            from,
        ).to_multiset(),
    decreases s.len() - from,
{
    broadcast use vstd::multiset::group_multiset_axioms;

    if from == s.len() {
        crate::cards::lemma_empty_bag(kept_from(s, indices, from));
        crate::cards::lemma_empty_bag(taken_from(s, indices, from));
        crate::cards::lemma_empty_bag(s.skip(from));
    } else {
        lemma_kept_and_taken(s, indices, from + 1);
        let rest = s.skip(from + 1);
        assert(s.skip(from) =~= seq![s[from]] + rest);
        vstd::seq_lib::lemma_multiset_commutative(seq![s[from]], rest);
        vstd::seq_lib::to_multiset_build(Seq::<T>::empty(), s[from]);
        assert(seq![s[from]] =~= Seq::<T>::empty().push(s[from]));
        crate::cards::lemma_empty_bag(Seq::<T>::empty());
        if marked(indices, from) {
            vstd::seq_lib::to_multiset_build(taken_from(s, indices, from + 1), s[from]);
        } else {
            vstd::seq_lib::lemma_multiset_commutative(seq![s[from]], kept_from(s, indices, from + 1));
        }
        assert(kept_from(s, indices, from).to_multiset().add(taken_from(s, indices, from).to_multiset()) =~= s.skip(
            from,
        ).to_multiset());
    }
}

/// A pass keeps the cards of the four hands.
pub proof fn lemma_pass_keeps_the_cards(before: Seq<Vec<Card>>, giver: Player, indices: Seq<usize>, after: Seq<Vec<Card>>)
    requires
        before.len() == 4,
        passed(before, giver, indices, after),
    ensures
        hands_bag(after) == hands_bag(before),
{
    broadcast use vstd::multiset::group_multiset_axioms;

    let g = giver.index_spec();
    let p = partner_spec(giver).index_spec();
    lemma_kept_and_taken(before[g]@, indices, 0);
    assert(before[g]@.skip(0) =~= before[g]@);
    vstd::seq_lib::lemma_multiset_commutative(before[p]@, taken_from(before[g]@, indices, 0));
    assert(forall|k: int| 0 <= k < 4 && k != g && k != p ==> after[k] == before[k]);
    assert(hands_bag(after) =~= hands_bag(before));
}

/// Why a pass is turned down, if it is: it must list four different
/// positions, and each must be a position of the hand.
pub open spec fn pass_error(hand_len: int, indices: Seq<usize>) -> Option<Error> {
    if indices.len() != 4 || !indices.no_duplicates() {
        Some(Error::PassingWrongNumberOfCards)
    } else if out_of_range(indices, hand_len) {
        Some(Error::PlayingNonExtantCard)
    } else {
        None
    }
}

/// Whether `after` is `before` with the listed cards of `giver` moved to the
/// end of the partner's hand, highest position first.
pub open spec fn passed(before: Seq<Vec<Card>>, giver: Player, indices: Seq<usize>, after: Seq<Vec<Card>>) -> bool {
    let g = giver.index_spec();
    let p = partner_spec(giver).index_spec();
    &&& after.len() == 4
    &&& after[g]@ == kept_from(before[g]@, indices, 0)
    &&& after[p]@ == before[p]@ + taken_from(before[g]@, indices, 0)
    &&& forall|k: int| 0 <= k < 4 && k != g && k != p ==> after[k] == before[k]
}

impl RoundState {
    /// Moves four cards from the hand of `current_player` to the partner's.
    pub fn pass_cards(hands: &mut [Vec<Card>; 4], current_player: Player, indices: Vec<usize>) -> (r: Result<(), Error>)
        ensures
            match pass_error(old(hands)@[current_player.index_spec()]@.len() as int, indices@) {
                Some(e) => r == Err::<(), Error>(e) && *final(hands) == *old(hands),
                None => r.is_ok() && passed(old(hands)@, current_player, indices@, final(hands)@) && hands_bag(
                    final(hands)@,
                ) == hands_bag(old(hands)@),
            },
    {
        if indices.len() != 4 || !all_distinct(&indices) {
            return Err(Error::PassingWrongNumberOfCards);
        }
        let g = current_player.index();
        let p = partner(current_player).index();
        match take_indices(&mut hands[g], &indices) {
            Err(e) => Err(e),
            Ok(mut taken_cards) => {
                let ghost moved = taken_cards@;
                let ghost mid = hands@;
                hands[p].append(&mut taken_cards);
                proof {
                    vstd::seq_lib::lemma_multiset_commutative(mid[p as int]@, moved);
                    assert(hands_bag(hands@) =~= hands_bag(old(hands)@));
                }
                Ok(())
            },
        }
    }
}

} // verus!
