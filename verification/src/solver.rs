use crate::belief::State;
use crate::cards::{lemma_empty_bag, Card};
use crate::passing::hands_bag;
use crate::shuffle::shuffle_cards;
use rand::rngs::StdRng;
use vstd::multiset::Multiset;
use vstd::prelude::*;

verus! {

/// Whether the seat at position `seat` may hold `card` as far as `state` knows.
pub open spec fn fits_seat(state: State, seat: int, card: Card) -> bool {
    state.players@[seat].may_hold(card)
}

/// Whether the four bags `d` deal out `cards`: together they are `cards`,
/// bag `k` has at most `caps[k]` cards, and each of them fits seat `k`.
pub open spec fn is_deal(state: State, cards: Multiset<Card>, caps: Seq<int>, d: Seq<Multiset<Card>>) -> bool {
    &&& d.len() == 4
    &&& d[0].add(d[1]).add(d[2]).add(d[3]) == cards
    &&& forall|k: int| 0 <= k < 4 ==> (#[trigger] d[k]).len() <= caps[k]
    &&& forall|k: int, c: Card| 0 <= k < 4 && #[trigger] d[k].count(c) > 0 ==> fits_seat(state, k, c)
}

/// Whether `cards` can be dealt out within the capacities.
pub open spec fn solvable(state: State, cards: Multiset<Card>, caps: Seq<int>) -> bool {
    exists|d: Seq<Multiset<Card>>| is_deal(state, cards, caps, d)
}

/// Whether, going through the cards from position `from`, each card is given
/// to a seat that it fits and that still has room, where a card given to a
/// seat takes one unit of its capacity.
pub open spec fn placed(state: State, cards: Seq<Card>, seats: Seq<usize>, caps: Seq<int>, from: int) -> bool
    decreases cards.len() - from,
{
    if from < 0 || from >= cards.len() {
        true
    } else {
        let k = seats[from] as int;
        &&& 0 <= k < 4
        &&& fits_seat(state, k, cards[from])
        &&& caps[k] > 0
        &&& placed(state, cards, seats, caps.update(k, caps[k] - 1), from + 1)
    }
}

/// The capacities as integers.
pub open spec fn caps_view(caps: [u8; 4]) -> Seq<int> {
    Seq::new(4, |k: int| caps@[k] as int)
}

/// Whether row `j` of the table says for each seat whether card `j` fits it.
pub open spec fn table_matches(state: State, cards: Seq<Card>, table: Seq<[bool; 4]>) -> bool {
    &&& table.len() == cards.len()
    &&& forall|j: int, k: int|
        0 <= j < cards.len() && 0 <= k < 4 ==> #[trigger] table[j]@[k] == fits_seat(state, k, cards[j])
}

/// In any deal of a bag that holds `c`, the card lies with a seat that it
/// fits and that has room; without the card, the rest is dealt within one
/// unit less for that seat.
pub proof fn lemma_take_out(state: State, m: Multiset<Card>, c: Card, caps: Seq<int>, d: Seq<Multiset<Card>>)
    requires
        caps.len() == 4,
        m.count(c) > 0,
        is_deal(state, m, caps, d),
    ensures
        exists|k: int|
            0 <= k < 4 && #[trigger] fits_seat(state, k, c) && caps[k] > 0 && d[k].count(c) > 0 && is_deal(
                state,
                m.remove(c),
                caps.update(k, caps[k] - 1),
                d.update(k, d[k].remove(c)),
            ),
{
    broadcast use vstd::multiset::group_multiset_axioms;

    let k = if d[0].count(c) > 0 {
        0int
    } else if d[1].count(c) > 0 {
        1int
    } else if d[2].count(c) > 0 {
        2int
    } else {
        3int
    };
    assert(d[k].count(c) > 0);
    let e = d.update(k, d[k].remove(c));
    let caps2 = caps.update(k, caps[k] - 1);
    assert(d[k].len() >= 1);
    assert(e[0].add(e[1]).add(e[2]).add(e[3]) =~= m.remove(c));
    assert forall|j: int, x: Card| 0 <= j < 4 && #[trigger] e[j].count(x) > 0 implies fits_seat(state, j, x) by {
        assert(d[j].count(x) > 0);
    }
    assert forall|j: int| 0 <= j < 4 implies (#[trigger] e[j]).len() <= caps2[j] by {
        if j == k {
            assert(Multiset::singleton(c).len() == 1);
            assert(Multiset::singleton(c).subset_of(d[k]));
        }
    }
    assert(is_deal(state, m.remove(c), caps2, e));
    assert(fits_seat(state, k, c));
}

/// Whether seat `a` comes before seat `b` when seats are tried: the seat
/// that fewer cards fit comes first, and of two such the earlier seat.
pub open spec fn tried_before(freedom: Seq<usize>, a: int, b: int) -> bool {
    freedom[a] < freedom[b] || (freedom[a] == freedom[b] && a < b)
}

/// The number of seats that are tried before seat `k`.
pub open spec fn rank_of(freedom: Seq<usize>, k: int) -> int {
    (if tried_before(freedom, 0, k) {
        1int
    } else {
        0
    }) + (if tried_before(freedom, 1, k) {
        1int
    } else {
        0
    }) + (if tried_before(freedom, 2, k) {
        1int
    } else {
        0
    }) + (if tried_before(freedom, 3, k) {
        1int
    } else {
        0
    })
}

fn seat_rank(freedom: &[usize; 4], k: usize) -> (r: usize)
    requires
        k < 4,
    ensures
        r == rank_of(freedom@, k as int),
        r < 4,
{
    let mut r: usize = 0;
    if freedom[0] < freedom[k] || (freedom[0] == freedom[k] && 0 < k) {
        r += 1;
    }
    if freedom[1] < freedom[k] || (freedom[1] == freedom[k] && 1 < k) {
        r += 1;
    }
    if freedom[2] < freedom[k] || (freedom[2] == freedom[k] && 2 < k) {
        r += 1;
    }
    if freedom[3] < freedom[k] || (freedom[3] == freedom[k] && 3 < k) {
        r += 1;
    }
    r
}

/// The order in which the seats are tried: most constrained first.
pub fn seat_order(freedom: &[usize; 4]) -> (order: [usize; 4])
    ensures
        forall|k: int| 0 <= k < 4 ==> 0 <= rank_of(freedom@, k) < 4 && order@[rank_of(freedom@, k)] == k,
        forall|u: int| 0 <= u < 4 ==> #[trigger] order@[u] < 4,
{
    let mut order: [usize; 4] = [0, 0, 0, 0];
    order[seat_rank(freedom, 0)] = 0;
    order[seat_rank(freedom, 1)] = 1;
    order[seat_rank(freedom, 2)] = 2;
    order[seat_rank(freedom, 3)] = 3;
    order
}

/// The number of cards from position `from` on that fit seat `k`.
pub open spec fn free_count(table: Seq<[bool; 4]>, k: int, from: int) -> nat
    decreases table.len() - from,
{
    if from < 0 || from >= table.len() {
        0
    } else {
        (if table[from]@[k] {
            1nat
        } else {
            0nat
        }) + free_count(table, k, from + 1)
    }
}

/// The counts for the four seats.
pub open spec fn seat_order_freedom(table: Seq<[bool; 4]>, from: int) -> Seq<usize> {
    Seq::new(4, |k: int| free_count(table, k, from) as usize)
}

/// Counts, for each seat, the cards from position `from` on that fit it.
pub fn freedoms(table: &Vec<[bool; 4]>, from: usize) -> (r: [usize; 4])
    requires
        from <= table@.len(),
    ensures
        forall|k: int| 0 <= k < 4 ==> #[trigger] r@[k] == free_count(table@, k, from as int),
        r@ == seat_order_freedom(table@, from as int),
{
    let mut counts: [usize; 4] = [0, 0, 0, 0];
    let n: usize = table.len();
    let mut j: usize = n;
    while j > from
        invariant
            n == table@.len(),
            from <= j <= table@.len(),
            forall|k: int| 0 <= k < 4 ==> #[trigger] counts@[k] == free_count(table@, k, j as int),
            forall|k: int| 0 <= k < 4 ==> #[trigger] counts@[k] <= table@.len() - j,
        decreases j,
    {
        j -= 1;
        let row = table[j];
        let mut k: usize = 0;
        while k < 4
            invariant
                k <= 4,
                n == table@.len(),
                j < table@.len(),
                row == table@[j as int],
                forall|s: int| 0 <= s < k ==> #[trigger] counts@[s] == free_count(table@, s, j as int),
                forall|s: int| k <= s < 4 ==> #[trigger] counts@[s] == free_count(table@, s, j + 1),
                forall|s: int| 0 <= s < k ==> #[trigger] counts@[s] <= table@.len() - j,
                forall|s: int| k <= s < 4 ==> #[trigger] counts@[s] <= table@.len() - j - 1,
            decreases 4 - k,
        {
            assert(counts@[k as int] <= table@.len() - j - 1);
            if row[k] {
                counts[k] = counts[k] + 1;
            }
            k += 1;
        }
    }
    assert(counts@ =~= seat_order_freedom(table@, from as int));
    counts
}

/// Whether the seat of the card is settled: at most one seat fits it.
pub open spec fn is_forced(state: State, card: Card) -> bool {
    (if fits_seat(state, 0, card) {
        1int
    } else {
        0
    }) + (if fits_seat(state, 1, card) {
        1int
    } else {
        0
    }) + (if fits_seat(state, 2, card) {
        1int
    } else {
        0
    }) + (if fits_seat(state, 3, card) {
        1int
    } else {
        0
    }) <= 1
}

/// Whether the first `n` cards are those that at most one seat can hold.
pub open spec fn forced_in_front(state: State, cards: Seq<Card>, n: int) -> bool {
    &&& 0 <= n <= cards.len()
    &&& forall|j: int| 0 <= j < n ==> is_forced(state, #[trigger] cards[j])
    &&& forall|j: int| n <= j < cards.len() ==> !is_forced(state, #[trigger] cards[j])
}

/// The cards of four hands.
pub open spec fn views(hands: Seq<Vec<Card>>) -> Seq<Seq<Card>> {
    Seq::new(4, |k: int| hands[k]@)
}

/// Four hands together, as a bag of cards.
pub open spec fn bag_of_four(hands: Seq<Seq<Card>>) -> Multiset<Card> {
    hands[0].to_multiset().add(hands[1].to_multiset()).add(hands[2].to_multiset()).add(
        hands[3].to_multiset(),
    )
}

/// The capacity left to each seat: its hand size less the cards it has.
pub open spec fn room(state: State, hands: Seq<Seq<Card>>) -> Seq<int> {
    Seq::new(4, |k: int| state.hand_sizes@[k] - hands[k].len())
}

/// Whether `out` is `before` with `cards` dealt out: nothing is lost or
/// added, each hand keeps its cards in front, each card dealt to a seat
/// fits it, and no hand exceeds its size.
pub open spec fn dealt_out(state: State, before: Seq<Seq<Card>>, cards: Multiset<Card>, out: Seq<Vec<Card>>) -> bool {
    &&& out.len() == 4
    &&& hands_bag(out) == bag_of_four(before).add(cards)
    &&& forall|k: int|
        0 <= k < 4 ==> {
            &&& before[k].len() <= (#[trigger] out[k])@.len() <= state.hand_sizes@[k]
            &&& out[k]@.take(before[k].len() as int) == before[k]
            &&& forall|i: int| before[k].len() <= i < out[k]@.len() ==> fits_seat(state, k, #[trigger] out[k]@[i])
        }
}

/// Where the bounds rule a suit out for every seat but one, no card of that
/// suit is dealt to another seat: all that are dealt go to that one.
pub proof fn lemma_excluded_suit_goes_to_one_seat(
    state: State,
    before: Seq<Seq<Card>>,
    cards: Multiset<Card>,
    out: Seq<Vec<Card>>,
    suit: crate::cards::Suit,
    seat: int,
)
    requires
        dealt_out(state, before, cards, out),
        0 <= seat < 4,
        forall|k: int|
            0 <= k < 4 && k != seat ==> (#[trigger] state.players@[k]).highest_possible@[suit.index_spec()].is_none(),
    ensures
        forall|k: int, i: int|
            0 <= k < 4 && k != seat && before[k].len() <= i < out[k]@.len() ==> (#[trigger] out[k]@[i]).0 != suit,
{
    assert forall|k: int, i: int| 0 <= k < 4 && k != seat && before[k].len() <= i < out[k]@.len() implies (
    #[trigger] out[k]@[i]).0 != suit by {
        assert(fits_seat(state, k, out[k]@[i]));
        assert(state.players@[k].highest_possible@[suit.index_spec()].is_none());
    }
}

/// Whether `out` is `before` filled up by drawing from `cards`: each hand
/// keeps its cards in front and is as large as its size asks, unless it was
/// larger already; each card drawn for a seat fits it; and no card is there
/// that was not in a hand or among `cards`.
pub open spec fn drawn_out(state: State, before: Seq<Seq<Card>>, cards: Multiset<Card>, out: Seq<Vec<Card>>) -> bool {
    &&& out.len() == 4
    &&& hands_bag(out).subset_of(bag_of_four(before).add(cards))
    &&& forall|k: int|
        0 <= k < 4 ==> {
            &&& (#[trigger] out[k])@.len() == if before[k].len() < state.hand_sizes@[k] {
                state.hand_sizes@[k] as int
            } else {
                before[k].len() as int
            }
            &&& out[k]@.take(before[k].len() as int) == before[k]
            &&& forall|i: int| before[k].len() <= i < out[k]@.len() ==> fits_seat(state, k, #[trigger] out[k]@[i])
        }
}

/// The cards that the observer has seen: those played and those known to
/// be in a hand.
pub open spec fn seen(state: State) -> Multiset<Card> {
    state.played_cards@.to_multiset().add(
        bag_of_four(Seq::new(4, |k: int| state.players@[k].known_cards@)),
    )
}

/// The cards of the deck that the observer has not seen.
pub open spec fn unseen(state: State) -> Multiset<Card> {
    crate::cards::full_deck().sub(seen(state))
}

/// Taking out the first occurrence of a card takes one copy out of the bag.
pub proof fn lemma_without_first_bag(cards: Seq<Card>, card: Card)
    ensures
        crate::belief::without_first(cards, card).to_multiset() == cards.to_multiset().remove(card),
{
    broadcast use vstd::multiset::group_multiset_axioms;

    cards.index_of_first_ensures(card);
    vstd::seq_lib::to_multiset_contains(cards, card);
    match cards.index_of_first(card) {
        Some(i) => {
            vstd::seq_lib::to_multiset_remove(cards, i);
        },
        None => {
            assert(cards.to_multiset().remove(card) =~= cards.to_multiset());
        },
    }
}

/// Takes one copy of each of the cards in `known` out of `cards`, as far as
/// `cards` has one.
fn gone_through(cards: &mut Vec<Card>, known: &Vec<Card>, Ghost(gone): Ghost<Multiset<Card>>)
    requires
        old(cards)@.to_multiset() == crate::cards::full_deck().sub(gone),
    ensures
        final(cards)@.to_multiset() == crate::cards::full_deck().sub(gone.add(known@.to_multiset())),
{
    let mut i: usize = 0;
    proof {
        lemma_empty_bag(known@.take(0));
        assert(gone.add(known@.take(0).to_multiset()) =~= gone);
    }
    while i < known.len()
        invariant
            i <= known@.len(),
            cards@.to_multiset() == crate::cards::full_deck().sub(gone.add(known@.take(i as int).to_multiset())),
        decreases known@.len() - i,
    {
        let ghost before = cards@;
        crate::belief::remove_first(cards, known[i]);
        proof {
            lemma_without_first_bag(before, known@[i as int]);
            assert(known@.take(i + 1) =~= known@.take(i as int).push(known@[i as int]));
            vstd::seq_lib::to_multiset_build(known@.take(i as int), known@[i as int]);
            assert(cards@.to_multiset() =~= crate::cards::full_deck().sub(
                gone.add(known@.take(i + 1).to_multiset()),
            ));
        }
        i += 1;
    }
    proof {
        assert(known@.take(known@.len() as int) =~= known@);
    }
}

impl State {
    /// For each seat, whether it may hold the card.
    pub fn candidacy(&self, card: Card) -> (mask: [bool; 4])
        ensures
            forall|k: int| 0 <= k < 4 ==> #[trigger] mask@[k] == fits_seat(*self, k, card),
    {
        [
            self.players[0].could_have_card(card),
            self.players[1].could_have_card(card),
            self.players[2].could_have_card(card),
            self.players[3].could_have_card(card),
        ]
    }

    /// The candidacy of each card.
    pub fn candidacy_table(&self, cards: &Vec<Card>) -> (table: Vec<[bool; 4]>)
        ensures
            table_matches(*self, cards@, table@),
    {
        let mut table: Vec<[bool; 4]> = Vec::new();
        let mut j: usize = 0;
        while j < cards.len()
            invariant
                j <= cards@.len(),
                table_matches(*self, cards@.take(j as int), table@),
            decreases cards@.len() - j,
        {
            table.push(self.candidacy(cards[j]));
            j += 1;
        }
        assert(cards@.take(cards@.len() as int) =~= cards@);
        table
    }

    /// Puts the cards that at most one seat can hold in front of the others.
    pub fn forced_first(&self, cards: &Vec<Card>) -> (r: Vec<Card>)
        ensures
            r@.to_multiset() == cards@.to_multiset(),
            exists|n: int| #[trigger] forced_in_front(*self, r@, n),
    {
        let mut forced: Vec<Card> = Vec::new();
        let mut free: Vec<Card> = Vec::new();
        let mut j: usize = 0;
        proof {
            lemma_empty_bag(forced@);
            lemma_empty_bag(free@);
            lemma_empty_bag(cards@.take(0));
            assert(forced@.to_multiset().add(free@.to_multiset()) =~= cards@.take(0).to_multiset());
        }
        while j < cards.len()
            invariant
                j <= cards@.len(),
                forced@.to_multiset().add(free@.to_multiset()) == cards@.take(j as int).to_multiset(),
                forall|i: int| 0 <= i < forced@.len() ==> is_forced(*self, #[trigger] forced@[i]),
                forall|i: int| 0 <= i < free@.len() ==> !is_forced(*self, #[trigger] free@[i]),
            decreases cards@.len() - j,
        {
            let card = cards[j];
            let mask = self.candidacy(card);
            let mut n: u8 = 0;
            if mask[0] {
                n += 1;
            }
            if mask[1] {
                n += 1;
            }
            if mask[2] {
                n += 1;
            }
            if mask[3] {
                n += 1;
            }
            proof {
                assert(cards@.take(j + 1) =~= cards@.take(j as int).push(card));
                vstd::seq_lib::to_multiset_build(cards@.take(j as int), card);
                vstd::seq_lib::to_multiset_build(forced@, card);
                vstd::seq_lib::to_multiset_build(free@, card);
            }
            let ghost f0 = forced@;
            let ghost g0 = free@;
            if n <= 1 {
                forced.push(card);
                assert(forced@.to_multiset().add(free@.to_multiset()) =~= f0.to_multiset().add(
                    g0.to_multiset(),
                ).insert(card));
            } else {
                free.push(card);
                assert(forced@.to_multiset().add(free@.to_multiset()) =~= f0.to_multiset().add(
                    g0.to_multiset(),
                ).insert(card));
            }
            j += 1;
        }
        let ghost n = forced@.len() as int;
        let ghost f0 = forced@;
        let ghost g0 = free@;
        forced.append(&mut free);
        proof {
            assert(cards@.take(cards@.len() as int) =~= cards@);
            vstd::seq_lib::lemma_multiset_commutative(f0, g0);
            assert(forall|j: int| 0 <= j < n ==> forced@[j] == f0[j]);
            assert(forall|j: int| n <= j < forced@.len() ==> forced@[j] == g0[j - n]);
            assert(forced_in_front(*self, forced@, n));
        }
        forced
    }

    /// Looks for a seat for each card from position `from` on, within the
    /// capacities, trying the seats that fewer of the cards fit first.
    pub fn search(&self, cards: &Vec<Card>, table: &Vec<[bool; 4]>, from: usize, caps: [u8; 4], seats: &mut Vec<usize>) -> (found: bool)
        requires
            table_matches(*self, cards@, table@),
            from <= cards@.len(),
            old(seats)@.len() == cards@.len(),
        ensures
            final(seats)@.len() == cards@.len(),
            forall|j: int| 0 <= j < from ==> final(seats)@[j] == old(seats)@[j],
            found ==> placed(*self, cards@, final(seats)@, caps_view(caps), from as int),
            !found ==> !solvable(*self, cards@.skip(from as int).to_multiset(), caps_view(caps)),
        decreases cards@.len() - from,
    {
        if from == cards.len() {
            return true;
        }
        let order = seat_order(&freedoms(table, from));
        let ghost rest = cards@.skip(from + 1).to_multiset();
        let mut t: usize = 0;
        while t < 4
            invariant
                t <= 4,
                from < cards.len(),
                table_matches(*self, cards@, table@),
                seats@.len() == cards@.len(),
                rest == cards@.skip(from + 1).to_multiset(),
                forall|u: int| 0 <= u < 4 ==> #[trigger] order@[u] < 4,
                forall|j: int| 0 <= j < from ==> seats@[j] == old(seats)@[j],
                forall|u: int|
                    0 <= u < t ==> !(fits_seat(*self, #[trigger] order@[u] as int, cards@[from as int])
                        && caps@[order@[u] as int] > 0 && solvable(
                        *self,
                        rest,
                        caps_view(caps).update(order@[u] as int, caps@[order@[u] as int] - 1),
                    )),
            decreases 4 - t,
        {
            let k = order[t];
            if caps[k] > 0 && table[from][k] {
                let mut next = caps;
                next[k] = caps[k] - 1;
                seats[from] = k;
                proof {
                    assert(caps_view(next) =~= caps_view(caps).update(k as int, caps@[k as int] - 1));
                }
                if self.search(cards, table, from + 1, next, seats) {
                    return true;
                }
            }
            t += 1;
        }
        proof {
            let s = cards@.skip(from as int);
            let c = cards@[from as int];
            assert(s.drop_first() =~= cards@.skip(from + 1));
            assert(s[0] == c);
            assert forall|d: Seq<Multiset<Card>>| !is_deal(*self, s.to_multiset(), caps_view(caps), d) by {
                if is_deal(*self, s.to_multiset(), caps_view(caps), d) {
                    vstd::seq_lib::to_multiset_contains(s, c);
                    assert(s.contains(c));
                    lemma_take_out(*self, s.to_multiset(), c, caps_view(caps), d);
                    let k = choose|k: int|
                        0 <= k < 4 && #[trigger] fits_seat(*self, k, c) && caps_view(caps)[k] > 0 && d[k].count(c)
                            > 0 && is_deal(
                            *self,
                            s.to_multiset().remove(c),
                            caps_view(caps).update(k, caps_view(caps)[k] - 1),
                            d.update(k, d[k].remove(c)),
                        );
                    vstd::seq_lib::to_multiset_remove(s, 0);
                    assert(s.remove(0) =~= s.drop_first());
                    let seen = seat_order_freedom(table@, from as int);
                    let u = rank_of(seen, k);
                    assert(order@[u] == k);
                    assert(solvable(*self, rest, caps_view(caps).update(k, caps@[k] - 1)));
                }
            }
        }
        false
    }

    /// Deals the cards to the hands, given in an order chosen by the
    /// caller: `None` exactly if no deal within the hand sizes exists.
    pub fn solve(&self, cards: Vec<Card>, res: [Vec<Card>; 4]) -> (r: Option<[Vec<Card>; 4]>)
        ensures
            match r {
                Some(out) => dealt_out(*self, views(res@), cards@.to_multiset(), out@),
                None => !solvable(*self, cards@.to_multiset(), room(*self, views(res@))),
            },
    {
        let mut caps: [u8; 4] = [0, 0, 0, 0];
        let mut k: usize = 0;
        while k < 4
            invariant
                k <= 4,
                forall|s: int| 0 <= s < k ==> #[trigger] caps@[s] == self.hand_sizes@[s] - res@[s]@.len(),
            decreases 4 - k,
        {
            if res[k].len() > self.hand_sizes[k] as usize {
                proof {
                    let caps0 = room(*self, views(res@));
                    assert forall|d: Seq<Multiset<Card>>| !is_deal(*self, cards@.to_multiset(), caps0, d) by {
                        if is_deal(*self, cards@.to_multiset(), caps0, d) {
                            assert(d[k as int].len() <= caps0[k as int]);
                        }
                    }
                }
                return None;
            }
            caps[k] = self.hand_sizes[k] - (res[k].len() as u8);
            k += 1;
        }
        let ordered = self.forced_first(&cards);
        let table = self.candidacy_table(&ordered);
        let mut seats: Vec<usize> = Vec::new();
        let mut j: usize = 0;
        while j < ordered.len()
            invariant
                seats@.len() == j,
                j <= ordered@.len(),
            decreases ordered@.len() - j,
        {
            seats.push(0);
            j += 1;
        }
        proof {
            assert(caps_view(caps) =~= room(*self, views(res@)));
            assert(ordered@.skip(0) =~= ordered@);
        }
        if !self.search(&ordered, &table, 0, caps, &mut seats) {
            return None;
        }
        let mut out = res;
        let ghost left = caps_view(caps);
        let mut j: usize = 0;
        proof {
            lemma_empty_bag(ordered@.take(0));
            assert(hands_bag(out@) =~= bag_of_four(views(res@)).add(ordered@.take(0).to_multiset()));
        }
        while j < ordered.len()
            invariant
                j <= ordered@.len(),
                seats@.len() == ordered@.len(),
                left.len() == 4,
                placed(*self, ordered@, seats@, left, j as int),
                hands_bag(out@) == bag_of_four(views(res@)).add(ordered@.take(j as int).to_multiset()),
                forall|k: int|
                    0 <= k < 4 ==> {
                        &&& left[k] >= 0
                        &&& (#[trigger] out@[k])@.len() + left[k] == self.hand_sizes@[k]
                        &&& res@[k]@.len() <= out@[k]@.len()
                        &&& out@[k]@.take(res@[k]@.len() as int) == res@[k]@
                        &&& forall|i: int|
                            res@[k]@.len() <= i < out@[k]@.len() ==> fits_seat(*self, k, #[trigger] out@[k]@[i])
                    },
            decreases ordered@.len() - j,
        {
            let seat = seats[j];
            let card = ordered[j];
            let ghost before = out@;
            out[seat].push(card);
            proof {
                left = left.update(seat as int, left[seat as int] - 1);
                assert(ordered@.take(j + 1) =~= ordered@.take(j as int).push(card));
                vstd::seq_lib::to_multiset_build(ordered@.take(j as int), card);
                vstd::seq_lib::to_multiset_build(before[seat as int]@, card);
                assert(hands_bag(out@) =~= hands_bag(before).insert(card));
                assert forall|k: int| 0 <= k < 4 implies {
                    &&& left[k] >= 0
                    &&& (#[trigger] out@[k])@.len() + left[k] == self.hand_sizes@[k]
                    &&& res@[k]@.len() <= out@[k]@.len()
                    &&& out@[k]@.take(res@[k]@.len() as int) == res@[k]@
                    &&& forall|i: int|
                        res@[k]@.len() <= i < out@[k]@.len() ==> fits_seat(*self, k, #[trigger] out@[k]@[i])
                } by {
                    if k == seat {
                        assert(out@[k]@.take(res@[k]@.len() as int) =~= before[k]@.take(res@[k]@.len() as int));
                    } else {
                        assert(out@[k] == before[k]);
                    }
                }
            }
            j += 1;
        }
        proof {
            assert(ordered@.take(ordered@.len() as int) =~= ordered@);
        }
        Some(out)
    }

    /// Deals the unknown cards to the hands in `res`, at random among the
    /// deals that the hand sizes and the bounds allow: `None` exactly if
    /// there is none.
    pub fn calculate_solution(&self, unknown_cards: Vec<Card>, res: [Vec<Card>; 4], rng: &mut StdRng) -> (r: Option<
        [Vec<Card>; 4],
    >)
        ensures
            match r {
                Some(out) => dealt_out(*self, views(res@), unknown_cards@.to_multiset(), out@),
                None => !solvable(*self, unknown_cards@.to_multiset(), room(*self, views(res@))),
            },
    {
        let mut unknown_cards = unknown_cards;
        shuffle_cards(&mut unknown_cards, rng);
        self.solve(unknown_cards, res)
    }

    /// Deals a full set of hands that agrees with all that the observer
    /// knows: the known cards stay where they are, and the unseen cards of
    /// the deck are dealt around them. `None` exactly if no such deal exists.
    pub fn produce_candidate_hands(&self, rng: &mut StdRng) -> (r: Option<[Vec<Card>; 4]>)
        ensures
            match r {
                Some(out) => dealt_out(
                    *self,
                    Seq::new(4, |k: int| self.players@[k].known_cards@),
                    unseen(*self),
                    out@,
                ),
                None => !solvable(
                    *self,
                    unseen(*self),
                    room(*self, Seq::new(4, |k: int| self.players@[k].known_cards@)),
                ),
            },
    {
        let res = [
            crate::cards::copy_cards(&self.players[0].known_cards),
            crate::cards::copy_cards(&self.players[1].known_cards),
            crate::cards::copy_cards(&self.players[2].known_cards),
            crate::cards::copy_cards(&self.players[3].known_cards),
        ];
        let mut unknown_cards = crate::cards::deck();
        let ghost mut gone = Multiset::<Card>::empty();
        proof {
            assert(unknown_cards@.to_multiset() =~= crate::cards::full_deck().sub(gone));
        }
        gone_through(&mut unknown_cards, &self.played_cards, Ghost(gone));
        proof {
            gone = gone.add(self.played_cards@.to_multiset());
        }
        let mut k: usize = 0;
        while k < 4
            invariant
                k <= 4,
                unknown_cards@.to_multiset() == crate::cards::full_deck().sub(gone),
                gone == self.played_cards@.to_multiset().add(
                    if k == 0 {
                        Multiset::empty()
                    } else if k == 1 {
                        self.players@[0].known_cards@.to_multiset()
                    } else if k == 2 {
                        self.players@[0].known_cards@.to_multiset().add(
                            self.players@[1].known_cards@.to_multiset(),
                        )
                    } else if k == 3 {
                        self.players@[0].known_cards@.to_multiset().add(
                            self.players@[1].known_cards@.to_multiset(),
                        ).add(self.players@[2].known_cards@.to_multiset())
                    } else {
                        bag_of_four(Seq::new(4, |k: int| self.players@[k].known_cards@))
                    },
                ),
            decreases 4 - k,
        {
            gone_through(&mut unknown_cards, &self.players[k].known_cards, Ghost(gone));
            proof {
                gone = gone.add(self.players@[k as int].known_cards@.to_multiset());
                assert(gone =~= self.played_cards@.to_multiset().add(
                    if k + 1 == 1 {
                        self.players@[0].known_cards@.to_multiset()
                    } else if k + 1 == 2 {
                        self.players@[0].known_cards@.to_multiset().add(
                            self.players@[1].known_cards@.to_multiset(),
                        )
                    } else if k + 1 == 3 {
                        self.players@[0].known_cards@.to_multiset().add(
                            self.players@[1].known_cards@.to_multiset(),
                        ).add(self.players@[2].known_cards@.to_multiset())
                    } else {
                        bag_of_four(Seq::new(4, |k: int| self.players@[k].known_cards@))
                    },
                ));
            }
            k += 1;
        }
        proof {
            assert(views(res@) =~= Seq::new(4, |k: int| self.players@[k].known_cards@));
        }
        self.calculate_solution(unknown_cards, res, rng)
    }

    /// Deals by drawing: each seat in turn draws from the shuffled cards
    /// until its hand is full, putting aside the cards that it cannot hold;
    /// those go back for the next seats. There is no deal if the cards run
    /// out; a seat whose hand is full draws nothing.
    pub fn random_solution(&self, unknown_cards: Vec<Card>, res: [Vec<Card>; 4], rng: &mut StdRng) -> (r: Option<
        [Vec<Card>; 4],
    >)
        ensures
            match r {
                Some(out) => drawn_out(*self, views(res@), unknown_cards@.to_multiset(), out@),
                None => exists|k: int| 0 <= k < 4 && res@[k]@.len() < self.hand_sizes@[k],
            },
    {
        let mut unknown = unknown_cards;
        shuffle_cards(&mut unknown, rng);
        let ghost total = bag_of_four(views(res@)).add(unknown_cards@.to_multiset());
        let mut out = res;
        let mut i: usize = 0;
        proof {
            assert(hands_bag(out@).add(unknown@.to_multiset()) =~= total);
        }
        while i < 4
            invariant
                i <= 4,
                hands_bag(out@).add(unknown@.to_multiset()) == total,
                forall|k: int| i <= k < 4 ==> #[trigger] out@[k] == res@[k],
                forall|k: int|
                    0 <= k < 4 ==> {
                        &&& res@[k]@.len() <= (#[trigger] out@[k])@.len()
                        &&& out@[k]@.take(res@[k]@.len() as int) == res@[k]@
                        &&& forall|j: int|
                            res@[k]@.len() <= j < out@[k]@.len() ==> fits_seat(*self, k, #[trigger] out@[k]@[j])
                    },
                forall|k: int|
                    0 <= k < i ==> (#[trigger] out@[k])@.len() == if res@[k]@.len() < self.hand_sizes@[k] {
                        self.hand_sizes@[k] as int
                    } else {
                        res@[k]@.len() as int
                    },
            decreases 4 - i,
        {
            let mut cant_have: Vec<Card> = Vec::new();
            proof {
                lemma_empty_bag(cant_have@);
                assert(hands_bag(out@).add(unknown@.to_multiset()).add(cant_have@.to_multiset()) =~= total);
            }
            while out[i].len() < self.hand_sizes[i] as usize
                invariant
                    i < 4,
                    hands_bag(out@).add(unknown@.to_multiset()).add(cant_have@.to_multiset()) == total,
                    forall|k: int| i < k < 4 ==> #[trigger] out@[k] == res@[k],
                    res@[i as int]@.len() < self.hand_sizes@[i as int] || out@[i as int] == res@[i as int],
                    out@[i as int]@.len() <= self.hand_sizes@[i as int] || out@[i as int] == res@[i as int],
                    forall|k: int|
                        0 <= k < 4 ==> {
                            &&& res@[k]@.len() <= (#[trigger] out@[k])@.len()
                            &&& out@[k]@.take(res@[k]@.len() as int) == res@[k]@
                            &&& forall|j: int|
                                res@[k]@.len() <= j < out@[k]@.len() ==> fits_seat(*self, k, #[trigger] out@[k]@[j])
                        },
                    forall|k: int|
                        0 <= k < i ==> (#[trigger] out@[k])@.len() == if res@[k]@.len() < self.hand_sizes@[k] {
                            self.hand_sizes@[k] as int
                        } else {
                            res@[k]@.len() as int
                        },
                decreases unknown@.len(),
            {
                let ghost hands0 = out@;
                let ghost deck0 = unknown@;
                let ghost aside0 = cant_have@;
                let candidate = match unknown.pop() {
                    Some(c) => c,
                    None => {
                        return None;
                    },
                };
                proof {
                    assert(deck0 =~= unknown@.push(candidate));
                    vstd::seq_lib::to_multiset_build(unknown@, candidate);
                    vstd::seq_lib::to_multiset_build(aside0, candidate);
                    vstd::seq_lib::to_multiset_build(hands0[i as int]@, candidate);
                }
                if self.players[i].could_have_card(candidate) {
                    out[i].push(candidate);
                    proof {
                        assert(hands_bag(out@) =~= hands_bag(hands0).insert(candidate));
                        assert(hands_bag(out@).add(unknown@.to_multiset()).add(cant_have@.to_multiset()) =~= total);
                        assert forall|k: int| 0 <= k < 4 implies {
                            &&& res@[k]@.len() <= (#[trigger] out@[k])@.len()
                            &&& out@[k]@.take(res@[k]@.len() as int) == res@[k]@
                            &&& forall|j: int|
                                res@[k]@.len() <= j < out@[k]@.len() ==> fits_seat(*self, k, #[trigger] out@[k]@[j])
                        } by {
                            if k == i {
                                assert(out@[k]@.take(res@[k]@.len() as int) =~= hands0[k]@.take(
                                    res@[k]@.len() as int,
                                ));
                            } else {
                                assert(out@[k] == hands0[k]);
                            }
                        }
                        assert forall|k: int| 0 <= k < i implies (#[trigger] out@[k])@.len() == if res@[k]@.len()
                            < self.hand_sizes@[k] {
                            self.hand_sizes@[k] as int
                        } else {
                            res@[k]@.len() as int
                        } by {
                            assert(out@[k] == hands0[k]);
                        }
                    }
                } else {
                    cant_have.push(candidate);
                    proof {
                        assert(hands_bag(out@).add(unknown@.to_multiset()).add(cant_have@.to_multiset()) =~= total);
                    }
                }
            }
            if cant_have.len() > 0 {
                let ghost deck0 = unknown@;
                let ghost aside0 = cant_have@;
                unknown.append(&mut cant_have);
                proof {
                    vstd::seq_lib::lemma_multiset_commutative(deck0, aside0);
                }
                if i < 2 {
                    shuffle_cards(&mut unknown, rng);
                }
            } else {
                proof {
                    lemma_empty_bag(cant_have@);
                    assert(hands_bag(out@).add(unknown@.to_multiset()) =~= total);
                }
            }
            i += 1;
        }
        proof {
            broadcast use vstd::multiset::group_multiset_axioms;

            assert(hands_bag(out@).subset_of(total));
            assert(views(res@)[0] == res@[0]@);
        }
        Some(out)
    }
}

} // verus!
