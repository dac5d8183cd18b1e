use crate::belief::{remove_first, without_first, State};
use crate::cards::{copy_cards, seat_at, Card, Player, Suit};
use crate::grouping::{group_scores, grouped, lemma_scores_of, scores_of};
use crate::play::PlayingPhase;
use crate::rules::{holds_stronger, is_legal_spec};
use crate::shuffle::{entropy_rng, shuffle_cards};
use crate::solver::{bag_of_four, room, solvable, unseen};
use rand::rngs::StdRng;
use vstd::prelude::*;

verus! {

/// The number of trials of a recommendation unless the caller says otherwise.
pub const DEFAULT_TRIALS: u32 = 30000;

/// The most trials that a recommendation can run.
pub const TRIAL_LIMIT: u32 = 1000000;

/// No trial scores beyond this, above or below.
pub const SCORE_LIMIT: i64 = 4294967296;

/// Legality looks at a hand only as a bag of cards.
pub proof fn lemma_legal_in_any_order(pile: Seq<Card>, a: Seq<Card>, b: Seq<Card>, card: Card, trump: Suit)
    requires
        a.to_multiset() == b.to_multiset(),
    ensures
        is_legal_spec(pile, a, card, trump) == is_legal_spec(pile, b, card, trump),
{
    assert forall|suit: Suit, bound: int| holds_stronger(a, suit, bound) == holds_stronger(b, suit, bound) by {
        lemma_holds_in_any_order(a, b, suit, bound);
        lemma_holds_in_any_order(b, a, suit, bound);
    }
}

proof fn lemma_holds_in_any_order(a: Seq<Card>, b: Seq<Card>, suit: Suit, bound: int)
    requires
        a.to_multiset() == b.to_multiset(),
    ensures
        holds_stronger(a, suit, bound) ==> holds_stronger(b, suit, bound),
{
    if holds_stronger(a, suit, bound) {
        let i = choose|i: int| 0 <= i < a.len() && #[trigger] a[i].0 == suit && a[i].1.strength_spec() > bound;
        vstd::seq_lib::to_multiset_contains(a, a[i]);
        vstd::seq_lib::to_multiset_contains(b, a[i]);
        assert(a.contains(a[i]));
        let j = choose|j: int| 0 <= j < b.len() && b[j] == a[i];
        assert(b[j].0 == suit);
    }
}

/// The number of cards in four hands.
pub open spec fn total_cards(hands: Seq<Vec<Card>>) -> nat {
    hands[0]@.len() + hands[1]@.len() + hands[2]@.len() + hands[3]@.len()
}

/// Whether position `i` holds the first card of the hand that is legal to
/// play onto the trick.
pub open spec fn first_legal(pile: Seq<Card>, hand: Seq<Card>, trump: Suit, i: int) -> bool {
    &&& 0 <= i < hand.len()
    &&& is_legal_spec(pile, hand, hand[i], trump)
    &&& forall|j: int| 0 <= j < i ==> !is_legal_spec(pile, hand, #[trigger] hand[j], trump)
}

/// One turn of a simulated round: the seat whose turn it is plays the first
/// card of its hand that is legal. Nothing happens if it has none.
pub fn step(phase: &mut PlayingPhase, current_player: &mut Player, hands: &mut [Vec<Card>; 4]) -> (r: Option<
    (Card, Option<(i32, i32)>),
>)
    requires
        old(phase).wf(),
        total_cards(old(hands)@) + old(phase).cards_held() <= 48,
    ensures
        final(phase).wf(),
        r.is_none() <==> old(hands)@[old(current_player).index_spec()]@.len() == 0,
        match r {
            None => {
                &&& *final(phase) == *old(phase)
                &&& *final(hands) == *old(hands)
                &&& *final(current_player) == *old(current_player)
                &&& forall|j: int|
                    0 <= j < old(hands)@[old(current_player).index_spec()]@.len() ==> !is_legal_spec(
                        old(phase).trick.cards@,
                        old(hands)@[old(current_player).index_spec()]@,
                        #[trigger] old(hands)@[old(current_player).index_spec()]@[j],
                        old(phase).trump,
                    )
            },
            Some((card, scores)) => {
                let seat = old(current_player).index_spec();
                let hand = old(hands)@[seat]@;
                &&& exists|i: int|
                    #[trigger] first_legal(old(phase).trick.cards@, hand, old(phase).trump, i) && card == hand[i]
                        && final(hands)@[seat]@ == hand.remove(i)
                &&& forall|k: int| 0 <= k < 4 && k != seat ==> final(hands)@[k] == old(hands)@[k]
                &&& old(phase).play_result(
                    *old(current_player),
                    hand,
                    card,
                    *final(phase),
                    *final(current_player),
                    scores,
                )
                &&& total_cards(final(hands)@) + final(phase).cards_held() == total_cards(old(hands)@) + old(
                    phase,
                ).cards_held()
            },
        },
{
    let cur = *current_player;
    let seat = cur.index();
    let mut i: usize = 0;
    while i < hands[seat].len()
        invariant
            i <= hands@[seat as int]@.len(),
            seat == cur.index_spec(),
            cur == *old(current_player),
            *current_player == *old(current_player),
            *phase == *old(phase),
            *hands == *old(hands),
            phase.wf(),
            total_cards(hands@) + phase.cards_held() <= 48,
            forall|j: int|
                0 <= j < i ==> !is_legal_spec(
                    phase.trick.cards@,
                    hands@[seat as int]@,
                    #[trigger] hands@[seat as int]@[j],
                    phase.trump,
                ),
        decreases hands@[seat as int]@.len() - i,
    {
        let card = hands[seat][i];
        match phase.play(cur, hands[seat].as_slice(), card) {
            Ok((next_player, points)) => {
                hands[seat].remove(i);
                *current_player = next_player;
                proof {
                    assert(first_legal(
                        old(phase).trick.cards@,
                        old(hands)@[seat as int]@,
                        old(phase).trump,
                        i as int,
                    ));
                }
                return Some((card, points));
            },
            Err(_) => {},
        }
        i += 1;
    }
    proof {
        if hands@[seat as int]@.len() > 0 {
            crate::rules::lemma_some_card_is_legal(phase.trick.cards@, hands@[seat as int]@, phase.trump);
        }
    }
    None
}

/// Whether seat `k` has played to a trick that `first` led and that holds
/// `played` cards.
pub open spec fn has_played(first: Player, played: int, k: int) -> bool {
    (k - first.index_spec() + 4) % 4 < played
}

/// Whether the hand sizes are those of seats in the middle of a trick: the
/// seats that have played to it hold `n - 1` cards, the others `n`, and `n`
/// is at least one.
pub open spec fn in_rhythm(first: Player, played: int, sizes: Seq<int>, n: int) -> bool {
    &&& n >= 1
    &&& sizes.len() == 4
    &&& forall|k: int|
        0 <= k < 4 ==> #[trigger] sizes[k] == if has_played(first, played, k) {
            n - 1
        } else {
            n
        }
}

/// The hand sizes that a belief state records.
pub open spec fn expected_sizes(state: State) -> Seq<int> {
    Seq::new(4, |k: int| state.hand_sizes@[k] as int)
}

/// The sizes of four hands.
pub open spec fn sizes_of(hands: Seq<Vec<Card>>) -> Seq<int> {
    Seq::new(4, |k: int| hands[k]@.len() as int)
}

/// A play keeps the rhythm of the hand sizes: within a trick the count
/// stays, and a completed trick that does not end the round lowers it by one.
pub proof fn lemma_play_keeps_rhythm(
    before: PlayingPhase,
    cur: Player,
    hands0: Seq<Vec<Card>>,
    card: Card,
    after: PlayingPhase,
    next: Player,
    scores: Option<(i32, i32)>,
    hands1: Seq<Vec<Card>>,
    n: int,
)
    requires
        before.trick.cards@.len() <= 3,
        cur == seat_at(before.trick.first_player.index_spec() + before.trick.cards@.len()),
        in_rhythm(before.trick.first_player, before.trick.cards@.len() as int, sizes_of(hands0), n),
        before.play_result(cur, hands0[cur.index_spec()]@, card, after, next, scores),
        hands1[cur.index_spec()]@.len() == hands0[cur.index_spec()]@.len() - 1,
        forall|k: int| 0 <= k < 4 && k != cur.index_spec() ==> hands1[k] == hands0[k],
    ensures
        hands0[cur.index_spec()]@.len() == n,
        scores.is_none() ==> next == seat_at(after.trick.first_player.index_spec() + after.trick.cards@.len())
            && in_rhythm(
            after.trick.first_player,
            after.trick.cards@.len() as int,
            sizes_of(hands1),
            if before.trick.cards@.len() < 3 {
                n
            } else {
                n - 1
            },
        ),
{
    let first = before.trick.first_player;
    let t = before.trick.cards@.len() as int;
    let c = cur.index_spec();
    assert(sizes_of(hands0)[c] == n);
    if scores.is_none() {
        let m = if t < 3 {
            n
        } else {
            n - 1
        };
        assert forall|k: int| 0 <= k < 4 implies #[trigger] sizes_of(hands1)[k] == if has_played(
            after.trick.first_player,
            after.trick.cards@.len() as int,
            k,
        ) {
            m - 1
        } else {
            m
        } by {
            assert(sizes_of(hands0)[k] == if has_played(first, t, k) {
                n - 1
            } else {
                n
            });
        }
    }
}

/// Where the unseen cards are as many as the hands lack, a deal of them
/// fills every hand to its size.
pub proof fn lemma_full_deal(state: State, out: Seq<Vec<Card>>)
    requires
        crate::solver::dealt_out(state, Seq::new(4, |k: int| state.players@[k].known_cards@), unseen(state), out),
        unseen(state).len() == room(state, Seq::new(4, |k: int| state.players@[k].known_cards@))[0] + room(
            state,
            Seq::new(4, |k: int| state.players@[k].known_cards@),
        )[1] + room(state, Seq::new(4, |k: int| state.players@[k].known_cards@))[2] + room(
            state,
            Seq::new(4, |k: int| state.players@[k].known_cards@),
        )[3],
    ensures
        forall|k: int| 0 <= k < 4 ==> (#[trigger] out[k])@.len() == state.hand_sizes@[k],
{
    broadcast use vstd::multiset::group_multiset_axioms;

    let known = Seq::new(4, |k: int| state.players@[k].known_cards@);
    vstd::seq_lib::to_multiset_len(out[0]@);
    vstd::seq_lib::to_multiset_len(out[1]@);
    vstd::seq_lib::to_multiset_len(out[2]@);
    vstd::seq_lib::to_multiset_len(out[3]@);
    vstd::seq_lib::to_multiset_len(known[0]);
    vstd::seq_lib::to_multiset_len(known[1]);
    vstd::seq_lib::to_multiset_len(known[2]);
    vstd::seq_lib::to_multiset_len(known[3]);
    assert(crate::passing::hands_bag(out).len() == bag_of_four(known).len() + unseen(state).len());
    assert(out[0]@.len() <= state.hand_sizes@[0]);
    assert(out[1]@.len() <= state.hand_sizes@[1]);
    assert(out[2]@.len() <= state.hand_sizes@[2]);
    assert(out[3]@.len() <= state.hand_sizes@[3]);
}

/// What a finished trial is worth to a seat: for a seat of team 0 the score
/// of its team, for a seat of team 1 the score of its team less that of the
/// other.
pub open spec fn trial_score(player: Player, scores: (i32, i32)) -> int {
    if player.team_spec() == 0 {
        scores.0 as int
    } else {
        scores.1 - scores.0
    }
}

pub fn filter_points(player: Player, scores: (i32, i32)) -> (r: i64)
    ensures
        r == trial_score(player, scores),
        -SCORE_LIMIT <= r <= SCORE_LIMIT,
{
    if player.team() == 0 {
        scores.0 as i64
    } else {
        (scores.1 as i64) - (scores.0 as i64)
    }
}

/// The trials that began with one card: the sum of their scores and their
/// number.
#[derive(Debug, Clone, Copy, PartialEq, Eq, Structural)]
pub struct Tally {
    pub card: Card,
    pub total: i64,
    pub count: u32,
}

/// Whether the mean of `a` is at most the mean of `b`.
pub open spec fn mean_le(a: Tally, b: Tally) -> bool {
    a.total * b.count <= b.total * a.count
}

/// Whether each tally is of at least one trial and no more than the limit,
/// with a sum that so many trials can give.
pub open spec fn tallies_wf(tallies: Seq<Tally>) -> bool {
    forall|i: int|
        0 <= i < tallies.len() ==> 1 <= (#[trigger] tallies[i]).count <= TRIAL_LIMIT && -4294967296
            * tallies[i].count <= tallies[i].total <= 4294967296 * tallies[i].count
}

/// The sum of the scores.
pub open spec fn sum_of(scores: Seq<i64>) -> int
    decreases scores.len(),
{
    if scores.len() == 0 {
        0
    } else {
        sum_of(scores.drop_last()) + scores.last()
    }
}

/// The number of a card among the 24 faces, as a key for grouping.
pub open spec fn code_spec(card: Card) -> u8 {
    crate::cards::face_number(card) as u8
}

/// Different cards have different numbers.
pub proof fn lemma_code_is_one_to_one(a: Card, b: Card)
    requires
        code_spec(a) == code_spec(b),
    ensures
        a == b,
{
}

pub fn card_code(card: Card) -> (r: u8)
    ensures
        r == code_spec(card),
        r < 24,
{
    (card.0.index() as u8) * 6 + card.1.strength()
}

/// The card with the given number.
pub fn card_from_code(code: u8) -> (r: Card)
    ensures
        forall|card: Card| code_spec(card) == code ==> r == card,
        code < 24 ==> code_spec(r) == code,
{
    Card(crate::cards::suit_from_index((code / 6) as usize), crate::cards::rank_from_index((code % 6) as usize))
}

/// Adds up the scores of the trials that began with one card.
pub fn tally(card: Card, scores: &Vec<i64>) -> (t: Tally)
    requires
        1 <= scores@.len() <= TRIAL_LIMIT,
        forall|i: int| 0 <= i < scores@.len() ==> -SCORE_LIMIT <= #[trigger] scores@[i] <= SCORE_LIMIT,
    ensures
        t.card == card,
        t.count == scores@.len(),
        t.total == sum_of(scores@),
        -4294967296 * t.count <= t.total <= 4294967296 * t.count,
{
    let mut total: i64 = 0;
    let mut i: usize = 0;
    while i < scores.len()
        invariant
            i <= scores@.len() <= TRIAL_LIMIT,
            forall|k: int| 0 <= k < scores@.len() ==> -SCORE_LIMIT <= #[trigger] scores@[k] <= SCORE_LIMIT,
            total == sum_of(scores@.take(i as int)),
            -4294967296 * i <= total <= 4294967296 * i,
        decreases scores@.len() - i,
    {
        proof {
            assert(scores@.take(i + 1).drop_last() =~= scores@.take(i as int));
        }
        total = total + scores[i];
        i += 1;
    }
    proof {
        assert(scores@.take(scores@.len() as int) =~= scores@);
    }
    Tally { card, total, count: scores.len() as u32 }
}

/// Whether the tallies are those of the trials: one for each card that
/// began a trial, with the number of its trials and the sum of their scores.
/// The order of the tallies is left open.
pub open spec fn tallied(trials: Seq<(u8, i64)>, tallies: Seq<Tally>) -> bool {
    &&& forall|i: int, j: int| 0 <= i < j < tallies.len() ==> tallies[i].card != tallies[j].card
    &&& forall|i: int|
        0 <= i < tallies.len() ==> {
            let scores = scores_of(trials, code_spec((#[trigger] tallies[i]).card));
            &&& tallies[i].count == scores.len()
            &&& tallies[i].count >= 1
            &&& tallies[i].total == sum_of(scores)
            &&& exists|t: int| 0 <= t < trials.len() && (#[trigger] trials[t]).0 == code_spec(tallies[i].card)
        }
    &&& forall|t: int|
        0 <= t < trials.len() ==> has_tally(tallies, (#[trigger] trials[t]).0)
}

/// Whether one of the tallies is of the card with the given number.
pub open spec fn has_tally(tallies: Seq<Tally>, key: u8) -> bool {
    exists|i: int| 0 <= i < tallies.len() && code_spec((#[trigger] tallies[i]).card) == key
}

/// Sums up the trials card by card. A trial is the number of the card that
/// began it and its score.
pub fn tallies_of(trials: Vec<(u8, i64)>) -> (tallies: Vec<Tally>)
    requires
        trials@.len() <= TRIAL_LIMIT,
        forall|t: int|
            0 <= t < trials@.len() ==> -SCORE_LIMIT <= (#[trigger] trials@[t]).1 <= SCORE_LIMIT && trials@[t].0 < 24,
    ensures
        tallied(trials@, tallies@),
        tallies_wf(tallies@),
{
    let ghost given = trials@;
    let groups = group_scores(trials);
    let mut tallies: Vec<Tally> = Vec::new();
    let mut i: usize = 0;
    while i < groups.len()
        invariant
            i <= groups@.len(),
            tallies@.len() == i,
            tallies_wf(tallies@),
            grouped(given, groups@),
            given.len() <= TRIAL_LIMIT,
            forall|t: int|
                0 <= t < given.len() ==> -SCORE_LIMIT <= (#[trigger] given[t]).1 <= SCORE_LIMIT && given[t].0
                    < 24,
            forall|k: int|
                0 <= k < i ==> {
                    &&& code_spec((#[trigger] tallies@[k]).card) == groups@[k].0
                    &&& tallies@[k].count == groups@[k].1@.len()
                    &&& tallies@[k].total == sum_of(groups@[k].1@)
                },
        decreases groups@.len() - i,
    {
        proof {
            lemma_scores_of(given, groups@[i as int].0, -SCORE_LIMIT as int, SCORE_LIMIT as int);
            let t = choose|t: int| 0 <= t < given.len() && (#[trigger] given[t]).0 == groups@[i as int].0;
            assert(given[t].0 < 24);
        }
        let card = card_from_code(groups[i].0);
        let entry = tally(card, &groups[i].1);
        tallies.push(entry);
        i += 1;
    }
    proof {
        assert forall|i: int, j: int| 0 <= i < j < tallies@.len() implies tallies@[i].card != tallies@[j].card by {
            assert(code_spec(tallies@[i].card) == groups@[i].0);
            assert(code_spec(tallies@[j].card) == groups@[j].0);
        }
        assert forall|i: int| 0 <= i < tallies@.len() implies {
            let scores = scores_of(given, code_spec((#[trigger] tallies@[i]).card));
            &&& tallies@[i].count == scores.len()
            &&& tallies@[i].count >= 1
            &&& tallies@[i].total == sum_of(scores)
            &&& exists|t: int| 0 <= t < given.len() && (#[trigger] given[t]).0 == code_spec(tallies@[i].card)
        } by {
            assert(code_spec(tallies@[i].card) == groups@[i].0);
            assert(groups@[i].1@ == scores_of(given, groups@[i].0));
            lemma_scores_of(given, groups@[i].0, -SCORE_LIMIT as int, SCORE_LIMIT as int);
        }
        assert forall|t: int| 0 <= t < given.len() implies has_tally(tallies@, (#[trigger] given[t]).0) by {
            let i = choose|i: int| 0 <= i < groups@.len() && groups@[i].0 == given[t].0;
            assert(code_spec(tallies@[i].card) == groups@[i].0);
        }
    }
    tallies
}

/// Whether position `w` holds the best tally: no mean is higher, and every
/// earlier mean is lower.
pub open spec fn best_at(tallies: Seq<Tally>, w: int) -> bool {
    &&& 0 <= w < tallies.len()
    &&& forall|j: int| 0 <= j < tallies.len() ==> mean_le(#[trigger] tallies[j], tallies[w])
    &&& forall|j: int| 0 <= j < w ==> !mean_le(tallies[w], #[trigger] tallies[j])
}

/// Compares the means of two tallies.
pub fn mean_at_most(a: Tally, b: Tally) -> (r: bool)
    requires
        a.count <= TRIAL_LIMIT,
        b.count <= TRIAL_LIMIT,
        -4294967296 * a.count <= a.total <= 4294967296 * a.count,
        -4294967296 * b.count <= b.total <= 4294967296 * b.count,
    ensures
        r == mean_le(a, b),
{
    assert(-0x1_0000_0000_0000_0000_0000 <= a.total * b.count <= 0x1_0000_0000_0000_0000_0000)
        by (nonlinear_arith)
        requires
            0 <= b.count <= 1000000,
            -4294967296000000 <= a.total <= 4294967296000000,
    ;
    assert(-0x1_0000_0000_0000_0000_0000 <= b.total * a.count <= 0x1_0000_0000_0000_0000_0000)
        by (nonlinear_arith)
        requires
            0 <= a.count <= 1000000,
            -4294967296000000 <= b.total <= 4294967296000000,
    ;
    (a.total as i128) * (b.count as i128) <= (b.total as i128) * (a.count as i128)
}

/// Picks the card whose trials scored best on average, the one seen first
/// among equals. There is none if no trial was recorded.
pub fn best_move(tallies: &Vec<Tally>) -> (r: Option<Card>)
    requires
        tallies_wf(tallies@),
    ensures
        tallies@.len() == 0 <==> r.is_none(),
        r.is_some() ==> exists|w: int| #[trigger] best_at(tallies@, w) && r == Some(tallies@[w].card),
{
    if tallies.len() == 0 {
        return None;
    }
    let mut w: usize = 0;
    let mut i: usize = 1;
    proof {
        lemma_mean_order(tallies@[0], tallies@[0], tallies@[0]);
    }
    while i < tallies.len()
        invariant
            1 <= i <= tallies@.len(),
            tallies_wf(tallies@),
            best_at(tallies@.take(i as int), w as int),
        decreases tallies@.len() - i,
    {
        let ghost before = tallies@.take(i as int);
        let ghost after = tallies@.take(i + 1);
        proof {
            assert(forall|j: int| 0 <= j < i ==> before[j] == after[j]);
        }
        if !mean_at_most(tallies[i], tallies[w]) {
            proof {
                assert forall|j: int| 0 <= j < after.len() implies mean_le(#[trigger] after[j], after[i as int]) by {
                    if j < i {
                        assert(mean_le(before[j], before[w as int]));
                        lemma_mean_order(after[j], after[w as int], after[i as int]);
                    } else {
                        lemma_mean_order(after[i as int], after[i as int], after[i as int]);
                    }
                }
                assert forall|j: int| 0 <= j < i implies !mean_le(after[i as int], #[trigger] after[j]) by {
                    assert(mean_le(before[j], before[w as int]));
                    lemma_mean_order(after[i as int], after[j], after[w as int]);
                }
            }
            w = i;
        }
        i += 1;
    }
    proof {
        assert(tallies@.take(tallies@.len() as int) =~= tallies@);
    }
    Some(tallies[w].card)
}

/// Means are ordered: each is at most itself, and the order passes on.
pub proof fn lemma_mean_order(a: Tally, b: Tally, c: Tally)
    requires
        a.count > 0,
        b.count > 0,
        c.count > 0,
    ensures
        mean_le(a, a),
        mean_le(a, b) || mean_le(b, a),
        mean_le(a, b) && mean_le(b, c) ==> mean_le(a, c),
{
    let (x, m) = (a.total as int, a.count as int);
    let (y, n) = (b.total as int, b.count as int);
    let (z, p) = (c.total as int, c.count as int);
    if x * n <= y * m && y * p <= z * n {
        assert(x * p <= z * m) by (nonlinear_arith)
            requires
                x * n <= y * m,
                y * p <= z * n,
                m > 0,
                n > 0,
                p > 0,
        ;
    }
}

/// A player that picks its card by simulation: what it has observed, its
/// seat, its hand, and the playing phase as it stands.
#[derive(Debug)]
pub struct Bot {
    pub state: State,
    pub player: Player,
    pub hand: Vec<Card>,
    pub playing_phase: PlayingPhase,
}

impl Bot {
    /// The bot knows its own hand, the hand sizes and the cards played make
    /// up the deck, and the playing phase is well formed.
    pub open spec fn wf(&self) -> bool {
        let me = self.player.index_spec();
        &&& self.playing_phase.wf()
        &&& self.state.players@[me].known_cards@ == self.hand@
        &&& self.state.hand_sizes@[me] == self.hand@.len()
        &&& self.state.hand_sizes@[0] + self.state.hand_sizes@[1] + self.state.hand_sizes@[2]
            + self.state.hand_sizes@[3] + self.playing_phase.cards_held() == 48
    }

    /// A bot for the seat `player` at the start of the play: it knows its
    /// own hand and nothing of the others.
    pub fn new(player: Player, hand: Vec<Card>, playing_phase: PlayingPhase) -> (r: Bot)
        ensures
            r.player == player,
            r.hand@ == hand@,
            r.playing_phase == playing_phase,
            r.state.played_cards@.len() == 0,
            forall|k: int| 0 <= k < 4 ==> #[trigger] r.state.hand_sizes@[k] == 12,
            r.state.players@[player.index_spec()].known_cards@ == hand@,
            forall|k: int|
                0 <= k < 4 && k != player.index_spec() ==> (#[trigger] r.state.players@[k]).known_cards@.len() == 0,
            forall|k: int, s: int|
                0 <= k < 4 && 0 <= s < 4 ==> #[trigger] r.state.players@[k].highest_possible@[s] == Some(
                    crate::cards::Rank::Ace,
                ),
            hand@.len() == 12 && playing_phase.wf() && playing_phase.cards_held() == 0 ==> r.wf(),
    {
        let mut me = Bot { state: State::default(), player, hand: copy_cards(&hand), playing_phase };
        let player_state = me.state.player_state_mut(player);
        player_state.known_cards = hand;
        me
    }

    /// Takes in that `player` played `played` onto `stack`: the belief is
    /// updated, the card joins the bot's copy of the playing phase, and if
    /// the bot itself played, the card leaves its hand.
    pub fn update(&mut self, player: Player, played: Card, trump: Suit, stack: &[Card])
        requires
            old(self).wf(),
            old(self).state.hand_sizes@[player.index_spec()] > 0,
            player == old(self).player ==> old(self).hand@.contains(played),
        ensures
            final(self).wf(),
            final(self).player == old(self).player,
            old(self).state.observed(player, played, trump, stack@, final(self).state),
            exists|next: Player, scores: Option<(i32, i32)>| #[trigger]
                old(self).playing_phase.play_result(
                    player,
                    Seq::<Card>::empty(),
                    played,
                    final(self).playing_phase,
                    next,
                    scores,
                ),
            final(self).hand@ == if player == old(self).player {
                without_first(old(self).hand@, played)
            } else {
                old(self).hand@
            },
    {
        self.state.update(player, played, trump, stack);
        let nothing: Vec<Card> = Vec::new();
        proof {
            crate::rules::lemma_empty_hand_is_free(self.playing_phase.trick.cards@, played, self.playing_phase.trump);
            assert(nothing@ =~= Seq::<Card>::empty());
            old(self).hand@.index_of_first_ensures(played);
        }
        let _ = self.playing_phase.play(player, nothing.as_slice(), played);
        if player == self.player {
            remove_first(&mut self.hand, played);
        }
    }

    /// Whether a trial is sure to finish: it is the bot's turn, the hand
    /// sizes are those of seats in the middle of a trick, the unseen cards
    /// are as many as the hands lack, and they can be dealt within the
    /// bounds.
    pub open spec fn ready(&self) -> bool {
        let first = self.playing_phase.trick.first_player;
        let t = self.playing_phase.trick.cards@.len() as int;
        let known = Seq::new(4, |k: int| self.state.players@[k].known_cards@);
        &&& self.player == seat_at(first.index_spec() + t)
        &&& exists|n: int| #[trigger] in_rhythm(first, t, expected_sizes(self.state), n)
        &&& unseen(self.state).len() == room(self.state, known)[0] + room(self.state, known)[1] + room(
            self.state,
            known,
        )[2] + room(self.state, known)[3]
        &&& solvable(self.state, unseen(self.state), room(self.state, known))
    }

    /// Whether the key is that of a card of the hand that is legal to play.
    pub open spec fn recommendable(&self, key: u8) -> bool {
        exists|card: Card|
            #[trigger] code_spec(card) == key && self.hand@.contains(card) && is_legal_spec(
                self.playing_phase.trick.cards@,
                self.hand@,
                card,
                self.playing_phase.trump,
            )
    }

    /// Runs one trial: deals the unseen cards at random in agreement with
    /// the belief, shuffles each hand, and plays the round out, each seat
    /// playing its first legal card. Gives the bot's first card and what the
    /// trial is worth to it, or nothing if the trial cannot be completed.
    #[verifier::rlimit(40)]
    pub fn try_random_hand(&self, rng: &mut StdRng) -> (r: Option<(Card, i64)>)
        requires
            self.wf(),
        ensures
            match r {
                Some((card, score)) => {
                    &&& self.hand@.contains(card)
                    &&& is_legal_spec(self.playing_phase.trick.cards@, self.hand@, card, self.playing_phase.trump)
                    &&& -SCORE_LIMIT <= score <= SCORE_LIMIT
                },
                None => !self.ready(),
            },
    {
        let mut candidate = match self.state.produce_candidate_hands(rng) {
            Some(c) => c,
            None => {
                return None;
            },
        };
        let ghost me = self.player.index_spec();
        let ghost first = self.playing_phase.trick.first_player;
        let ghost mut n: int = 0;
        proof {
            assert(candidate@[me]@ =~= self.hand@) by {
                assert(candidate@[me]@.take(self.hand@.len() as int) == self.hand@);
            }
            if self.ready() {
                lemma_full_deal(self.state, candidate@);
                n = choose|n: int|
                    #[trigger] in_rhythm(
                        first,
                        self.playing_phase.trick.cards@.len() as int,
                        expected_sizes(self.state),
                        n,
                    );
                assert(sizes_of(candidate@) =~= expected_sizes(self.state));
            }
        }
        let mut k: usize = 0;
        while k < 4
            invariant
                k <= 4,
                me == self.player.index_spec(),
                candidate@[me]@.to_multiset() == self.hand@.to_multiset(),
                forall|s: int| 0 <= s < 4 ==> (#[trigger] candidate@[s])@.len() <= self.state.hand_sizes@[s],
                self.ready() ==> in_rhythm(
                    first,
                    self.playing_phase.trick.cards@.len() as int,
                    sizes_of(candidate@),
                    n,
                ),
            decreases 4 - k,
        {
            let ghost before = candidate@;
            shuffle_cards(&mut candidate[k], rng);
            proof {
                assert(0 <= me < 4);
                if me != k {
                    assert(candidate@[me] == before[me]);
                } else {
                    assert(candidate@[me]@.to_multiset() == before[me]@.to_multiset());
                }
                assert forall|s: int| 0 <= s < 4 implies (#[trigger] candidate@[s])@.len()
                    <= self.state.hand_sizes@[s] by {
                    if s != k {
                        assert(candidate@[s] == before[s]);
                    }
                }
                assert(sizes_of(candidate@) =~= sizes_of(before)) by {
                    assert forall|s: int| 0 <= s < 4 implies candidate@[s]@.len() == before[s]@.len() by {
                        if s != k {
                            assert(candidate@[s] == before[s]);
                        }
                    }
                }
            }
            k += 1;
        }
        let mut current_player = self.player;
        let mut phase = self.playing_phase.duplicate();
        let ghost dealt_hand = candidate@[me]@;
        let ghost phase0 = phase;
        let ghost hands0 = candidate@;
        proof {
            if self.ready() {
                assert(sizes_of(hands0)[me] == n);
            }
        }
        let (first_card, points) = match step(&mut phase, &mut current_player, &mut candidate) {
            Some(s) => s,
            None => {
                return None;
            },
        };
        proof {
            if self.ready() {
                lemma_play_keeps_rhythm(
                    phase0,
                    self.player,
                    hands0,
                    first_card,
                    phase,
                    current_player,
                    points,
                    candidate@,
                    n,
                );
                if phase0.trick.cards@.len() == 3 {
                    n = n - 1;
                }
            }
        }
        proof {
            let i = choose|i: int|
                #[trigger] first_legal(self.playing_phase.trick.cards@, dealt_hand, self.playing_phase.trump, i)
                    && first_card == dealt_hand[i];
            lemma_legal_in_any_order(
                self.playing_phase.trick.cards@,
                dealt_hand,
                self.hand@,
                first_card,
                self.playing_phase.trump,
            );
            vstd::seq_lib::to_multiset_contains(dealt_hand, first_card);
            vstd::seq_lib::to_multiset_contains(self.hand@, first_card);
            assert(dealt_hand.contains(first_card));
        }
        if let Some(p) = points {
            return Some((first_card, filter_points(self.player, p)));
        }
        loop
            invariant
                phase.wf(),
                total_cards(candidate@) + phase.cards_held() <= 48,
                self.hand@.contains(first_card),
                is_legal_spec(self.playing_phase.trick.cards@, self.hand@, first_card, self.playing_phase.trump),
                self.ready() ==> current_player == seat_at(
                    phase.trick.first_player.index_spec() + phase.trick.cards@.len(),
                ) && in_rhythm(phase.trick.first_player, phase.trick.cards@.len() as int, sizes_of(candidate@), n),
            decreases total_cards(candidate@),
        {
            let ghost phase1 = phase;
            let ghost hands1 = candidate@;
            let ghost cur = current_player;
            proof {
                if self.ready() {
                    assert(sizes_of(hands1)[cur.index_spec()] == n);
                }
            }
            match step(&mut phase, &mut current_player, &mut candidate) {
                None => {
                    return None;
                },
                Some((_, Some(p))) => {
                    return Some((first_card, filter_points(self.player, p)));
                },
                Some((played, None)) => {
                    proof {
                        if self.ready() {
                            lemma_play_keeps_rhythm(
                                phase1,
                                cur,
                                hands1,
                                played,
                                phase,
                                current_player,
                                None,
                                candidate@,
                                n,
                            );
                            if phase1.trick.cards@.len() == 3 {
                                n = n - 1;
                            }
                        }
                    }
                },
            }
        }
    }

    /// Recommends a card after the given number of trials drawn from `rng`:
    /// the first card of the trials that scored best on average. The card
    /// is in the bot's hand and legal to play. There is none only if no
    /// trial was asked for or the bot is not ready.
    #[verifier::rlimit(40)]
    pub fn get_move_with(&self, rng: &mut StdRng, trials_wanted: u32) -> (r: Option<Card>)
        requires
            self.wf(),
            trials_wanted <= TRIAL_LIMIT,
        ensures
            match r {
                Some(card) => self.hand@.contains(card) && is_legal_spec(
                    self.playing_phase.trick.cards@,
                    self.hand@,
                    card,
                    self.playing_phase.trump,
                ),
                None => trials_wanted == 0 || !self.ready(),
            },
    {
        let mut trials: Vec<(u8, i64)> = Vec::new();
        let mut n: u32 = 0;
        while n < trials_wanted
            invariant
                n <= trials_wanted <= TRIAL_LIMIT,
                self.wf(),
                trials@.len() <= n,
                self.ready() ==> trials@.len() == n,
                forall|t: int|
                    0 <= t < trials@.len() ==> -SCORE_LIMIT <= (#[trigger] trials@[t]).1 <= SCORE_LIMIT
                        && self.recommendable(trials@[t].0),
            decreases trials_wanted - n,
        {
            match self.try_random_hand(rng) {
                Some((card, score)) => {
                    trials.push((card_code(card), score));
                },
                None => {},
            }
            n += 1;
        }
        let ghost seen = trials@;
        let tallies = tallies_of(trials);
        let best = best_move(&tallies);
        proof {
            if best.is_some() {
                let w = choose|w: int| #[trigger] best_at(tallies@, w) && best == Some(tallies@[w].card);
                let found = tallies@[w];
                assert(crate::planner::tallied(seen, tallies@));
                let t = choose|t: int| 0 <= t < seen.len() && (#[trigger] seen[t]).0 == code_spec(found.card);
                assert(self.recommendable(seen[t].0));
                let card = choose|card: Card|
                    #[trigger] code_spec(card) == seen[t].0 && self.hand@.contains(card) && is_legal_spec(
                        self.playing_phase.trick.cards@,
                        self.hand@,
                        card,
                        self.playing_phase.trump,
                    );
                lemma_code_is_one_to_one(card, found.card);
            } else if trials_wanted > 0 && self.ready() {
                assert(has_tally(tallies@, seen[0].0));
            }
        }
        best
    }

    /// Recommends a card after the default number of trials, drawn from a
    /// generator that the operating system seeds.
    pub fn get_move(&self) -> (r: Option<Card>)
        requires
            self.wf(),
        ensures
            match r {
                Some(card) => self.hand@.contains(card) && is_legal_spec(
                    self.playing_phase.trick.cards@,
                    self.hand@,
                    card,
                    self.playing_phase.trump,
                ),
                None => !self.ready(),
            },
    {
        let mut rng = entropy_rng();
        self.get_move_with(&mut rng, DEFAULT_TRIALS)
    }
}

} // verus!
