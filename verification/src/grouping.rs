use itertools::Itertools;
use vstd::prelude::*;

verus! {

/// The scores of the trials with the given key, in the order of the trials.
pub open spec fn scores_of(trials: Seq<(u8, i64)>, key: u8) -> Seq<i64>
    decreases trials.len(),
{
    if trials.len() == 0 {
        Seq::empty()
    } else {
        let rest = scores_of(trials.drop_last(), key);
        if trials.last().0 == key {
            rest.push(trials.last().1)
        } else {
            rest
        }
    }
}

/// Whether `groups` holds the trials by key: each key once, with the scores
/// of its trials in their order, and no key of a trial missing. The order of
/// the groups is left open.
pub open spec fn grouped(trials: Seq<(u8, i64)>, groups: Seq<(u8, Vec<i64>)>) -> bool {
    &&& forall|i: int, j: int| 0 <= i < j < groups.len() ==> groups[i].0 != groups[j].0
    &&& forall|i: int|
        0 <= i < groups.len() ==> (#[trigger] groups[i]).1@ == scores_of(trials, groups[i].0) && groups[i].1@.len()
            > 0
    &&& forall|t: int|
        0 <= t < trials.len() ==> exists|i: int| 0 <= i < groups.len() && groups[i].0 == (#[trigger] trials[t]).0
}

/// Calls `itertools::Itertools::into_group_map` on the trials and lists the
/// entries of the map it returns. Trusted: the map has one entry for each key
/// that occurs, and the entry holds the values that came with the key, in the
/// order in which they came. Nothing is claimed about the order of the
/// entries, which is that of a hash map.
#[verifier::external_body]
pub(crate) fn group_scores(trials: Vec<(u8, i64)>) -> (groups: Vec<(u8, Vec<i64>)>)
    ensures
        grouped(trials@, groups@),
{
    trials.into_iter().into_group_map().into_iter().collect()
}

/// A key has no more scores than there are trials, it has a score only if a
/// trial has the key, and its scores lie within the bounds of all scores.
pub proof fn lemma_scores_of(trials: Seq<(u8, i64)>, key: u8, low: int, high: int)
    requires
        forall|t: int| 0 <= t < trials.len() ==> low <= (#[trigger] trials[t]).1 <= high,
    ensures
        scores_of(trials, key).len() <= trials.len(),
        scores_of(trials, key).len() > 0 ==> exists|t: int| 0 <= t < trials.len() && (#[trigger] trials[t]).0 == key,
        forall|i: int| 0 <= i < scores_of(trials, key).len() ==> low <= #[trigger] scores_of(trials, key)[i] <= high,
    decreases trials.len(),
{
    if trials.len() > 0 {
        let front = trials.drop_last();
        assert forall|t: int| 0 <= t < front.len() implies low <= (#[trigger] front[t]).1 <= high by {
            assert(front[t] == trials[t]);
        }
        lemma_scores_of(front, key, low, high);
        if scores_of(trials, key).len() > 0 {
            if trials.last().0 == key {
                assert(trials[trials.len() - 1].0 == key);
            } else {
                let t = choose|t: int| 0 <= t < front.len() && (#[trigger] front[t]).0 == key;
                assert(trials[t].0 == key);
            }
        }
        assert(trials[trials.len() - 1] == trials.last());
    }
}

} // verus!
