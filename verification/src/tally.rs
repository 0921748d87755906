//! The count at the end of a cycle: who has won.

use vstd::prelude::*;

verus! {

/// A nominee as the count sees one.
#[derive(Clone, Copy, Debug, PartialEq, Eq, Structural)]
pub struct Candidate {
    pub nominee: u64,
    /// The votes for the nominee.
    pub tally: u64,
    /// The instant of the nominee's first nomination.
    pub since: u64,
}

/// Whether `a` stands before `b` in the count: `a` has more votes; or as many
/// and was nominated earlier; or as many, at the same instant, and has the
/// smaller identity.
pub open spec fn beats(a: Candidate, b: Candidate) -> bool {
    ||| a.tally > b.tally
    ||| a.tally == b.tally && a.since < b.since
    ||| a.tally == b.tally && a.since == b.since && a.nominee < b.nominee
}

/// Whether `c` is one of `candidates` and stands before every other.
pub open spec fn wins(c: Candidate, candidates: Seq<Candidate>) -> bool {
    &&& candidates.contains(c)
    &&& forall|i: int|
        0 <= i < candidates.len() ==> #[trigger] candidates[i] == c || beats(c, candidates[i])
}

/// The one of `candidates` that stands before every other.
pub open spec fn winner_of(candidates: Seq<Candidate>) -> Option<Candidate>
    decreases candidates.len(),
{
    if candidates.len() == 0 {
        None
    } else {
        match winner_of(candidates.drop_last()) {
            Some(best) if !beats(candidates.last(), best) => Some(best),
            _ => Some(candidates.last()),
        }
    }
}

/// Whether `a` stands before `b` in the count.
pub fn outranks(a: &Candidate, b: &Candidate) -> (before: bool)
    ensures
        before == beats(*a, *b),
{
    a.tally > b.tally || (a.tally == b.tally && (a.since < b.since || (a.since == b.since
        && a.nominee < b.nominee)))
}

/// Names the winner among `candidates`: the one with the most votes; among
/// those with the most votes the one nominated first; among those nominated
/// at the same instant the one with the smallest identity. There is no winner
/// without candidates.
pub fn determine_winner(candidates: &Vec<Candidate>) -> (winner: Option<Candidate>)
    ensures
        winner == winner_of(candidates@),
        winner is None <==> candidates.len() == 0,
        winner matches Some(best) ==> wins(best, candidates@),
{
    let mut winner: Option<Candidate> = None;
    let mut i: usize = 0;
    assert(candidates@.take(0) =~= Seq::<Candidate>::empty());
    while i < candidates.len()
        invariant
            i <= candidates.len(),
            winner == winner_of(candidates@.take(i as int)),
        decreases candidates.len() - i,
    {
        assert(candidates@.take(i + 1).drop_last() =~= candidates@.take(i as int));
        assert(candidates@.take(i + 1).last() == candidates@[i as int]);
        let next: Candidate = candidates[i];
        winner = match winner {
            Some(best) if !outranks(&next, &best) => Some(best),
            _ => Some(next),
        };
        i = i + 1;
    }
    assert(candidates@.take(i as int) =~= candidates@);
    proof {
        lemma_winner_wins(candidates@);
    }
    winner
}

/// Of two different candidates exactly one stands before the other, and the
/// order has no cycles.
pub proof fn lemma_beats_is_a_strict_order(a: Candidate, b: Candidate, c: Candidate)
    ensures
        !beats(a, a),
        a != b ==> (beats(a, b) <==> !beats(b, a)),
        beats(a, b) && beats(b, c) ==> beats(a, c),
{
}

/// `winner_of` names a candidate exactly when there is one, and the one it
/// names stands before every other.
pub proof fn lemma_winner_wins(candidates: Seq<Candidate>)
    ensures
        winner_of(candidates) is None <==> candidates.len() == 0,
        winner_of(candidates) matches Some(best) ==> wins(best, candidates),
    decreases candidates.len(),
{
    if candidates.len() > 0 {
        let before = candidates.drop_last();
        let last = candidates.last();
        lemma_winner_wins(before);
        let best = winner_of(candidates)->0;
        assert(candidates[candidates.len() - 1] == last);
        match winner_of(before) {
            None => {
                assert(best == last);
            },
            Some(old) => {
                let at = choose|i: int| 0 <= i < before.len() && before[i] == old;
                assert(candidates[at] == old);
                assert forall|i: int| 0 <= i < candidates.len() implies #[trigger] candidates[i]
                    == best || beats(best, candidates[i]) by {
                    if i < before.len() {
                        assert(before[i] == candidates[i]);
                        assert(before[i] == old || beats(old, before[i]));
                    }
                }
            },
        }
    }
}

/// At most one candidate wins.
pub proof fn lemma_winner_is_unique(a: Candidate, b: Candidate, candidates: Seq<Candidate>)
    requires
        wins(a, candidates),
        wins(b, candidates),
    ensures
        a == b,
{
    let i = choose|i: int| 0 <= i < candidates.len() && candidates[i] == a;
    let j = choose|j: int| 0 <= j < candidates.len() && candidates[j] == b;
    assert(candidates[i] == b || beats(b, candidates[i]));
    assert(candidates[j] == a || beats(a, candidates[j]));
}

/// The winner does not depend on the order the candidates are given in: two
/// lists of the same candidates have the same winner.
pub proof fn lemma_winner_ignores_order(first: Seq<Candidate>, second: Seq<Candidate>)
    requires
        forall|c: Candidate| first.contains(c) <==> second.contains(c),
    ensures
        winner_of(first) == winner_of(second),
{
    lemma_winner_wins(first);
    lemma_winner_wins(second);
    if first.len() > 0 {
        assert(first.contains(first[0]));
        let a = winner_of(first)->0;
        let b = winner_of(second)->0;
        assert(wins(a, second)) by {
            assert forall|i: int| 0 <= i < second.len() implies #[trigger] second[i] == a || beats(
                a,
                second[i],
            ) by {
                assert(second.contains(second[i]));
                let k = choose|k: int| 0 <= k < first.len() && first[k] == second[i];
                assert(first[k] == a || beats(a, first[k]));
            }
        }
        lemma_winner_is_unique(a, b, second);
    } else if second.len() > 0 {
        assert(second.contains(second[0]));
    }
}

/// A tie in votes goes to the one nominated first: no candidate wins while
/// another has as many votes and an earlier first nomination.
pub proof fn lemma_tie_goes_to_the_earlier(
    earlier: Candidate,
    later: Candidate,
    candidates: Seq<Candidate>,
)
    requires
        candidates.contains(earlier),
        candidates.contains(later),
        earlier.tally == later.tally,
        earlier.since < later.since,
    ensures
        winner_of(candidates) != Some(later),
{
    lemma_winner_wins(candidates);
    if winner_of(candidates) == Some(later) {
        let i = choose|i: int| 0 <= i < candidates.len() && candidates[i] == earlier;
        assert(candidates[i] == later || beats(later, candidates[i]));
    }
}

/// Nobody wins against more votes: the winner has at least as many votes as
/// every candidate.
pub proof fn lemma_winner_has_most_votes(other: Candidate, candidates: Seq<Candidate>)
    requires
        candidates.contains(other),
    ensures
        winner_of(candidates) matches Some(best) && best.tally >= other.tally,
{
    lemma_winner_wins(candidates);
    let best = winner_of(candidates)->0;
    let i = choose|i: int| 0 <= i < candidates.len() && candidates[i] == other;
    assert(candidates[i] == best || beats(best, candidates[i]));
}

} // verus!
