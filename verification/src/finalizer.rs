//! Finalization: the one count at the end of a cycle.
//!
//! Like the coordinator, the finalizer is a state machine without input or
//! output. Its first step writes the guard of the cycle; only the finalizer
//! that wrote the guard goes on to count, so a cycle is counted once however
//! many processes see it end.

use vstd::prelude::*;
use vstd::string::*;
use crate::clock::{lemma_cycle_is_latest_start, Schedule};
use crate::decimal::{chars_of, decimal, lemma_number_iff_decimal, number, read_number};
use crate::keys::{nominees_in, nominees_of_keys, Key};
use crate::store::{
    has_set, lemma_keys_name_the_nominees, nominees_of, number_at, Ledger, MemoryStore, ReplyView,
    StoreOp, StoreReply,
};
use crate::tally::{determine_winner, lemma_winner_wins, winner_of, Candidate};

verus! {

/// What a finalizer found.
#[derive(Clone, Copy, Debug, PartialEq, Eq, Structural)]
pub enum Verdict {
    /// No cycle is closed at this instant. Nothing was written.
    NotDue,
    /// The cycle was counted before. Nothing was written.
    AlreadyFinalized,
    /// The cycle ended without a nominee.
    NoNominees,
    /// The cycle was counted and this is who won.
    Winner(Candidate),
    /// A collaborator failed or answered out of turn.
    Failed,
}

/// What the finalizer wants done next.
#[derive(Clone, Copy, Debug, PartialEq, Eq, Structural)]
pub enum Wish {
    /// Send the request to the store and report the answer with
    /// `store_replied`.
    Store(StoreOp),
    /// Nothing more: this is the verdict.
    Done(Verdict),
}

/// Where a finalizer stands.
#[derive(Clone, Copy, Debug, PartialEq, Eq, Structural)]
pub enum Step {
    /// Waits to hear whether the guard was written.
    Guarding,
    /// Waits for the keys of the nomination sets.
    Listing,
    /// Waits for the votes of the next nominee.
    Tally,
    /// Waits for the first nomination of the next nominee, whose votes are
    /// `tally`.
    Since { tally: u64 },
    /// The verdict was named.
    Finished,
}

/// The number that the store answered with, where `absent` stands for a key
/// that does not exist. There is none where the text is no number.
pub open spec fn amount(text: Option<Seq<char>>, absent: u64) -> Option<u64> {
    match text {
        None => Some(absent),
        Some(written) => number(written),
    }
}

/// A finalizer as contracts see it.
#[verifier::ext_equal]
pub ghost struct Count {
    pub cycle: u64,
    /// The instant the finalizer was started at.
    pub now: u64,
    pub step: Step,
    /// The nominees of the cycle, once they are listed.
    pub nominees: Seq<u64>,
    /// The nominees whose votes and first nomination are read, in the order
    /// of the list.
    pub gathered: Seq<Candidate>,
}

impl Count {
    /// The finalizer with its verdict named.
    pub open spec fn finished(self) -> Count {
        Count { step: Step::Finished, ..self }
    }

    /// The request for the votes of the nominee at `index` of the list.
    pub open spec fn ask_tally(self, index: int) -> Wish {
        Wish::Store(
            StoreOp::Read { key: Key::Tally { cycle: self.cycle, nominee: self.nominees[index] } },
        )
    }

    /// A finalizer started at `now`, and its first wish.
    pub open spec fn start(schedule: Schedule, now: u64) -> (Count, Wish) {
        let idle = Count {
            cycle: 0,
            now,
            step: Step::Finished,
            nominees: Seq::empty(),
            gathered: Seq::empty(),
        };
        match schedule.closed_at(now as int) {
            None => (idle, Wish::Done(Verdict::NotDue)),
            Some(cycle) => (
                Count { cycle: cycle as u64, step: Step::Guarding, ..idle },
                Wish::Store(
                    StoreOp::Claim { key: Key::Finalized { cycle: cycle as u64 }, value: now },
                ),
            ),
        }
    }

    /// The finalizer after the store answered, and its next wish.
    pub open spec fn on_reply(self, reply: ReplyView) -> (Count, Wish) {
        let cycle = self.cycle;
        let next = self.gathered.len() as int;
        match (self.step, reply) {
            (Step::Guarding, ReplyView::Flag(won)) => if won {
                (
                    Count { step: Step::Listing, ..self },
                    Wish::Store(StoreOp::Nominees { cycle }),
                )
            } else {
                (self.finished(), Wish::Done(Verdict::AlreadyFinalized))
            },
            (Step::Listing, ReplyView::Keys(keys)) => {
                let listed = Count { step: Step::Tally, nominees: nominees_in(cycle, keys), ..self };
                if listed.nominees.len() == 0 {
                    (listed.finished(), Wish::Done(Verdict::NoNominees))
                } else {
                    (listed, listed.ask_tally(0))
                }
            },
            (Step::Tally, ReplyView::Text(text)) => match amount(text, 0) {
                Some(tally) if next < self.nominees.len() => (
                    Count { step: Step::Since { tally }, ..self },
                    Wish::Store(
                        StoreOp::Read { key: Key::Since { cycle, nominee: self.nominees[next] } },
                    ),
                ),
                _ => (self.finished(), Wish::Done(Verdict::Failed)),
            },
            (Step::Since { tally }, ReplyView::Text(text)) => match amount(text, u64::MAX) {
                Some(since) if next < self.nominees.len() => {
                    let read = Count {
                        step: Step::Tally,
                        gathered: self.gathered.push(
                            Candidate { nominee: self.nominees[next], tally, since },
                        ),
                        ..self
                    };
                    if next + 1 < self.nominees.len() {
                        (read, read.ask_tally(next + 1))
                    } else {
                        match winner_of(read.gathered) {
                            Some(best) => (read.finished(), Wish::Done(Verdict::Winner(best))),
                            None => (read.finished(), Wish::Done(Verdict::Failed)),
                        }
                    }
                },
                _ => (self.finished(), Wish::Done(Verdict::Failed)),
            },
            _ => (self.finished(), Wish::Done(Verdict::Failed)),
        }
    }

    /// The finalizer after a collaborator failed, and its last word.
    pub open spec fn on_failure(self) -> (Count, Wish) {
        (self.finished(), Wish::Done(Verdict::Failed))
    }
}

/// How `nominee` stands in `cycle` by what the store holds: its votes, none
/// where no count is kept, and its first nomination, the latest instant there
/// is where none is kept. There is no standing where either key holds a set.
pub open spec fn standing_of(ledger: Ledger, cycle: u64, nominee: u64) -> Option<Candidate> {
    let tally = Key::Tally { cycle, nominee };
    let since = Key::Since { cycle, nominee };
    if has_set(ledger.members, tally) || has_set(ledger.members, since) {
        None
    } else {
        Some(
            Candidate {
                nominee,
                tally: match number_at(ledger.numbers, tally) {
                    Some(votes) => votes,
                    None => 0,
                },
                since: match number_at(ledger.numbers, since) {
                    Some(instant) => instant,
                    None => u64::MAX,
                },
            },
        )
    }
}

/// Whether every one of `nominees` has a standing.
pub open spec fn all_stand(ledger: Ledger, cycle: u64, nominees: Seq<u64>) -> bool {
    forall|i: int|
        0 <= i < nominees.len() ==> standing_of(ledger, cycle, #[trigger] nominees[i]) is Some
}

/// The standings of `nominees`, in order.
pub open spec fn standings(ledger: Ledger, cycle: u64, nominees: Seq<u64>) -> Seq<Candidate> {
    Seq::new(nominees.len(), |i: int| standing_of(ledger, cycle, nominees[i])->0)
}

/// What a finalizer started at `now` finds, and what becomes of the store.
///
/// Nothing is written unless a cycle is closed at `now` and its guard is not
/// there. Then the guard is written, and the verdict names the one of the
/// cycle's nominees that wins by their standings.
pub open spec fn verdict_of(schedule: Schedule, now: u64, ledger: Ledger) -> (Verdict, Ledger) {
    match schedule.closed_at(now as int) {
        None => (Verdict::NotDue, ledger),
        Some(start) => {
            let cycle = start as u64;
            let guard = Key::Finalized { cycle };
            let nominees = nominees_of(ledger.members, cycle);
            let sealed = ledger.with_number(guard, now);
            if ledger.holds(guard) {
                (Verdict::AlreadyFinalized, ledger)
            } else if nominees.len() == 0 {
                (Verdict::NoNominees, sealed)
            } else if !all_stand(sealed, cycle, nominees) {
                (Verdict::Failed, sealed)
            } else {
                match winner_of(standings(sealed, cycle, nominees)) {
                    Some(best) => (Verdict::Winner(best), sealed),
                    None => (Verdict::Failed, sealed),
                }
            }
        },
    }
}

/// The finalizer of one cycle.
#[derive(Debug)]
pub struct Finalizer {
    cycle: u64,
    now: u64,
    step: Step,
    nominees: Vec<u64>,
    gathered: Vec<Candidate>,
}

impl View for Finalizer {
    type V = Count;

    closed spec fn view(&self) -> Count {
        Count {
            cycle: self.cycle,
            now: self.now,
            step: self.step,
            nominees: self.nominees@,
            gathered: self.gathered@,
        }
    }
}

fn read_amount(text: Option<String>, absent: u64) -> (read: Option<u64>)
    ensures
        read == amount(
            match text {
                Some(written) => Some(written@),
                None => None,
            },
            absent,
        ),
{
    match text {
        None => Some(absent),
        Some(written) => {
            let chars: Vec<char> = chars_of(written.as_str());
            assert(chars@.subrange(0, chars.len() as int) =~= written@);
            read_number(&chars, 0, chars.len())
        },
    }
}

impl Finalizer {
    /// Starts at `now` and says what is to be done first.
    pub fn begin(schedule: &Schedule, now: u64) -> (started: (Finalizer, Wish))
        ensures
            (started.0@, started.1) == Count::start(*schedule, now),
    {
        let mut finalizer = Finalizer {
            cycle: 0,
            now,
            step: Step::Finished,
            nominees: Vec::new(),
            gathered: Vec::new(),
        };
        match schedule.closed_cycle(now) {
            None => (finalizer, Wish::Done(Verdict::NotDue)),
            Some(cycle) => {
                finalizer.cycle = cycle;
                finalizer.step = Step::Guarding;
                (
                    finalizer,
                    Wish::Store(StoreOp::Claim { key: Key::Finalized { cycle }, value: now }),
                )
            },
        }
    }

    /// Takes note of the answer of the store and says what is to be done
    /// next.
    pub fn store_replied(&mut self, reply: StoreReply) -> (wish: Wish)
        ensures
            (final(self)@, wish) == old(self)@.on_reply(reply@),
    {
        let cycle: u64 = self.cycle;
        let step: Step = self.step;
        let next: usize = self.gathered.len();
        let pending: bool = next < self.nominees.len();
        self.step = Step::Finished;
        match (step, reply) {
            (Step::Guarding, StoreReply::Flag(won)) => {
                if won {
                    self.step = Step::Listing;
                    Wish::Store(StoreOp::Nominees { cycle })
                } else {
                    Wish::Done(Verdict::AlreadyFinalized)
                }
            },
            (Step::Listing, StoreReply::Keys(keys)) => {
                self.nominees = nominees_of_keys(cycle, &keys);
                if self.nominees.len() == 0 {
                    Wish::Done(Verdict::NoNominees)
                } else {
                    self.step = Step::Tally;
                    Wish::Store(
                        StoreOp::Read { key: Key::Tally { cycle, nominee: self.nominees[0] } },
                    )
                }
            },
            (Step::Tally, StoreReply::Text(text)) => {
                let read: Option<u64> = read_amount(text, 0);
                if pending && read.is_some() {
                    self.step = Step::Since { tally: read.unwrap() };
                    Wish::Store(
                        StoreOp::Read { key: Key::Since { cycle, nominee: self.nominees[next] } },
                    )
                } else {
                    Wish::Done(Verdict::Failed)
                }
            },
            (Step::Since { tally }, StoreReply::Text(text)) => {
                let read: Option<u64> = read_amount(text, u64::MAX);
                if pending && read.is_some() {
                    let nominee: u64 = self.nominees[next];
                    self.gathered.push(Candidate { nominee, tally, since: read.unwrap() });
                    if next + 1 < self.nominees.len() {
                        self.step = Step::Tally;
                        Wish::Store(
                            StoreOp::Read {
                                key: Key::Tally { cycle, nominee: self.nominees[next + 1] },
                            },
                        )
                    } else {
                        match determine_winner(&self.gathered) {
                            Some(best) => Wish::Done(Verdict::Winner(best)),
                            None => Wish::Done(Verdict::Failed),
                        }
                    }
                } else {
                    Wish::Done(Verdict::Failed)
                }
            },
            _ => Wish::Done(Verdict::Failed),
        }
    }

    /// Takes note that a collaborator failed and gives the count up.
    pub fn failed(&mut self) -> (wish: Wish)
        ensures
            (final(self)@, wish) == old(self)@.on_failure(),
    {
        self.step = Step::Finished;
        Wish::Done(Verdict::Failed)
    }
}

/// Runs a finalizer at `now` from start to end against a store in memory and
/// names the verdict.
pub fn finalize(schedule: &Schedule, now: u64, store: &mut MemoryStore) -> (verdict: Verdict)
    ensures
        (verdict, final(store)@) == verdict_of(*schedule, now, old(store)@),
{
    let started = Finalizer::begin(schedule, now);
    let mut finalizer: Finalizer = started.0;
    let guard: StoreOp = match started.1 {
        Wish::Done(verdict) => {
            return verdict;
        },
        Wish::Store(op) => op,
    };
    let ghost cycle = finalizer@.cycle;
    let ghost nominees = nominees_of(store@.members, cycle);
    proof {
        lemma_cycle_is_latest_start(*schedule, now as int, 0);
    }
    let reply: StoreReply = store.apply(guard);
    let list: StoreOp = match finalizer.store_replied(reply) {
        Wish::Done(verdict) => {
            return verdict;
        },
        Wish::Store(op) => op,
    };
    let ghost sealed = store@;
    proof {
        lemma_keys_name_the_nominees(nominees, cycle);
    }
    let reply: StoreReply = store.apply(list);
    let mut read: StoreOp = match finalizer.store_replied(reply) {
        Wish::Done(verdict) => {
            return verdict;
        },
        Wish::Store(op) => op,
    };
    let ghost mut done: int = 0;
    assert(finalizer@.gathered =~= standings(sealed, cycle, nominees.take(0)));
    loop
        invariant
            schedule.closed_at(now as int) == Some(cycle as int),
            !old(store)@.holds(Key::Finalized { cycle }),
            sealed == old(store)@.with_number(Key::Finalized { cycle }, now),
            nominees == nominees_of(old(store)@.members, cycle),
            store@ == sealed,
            0 <= done < nominees.len(),
            finalizer@.cycle == cycle,
            finalizer@.step == Step::Tally,
            finalizer@.nominees == nominees,
            finalizer@.gathered == standings(sealed, cycle, nominees.take(done)),
            all_stand(sealed, cycle, nominees.take(done)),
            read == (StoreOp::Read { key: Key::Tally { cycle, nominee: nominees[done] } }),
        decreases nominees.len() - done,
    {
        let ghost nominee = nominees[done];
        let ghost tally_key = Key::Tally { cycle, nominee };
        let ghost since_key = Key::Since { cycle, nominee };
        proof {
            if number_at(sealed.numbers, tally_key) is Some {
                let votes = number_at(sealed.numbers, tally_key)->0;
                lemma_number_iff_decimal(decimal(votes as nat), votes);
            }
            if number_at(sealed.numbers, since_key) is Some {
                let instant = number_at(sealed.numbers, since_key)->0;
                lemma_number_iff_decimal(decimal(instant as nat), instant);
            }
            if standing_of(sealed, cycle, nominee) is None {
                assert(nominees[done] == nominee);
                assert(!all_stand(sealed, cycle, nominees));
            }
        }
        let reply: StoreReply = store.apply(read);
        let since: StoreOp = match finalizer.store_replied(reply) {
            Wish::Done(verdict) => {
                return verdict;
            },
            Wish::Store(op) => op,
        };
        let reply: StoreReply = store.apply(since);
        let wish: Wish = finalizer.store_replied(reply);
        proof {
            let longer = nominees.take(done + 1);
            assert(longer[done] == nominee);
            lemma_winner_wins(standings(sealed, cycle, longer));
            assert(standings(sealed, cycle, longer) =~= standings(
                sealed,
                cycle,
                nominees.take(done),
            ).push(standing_of(sealed, cycle, nominee)->0)) by {
                assert forall|i: int| 0 <= i < done implies longer[i] == nominees.take(done)[i] by {}
            }
            if standing_of(sealed, cycle, nominee) is Some {
                assert forall|i: int| 0 <= i < longer.len() implies standing_of(
                    sealed,
                    cycle,
                    #[trigger] longer[i],
                ) is Some by {
                    if i < done {
                        assert(longer[i] == nominees.take(done)[i]);
                    }
                }
            }
            if done + 1 == nominees.len() {
                assert(longer =~= nominees);
            }
            done = done + 1;
        }
        read = match wish {
            Wish::Done(verdict) => {
                return verdict;
            },
            Wish::Store(op) => op,
        };
    }
}

} // verus!
