//! The election store: what the coordinator asks of the shared store, what
//! the shared store answers, and a store in memory that answers the same way.
//!
//! Each request is one indivisible step of the shared store. Nothing in the
//! vocabulary removes a record, so whatever an election has written stays
//! written.

use vstd::prelude::*;
use vstd::string::*;
use crate::decimal::{decimal, push_decimal};
use crate::keys::{lemma_nominee_key_round_trip, nominees_in, texts_of, Key};

verus! {

/// The largest number the shared store counts up to.
pub const COUNTER_MAX: u64 = 0x7fff_ffff_ffff_ffff;

/// One request to the shared store.
#[derive(Clone, Copy, Debug, PartialEq, Eq, Structural)]
pub enum StoreOp {
    /// Add `member` to the set at `key` unless it is there; answered by a
    /// flag that says whether it was added.
    Add { key: Key, member: u64 },
    /// Write `value` at `key` unless the key exists; answered by a flag that
    /// says whether it was written.
    Claim { key: Key, value: u64 },
    /// Add one to the number at `key`, counting from zero where the key does
    /// not exist; answered by the new count.
    Increment { key: Key },
    /// Read the number at `key`; answered by its text, or by no text where the
    /// key does not exist.
    Read { key: Key },
    /// List the keys of the nomination sets of `cycle`; answered by the keys.
    Nominees { cycle: u64 },
}

/// One answer of the shared store.
#[derive(Clone, Debug, PartialEq, Eq)]
pub enum StoreReply {
    Flag(bool),
    Count(u64),
    Text(Option<String>),
    Keys(Vec<String>),
    /// The store could not do what was asked.
    Failed,
}

/// An answer as contracts see it.
pub ghost enum ReplyView {
    Flag(bool),
    Count(u64),
    Text(Option<Seq<char>>),
    Keys(Seq<Seq<char>>),
    Failed,
}

impl View for StoreReply {
    type V = ReplyView;

    open spec fn view(&self) -> ReplyView {
        match *self {
            StoreReply::Flag(flag) => ReplyView::Flag(flag),
            StoreReply::Count(count) => ReplyView::Count(count),
            StoreReply::Text(Some(text)) => ReplyView::Text(Some(text@)),
            StoreReply::Text(None) => ReplyView::Text(None),
            StoreReply::Keys(keys) => ReplyView::Keys(texts_of(keys@)),
            StoreReply::Failed => ReplyView::Failed,
        }
    }
}

/// What a store holds: the members of its sets, in the order they were added,
/// and the numbers written to it, in the order they were written. Of the
/// numbers written at one key the last one counts.
pub ghost struct Ledger {
    pub members: Seq<(Key, u64)>,
    pub numbers: Seq<(Key, u64)>,
}

/// The number at `key`.
pub open spec fn number_at(numbers: Seq<(Key, u64)>, key: Key) -> Option<u64>
    decreases numbers.len(),
{
    if numbers.len() == 0 {
        None
    } else if numbers.last().0 == key {
        Some(numbers.last().1)
    } else {
        number_at(numbers.drop_last(), key)
    }
}

/// Whether there is a set at `key`.
pub open spec fn has_set(members: Seq<(Key, u64)>, key: Key) -> bool {
    exists|i: int| 0 <= i < members.len() && (#[trigger] members[i]).0 == key
}

/// The members of the set at `key`, in the order they were added.
pub open spec fn members_at(members: Seq<(Key, u64)>, key: Key) -> Seq<u64>
    decreases members.len(),
{
    if members.len() == 0 {
        Seq::empty()
    } else {
        let before = members_at(members.drop_last(), key);
        if members.last().0 == key {
            before.push(members.last().1)
        } else {
            before
        }
    }
}

/// The nominees of `cycle`: everyone with a nomination set in that cycle,
/// in the order of their first nomination.
pub open spec fn nominees_of(members: Seq<(Key, u64)>, cycle: u64) -> Seq<u64>
    decreases members.len(),
{
    if members.len() == 0 {
        Seq::empty()
    } else {
        let before = nominees_of(members.drop_last(), cycle);
        match members.last().0 {
            Key::Nominee { cycle: c, nominee } => if c == cycle && !before.contains(nominee) {
                before.push(nominee)
            } else {
                before
            },
            _ => before,
        }
    }
}

/// The keys of the nomination sets of `nominees` in `cycle`.
pub open spec fn nominee_keys(nominees: Seq<u64>, cycle: u64) -> Seq<Seq<char>> {
    Seq::new(nominees.len(), |i: int| (Key::Nominee { cycle, nominee: nominees[i] }).text())
}

impl Ledger {
    /// The ledger of a store that nothing was written to.
    pub open spec fn empty() -> Ledger {
        Ledger { members: Seq::empty(), numbers: Seq::empty() }
    }

    /// Whether `key` exists, as a set or as a number.
    pub open spec fn holds(self, key: Key) -> bool {
        has_set(self.members, key) || number_at(self.numbers, key) is Some
    }

    /// The ledger after `member` was added to the set at `key`.
    pub open spec fn with_member(self, key: Key, member: u64) -> Ledger {
        Ledger { members: self.members.push((key, member)), numbers: self.numbers }
    }

    /// The ledger after `value` was written at `key`.
    pub open spec fn with_number(self, key: Key, value: u64) -> Ledger {
        Ledger { members: self.members, numbers: self.numbers.push((key, value)) }
    }

    /// What the store holds after `op`, and what it answers.
    pub open spec fn effect(self, op: StoreOp) -> (Ledger, ReplyView) {
        match op {
            StoreOp::Add { key, member } => if number_at(self.numbers, key) is Some {
                (self, ReplyView::Failed)
            } else if self.members.contains((key, member)) {
                (self, ReplyView::Flag(false))
            } else {
                (self.with_member(key, member), ReplyView::Flag(true))
            },
            StoreOp::Claim { key, value } => if self.holds(key) {
                (self, ReplyView::Flag(false))
            } else {
                (self.with_number(key, value), ReplyView::Flag(true))
            },
            StoreOp::Increment { key } => if has_set(self.members, key) {
                (self, ReplyView::Failed)
            } else {
                match number_at(self.numbers, key) {
                    None => (self.with_number(key, 1), ReplyView::Count(1)),
                    Some(count) => if count < COUNTER_MAX {
                        (
                            self.with_number(key, (count + 1) as u64),
                            ReplyView::Count((count + 1) as u64),
                        )
                    } else {
                        (self, ReplyView::Failed)
                    },
                }
            },
            StoreOp::Read { key } => if has_set(self.members, key) {
                (self, ReplyView::Failed)
            } else {
                match number_at(self.numbers, key) {
                    None => (self, ReplyView::Text(None)),
                    Some(value) => (self, ReplyView::Text(Some(decimal(value as nat)))),
                }
            },
            StoreOp::Nominees { cycle } => (
                self,
                ReplyView::Keys(nominee_keys(nominees_of(self.members, cycle), cycle)),
            ),
        }
    }
}

/// A store in memory that answers as the shared store does. It keeps what
/// was written in the order it was written and never overwrites: of the
/// numbers written at one key the last one counts.
#[derive(Debug)]
pub struct MemoryStore {
    members: Vec<(Key, u64)>,
    numbers: Vec<(Key, u64)>,
}

impl View for MemoryStore {
    type V = Ledger;

    closed spec fn view(&self) -> Ledger {
        Ledger { members: self.members@, numbers: self.numbers@ }
    }
}

impl MemoryStore {
    /// A store that holds nothing.
    pub fn new() -> (store: MemoryStore)
        ensures
            store@ == Ledger::empty(),
    {
        MemoryStore { members: Vec::new(), numbers: Vec::new() }
    }

    /// The number at `key`.
    pub fn number(&self, key: Key) -> (found: Option<u64>)
        ensures
            found == number_at(self@.numbers, key),
    {
        let mut i: usize = self.numbers.len();
        assert(self.numbers@.take(i as int) =~= self.numbers@);
        while i > 0
            invariant
                i <= self.numbers.len(),
                number_at(self.numbers@, key) == number_at(self.numbers@.take(i as int), key),
            decreases i,
        {
            i = i - 1;
            assert(self.numbers@.take(i + 1).last() == self.numbers@[i as int]);
            assert(self.numbers@.take(i + 1).drop_last() =~= self.numbers@.take(i as int));
            if self.numbers[i].0 == key {
                return Some(self.numbers[i].1);
            }
        }
        None
    }

    /// Whether there is a set at `key`.
    pub fn has_members(&self, key: Key) -> (found: bool)
        ensures
            found == has_set(self@.members, key),
    {
        let mut i: usize = 0;
        while i < self.members.len()
            invariant
                i <= self.members.len(),
                forall|k: int| 0 <= k < i ==> (#[trigger] self.members@[k]).0 != key,
            decreases self.members.len() - i,
        {
            if self.members[i].0 == key {
                return true;
            }
            i = i + 1;
        }
        false
    }

    /// Whether `member` is in the set at `key`.
    pub fn contains(&self, key: Key, member: u64) -> (found: bool)
        ensures
            found == self@.members.contains((key, member)),
    {
        let mut i: usize = 0;
        while i < self.members.len()
            invariant
                i <= self.members.len(),
                forall|k: int| 0 <= k < i ==> self.members@[k] != (key, member),
            decreases self.members.len() - i,
        {
            if self.members[i].0 == key && self.members[i].1 == member {
                return true;
            }
            i = i + 1;
        }
        false
    }

    /// The members of the set at `key`, in the order they were added.
    pub fn members_of(&self, key: Key) -> (found: Vec<u64>)
        ensures
            found@ == members_at(self@.members, key),
    {
        let mut found: Vec<u64> = Vec::new();
        let mut i: usize = 0;
        assert(self.members@.take(0) =~= Seq::<(Key, u64)>::empty());
        while i < self.members.len()
            invariant
                i <= self.members.len(),
                found@ == members_at(self.members@.take(i as int), key),
            decreases self.members.len() - i,
        {
            assert(self.members@.take(i + 1).last() == self.members@[i as int]);
            assert(self.members@.take(i + 1).drop_last() =~= self.members@.take(i as int));
            if self.members[i].0 == key {
                found.push(self.members[i].1);
            }
            i = i + 1;
        }
        assert(self.members@.take(i as int) =~= self.members@);
        found
    }

    /// The nominees of `cycle`, in the order of their first nomination.
    pub fn nominees(&self, cycle: u64) -> (found: Vec<u64>)
        ensures
            found@ == nominees_of(self@.members, cycle),
    {
        let mut found: Vec<u64> = Vec::new();
        let mut i: usize = 0;
        assert(self.members@.take(0) =~= Seq::<(Key, u64)>::empty());
        while i < self.members.len()
            invariant
                i <= self.members.len(),
                found@ == nominees_of(self.members@.take(i as int), cycle),
            decreases self.members.len() - i,
        {
            assert(self.members@.take(i + 1).last() == self.members@[i as int]);
            assert(self.members@.take(i + 1).drop_last() =~= self.members@.take(i as int));
            match self.members[i].0 {
                Key::Nominee { cycle: c, nominee } => {
                    if c == cycle && !holds_value(&found, nominee) {
                        found.push(nominee);
                    }
                },
                _ => {},
            }
            i = i + 1;
        }
        assert(self.members@.take(i as int) =~= self.members@);
        found
    }

    /// Does what `op` asks and answers as the shared store would.
    pub fn apply(&mut self, op: StoreOp) -> (reply: StoreReply)
        ensures
            (final(self)@, reply@) == old(self)@.effect(op),
    {
        match op {
            StoreOp::Add { key, member } => {
                if self.number(key).is_some() {
                    StoreReply::Failed
                } else if self.contains(key, member) {
                    StoreReply::Flag(false)
                } else {
                    self.members.push((key, member));
                    StoreReply::Flag(true)
                }
            },
            StoreOp::Claim { key, value } => {
                if self.has_members(key) || self.number(key).is_some() {
                    StoreReply::Flag(false)
                } else {
                    self.numbers.push((key, value));
                    StoreReply::Flag(true)
                }
            },
            StoreOp::Increment { key } => {
                if self.has_members(key) {
                    StoreReply::Failed
                } else {
                    match self.number(key) {
                        None => {
                            self.numbers.push((key, 1));
                            StoreReply::Count(1)
                        },
                        Some(count) => {
                            if count < COUNTER_MAX {
                                self.numbers.push((key, count + 1));
                                StoreReply::Count(count + 1)
                            } else {
                                StoreReply::Failed
                            }
                        },
                    }
                }
            },
            StoreOp::Read { key } => {
                if self.has_members(key) {
                    StoreReply::Failed
                } else {
                    match self.number(key) {
                        None => StoreReply::Text(None),
                        Some(value) => {
                            let mut text: String = String::new();
                            push_decimal(&mut text, value);
                            assert(text@ =~= decimal(value as nat));
                            StoreReply::Text(Some(text))
                        },
                    }
                }
            },
            StoreOp::Nominees { cycle } => {
                let nominees: Vec<u64> = self.nominees(cycle);
                let mut keys: Vec<String> = Vec::new();
                let mut i: usize = 0;
                while i < nominees.len()
                    invariant
                        i <= nominees.len(),
                        keys.len() == i,
                        forall|k: int|
                            0 <= k < i ==> (#[trigger] keys@[k])@ == (Key::Nominee {
                                cycle,
                                nominee: nominees@[k],
                            }).text(),
                    decreases nominees.len() - i,
                {
                    let key: Key = Key::Nominee { cycle, nominee: nominees[i] };
                    keys.push(key.render());
                    i = i + 1;
                }
                assert(texts_of(keys@) =~= nominee_keys(nominees@, cycle));
                StoreReply::Keys(keys)
            },
        }
    }
}

/// Reading the keys of the nomination sets of `nominees` gives the nominees
/// back.
pub proof fn lemma_keys_name_the_nominees(nominees: Seq<u64>, cycle: u64)
    ensures
        nominees_in(cycle, nominee_keys(nominees, cycle)) == nominees,
    decreases nominees.len(),
{
    let keys = nominee_keys(nominees, cycle);
    if nominees.len() > 0 {
        let before = nominees.drop_last();
        assert(keys.drop_last() =~= nominee_keys(before, cycle));
        lemma_keys_name_the_nominees(before, cycle);
        lemma_nominee_key_round_trip(cycle, nominees.last(), keys.last());
        assert(nominees_in(cycle, keys) =~= nominees);
    } else {
        assert(nominees_in(cycle, keys) =~= nominees);
    }
}

/// Whether `value` is among `values`.
pub fn holds_value(values: &Vec<u64>, value: u64) -> (found: bool)
    ensures
        found == values@.contains(value),
{
    let mut i: usize = 0;
    while i < values.len()
        invariant
            i <= values.len(),
            forall|k: int| 0 <= k < i ==> values@[k] != value,
        decreases values.len() - i,
    {
        if values[i] == value {
            return true;
        }
        i = i + 1;
    }
    false
}

} // verus!
