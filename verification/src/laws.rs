//! What holds of every election, whatever is asked of it and in whatever
//! order.

use vstd::prelude::*;
use crate::clock::Schedule;
use crate::command::Kind;
use crate::coordinator::{outcome_of, ActionView, Machine, Outcome};
use crate::directory::{resolve_in, Participant};
use crate::finalizer::{verdict_of, Count, Verdict};
use crate::keys::Key;
use crate::store::{has_set, members_at, nominees_of, number_at, Ledger, ReplyView, StoreOp};

verus! {

/// The votes counted for `nominee` in `cycle`.
pub open spec fn votes_for(ledger: Ledger, cycle: u64, nominee: u64) -> nat {
    match number_at(ledger.numbers, Key::Tally { cycle, nominee }) {
        Some(count) => count as nat,
        None => 0,
    }
}

/// Whether `actor` has voted in `cycle`.
pub open spec fn has_voted(ledger: Ledger, cycle: u64, actor: u64) -> bool {
    ledger.holds(Key::Voted { cycle, actor })
}

/// Whether `actor` has nominated in `cycle`.
pub open spec fn has_nominated(ledger: Ledger, cycle: u64, actor: u64) -> bool {
    ledger.holds(Key::Nominated { cycle, actor })
}

/// The number at a key is the one written last, and writing at one key
/// leaves the numbers at the other keys as they were.
pub proof fn lemma_number_written(numbers: Seq<(Key, u64)>, key: Key, value: u64, other: Key)
    ensures
        number_at(numbers.push((key, value)), other) == if other == key {
            Some(value)
        } else {
            number_at(numbers, other)
        },
{
    assert(numbers.push((key, value)).drop_last() =~= numbers);
}

/// A set exists once it has a member, and adding to one set leaves the others
/// as they were.
pub proof fn lemma_member_added(members: Seq<(Key, u64)>, key: Key, member: u64, other: Key)
    ensures
        has_set(members.push((key, member)), other) == (other == key || has_set(members, other)),
        forall|m: u64|
            members.push((key, member)).contains((other, m)) == ((other == key && m == member)
                || members.contains((other, m))),
{
    let longer = members.push((key, member));
    assert(longer[members.len() as int] == (key, member));
    if has_set(members, other) {
        let i = choose|i: int| 0 <= i < members.len() && (#[trigger] members[i]).0 == other;
        assert(longer[i].0 == other);
    }
    if has_set(longer, other) {
        let i = choose|i: int| 0 <= i < longer.len() && (#[trigger] longer[i]).0 == other;
        if i < members.len() {
            assert(members[i].0 == other);
        }
    }
    assert forall|m: u64|
        longer.contains((other, m)) == ((other == key && m == member) || members.contains(
            (other, m),
        )) by {
        if members.contains((other, m)) {
            let i = choose|i: int| 0 <= i < members.len() && members[i] == (other, m);
            assert(longer[i] == (other, m));
        }
        if longer.contains((other, m)) {
            let i = choose|i: int| 0 <= i < longer.len() && longer[i] == (other, m);
            if i < members.len() {
                assert(members[i] == (other, m));
            }
        }
    }
}

/// Nothing leaves the store: a key that exists before a request exists after
/// it, and a member of a set before a request is a member after it.
pub proof fn lemma_records_persist(ledger: Ledger, op: StoreOp, key: Key, member: u64)
    ensures
        ledger.holds(key) ==> ledger.effect(op).0.holds(key),
        ledger.members.contains((key, member)) ==> ledger.effect(op).0.members.contains(
            (key, member),
        ),
{
    let after = ledger.effect(op).0;
    match op {
        StoreOp::Add { key: k, member: m } => {
            lemma_member_added(ledger.members, k, m, key);
        },
        StoreOp::Claim { key: k, value } => {
            lemma_number_written(ledger.numbers, k, value, key);
        },
        StoreOp::Increment { key: k } => {
            lemma_number_written(ledger.numbers, k, 1, key);
            if number_at(ledger.numbers, k) is Some {
                let count = number_at(ledger.numbers, k)->0;
                lemma_number_written(ledger.numbers, k, (count + 1) as u64, key);
            }
        },
        _ => {},
    }
}

/// No set holds a member twice: if that is so before a request, it is so
/// after it, whatever the request and however often it is sent.
pub proof fn lemma_sets_hold_no_member_twice(ledger: Ledger, op: StoreOp)
    requires
        ledger.members.no_duplicates(),
    ensures
        ledger.effect(op).0.members.no_duplicates(),
{
    match op {
        StoreOp::Add { key, member } => {
            let after = ledger.effect(op).0.members;
            if after != ledger.members {
                assert forall|i: int, j: int|
                    0 <= i < after.len() && 0 <= j < after.len() && i != j implies after[i]
                    != after[j] by {
                    if i < ledger.members.len() {
                        assert(ledger.members[i] == after[i]);
                    }
                    if j < ledger.members.len() {
                        assert(ledger.members[j] == after[j]);
                    }
                }
            }
        },
        _ => {},
    }
}

/// A set holds each of its members once, where the store holds no member of a
/// set twice.
pub proof fn lemma_no_member_twice_in_a_set(members: Seq<(Key, u64)>, key: Key)
    requires
        members.no_duplicates(),
    ensures
        members_at(members, key).no_duplicates(),
        forall|member: u64|
            members_at(members, key).contains(member) <==> members.contains((key, member)),
    decreases members.len(),
{
    if members.len() > 0 {
        let before = members.drop_last();
        let last = members.last();
        lemma_no_member_twice_in_a_set(before, key);
        assert(members =~= before.push(last));
        lemma_member_added(before, last.0, last.1, key);
        let listed = members_at(members, key);
        let listed_before = members_at(before, key);
        assert forall|member: u64|
            listed.contains(member) <==> members.contains((key, member)) by {
            if listed_before.contains(member) {
                let i = choose|i: int| 0 <= i < listed_before.len() && listed_before[i] == member;
                assert(listed[i] == member);
            }
            if last.0 == key {
                assert(listed[listed.len() - 1] == last.1);
            }
            if listed.contains(member) {
                let i = choose|i: int| 0 <= i < listed.len() && listed[i] == member;
                if i < listed_before.len() {
                    assert(listed_before[i] == member);
                }
            }
        }
        if last.0 == key {
            assert(!before.contains(last)) by {
                if before.contains(last) {
                    let i = choose|i: int| 0 <= i < before.len() && before[i] == last;
                    assert(members[i] == members[members.len() - 1]);
                }
            }
            assert forall|i: int, j: int|
                0 <= i < listed.len() && 0 <= j < listed.len() && i != j implies listed[i]
                != listed[j] by {
                if i < listed_before.len() {
                    assert(listed_before[i] == listed[i]);
                    assert(listed_before.contains(listed[i]));
                }
                if j < listed_before.len() {
                    assert(listed_before[j] == listed[j]);
                    assert(listed_before.contains(listed[j]));
                }
            }
        }
    }
}

/// A marker is written once: the request to write it is answered with yes
/// exactly when the key does not exist, the key exists afterwards, and a
/// second request, at once or after any other request, is answered with no.
pub proof fn lemma_claimed_once(ledger: Ledger, key: Key, value: u64, between: StoreOp, again: u64)
    ensures
        ledger.effect(StoreOp::Claim { key, value }).1 == ReplyView::Flag(
            !ledger.holds(key),
        ),
        ledger.effect(StoreOp::Claim { key, value }).0.holds(key),
        ledger.effect(StoreOp::Claim { key, value }).0.effect(StoreOp::Claim { key, value: again }).1
            == ReplyView::Flag(false),
        ledger.effect(StoreOp::Claim { key, value }).0.effect(between).0.effect(
            StoreOp::Claim { key, value: again },
        ).1 == ReplyView::Flag(false),
{
    let claimed = ledger.effect(StoreOp::Claim { key, value }).0;
    lemma_number_written(ledger.numbers, key, value, key);
    lemma_records_persist(claimed, between, key, 0);
}

/// What the store holds after `ops`, one after the other. Requests of several
/// coordinators that run side by side reach the store as one such sequence,
/// in whatever order they arrive.
pub open spec fn after_all(ledger: Ledger, ops: Seq<StoreOp>) -> Ledger
    decreases ops.len(),
{
    if ops.len() == 0 {
        ledger
    } else {
        after_all(ledger, ops.drop_last()).effect(ops.last()).0
    }
}

/// Whatever requests arrive, in whatever order: a key that exists stays, a
/// member of a set stays, and no set comes to hold a member twice.
pub proof fn lemma_records_outlast_requests(
    ledger: Ledger,
    ops: Seq<StoreOp>,
    key: Key,
    member: u64,
)
    ensures
        ledger.holds(key) ==> after_all(ledger, ops).holds(key),
        ledger.members.contains((key, member)) ==> after_all(ledger, ops).members.contains(
            (key, member),
        ),
        ledger.members.no_duplicates() ==> after_all(ledger, ops).members.no_duplicates(),
    decreases ops.len(),
{
    if ops.len() > 0 {
        let before = after_all(ledger, ops.drop_last());
        lemma_records_outlast_requests(ledger, ops.drop_last(), key, member);
        lemma_records_persist(before, ops.last(), key, member);
        if before.members.no_duplicates() {
            lemma_sets_hold_no_member_twice(before, ops.last());
        }
    }
}

/// Of all who try to write a marker, one succeeds: once a request to write
/// it was made, every later request to write it is answered with no, whatever
/// requests arrived between the two.
pub proof fn lemma_one_claim_wins(
    ledger: Ledger,
    key: Key,
    first: u64,
    between: Seq<StoreOp>,
    second: u64,
)
    ensures
        after_all(ledger.effect(StoreOp::Claim { key, value: first }).0, between).effect(
            StoreOp::Claim { key, value: second },
        ).1 == ReplyView::Flag(false),
{
    let claimed = ledger.effect(StoreOp::Claim { key, value: first }).0;
    lemma_number_written(ledger.numbers, key, first, key);
    lemma_records_outlast_requests(claimed, between, key, 0);
}

/// Only the one who wrote the marker writes on: a coordinator that waits to
/// hear of its marker asks the store for something more exactly when the
/// answer is yes. So does a finalizer that waits to hear of its guard.
pub proof fn lemma_only_the_winner_writes(
    machine: Machine,
    count: Count,
    reply: crate::store::ReplyView,
)
    ensures
        machine.stage is Claiming ==> (machine.on_reply(reply).1 is Store <==> reply
            == ReplyView::Flag(true)),
        count.step is Guarding ==> (count.on_reply(reply).1 is Store <==> reply
            == ReplyView::Flag(true)),
{
}

/// Those listed as nominees of a cycle are those with a nomination set in it.
pub proof fn lemma_nominees_are_the_nominated(members: Seq<(Key, u64)>, cycle: u64, nominee: u64)
    ensures
        nominees_of(members, cycle).contains(nominee) <==> has_set(
            members,
            Key::Nominee { cycle, nominee },
        ),
        nominees_of(members, cycle).no_duplicates(),
    decreases members.len(),
{
    let key = Key::Nominee { cycle, nominee };
    if members.len() > 0 {
        let before = members.drop_last();
        let last = members.last();
        lemma_nominees_are_the_nominated(before, cycle, nominee);
        let listed = nominees_of(members, cycle);
        let listed_before = nominees_of(before, cycle);
        assert(members =~= before.push(last));
        lemma_member_added(before, last.0, last.1, key);
        if listed != listed_before {
            assert(listed == listed_before.push(listed.last()));
            assert(listed[listed.len() - 1] == listed.last());
            assert forall|i: int, j: int|
                0 <= i < listed.len() && 0 <= j < listed.len() && i != j implies listed[i]
                != listed[j] by {
                if i < listed_before.len() {
                    assert(listed_before[i] == listed[i]);
                }
                if j < listed_before.len() {
                    assert(listed_before[j] == listed[j]);
                }
            }
        }
        if listed_before.contains(nominee) {
            let i = choose|i: int| 0 <= i < listed_before.len() && listed_before[i] == nominee;
            assert(listed[i] == nominee);
        }
        if listed.contains(nominee) && !listed_before.contains(nominee) {
            let i = choose|i: int| 0 <= i < listed.len() && listed[i] == nominee;
            if i < listed_before.len() {
                assert(listed_before[i] == nominee);
            }
        }
    }
}

/// However often a nomination is delivered, the actor is in the nominee's set
/// at most once: requests keep every set free of repetitions.
pub proof fn lemma_requests_keep_sets_free_of_repetitions(
    schedule: Schedule,
    action: ActionView,
    now: u64,
    members: Seq<Participant>,
    ledger: Ledger,
)
    requires
        ledger.members.no_duplicates(),
    ensures
        outcome_of(schedule, action, now, members, ledger).1.members.no_duplicates(),
{
    let after = outcome_of(schedule, action, now, members, ledger).1.members;
    if after != ledger.members {
        let target = resolve_in(action.target, members)->0;
        let added = (Key::Nominee { cycle: action.cycle, nominee: target }, action.actor);
        assert(after == ledger.members.push(added));
        assert forall|i: int, j: int|
            0 <= i < after.len() && 0 <= j < after.len() && i != j implies after[i]
            != after[j] by {
            if i < ledger.members.len() {
                assert(ledger.members[i] == after[i]);
            }
            if j < ledger.members.len() {
                assert(ledger.members[j] == after[j]);
            }
        }
    }
}

/// A participant nominates once in a cycle. The first nomination that is
/// recorded writes the actor's marker; with the marker there, a nomination by
/// the same actor in the same cycle is never recorded and leaves the store as
/// it was, whomever it names and whenever it comes.
pub proof fn lemma_nominates_once(
    schedule: Schedule,
    action: ActionView,
    now: u64,
    members: Seq<Participant>,
    ledger: Ledger,
)
    requires
        action.kind == Kind::Nominate,
    ensures
        has_nominated(ledger, action.cycle, action.actor) ==> outcome_of(
            schedule,
            action,
            now,
            members,
            ledger,
        ).1 == ledger && outcome_of(schedule, action, now, members, ledger).0 != Outcome::Nominated,
        outcome_of(schedule, action, now, members, ledger).0 == Outcome::Nominated ==> {
            let after = outcome_of(schedule, action, now, members, ledger).1;
            &&& resolve_in(action.target, members) matches Some(target)
            &&& !has_nominated(ledger, action.cycle, action.actor)
            &&& has_nominated(after, action.cycle, action.actor)
            &&& after.members.contains(
                (Key::Nominee { cycle: action.cycle, nominee: target }, action.actor),
            )
            &&& nominees_of(after.members, action.cycle).contains(target)
        },
{
    let result = outcome_of(schedule, action, now, members, ledger);
    if result.0 == Outcome::Nominated {
        let target = resolve_in(action.target, members)->0;
        let cycle = action.cycle;
        let actor = action.actor;
        let marker = Key::Nominated { cycle, actor };
        let set = Key::Nominee { cycle, nominee: target };
        let since = Key::Since { cycle, nominee: target };
        lemma_number_written(ledger.numbers, marker, target, marker);
        lemma_member_added(ledger.members, set, actor, set);
        let recorded = ledger.with_number(marker, target).with_member(set, actor);
        lemma_number_written(recorded.numbers, since, now, marker);
        lemma_nominees_are_the_nominated(result.1.members, cycle, target);
    }
}

/// A participant votes once in a cycle: the marker goes from absent to
/// present exactly when a vote is counted, and never back. With the marker
/// there, a vote by the same actor in the same cycle is never counted and
/// leaves the store as it was, whomever it names and whenever it comes.
pub proof fn lemma_votes_once(
    schedule: Schedule,
    action: ActionView,
    now: u64,
    members: Seq<Participant>,
    ledger: Ledger,
)
    requires
        action.kind == Kind::Vote,
    ensures
        has_voted(ledger, action.cycle, action.actor) ==> outcome_of(
            schedule,
            action,
            now,
            members,
            ledger,
        ).1 == ledger && !(outcome_of(schedule, action, now, members, ledger).0 is Voted),
        outcome_of(schedule, action, now, members, ledger).0 matches Outcome::Voted { tally } ==> {
            let after = outcome_of(schedule, action, now, members, ledger).1;
            &&& resolve_in(action.target, members) matches Some(target)
            &&& !has_voted(ledger, action.cycle, action.actor)
            &&& has_voted(after, action.cycle, action.actor)
            &&& votes_for(after, action.cycle, target) == votes_for(ledger, action.cycle, target) + 1
            &&& tally == votes_for(after, action.cycle, target)
            &&& forall|other: u64|
                other != target ==> votes_for(after, action.cycle, other) == votes_for(
                    ledger,
                    action.cycle,
                    other,
                )
        },
        has_voted(ledger, action.cycle, action.actor) ==> has_voted(
            outcome_of(schedule, action, now, members, ledger).1,
            action.cycle,
            action.actor,
        ),
{
    let result = outcome_of(schedule, action, now, members, ledger);
    if result.0 is Voted {
        let target = resolve_in(action.target, members)->0;
        let cycle = action.cycle;
        let marker = Key::Voted { cycle, actor: action.actor };
        let tally = Key::Tally { cycle, nominee: target };
        let claimed = ledger.with_number(marker, target);
        let count = result.0->tally;
        lemma_number_written(ledger.numbers, marker, target, marker);
        lemma_number_written(ledger.numbers, marker, target, tally);
        lemma_number_written(claimed.numbers, tally, count, tally);
        lemma_number_written(claimed.numbers, tally, count, marker);
        assert forall|other: u64| other != target implies votes_for(result.1, cycle, other)
            == votes_for(ledger, cycle, other) by {
            let key = Key::Tally { cycle, nominee: other };
            lemma_number_written(ledger.numbers, marker, target, key);
            lemma_number_written(claimed.numbers, tally, count, key);
        }
    }
}

/// A vote is counted for nominees only: when the target is no nominee of the
/// cycle, the vote is turned down, or dropped before that, and the store is
/// left as it was; a vote that is counted names a nominee.
pub proof fn lemma_votes_go_to_nominees(
    schedule: Schedule,
    action: ActionView,
    now: u64,
    members: Seq<Participant>,
    ledger: Ledger,
)
    requires
        action.kind == Kind::Vote,
    ensures
        (resolve_in(action.target, members) matches Some(target) && !has_set(
            ledger.members,
            Key::Nominee { cycle: action.cycle, nominee: target },
        )) ==> {
            &&& outcome_of(schedule, action, now, members, ledger).1 == ledger
            &&& outcome_of(schedule, action, now, members, ledger).0 == Outcome::Inadmissible
                || outcome_of(schedule, action, now, members, ledger).0 == Outcome::NotNominee
        },
        outcome_of(schedule, action, now, members, ledger).0 is Voted ==> has_set(
            ledger.members,
            Key::Nominee { cycle: action.cycle, nominee: resolve_in(action.target, members)->0 },
        ),
{
    if resolve_in(action.target, members) is Some {
        lemma_nominees_are_the_nominated(
            ledger.members,
            action.cycle,
            resolve_in(action.target, members)->0,
        );
    }
}

/// A request that comes outside its phase, or for another cycle than the
/// current one, is dropped and leaves the store as it was.
pub proof fn lemma_inadmissible_requests_are_dropped(
    schedule: Schedule,
    action: ActionView,
    now: u64,
    members: Seq<Participant>,
    ledger: Ledger,
)
    requires
        !crate::coordinator::admits(schedule, action.kind, action.cycle, now),
    ensures
        outcome_of(schedule, action, now, members, ledger) == (Outcome::Inadmissible, ledger),
{
}

/// A cycle is counted once. With the guard of the closed cycle there, a
/// finalizer names no winner and leaves the store as it was; a finalizer that
/// counts finds the guard absent and leaves it present, so that every later
/// finalizer of the cycle, at whatever instant, finds it.
pub proof fn lemma_finalized_once(schedule: Schedule, now: u64, later: u64, ledger: Ledger)
    ensures
        schedule.closed_at(now as int) matches Some(cycle) ==> {
            let guard = Key::Finalized { cycle: cycle as u64 };
            let first = verdict_of(schedule, now, ledger);
            &&& ledger.holds(guard) ==> first == (Verdict::AlreadyFinalized, ledger)
            &&& !ledger.holds(guard) ==> first.0 != Verdict::AlreadyFinalized && first.1
                == ledger.with_number(guard, now)
            &&& first.1.holds(guard)
            &&& schedule.closed_at(later as int) == Some(cycle) ==> verdict_of(
                schedule,
                later,
                first.1,
            ) == (Verdict::AlreadyFinalized, first.1)
        },
        schedule.closed_at(now as int) is None ==> verdict_of(schedule, now, ledger) == (
            Verdict::NotDue,
            ledger,
        ),
{
    if schedule.closed_at(now as int) is Some {
        let guard = Key::Finalized { cycle: schedule.closed_at(now as int)->0 as u64 };
        lemma_number_written(ledger.numbers, guard, now, guard);
    }
}

} // verus!
