use khaos_control::clock::Schedule;
use khaos_control::command::{Kind, Token};
use khaos_control::coordinator::{dispatch, run, Action, Outcome};
use khaos_control::directory::Participant;
use khaos_control::finalizer::{finalize, Verdict};
use khaos_control::keys::Key;
use khaos_control::store::MemoryStore;
use khaos_control::tally::{determine_winner, outranks, Candidate};

const T0: u64 = 1_700_000_000;
const DAY: u64 = 86_400;
const A: u64 = 1001;
const B: u64 = 1002;
const C: u64 = 1003;
const U1: u64 = 1;
const U2: u64 = 2;
const U3: u64 = 3;

fn fortnightly() -> Schedule {
    Schedule { epoch: T0, interval: 14 * DAY, nomination: 7 * DAY, total: 10 * DAY }
}

fn community() -> Vec<Participant> {
    vec![
        Participant { id: A, name: "alice".to_string() },
        Participant { id: B, name: "bob".to_string() },
        Participant { id: C, name: "carol".to_string() },
        Participant { id: U1, name: "uno".to_string() },
        Participant { id: U2, name: "duo".to_string() },
        Participant { id: U3, name: "tre".to_string() },
    ]
}

fn say(store: &mut MemoryStore, author: u64, content: &str, now: u64) -> Option<Outcome> {
    let schedule = fortnightly();
    let action = dispatch("!", &schedule, content, author, now)?;
    Some(run(schedule, action, now, &community(), store))
}

#[test]
fn nomination_is_recorded_once_per_actor() {
    let mut store = MemoryStore::new();
    let now = T0 + DAY;
    assert_eq!(say(&mut store, U1, "!nominate <@1001>", now), Some(Outcome::Nominated));
    assert_eq!(say(&mut store, U1, "!nominate <@1001>", now), Some(Outcome::AlreadyNominated));
    assert_eq!(say(&mut store, U2, "!nominate <@1001>", now), Some(Outcome::Nominated));
    assert_eq!(store.members_of(Key::Nominee { cycle: T0, nominee: A }), vec![U1, U2]);
    assert_eq!(store.nominees(T0), vec![A]);
}

#[test]
fn nomination_delivered_many_times_counts_once() {
    let mut store = MemoryStore::new();
    let mut now = T0;
    let mut recorded = 0;
    while now < T0 + 7 * DAY {
        if say(&mut store, U1, "!nominate alice", now) == Some(Outcome::Nominated) {
            recorded += 1;
        }
        now += DAY / 2;
    }
    assert_eq!(recorded, 1);
    assert_eq!(store.members_of(Key::Nominee { cycle: T0, nominee: A }), vec![U1]);
    assert!(store.contains(Key::Nominee { cycle: T0, nominee: A }, U1));
}

#[test]
fn an_actor_nominates_one_candidate_per_cycle() {
    let mut store = MemoryStore::new();
    assert_eq!(say(&mut store, U1, "!nominate alice", T0 + DAY), Some(Outcome::Nominated));
    assert_eq!(say(&mut store, U1, "!nominate bob", T0 + 2 * DAY), Some(Outcome::AlreadyNominated));
    assert_eq!(store.nominees(T0), vec![A]);
    assert!(!store.has_members(Key::Nominee { cycle: T0, nominee: B }));
    assert_eq!(store.number(Key::Nominated { cycle: T0, actor: U1 }), Some(A));
}

#[test]
fn actors_may_nominate_themselves() {
    let mut store = MemoryStore::new();
    assert_eq!(say(&mut store, U1, "!nominate uno", T0 + DAY), Some(Outcome::Nominated));
    assert_eq!(store.nominees(T0), vec![U1]);
}

#[test]
fn first_nomination_is_dated_once() {
    let mut store = MemoryStore::new();
    assert_eq!(say(&mut store, U1, "!nominate alice", T0 + DAY), Some(Outcome::Nominated));
    assert_eq!(say(&mut store, U2, "!nominate alice", T0 + 3 * DAY), Some(Outcome::Nominated));
    assert_eq!(store.number(Key::Since { cycle: T0, nominee: A }), Some(T0 + DAY));
}

#[test]
fn unknown_target_is_passed_over() {
    let mut store = MemoryStore::new();
    assert_eq!(say(&mut store, U1, "!nominate nobody", T0 + DAY), Some(Outcome::Unresolved));
    assert_eq!(say(&mut store, U1, "!nominate <@77>", T0 + DAY), Some(Outcome::Unresolved));
    assert_eq!(store.nominees(T0), Vec::<u64>::new());
    assert_eq!(store.number(Key::Nominated { cycle: T0, actor: U1 }), None);
    assert_eq!(say(&mut store, U1, "!nominate alice", T0 + DAY), Some(Outcome::Nominated));
}

#[test]
fn vote_is_counted_once_per_actor() {
    let mut store = MemoryStore::new();
    assert_eq!(say(&mut store, U2, "!nominate <@1001>", T0 + DAY), Some(Outcome::Nominated));
    let now = T0 + 8 * DAY;
    assert_eq!(say(&mut store, U1, "!vote <@1001>", now), Some(Outcome::Voted { tally: 1 }));
    assert_eq!(store.number(Key::Tally { cycle: T0, nominee: A }), Some(1));
    assert_eq!(say(&mut store, U1, "!vote <@1002>", now), Some(Outcome::NotNominee));
    assert_eq!(say(&mut store, U1, "!vote <@1001>", now), Some(Outcome::AlreadyVoted));
    assert_eq!(store.number(Key::Tally { cycle: T0, nominee: A }), Some(1));
    assert_eq!(store.number(Key::Tally { cycle: T0, nominee: B }), None);
    assert_eq!(say(&mut store, U2, "!vote alice", now), Some(Outcome::Voted { tally: 2 }));
    assert_eq!(store.number(Key::Tally { cycle: T0, nominee: A }), Some(2));
}

#[test]
fn second_vote_is_turned_down_whatever_its_target() {
    let mut store = MemoryStore::new();
    say(&mut store, U1, "!nominate alice", T0 + DAY);
    say(&mut store, U2, "!nominate bob", T0 + DAY);
    let now = T0 + 8 * DAY;
    assert_eq!(say(&mut store, U1, "!vote alice", now), Some(Outcome::Voted { tally: 1 }));
    assert_eq!(say(&mut store, U1, "!vote bob", now + 5), Some(Outcome::AlreadyVoted));
    assert_eq!(say(&mut store, U1, "!vote alice", now + 9), Some(Outcome::AlreadyVoted));
    assert_eq!(store.number(Key::Tally { cycle: T0, nominee: A }), Some(1));
    assert_eq!(store.number(Key::Tally { cycle: T0, nominee: B }), None);
    assert_eq!(store.number(Key::Voted { cycle: T0, actor: U1 }), Some(A));
}

#[test]
fn vote_for_someone_not_nominated_is_never_counted() {
    let mut store = MemoryStore::new();
    say(&mut store, U1, "!nominate alice", T0 + DAY);
    let now = T0 + 8 * DAY;
    assert_eq!(say(&mut store, U1, "!vote bob", now), Some(Outcome::NotNominee));
    assert_eq!(say(&mut store, U2, "!vote <@1003>", now), Some(Outcome::NotNominee));
    assert_eq!(store.number(Key::Tally { cycle: T0, nominee: B }), None);
    assert_eq!(store.number(Key::Tally { cycle: T0, nominee: C }), None);
    assert_eq!(store.number(Key::Voted { cycle: T0, actor: U1 }), None);
    assert_eq!(say(&mut store, U1, "!vote alice", now), Some(Outcome::Voted { tally: 1 }));
}

#[test]
fn nominees_of_an_earlier_cycle_are_no_nominees() {
    let mut store = MemoryStore::new();
    say(&mut store, U1, "!nominate alice", T0 + DAY);
    let next = T0 + 14 * DAY;
    assert_eq!(say(&mut store, U1, "!nominate bob", next + DAY), Some(Outcome::Nominated));
    assert_eq!(say(&mut store, U2, "!vote alice", next + 8 * DAY), Some(Outcome::NotNominee));
    assert_eq!(say(&mut store, U2, "!vote bob", next + 8 * DAY), Some(Outcome::Voted { tally: 1 }));
    assert_eq!(store.nominees(T0), vec![A]);
    assert_eq!(store.nominees(next), vec![B]);
}

#[test]
fn requests_outside_their_phase_are_dropped() {
    let mut store = MemoryStore::new();
    say(&mut store, U1, "!nominate alice", T0 + DAY);
    let idle = T0 + 11 * DAY;
    assert_eq!(say(&mut store, U2, "!nominate alice", idle), Some(Outcome::Inadmissible));
    assert_eq!(say(&mut store, U2, "!vote alice", idle), Some(Outcome::Inadmissible));
    assert_eq!(say(&mut store, U2, "!vote alice", T0 + DAY), Some(Outcome::Inadmissible));
    assert_eq!(say(&mut store, U2, "!nominate alice", T0 + 8 * DAY), Some(Outcome::Inadmissible));
    assert_eq!(store.members_of(Key::Nominee { cycle: T0, nominee: A }), vec![U1]);
    assert_eq!(store.number(Key::Nominated { cycle: T0, actor: U2 }), None);
    assert_eq!(store.number(Key::Voted { cycle: T0, actor: U2 }), None);
    assert_eq!(store.number(Key::Tally { cycle: T0, nominee: A }), None);
}

#[test]
fn request_for_a_cycle_that_has_passed_is_dropped() {
    let mut store = MemoryStore::new();
    let schedule = fortnightly();
    let action = Action { kind: Kind::Nominate, actor: U1, cycle: T0, target: Token::Mention(A) };
    assert_eq!(run(schedule, action, T0 + 15 * DAY, &community(), &mut store), Outcome::Inadmissible);
    assert_eq!(store.nominees(T0), Vec::<u64>::new());
    assert_eq!(store.nominees(T0 + 14 * DAY), Vec::<u64>::new());
}

#[test]
fn messages_become_requests() {
    let schedule = fortnightly();
    assert_eq!(
        dispatch("!", &schedule, "!nominate <@1001>", U1, T0 + DAY),
        Some(Action { kind: Kind::Nominate, actor: U1, cycle: T0, target: Token::Mention(A) })
    );
    assert_eq!(
        dispatch("!", &schedule, "!vote alice now", U2, T0 + 20 * DAY),
        Some(Action {
            kind: Kind::Vote,
            actor: U2,
            cycle: T0 + 14 * DAY,
            target: Token::Name("alice".to_string()),
        })
    );
    assert_eq!(dispatch("!", &schedule, "hello there", U1, T0 + DAY), None);
    assert_eq!(dispatch("!", &schedule, "!nominate <@0>", U1, T0 + DAY), None);
    assert_eq!(dispatch("!", &schedule, "!nominate alice", U1, T0 - 1), None);
}

#[test]
fn tie_goes_to_the_one_nominated_first() {
    let mut store = MemoryStore::new();
    assert_eq!(say(&mut store, U1, "!nominate bob", T0 + 2 * DAY), Some(Outcome::Nominated));
    assert_eq!(say(&mut store, U2, "!nominate alice", T0 + DAY), Some(Outcome::Nominated));
    assert_eq!(say(&mut store, U1, "!vote alice", T0 + 8 * DAY), Some(Outcome::Voted { tally: 1 }));
    assert_eq!(say(&mut store, U2, "!vote bob", T0 + 8 * DAY), Some(Outcome::Voted { tally: 1 }));
    let schedule = fortnightly();
    assert_eq!(
        finalize(&schedule, T0 + 10 * DAY, &mut store),
        Verdict::Winner(Candidate { nominee: A, tally: 1, since: T0 + DAY })
    );
}

#[test]
fn most_votes_win() {
    let mut store = MemoryStore::new();
    say(&mut store, U1, "!nominate alice", T0 + DAY);
    say(&mut store, U2, "!nominate bob", T0 + 2 * DAY);
    say(&mut store, U3, "!nominate carol", T0 + 3 * DAY);
    say(&mut store, U1, "!vote bob", T0 + 8 * DAY);
    say(&mut store, U2, "!vote bob", T0 + 8 * DAY);
    say(&mut store, U3, "!vote alice", T0 + 8 * DAY);
    let schedule = fortnightly();
    assert_eq!(
        finalize(&schedule, T0 + 12 * DAY, &mut store),
        Verdict::Winner(Candidate { nominee: B, tally: 2, since: T0 + 2 * DAY })
    );
}

#[test]
fn without_votes_the_first_nominee_wins() {
    let mut store = MemoryStore::new();
    say(&mut store, U1, "!nominate bob", T0 + DAY);
    say(&mut store, U2, "!nominate alice", T0 + 2 * DAY);
    let schedule = fortnightly();
    assert_eq!(
        finalize(&schedule, T0 + 10 * DAY, &mut store),
        Verdict::Winner(Candidate { nominee: B, tally: 0, since: T0 + DAY })
    );
}

#[test]
fn cycle_is_finalized_once() {
    let mut store = MemoryStore::new();
    say(&mut store, U1, "!nominate alice", T0 + DAY);
    say(&mut store, U1, "!vote alice", T0 + 8 * DAY);
    let schedule = fortnightly();
    assert_eq!(finalize(&schedule, T0 + 10 * DAY - 1, &mut store), Verdict::NotDue);
    assert_eq!(store.number(Key::Finalized { cycle: T0 }), None);
    assert_eq!(
        finalize(&schedule, T0 + 10 * DAY, &mut store),
        Verdict::Winner(Candidate { nominee: A, tally: 1, since: T0 + DAY })
    );
    assert_eq!(store.number(Key::Finalized { cycle: T0 }), Some(T0 + 10 * DAY));
    assert_eq!(finalize(&schedule, T0 + 10 * DAY, &mut store), Verdict::AlreadyFinalized);
    assert_eq!(finalize(&schedule, T0 + 13 * DAY, &mut store), Verdict::AlreadyFinalized);
    assert_eq!(store.number(Key::Finalized { cycle: T0 }), Some(T0 + 10 * DAY));
    assert_eq!(finalize(&schedule, T0 + 14 * DAY, &mut store), Verdict::NotDue);
}

#[test]
fn cycle_without_nominees_has_no_winner() {
    let mut store = MemoryStore::new();
    say(&mut store, U1, "!nominate alice", T0 + DAY);
    let schedule = fortnightly();
    assert_eq!(finalize(&schedule, T0 + 25 * DAY, &mut store), Verdict::NoNominees);
    assert_eq!(finalize(&schedule, T0 + 25 * DAY, &mut store), Verdict::AlreadyFinalized);
    assert_eq!(store.number(Key::Finalized { cycle: T0 }), None);
    assert_eq!(store.number(Key::Finalized { cycle: T0 + 14 * DAY }), Some(T0 + 25 * DAY));
}

#[test]
fn nothing_is_finalized_before_the_epoch() {
    let mut store = MemoryStore::new();
    assert_eq!(finalize(&fortnightly(), T0 - 1, &mut store), Verdict::NotDue);
}

fn candidate(nominee: u64, tally: u64, since: u64) -> Candidate {
    Candidate { nominee, tally, since }
}

#[test]
fn winner_has_most_votes_then_earliest_nomination_then_smallest_identity() {
    assert_eq!(determine_winner(&Vec::new()), None);
    assert_eq!(determine_winner(&vec![candidate(5, 0, 9)]), Some(candidate(5, 0, 9)));
    assert_eq!(
        determine_winner(&vec![candidate(1, 2, 10), candidate(2, 3, 50), candidate(3, 1, 5)]),
        Some(candidate(2, 3, 50))
    );
    assert_eq!(
        determine_winner(&vec![candidate(1, 3, 60), candidate(2, 3, 50), candidate(3, 3, 55)]),
        Some(candidate(2, 3, 50))
    );
    assert_eq!(
        determine_winner(&vec![candidate(9, 3, 50), candidate(4, 3, 50), candidate(7, 3, 50)]),
        Some(candidate(4, 3, 50))
    );
}

#[test]
fn winner_does_not_depend_on_the_order() {
    let a = candidate(1, 3, 60);
    let b = candidate(2, 3, 50);
    let c = candidate(3, 1, 5);
    for order in [[a, b, c], [a, c, b], [b, a, c], [b, c, a], [c, a, b], [c, b, a]] {
        assert_eq!(determine_winner(&order.to_vec()), Some(b));
    }
}

#[test]
fn outranking_is_strict() {
    let a = candidate(1, 3, 60);
    let b = candidate(2, 3, 50);
    assert!(outranks(&b, &a));
    assert!(!outranks(&a, &b));
    assert!(!outranks(&a, &a));
    assert!(outranks(&candidate(9, 4, 99), &b));
    assert!(outranks(&candidate(1, 3, 50), &b));
}
