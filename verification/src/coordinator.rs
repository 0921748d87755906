//! The election coordinator: what becomes of one nomination or one vote.
//!
//! The coordinator does no input or output. It is a state machine that is
//! told what happened (the members were listed, the store answered, something
//! failed) and says what is to be done next, until it names the outcome. The
//! rules of the election are its transitions; that nobody nominates or votes
//! twice rests on the indivisible steps of the store alone, never on the order
//! in which coordinators run.

use vstd::prelude::*;
use crate::clock::{Phase, Schedule};
use crate::command::{command_of, parse_command, token_of, Kind, Token, TokenView};
use crate::directory::{resolve, resolve_in, Participant};
use crate::keys::{nominees_in, nominees_of_keys, Key};
use crate::store::{
    has_set, holds_value, lemma_keys_name_the_nominees, nominees_of, number_at, Ledger,
    MemoryStore, ReplyView, StoreOp, StoreReply, COUNTER_MAX,
};

verus! {

/// How many members of the community are asked for when they are listed.
pub const MEMBER_LIMIT: u16 = 1000;

/// How many steps the longest run of a coordinator takes.
pub const STEP_LIMIT: u8 = 4;

/// One request of a participant, taken from one message.
#[derive(Clone, Debug, PartialEq, Eq)]
pub struct Action {
    pub kind: Kind,
    /// Who asks.
    pub actor: u64,
    /// The cycle the request is to be recorded in.
    pub cycle: u64,
    /// Whom the request is about.
    pub target: Token,
}

/// A request as contracts see it.
pub ghost struct ActionView {
    pub kind: Kind,
    pub actor: u64,
    pub cycle: u64,
    pub target: TokenView,
}

impl View for Action {
    type V = ActionView;

    open spec fn view(&self) -> ActionView {
        ActionView { kind: self.kind, actor: self.actor, cycle: self.cycle, target: self.target@ }
    }
}

/// What became of a request.
#[derive(Clone, Copy, Debug, PartialEq, Eq, Structural)]
pub enum Outcome {
    /// The request came outside the phase for its kind, or for another
    /// cycle than the current one. Nothing was written.
    Inadmissible,
    /// The target names no member of the community. Nothing was written.
    Unresolved,
    /// The nomination was recorded.
    Nominated,
    /// The actor had nominated in this cycle before: the actor's marker was
    /// there, and then nothing was written, or the actor was in the nominee's
    /// set.
    AlreadyNominated,
    /// The target of the vote is no nominee of this cycle. Nothing was
    /// written.
    NotNominee,
    /// The vote was counted; `tally` is the nominee's count with it.
    Voted { tally: u64 },
    /// The actor had voted in this cycle before. Nothing was written.
    AlreadyVoted,
    /// A collaborator failed or answered out of turn.
    Failed,
}

/// What the coordinator wants done next.
#[derive(Clone, Copy, Debug, PartialEq, Eq, Structural)]
pub enum Effect {
    /// List the members of the community, up to `MEMBER_LIMIT` of them, and
    /// report them with `members_listed`.
    ListMembers,
    /// Send the request to the store and report the answer with
    /// `store_replied`.
    Store(StoreOp),
    /// Nothing more: this is the outcome.
    Done(Outcome),
}

/// Where a coordinator stands.
#[derive(Clone, Copy, Debug, PartialEq, Eq, Structural)]
pub enum Stage {
    /// A vote waits for the keys of the nomination sets.
    Listing,
    /// Waits for the members of the community.
    Resolving,
    /// Waits to hear whether the actor's marker was written.
    Claiming { target: u64 },
    /// A nomination waits to hear whether the actor was added to the set.
    Recording { target: u64 },
    /// A nomination waits for the instant of first nomination to be settled.
    Dating { target: u64 },
    /// A vote waits for the new count.
    Counting { target: u64 },
    /// The outcome was named.
    Finished,
}

/// Whether a request of `kind` for `cycle` may be acted on at `now`: the
/// phase at `now` is the one for its kind and `cycle` is the current cycle.
pub open spec fn admits(schedule: Schedule, kind: Kind, cycle: u64, now: u64) -> bool {
    &&& schedule.cycle_at(now as int) == Some(cycle as int)
    &&& schedule.phase_at(now as int) == match kind {
        Kind::Nominate => Phase::Nominating,
        Kind::Vote => Phase::Voting,
    }
}

/// The request that a message carries: the command in its text, asked by its
/// author, for the cycle that `now` falls in.
pub open spec fn action_of(
    prefix: Seq<char>,
    schedule: Schedule,
    content: Seq<char>,
    author: u64,
    now: u64,
) -> Option<ActionView> {
    match (command_of(prefix, content), schedule.cycle_at(now as int)) {
        (Some((kind, word)), Some(cycle)) => match token_of(word) {
            Some(target) => Some(ActionView { kind, actor: author, cycle: cycle as u64, target }),
            None => None,
        },
        _ => None,
    }
}

/// A coordinator as contracts see it.
#[verifier::ext_equal]
pub ghost struct Machine {
    pub schedule: Schedule,
    pub action: ActionView,
    /// The instant the coordinator was started at.
    pub now: u64,
    pub stage: Stage,
    /// The nominees of the cycle, once a vote has listed them.
    pub nominees: Seq<u64>,
}

impl Machine {
    /// The machine with its outcome named.
    pub open spec fn finished(self) -> Machine {
        Machine { stage: Stage::Finished, ..self }
    }

    /// The machine one stage on.
    pub open spec fn at(self, stage: Stage) -> Machine {
        Machine { stage, ..self }
    }

    /// A coordinator for `action`, started at `now`, and its first wish.
    pub open spec fn start(schedule: Schedule, action: ActionView, now: u64) -> (Machine, Effect) {
        let machine = Machine {
            schedule,
            action,
            now,
            stage: Stage::Finished,
            nominees: Seq::empty(),
        };
        if !admits(schedule, action.kind, action.cycle, now) {
            (machine, Effect::Done(Outcome::Inadmissible))
        } else {
            match action.kind {
                Kind::Nominate => (machine.at(Stage::Resolving), Effect::ListMembers),
                Kind::Vote => (
                    machine.at(Stage::Listing),
                    Effect::Store(StoreOp::Nominees { cycle: action.cycle }),
                ),
            }
        }
    }

    /// The machine after the members were listed, and its next wish.
    pub open spec fn on_members(self, members: Seq<Participant>) -> (Machine, Effect) {
        let cycle = self.action.cycle;
        let actor = self.action.actor;
        if self.stage != Stage::Resolving {
            (self.finished(), Effect::Done(Outcome::Failed))
        } else {
            match resolve_in(self.action.target, members) {
                None => (self.finished(), Effect::Done(Outcome::Unresolved)),
                Some(target) => match self.action.kind {
                    Kind::Nominate => (
                        self.at(Stage::Claiming { target }),
                        Effect::Store(
                            StoreOp::Claim { key: Key::Nominated { cycle, actor }, value: target },
                        ),
                    ),
                    Kind::Vote => if self.nominees.contains(target) {
                        (
                            self.at(Stage::Claiming { target }),
                            Effect::Store(
                                StoreOp::Claim { key: Key::Voted { cycle, actor }, value: target },
                            ),
                        )
                    } else {
                        (self.finished(), Effect::Done(Outcome::NotNominee))
                    },
                },
            }
        }
    }

    /// The machine after the store answered, and its next wish.
    pub open spec fn on_reply(self, reply: ReplyView) -> (Machine, Effect) {
        let cycle = self.action.cycle;
        let actor = self.action.actor;
        match (self.stage, reply) {
            (Stage::Listing, ReplyView::Keys(keys)) => (
                Machine { stage: Stage::Resolving, nominees: nominees_in(cycle, keys), ..self },
                Effect::ListMembers,
            ),
            (Stage::Claiming { target }, ReplyView::Flag(won)) => match self.action.kind {
                Kind::Nominate => if won {
                    (
                        self.at(Stage::Recording { target }),
                        Effect::Store(
                            StoreOp::Add { key: Key::Nominee { cycle, nominee: target }, member: actor },
                        ),
                    )
                } else {
                    (self.finished(), Effect::Done(Outcome::AlreadyNominated))
                },
                Kind::Vote => if won {
                    (
                        self.at(Stage::Counting { target }),
                        Effect::Store(
                            StoreOp::Increment { key: Key::Tally { cycle, nominee: target } },
                        ),
                    )
                } else {
                    (self.finished(), Effect::Done(Outcome::AlreadyVoted))
                },
            },
            (Stage::Recording { target }, ReplyView::Flag(added)) => if added {
                (
                    self.at(Stage::Dating { target }),
                    Effect::Store(
                        StoreOp::Claim {
                            key: Key::Since { cycle, nominee: target },
                            value: self.now,
                        },
                    ),
                )
            } else {
                (self.finished(), Effect::Done(Outcome::AlreadyNominated))
            },
            (Stage::Dating { target }, ReplyView::Flag(_)) => (
                self.finished(),
                Effect::Done(Outcome::Nominated),
            ),
            (Stage::Counting { target }, ReplyView::Count(tally)) => (
                self.finished(),
                Effect::Done(Outcome::Voted { tally }),
            ),
            _ => (self.finished(), Effect::Done(Outcome::Failed)),
        }
    }

    /// The machine after a collaborator failed, and its last word.
    pub open spec fn on_failure(self) -> (Machine, Effect) {
        (self.finished(), Effect::Done(Outcome::Failed))
    }
}

/// What becomes of a request and of the store when the machine is run from
/// `machine` and `effect` against a store that holds `ledger` and a community
/// of `members`, for at most `steps` steps.
pub open spec fn drive(
    machine: Machine,
    effect: Effect,
    members: Seq<Participant>,
    ledger: Ledger,
    steps: nat,
) -> (Outcome, Ledger)
    decreases steps,
{
    match effect {
        Effect::Done(outcome) => (outcome, ledger),
        Effect::ListMembers => if steps == 0 {
            (Outcome::Failed, ledger)
        } else {
            let next = machine.on_members(members);
            drive(next.0, next.1, members, ledger, (steps - 1) as nat)
        },
        Effect::Store(op) => if steps == 0 {
            (Outcome::Failed, ledger)
        } else {
            let answered = ledger.effect(op);
            let next = machine.on_reply(answered.1);
            drive(next.0, next.1, members, answered.0, (steps - 1) as nat)
        },
    }
}

/// What becomes of an admissible nomination, and of the store.
///
/// A target that names no member leaves the store as it was. So does a
/// nomination by someone whose marker for the cycle is there already. Otherwise the
/// marker is written, the actor joins the nominee's set, and the instant is
/// kept as the nominee's first nomination unless an earlier one is kept.
pub open spec fn nomination_of(
    action: ActionView,
    now: u64,
    members: Seq<Participant>,
    ledger: Ledger,
) -> (Outcome, Ledger) {
    let cycle = action.cycle;
    let actor = action.actor;
    match resolve_in(action.target, members) {
        None => (Outcome::Unresolved, ledger),
        Some(target) => {
            let marker = Key::Nominated { cycle, actor };
            let set = Key::Nominee { cycle, nominee: target };
            let since = Key::Since { cycle, nominee: target };
            let claimed = ledger.with_number(marker, target);
            let recorded = claimed.with_member(set, actor);
            if ledger.holds(marker) {
                (Outcome::AlreadyNominated, ledger)
            } else if number_at(claimed.numbers, set) is Some {
                (Outcome::Failed, claimed)
            } else if claimed.members.contains((set, actor)) {
                (Outcome::AlreadyNominated, claimed)
            } else if recorded.holds(since) {
                (Outcome::Nominated, recorded)
            } else {
                (Outcome::Nominated, recorded.with_number(since, now))
            }
        },
    }
}

/// What becomes of an admissible vote, and of the store.
///
/// A target that names no member, a target that is no nominee of the cycle
/// and a vote by someone whose marker for the cycle is there already all leave
/// the store as it was. Otherwise the marker is written and the nominee's
/// count goes up by one.
pub open spec fn vote_of(action: ActionView, members: Seq<Participant>, ledger: Ledger) -> (
    Outcome,
    Ledger,
) {
    let cycle = action.cycle;
    let actor = action.actor;
    match resolve_in(action.target, members) {
        None => (Outcome::Unresolved, ledger),
        Some(target) => {
            let marker = Key::Voted { cycle, actor };
            let tally = Key::Tally { cycle, nominee: target };
            let claimed = ledger.with_number(marker, target);
            if !nominees_of(ledger.members, cycle).contains(target) {
                (Outcome::NotNominee, ledger)
            } else if ledger.holds(marker) {
                (Outcome::AlreadyVoted, ledger)
            } else if has_set(claimed.members, tally) {
                (Outcome::Failed, claimed)
            } else {
                match number_at(claimed.numbers, tally) {
                    None => (Outcome::Voted { tally: 1 }, claimed.with_number(tally, 1)),
                    Some(count) => if count < COUNTER_MAX {
                        (
                            Outcome::Voted { tally: (count + 1) as u64 },
                            claimed.with_number(tally, (count + 1) as u64),
                        )
                    } else {
                        (Outcome::Failed, claimed)
                    },
                }
            }
        },
    }
}

/// What becomes of `action` and of the store when the request is handled at
/// `now`. A request that is not admissible at `now` leaves the store as it
/// was.
pub open spec fn outcome_of(
    schedule: Schedule,
    action: ActionView,
    now: u64,
    members: Seq<Participant>,
    ledger: Ledger,
) -> (Outcome, Ledger) {
    if !admits(schedule, action.kind, action.cycle, now) {
        (Outcome::Inadmissible, ledger)
    } else {
        match action.kind {
            Kind::Nominate => nomination_of(action, now, members, ledger),
            Kind::Vote => vote_of(action, members, ledger),
        }
    }
}

/// Run against a store that answers as `Ledger::effect` says, the machine
/// names the outcome that `outcome_of` gives and leaves the store as
/// `outcome_of` says.
pub proof fn lemma_machine_reaches_outcome(
    schedule: Schedule,
    action: ActionView,
    now: u64,
    members: Seq<Participant>,
    ledger: Ledger,
)
    ensures
        drive(
            Machine::start(schedule, action, now).0,
            Machine::start(schedule, action, now).1,
            members,
            ledger,
            STEP_LIMIT as nat,
        ) == outcome_of(schedule, action, now, members, ledger),
{
    reveal_with_fuel(drive, 5);
    lemma_keys_name_the_nominees(nominees_of(ledger.members, action.cycle), action.cycle);
}

/// The coordinator of one request.
#[derive(Debug)]
pub struct Coordinator {
    schedule: Schedule,
    action: Action,
    now: u64,
    stage: Stage,
    nominees: Vec<u64>,
}

impl View for Coordinator {
    type V = Machine;

    closed spec fn view(&self) -> Machine {
        Machine {
            schedule: self.schedule,
            action: self.action@,
            now: self.now,
            stage: self.stage,
            nominees: self.nominees@,
        }
    }
}

/// Whether a request of `kind` for `cycle` may be acted on at `now`.
pub fn admissible(schedule: &Schedule, kind: Kind, cycle: u64, now: u64) -> (open: bool)
    ensures
        open == admits(*schedule, kind, cycle, now),
{
    let wanted: Phase = match kind {
        Kind::Nominate => Phase::Nominating,
        Kind::Vote => Phase::Voting,
    };
    match schedule.cycle_id(now) {
        Some(current) => current == cycle && schedule.current_phase(now) == wanted,
        None => false,
    }
}

/// Takes the request out of a message: the command in `content`, asked by
/// `author`, for the cycle that `now` falls in. There is none when the text
/// carries no command, when the target has the shape of a mention and names no
/// identity, and when no cycle has begun.
pub fn dispatch(prefix: &str, schedule: &Schedule, content: &str, author: u64, now: u64) -> (action:
    Option<Action>)
    ensures
        match action {
            Some(found) => action_of(prefix@, *schedule, content@, author, now) == Some(found@),
            None => action_of(prefix@, *schedule, content@, author, now) is None,
        },
{
    let command = match parse_command(prefix, content) {
        Some(command) => command,
        None => return None,
    };
    let cycle: u64 = match schedule.cycle_id(now) {
        Some(cycle) => cycle,
        None => return None,
    };
    match Token::parse(command.target.as_str()) {
        Some(target) => Some(Action { kind: command.kind, actor: author, cycle, target }),
        None => None,
    }
}

impl Coordinator {
    /// Starts on `action` at `now` and says what is to be done first.
    pub fn begin(schedule: Schedule, action: Action, now: u64) -> (started: (Coordinator, Effect))
        ensures
            (started.0@, started.1) == Machine::start(schedule, action@, now),
    {
        let open: bool = admissible(&schedule, action.kind, action.cycle, now);
        let kind: Kind = action.kind;
        let cycle: u64 = action.cycle;
        let mut coordinator = Coordinator {
            schedule,
            action,
            now,
            stage: Stage::Finished,
            nominees: Vec::new(),
        };
        if !open {
            (coordinator, Effect::Done(Outcome::Inadmissible))
        } else {
            match kind {
                Kind::Nominate => {
                    coordinator.stage = Stage::Resolving;
                    (coordinator, Effect::ListMembers)
                },
                Kind::Vote => {
                    coordinator.stage = Stage::Listing;
                    (coordinator, Effect::Store(StoreOp::Nominees { cycle }))
                },
            }
        }
    }

    /// Takes note of the members of the community and says what is to be
    /// done next.
    pub fn members_listed(&mut self, members: &Vec<Participant>) -> (effect: Effect)
        ensures
            (final(self)@, effect) == old(self)@.on_members(members@),
    {
        let cycle: u64 = self.action.cycle;
        let actor: u64 = self.action.actor;
        let waiting: bool = self.stage == Stage::Resolving;
        self.stage = Stage::Finished;
        if !waiting {
            return Effect::Done(Outcome::Failed);
        }
        match resolve(&self.action.target, members) {
            None => Effect::Done(Outcome::Unresolved),
            Some(target) => match self.action.kind {
                Kind::Nominate => {
                    self.stage = Stage::Claiming { target };
                    Effect::Store(
                        StoreOp::Claim { key: Key::Nominated { cycle, actor }, value: target },
                    )
                },
                Kind::Vote => {
                    if holds_value(&self.nominees, target) {
                        self.stage = Stage::Claiming { target };
                        Effect::Store(
                            StoreOp::Claim { key: Key::Voted { cycle, actor }, value: target },
                        )
                    } else {
                        Effect::Done(Outcome::NotNominee)
                    }
                },
            },
        }
    }

    /// Takes note of the answer of the store and says what is to be done
    /// next.
    pub fn store_replied(&mut self, reply: StoreReply) -> (effect: Effect)
        ensures
            (final(self)@, effect) == old(self)@.on_reply(reply@),
    {
        let cycle: u64 = self.action.cycle;
        let actor: u64 = self.action.actor;
        let stage: Stage = self.stage;
        self.stage = Stage::Finished;
        match (stage, reply) {
            (Stage::Listing, StoreReply::Keys(keys)) => {
                self.nominees = nominees_of_keys(cycle, &keys);
                self.stage = Stage::Resolving;
                Effect::ListMembers
            },
            (Stage::Claiming { target }, StoreReply::Flag(won)) => {
                if !won {
                    match self.action.kind {
                        Kind::Nominate => Effect::Done(Outcome::AlreadyNominated),
                        Kind::Vote => Effect::Done(Outcome::AlreadyVoted),
                    }
                } else {
                    match self.action.kind {
                        Kind::Nominate => {
                            self.stage = Stage::Recording { target };
                            Effect::Store(
                                StoreOp::Add {
                                    key: Key::Nominee { cycle, nominee: target },
                                    member: actor,
                                },
                            )
                        },
                        Kind::Vote => {
                            self.stage = Stage::Counting { target };
                            Effect::Store(
                                StoreOp::Increment { key: Key::Tally { cycle, nominee: target } },
                            )
                        },
                    }
                }
            },
            (Stage::Recording { target }, StoreReply::Flag(added)) => {
                if added {
                    self.stage = Stage::Dating { target };
                    Effect::Store(
                        StoreOp::Claim {
                            key: Key::Since { cycle, nominee: target },
                            value: self.now,
                        },
                    )
                } else {
                    Effect::Done(Outcome::AlreadyNominated)
                }
            },
            (Stage::Dating { target }, StoreReply::Flag(_)) => Effect::Done(Outcome::Nominated),
            (Stage::Counting { target }, StoreReply::Count(tally)) => Effect::Done(
                Outcome::Voted { tally },
            ),
            _ => Effect::Done(Outcome::Failed),
        }
    }

    /// Takes note that a collaborator failed and gives the request up.
    pub fn failed(&mut self) -> (effect: Effect)
        ensures
            (final(self)@, effect) == old(self)@.on_failure(),
    {
        self.stage = Stage::Finished;
        Effect::Done(Outcome::Failed)
    }
}

/// Runs a coordinator for `action` from start to end against a store in
/// memory and a community of `members`, and names the outcome.
pub fn run(
    schedule: Schedule,
    action: Action,
    now: u64,
    members: &Vec<Participant>,
    store: &mut MemoryStore,
) -> (outcome: Outcome)
    ensures
        (outcome, final(store)@) == outcome_of(schedule, action@, now, members@, old(store)@),
{
    let ghost asked = action@;
    let ghost goal = outcome_of(schedule, asked, now, members@, store@);
    proof {
        lemma_machine_reaches_outcome(schedule, asked, now, members@, store@);
    }
    let started = Coordinator::begin(schedule, action, now);
    let mut coordinator: Coordinator = started.0;
    let mut effect: Effect = started.1;
    let mut steps: u8 = STEP_LIMIT;
    loop
        invariant
            asked == action@,
            goal == outcome_of(schedule, asked, now, members@, old(store)@),
            drive(coordinator@, effect, members@, store@, steps as nat) == goal,
        decreases steps,
    {
        match effect {
            Effect::Done(outcome) => {
                return outcome;
            },
            Effect::ListMembers => {
                if steps == 0 {
                    return Outcome::Failed;
                }
                effect = coordinator.members_listed(members);
            },
            Effect::Store(op) => {
                if steps == 0 {
                    return Outcome::Failed;
                }
                let reply: StoreReply = store.apply(op);
                effect = coordinator.store_replied(reply);
            },
        }
        steps = steps - 1;
    }
}

} // verus!
