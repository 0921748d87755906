//! The cycle clock: which election cycle and which phase an instant falls in.
//!
//! Nothing here reads a clock or keeps state. Every function is determined by
//! its arguments, so two processes that agree on the schedule and on `now`
//! agree on the cycle and on the phase.

use vstd::prelude::*;
use vstd::arithmetic::div_mod::lemma_fundamental_div_mod_converse;

verus! {

/// What the community may do at an instant.
#[derive(Clone, Copy, Debug, PartialEq, Eq, Structural)]
pub enum Phase {
    /// Neither nominations nor votes are accepted.
    Idle,
    /// Nominations are accepted.
    Nominating,
    /// Votes are accepted.
    Voting,
}

/// Why the start of the next cycle could not be given.
#[derive(Clone, Copy, Debug, PartialEq, Eq, Structural)]
pub enum ClockError {
    /// The instant lies before the epoch, so no cycle has begun yet.
    BeforeEpoch,
    /// The interval is zero, so there are no cycles.
    ZeroInterval,
    /// The next cycle would start beyond the largest instant a `u64` holds.
    OutOfRange,
}

/// The fixed configuration of the cycle clock.
///
/// Cycles start at `epoch`, `epoch + interval`, `epoch + 2 * interval`, ...
/// Within a cycle, nominations are open for the first `nomination` seconds and
/// votes from then until `total` seconds have passed; the rest of the cycle is
/// idle.
#[derive(Clone, Copy, Debug, PartialEq, Eq, Structural)]
pub struct Schedule {
    /// Start of the first cycle.
    pub epoch: u64,
    /// Length of a cycle.
    pub interval: u64,
    /// Length of the nomination phase.
    pub nomination: u64,
    /// Length of the nomination and voting phases together.
    pub total: u64,
}

/// Start of the cycle that `now` falls in, if there is one: the greatest
/// `epoch + k * interval` that is not after `now`.
pub open spec fn cycle_start(epoch: int, interval: int, now: int) -> Option<int> {
    if interval <= 0 || now < epoch {
        None
    } else {
        Some(now - (now - epoch) % interval)
    }
}

/// Whether an election that began at `election` and lasts `duration` is under
/// way at `now`.
pub open spec fn electing_at(now: int, election: int, duration: int) -> bool {
    election <= now < election + duration
}

/// Start of the first cycle that begins after `now`, or why there is none:
/// the interval is zero, `now` lies before the epoch, or the start lies beyond
/// the largest instant a `u64` holds.
pub open spec fn next_election_at(now: u64, epoch: u64, interval: u64) -> Result<u64, ClockError> {
    match cycle_start(epoch as int, interval as int, now as int) {
        None => if interval == 0 {
            Err(ClockError::ZeroInterval)
        } else {
            Err(ClockError::BeforeEpoch)
        },
        Some(start) => if start + interval <= u64::MAX {
            Ok((start + interval) as u64)
        } else {
            Err(ClockError::OutOfRange)
        },
    }
}

impl Schedule {
    /// Start of the cycle that `now` falls in.
    pub open spec fn cycle_at(self, now: int) -> Option<int> {
        cycle_start(self.epoch as int, self.interval as int, now)
    }

    /// Phase at `now`. Each phase owns the instant it begins at and not the
    /// instant it ends at.
    pub open spec fn phase_at(self, now: int) -> Phase {
        match self.cycle_at(now) {
            None => Phase::Idle,
            Some(start) => if now - start < self.nomination {
                Phase::Nominating
            } else if now - start < self.total {
                Phase::Voting
            } else {
                Phase::Idle
            },
        }
    }

    /// The cycle whose voting has ended at `now` and whose successor has not
    /// begun: the one that is due for finalization.
    pub open spec fn closed_at(self, now: int) -> Option<int> {
        match self.cycle_at(now) {
            Some(start) if now - start >= self.total => Some(start),
            _ => None,
        }
    }

    /// Identifier of the cycle that `now` falls in, which is the instant the
    /// cycle starts at. `None` before the epoch and when the interval is zero.
    pub fn cycle_id(&self, now: u64) -> (id: Option<u64>)
        ensures
            id.is_some() == self.cycle_at(now as int).is_some(),
            id matches Some(start) ==> self.cycle_at(now as int) == Some(start as int),
    {
        if self.interval == 0 || now < self.epoch {
            None
        } else {
            Some(start_of_cycle(now, self.epoch, self.interval))
        }
    }

    /// Phase that `now` falls in.
    pub fn current_phase(&self, now: u64) -> (phase: Phase)
        ensures
            phase == self.phase_at(now as int),
    {
        match self.cycle_id(now) {
            None => Phase::Idle,
            Some(start) => {
                let elapsed: u64 = now - start;
                if elapsed < self.nomination {
                    Phase::Nominating
                } else if elapsed < self.total {
                    Phase::Voting
                } else {
                    Phase::Idle
                }
            },
        }
    }

    /// The cycle that is due for finalization at `now`, if any.
    pub fn closed_cycle(&self, now: u64) -> (id: Option<u64>)
        ensures
            id.is_some() == self.closed_at(now as int).is_some(),
            id matches Some(start) ==> self.closed_at(now as int) == Some(start as int),
    {
        match self.cycle_id(now) {
            Some(start) if now - start >= self.total => Some(start),
            _ => None,
        }
    }
}

fn start_of_cycle(now: u64, epoch: u64, interval: u64) -> (start: u64)
    requires
        interval > 0,
        epoch <= now,
    ensures
        cycle_start(epoch as int, interval as int, now as int) == Some(start as int),
{
    let elapsed: u64 = now - epoch;
    proof {
        vstd::arithmetic::div_mod::lemma_mod_decreases(elapsed as nat, interval as nat);
    }
    now - elapsed % interval
}

/// Whether an election that began at `election` and lasts `duration` is under
/// way at `now`.
pub fn currently_electing(now: u64, election: u64, duration: u64) -> (electing: bool)
    ensures
        electing == electing_at(now as int, election as int, duration as int),
{
    now >= election && now - election < duration
}

/// Start of the first cycle that begins after `now`: one interval after the
/// start of the cycle that `now` falls in.
pub fn get_next_election(now: u64, epoch: u64, interval: u64) -> (next: Result<u64, ClockError>)
    ensures
        next == next_election_at(now, epoch, interval),
{
    if interval == 0 {
        Err(ClockError::ZeroInterval)
    } else if now < epoch {
        Err(ClockError::BeforeEpoch)
    } else {
        let start: u64 = start_of_cycle(now, epoch, interval);
        match start.checked_add(interval) {
            Some(instant) => Ok(instant),
            None => Err(ClockError::OutOfRange),
        }
    }
}

/// A cycle starts on the grid `epoch + k * interval`, holds `now`, and is the
/// latest grid point that is not after `now`.
pub proof fn lemma_cycle_is_latest_start(schedule: Schedule, now: int, k: int)
    requires
        schedule.cycle_at(now) is Some,
    ensures
        schedule.cycle_at(now)->0 <= now < schedule.cycle_at(now)->0 + schedule.interval,
        (schedule.cycle_at(now)->0 - schedule.epoch) % (schedule.interval as int) == 0,
        schedule.cycle_at(now)->0 >= schedule.epoch,
        schedule.epoch + k * schedule.interval <= now ==> schedule.epoch + k * schedule.interval
            <= schedule.cycle_at(now)->0,
{
    let d: int = schedule.interval as int;
    let x: int = now - schedule.epoch;
    let start: int = schedule.cycle_at(now)->0;
    assert(x == d * (x / d) + x % d && 0 <= x % d < d) by {
        vstd::arithmetic::div_mod::lemma_fundamental_div_mod(x, d);
    }
    assert((start - schedule.epoch) % d == 0) by {
        lemma_fundamental_div_mod_converse(start - schedule.epoch, d, x / d, 0);
    }
    if schedule.epoch + k * d <= now {
        assert(k <= x / d) by (nonlinear_arith)
            requires
                k * d <= x,
                x == d * (x / d) + x % d,
                0 <= x % d < d,
        ;
        assert(k * d <= (x / d) * d) by (nonlinear_arith)
            requires
                k <= x / d,
                d > 0,
        ;
    }
}

/// The clock does not run backwards: a later instant falls in the same cycle
/// or in a later one.
pub proof fn lemma_cycle_is_monotonic(schedule: Schedule, earlier: int, later: int)
    requires
        earlier <= later,
        schedule.cycle_at(earlier) is Some,
    ensures
        schedule.cycle_at(later) is Some,
        schedule.cycle_at(earlier)->0 <= schedule.cycle_at(later)->0,
{
    let d: int = schedule.interval as int;
    let x: int = earlier - schedule.epoch;
    vstd::arithmetic::div_mod::lemma_fundamental_div_mod(x, d);
    assert(d * (x / d) == (x / d) * d) by (nonlinear_arith);
    lemma_cycle_is_latest_start(schedule, later, x / d);
}

/// Every instant of a cycle belongs to that cycle: `offset` seconds after a
/// grid point, and less than one interval after it, the cycle is still the one
/// that started at the grid point.
pub proof fn lemma_cycle_of_offset(schedule: Schedule, k: nat, offset: nat)
    requires
        offset < schedule.interval,
    ensures
        schedule.cycle_at(schedule.epoch + k * schedule.interval + offset) == Some(
            schedule.epoch + k * schedule.interval,
        ),
{
    let d: int = schedule.interval as int;
    assert(k * d >= 0) by (nonlinear_arith)
        requires
            k >= 0,
            d > 0,
    ;
    lemma_fundamental_div_mod_converse(k * d + offset, d, k as int, offset as int);
}

/// The phase boundaries are closed at their start and open at their end: a
/// cycle that started at `start` is nominating from `start` up to, and not at,
/// `start + nomination`; voting from there up to, and not at, `start + total`;
/// and idle from there on.
pub proof fn lemma_phase_boundaries(schedule: Schedule, now: int)
    requires
        schedule.cycle_at(now) is Some,
    ensures
        schedule.phase_at(now) == Phase::Nominating <==> now < schedule.cycle_at(now)->0
            + schedule.nomination,
        schedule.phase_at(now) == Phase::Voting <==> schedule.cycle_at(now)->0
            + schedule.nomination <= now < schedule.cycle_at(now)->0 + schedule.total,
        schedule.phase_at(now) == Phase::Idle <==> schedule.cycle_at(now)->0 + schedule.nomination
            <= now && schedule.cycle_at(now)->0 + schedule.total <= now,
{
}

/// The clock is a function of its inputs: the same schedule and the same
/// instant give the same cycle and the same phase, whenever they are asked.
pub proof fn lemma_clock_is_deterministic(first: Schedule, second: Schedule, now: int)
    requires
        first == second,
    ensures
        first.cycle_at(now) == second.cycle_at(now),
        first.phase_at(now) == second.phase_at(now),
{
}

} // verus!
