//! The decisions of the daemon's loop: what one tick publishes, whether it
//! sounds the cue, and whether the loop goes on.

use crate::clock::{local_seconds_now, SECONDS_PER_DAY};
use crate::status::{status_bytes, published_bytes};
use crate::timetable::{entry_slots, lemma_start_on_minute, resolution, resolve, slots_on_minutes};
use crate::config::Entry;
use crate::timetable::{ActivityState, SlotView};
use vstd::prelude::*;

verus! {

/// Seconds between two ticks of the loop.
pub const TICK_SECONDS: u64 = 60;

/// The cue sounds when the clock is in the minute in which the current
/// activity started: the tick at which the activity changed.
pub open spec fn notifies(now: int, activity_time: int) -> bool {
    now / 60 == activity_time / 60
}

/// Whether a tick at `now` sounds the cue for an activity that started at
/// `activity_time` (both in seconds since midnight).
pub fn should_notify(now: u32, activity_time: u32) -> (r: bool)
    ensures
        r == notifies(now as int, activity_time as int),
{
    now / 60 == activity_time / 60
}

/// What one tick does: the state it resolved, the bytes it publishes, and
/// whether it sounds the cue.
pub struct TickPlan {
    /// The clock reading of the tick, in seconds since midnight.
    pub now: u32,
    pub state: ActivityState,
    pub bytes: Vec<u8>,
    pub notify: bool,
}

/// The tick of the loop at the time of day `now`.
pub fn plan_tick(timetable: &Vec<Entry>, now: u32) -> (r: TickPlan)
    requires
        now < SECONDS_PER_DAY,
    ensures
        r.now == now,
        r.state@ == resolution(entry_slots(timetable@), now as int),
        r.bytes@ == published_bytes(r.state@),
        r.notify == notifies(now as int, r.state@.start),
{
    let state = resolve(timetable, now);
    let bytes = status_bytes(&state);
    let notify = should_notify(now, state.activity_time);
    TickPlan { now, state, bytes, notify }
}

/// The tick of the loop at the local time of day, read from the clock.
pub fn plan_tick_now(timetable: &Vec<Entry>) -> (r: TickPlan)
    ensures
        r.now < SECONDS_PER_DAY,
        r.state@ == resolution(entry_slots(timetable@), r.now as int),
        r.bytes@ == published_bytes(r.state@),
        r.notify == notifies(r.now as int, r.state@.start),
{
    let now = local_seconds_now();
    plan_tick(timetable, now)
}

/// Whether the loop runs on.
#[derive(Debug, Clone, Copy, PartialEq, Eq)]
pub enum Phase {
    /// Ticking.
    Active,
    /// Stopped for good: the process exits.
    Terminated,
}

/// What the loop learned from performing a tick.
#[derive(Debug, Clone, Copy, PartialEq, Eq)]
pub enum TickOutcome {
    /// The status was written; the cue, where one was due, was played or failed.
    Published,
    /// Writing the status failed.
    PublishFailed,
}

/// The phase after a tick. A failed publish stops the loop; a failed cue does
/// not, and nothing in the timetable ever ends it.
pub fn next_phase(phase: Phase, outcome: TickOutcome) -> (r: Phase)
    ensures
        r == (match (phase, outcome) {
            (Phase::Active, TickOutcome::Published) => Phase::Active,
            _ => Phase::Terminated,
        }),
{
    match phase {
        Phase::Active => match outcome {
            TickOutcome::Published => Phase::Active,
            TickOutcome::PublishFailed => Phase::Terminated,
        },
        Phase::Terminated => Phase::Terminated,
    }
}

/// The cue sounds at exactly the ticks that fall in the first minute of the
/// current activity; for a tick on a minute boundary, exactly when the clock
/// equals the activity's start.
pub proof fn lemma_notify_at_start(s: Seq<SlotView>, now: int)
    requires
        0 <= now < SECONDS_PER_DAY,
        slots_on_minutes(s),
    ensures
        notifies(now, resolution(s, now).start) <==> (resolution(s, now).start <= now
            < resolution(s, now).start + 60),
        now % 60 == 0 ==> (notifies(now, resolution(s, now).start) <==> now == resolution(
            s,
            now,
        ).start),
{
    lemma_start_on_minute(s, now);
    let a = resolution(s, now).start;
    vstd::arithmetic::div_mod::lemma_fundamental_div_mod(a, 60);
    vstd::arithmetic::div_mod::lemma_fundamental_div_mod(now, 60);
}

} // verus!
