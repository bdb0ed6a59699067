use vstd::prelude::*;

use crate::catalog::schedule_replaced;
use crate::catalog::timer_replaced;
use crate::catalog::Database;
use crate::clock::DAY_MILLIS;
use crate::models::ScheduleRecord;
use crate::models::TimerRecord;
use crate::store::JobStore;

verus! {

/// Milliseconds between two looks at whether the job of a loop is over.
pub const POLL_MILLIS: u64 = 100;

/// The latest time, in milliseconds since the epoch, that a schedule loop
/// handles.
pub const TIME_LIMIT: i64 = 4_611_686_018_427_387_903;

/// Where a producer loop stands.
#[derive(Debug, Clone, Copy, PartialEq, Eq, Structural)]
pub enum LoopPhase {
    /// Sleeping until its next tick or a manual trigger.
    Waiting,
    /// An event was produced and is being handed to the queue.
    Emitting,
    /// Waiting for the job of its event type to finish.
    Draining,
    /// Superseded, deleted, done, or cut off from the queue.
    Retired,
}

/// What the loop tells its runner to do next.
#[derive(Debug, Clone, Copy, PartialEq, Eq, Structural)]
pub enum LoopAction {
    /// Sleep this long, or until a manual trigger, then report `Woke`.
    Sleep { millis: u64 },
    /// Produce an event of the loop's type, send it, and report `Sent`.
    Emit,
    /// Sleep this long, then report `Polled`.
    Poll { millis: u64 },
    /// End the loop.
    Stop,
}

/// What the runner reports to the loop.
#[derive(Debug, Clone, Copy, PartialEq, Eq, Structural)]
pub enum LoopSignal {
    /// The sleep ended: the time, the catalog's current id for the loop's
    /// event type, whether a job of that type is active, and whether the
    /// wake came from a manual trigger.
    Woke { now: i64, current_id: Option<u128>, active: bool, triggered: bool },
    /// The event was sent to the queue, or the queue is closed.
    Sent { delivered: bool },
    /// Whether a job of the loop's event type is still active.
    Polled { active: bool },
}

/// The signal that a wake at `now` brings from the store for event type `et`.
pub open spec fn timer_wake_signal(store: &JobStore, et: Seq<char>, now: i64, triggered: bool) -> LoopSignal {
    LoopSignal::Woke { now, current_id: store.db.timer_id_of(et), active: store.db.has_active(et), triggered }
}

/// The signal that a wake at `now` brings from the store for a schedule of
/// event type `et`.
pub open spec fn schedule_wake_signal(store: &JobStore, et: Seq<char>, now: i64, triggered: bool) -> LoopSignal {
    LoopSignal::Woke { now, current_id: store.db.schedule_id_of(et), active: store.db.has_active(et), triggered }
}

/// The interval of a timer in milliseconds, saturated at the largest `u64`.
pub open spec fn interval_millis(secs: u64) -> u64 {
    if secs * 1000 > u64::MAX {
        u64::MAX
    } else {
        (secs * 1000) as u64
    }
}

/// The interval of a timer in milliseconds, saturated at the largest `u64`.
pub fn to_interval_millis(secs: u64) -> (r: u64)
    ensures
        r == interval_millis(secs),
{
    if secs > u64::MAX / 1000 {
        u64::MAX
    } else {
        secs * 1000
    }
}

/// One step of a timer loop with record `rec` in phase `phase`.
pub open spec fn timer_step(rec: TimerRecord, phase: LoopPhase, signal: LoopSignal) -> (LoopPhase, LoopAction) {
    let sleep = LoopAction::Sleep { millis: interval_millis(rec.interval_secs) };
    match signal {
        LoopSignal::Woke { now, current_id, active, triggered } => {
            if phase != LoopPhase::Waiting {
                (phase, LoopAction::Stop)
            } else if current_id != Some(rec.id) {
                (LoopPhase::Retired, LoopAction::Stop)
            } else if active {
                (LoopPhase::Waiting, sleep)
            } else {
                (LoopPhase::Emitting, LoopAction::Emit)
            }
        },
        LoopSignal::Sent { delivered } => {
            if phase != LoopPhase::Emitting {
                (phase, LoopAction::Stop)
            } else if delivered {
                (LoopPhase::Draining, LoopAction::Poll { millis: POLL_MILLIS })
            } else {
                (LoopPhase::Retired, LoopAction::Stop)
            }
        },
        LoopSignal::Polled { active } => {
            if phase != LoopPhase::Draining {
                (phase, LoopAction::Stop)
            } else if active {
                (LoopPhase::Draining, LoopAction::Poll { millis: POLL_MILLIS })
            } else {
                (LoopPhase::Waiting, sleep)
            }
        },
    }
}

/// The loop of one interval timer. It owns no cancellation channel: it
/// retires when the catalog's id for its event type is no longer its own.
#[derive(Debug)]
pub struct TimerLoop {
    pub record: TimerRecord,
    pub phase: LoopPhase,
}

impl TimerLoop {
    /// A loop for `record`, about to sleep for its first interval.
    pub fn new(record: TimerRecord) -> (r: (TimerLoop, LoopAction))
        ensures
            r.0.record == record,
            r.0.phase == LoopPhase::Waiting,
            r.1 == (LoopAction::Sleep { millis: interval_millis(record.interval_secs) }),
    {
        let millis = to_interval_millis(record.interval_secs);
        (TimerLoop { record, phase: LoopPhase::Waiting }, LoopAction::Sleep { millis })
    }

    /// Takes in what the runner reports and says what to do next.
    pub fn step(&mut self, signal: LoopSignal) -> (r: LoopAction)
        ensures
            final(self).record == old(self).record,
            (final(self).phase, r) == timer_step(old(self).record, old(self).phase, signal),
    {
        let sleep = LoopAction::Sleep { millis: to_interval_millis(self.record.interval_secs) };
        match signal {
            LoopSignal::Woke { now: _, current_id, active, triggered: _ } => {
                if self.phase != LoopPhase::Waiting {
                    LoopAction::Stop
                } else if current_id != Some(self.record.id) {
                    self.phase = LoopPhase::Retired;
                    LoopAction::Stop
                } else if active {
                    sleep
                } else {
                    self.phase = LoopPhase::Emitting;
                    LoopAction::Emit
                }
            },
            LoopSignal::Sent { delivered } => {
                if self.phase != LoopPhase::Emitting {
                    LoopAction::Stop
                } else if delivered {
                    self.phase = LoopPhase::Draining;
                    LoopAction::Poll { millis: POLL_MILLIS }
                } else {
                    self.phase = LoopPhase::Retired;
                    LoopAction::Stop
                }
            },
            LoopSignal::Polled { active } => {
                if self.phase != LoopPhase::Draining {
                    LoopAction::Stop
                } else if active {
                    LoopAction::Poll { millis: POLL_MILLIS }
                } else {
                    self.phase = LoopPhase::Waiting;
                    sleep
                }
            },
        }
    }
}

/// The first daily anchor `next + k * DAY_MILLIS`, `k >= 0`, after `now`.
pub open spec fn first_after(next: int, now: int) -> int {
    if next > now {
        next
    } else {
        next + ((now - next) / (DAY_MILLIS as int) + 1) * (DAY_MILLIS as int)
    }
}

/// The first daily anchor from `next` that falls after `now`.
pub fn advance_past(next: i64, now: i64) -> (r: i64)
    requires
        next <= TIME_LIMIT + DAY_MILLIS,
        now <= TIME_LIMIT,
    ensures
        r == first_after(next as int, now as int),
        r > now,
        r >= next,
        r - next == 0 || r - (DAY_MILLIS as int) <= now,
        (r - next) % (DAY_MILLIS as int) == 0,
{
    if next > now {
        next
    } else {
        let gap: i128 = now as i128 - next as i128;
        let k: i128 = gap / (DAY_MILLIS as i128) + 1;
        let r: i128 = next as i128 + k * (DAY_MILLIS as i128);
        proof {
            let d = DAY_MILLIS as int;
            let g = gap as int;
            let kk = k as int;
            assert(g == now - next);
            assert(kk * d > g && kk * d - d <= g) by (nonlinear_arith)
                requires
                    kk == g / d + 1,
                    g >= 0,
                    d > 0,
            ;
            assert((kk * d) % d == 0) by (nonlinear_arith)
                requires
                    d > 0,
            ;
        }
        r as i64
    }
}

/// One step of a schedule loop with record `rec`, in phase `phase`, whose
/// next firing is at `next`: the new phase, the new next firing, the action.
pub open spec fn schedule_step(rec: ScheduleRecord, phase: LoopPhase, next: i64, signal: LoopSignal) -> (
    LoopPhase,
    i64,
    LoopAction,
) {
    match signal {
        LoopSignal::Woke { now, current_id, active, triggered } => {
            if phase != LoopPhase::Waiting {
                (phase, next, LoopAction::Stop)
            } else if current_id != Some(rec.id) {
                (LoopPhase::Retired, next, LoopAction::Stop)
            } else if next > now && !triggered {
                (LoopPhase::Waiting, next, LoopAction::Sleep { millis: (next - now) as u64 })
            } else if active && rec.periodic {
                let later = first_after(next + DAY_MILLIS, now as int) as i64;
                (LoopPhase::Waiting, later, LoopAction::Sleep { millis: (later - now) as u64 })
            } else if active {
                (LoopPhase::Waiting, next, LoopAction::Sleep { millis: POLL_MILLIS })
            } else if rec.periodic {
                (LoopPhase::Emitting, first_after(next + DAY_MILLIS, now as int) as i64, LoopAction::Emit)
            } else {
                (LoopPhase::Emitting, next, LoopAction::Emit)
            }
        },
        LoopSignal::Sent { delivered } => {
            if phase != LoopPhase::Emitting {
                (phase, next, LoopAction::Stop)
            } else if delivered && rec.periodic {
                (LoopPhase::Draining, next, LoopAction::Poll { millis: POLL_MILLIS })
            } else {
                (LoopPhase::Retired, next, LoopAction::Stop)
            }
        },
        LoopSignal::Polled { active } => {
            if phase != LoopPhase::Draining {
                (phase, next, LoopAction::Stop)
            } else if active {
                (LoopPhase::Draining, next, LoopAction::Poll { millis: POLL_MILLIS })
            } else {
                (LoopPhase::Waiting, next, LoopAction::Sleep { millis: 0 })
            }
        },
    }
}

/// The loop of one wall-clock schedule. A periodic schedule fires daily at
/// the time of day of `scheduled_time`; missed days are skipped and fire
/// once. A one-shot schedule fires once and ends; where a job of its type is
/// active when it is due, it waits for the job and then fires.
#[derive(Debug)]
pub struct ScheduleLoop {
    pub record: ScheduleRecord,
    pub next_time: i64,
    pub phase: LoopPhase,
}

impl ScheduleLoop {
    /// A loop for `record`, to be woken at once.
    pub fn new(record: ScheduleRecord) -> (r: (ScheduleLoop, LoopAction))
        ensures
            r.0.next_time == record.scheduled_time,
            r.0.record == record,
            r.0.phase == LoopPhase::Waiting,
            r.1 == (LoopAction::Sleep { millis: 0 }),
    {
        let next_time = record.scheduled_time;
        (ScheduleLoop { record, next_time, phase: LoopPhase::Waiting }, LoopAction::Sleep { millis: 0 })
    }

    /// Takes in what the runner reports and says what to do next.
    pub fn step(&mut self, signal: LoopSignal) -> (r: LoopAction)
        requires
            old(self).next_time <= TIME_LIMIT,
            signal matches LoopSignal::Woke { now, .. } ==> 0 <= now <= TIME_LIMIT,
        ensures
            final(self).record == old(self).record,
            (final(self).phase, final(self).next_time, r) == schedule_step(
                old(self).record,
                old(self).phase,
                old(self).next_time,
                signal,
            ),
    {
        match signal {
            LoopSignal::Woke { now, current_id, active, triggered } => {
                if self.phase != LoopPhase::Waiting {
                    LoopAction::Stop
                } else if current_id != Some(self.record.id) {
                    self.phase = LoopPhase::Retired;
                    LoopAction::Stop
                } else if self.next_time > now && !triggered {
                    LoopAction::Sleep { millis: (self.next_time - now) as u64 }
                } else if active && self.record.periodic {
                    let later = advance_past(self.next_time + DAY_MILLIS, now);
                    self.next_time = later;
                    LoopAction::Sleep { millis: (later - now) as u64 }
                } else if active {
                    LoopAction::Sleep { millis: POLL_MILLIS }
                } else if self.record.periodic {
                    self.next_time = advance_past(self.next_time + DAY_MILLIS, now);
                    self.phase = LoopPhase::Emitting;
                    LoopAction::Emit
                } else {
                    self.phase = LoopPhase::Emitting;
                    LoopAction::Emit
                }
            },
            LoopSignal::Sent { delivered } => {
                if self.phase != LoopPhase::Emitting {
                    LoopAction::Stop
                } else if delivered && self.record.periodic {
                    self.phase = LoopPhase::Draining;
                    LoopAction::Poll { millis: POLL_MILLIS }
                } else {
                    self.phase = LoopPhase::Retired;
                    LoopAction::Stop
                }
            },
            LoopSignal::Polled { active } => {
                if self.phase != LoopPhase::Draining {
                    LoopAction::Stop
                } else if active {
                    LoopAction::Poll { millis: POLL_MILLIS }
                } else {
                    self.phase = LoopPhase::Waiting;
                    LoopAction::Sleep { millis: 0 }
                }
            },
        }
    }
}

impl JobStore {
    /// What a timer loop of event type `event_type` learns on waking at
    /// `now`: the catalog's current timer id and whether a job is active.
    pub fn timer_wake(&self, event_type: &str, now: i64, triggered: bool) -> (r: LoopSignal)
        requires
            self.wf(),
        ensures
            r == timer_wake_signal(self, event_type@, now, triggered),
    {
        LoopSignal::Woke {
            now,
            current_id: self.db.get_timer_id(event_type),
            active: self.db.has_active_job(event_type),
            triggered,
        }
    }

    /// What a schedule loop of event type `event_type` learns on waking at
    /// `now`: the catalog's current schedule id and whether a job is active.
    pub fn schedule_wake(&self, event_type: &str, now: i64, triggered: bool) -> (r: LoopSignal)
        requires
            self.wf(),
        ensures
            r == schedule_wake_signal(self, event_type@, now, triggered),
    {
        LoopSignal::Woke {
            now,
            current_id: self.db.get_schedule_id(event_type),
            active: self.db.has_active_job(event_type),
            triggered,
        }
    }
}

/// Exclusion: a timer or schedule loop produces an event only on a wake
/// that found no active job of its event type.
pub proof fn loops_emit_only_when_idle(
    timer: TimerRecord,
    schedule: ScheduleRecord,
    phase: LoopPhase,
    next: i64,
    signal: LoopSignal,
)
    ensures
        timer_step(timer, phase, signal).1 == LoopAction::Emit ==> (signal matches LoopSignal::Woke {
            active,
            ..
        } && !active),
        schedule_step(schedule, phase, next, signal).2 == LoopAction::Emit ==> (signal matches LoopSignal::Woke {
            active,
            ..
        } && !active),
{
}

/// Exclusion, against the store: a loop woken with what the store holds
/// produces an event only when no job of its event type is pending or
/// running in the catalog at that moment.
pub proof fn emission_excludes_active_jobs(
    store: &JobStore,
    timer: TimerRecord,
    schedule: ScheduleRecord,
    phase: LoopPhase,
    next: i64,
    now: i64,
    triggered: bool,
)
    ensures
        timer_step(timer, phase, timer_wake_signal(store, timer.event_type@, now, triggered)).1
            == LoopAction::Emit ==> !store.db.has_active(timer.event_type@),
        schedule_step(schedule, phase, next, schedule_wake_signal(store, schedule.event_type@, now, triggered)).2
            == LoopAction::Emit ==> !store.db.has_active(schedule.event_type@),
{
}

/// Self-retirement: once the timer of a loop's event type is updated, the
/// loop retires at its next wake without producing an event.
pub proof fn updated_timer_retires(
    before: &Database,
    after: &Database,
    record: TimerRecord,
    updated: TimerRecord,
    now: i64,
    active: bool,
    triggered: bool,
)
    requires
        before.timer_id_of(record.event_type@) == Some(record.id),
        timer_replaced(before, after, record.event_type@, updated),
    ensures
        timer_step(
            record,
            LoopPhase::Waiting,
            LoopSignal::Woke { now, current_id: after.timer_id_of(record.event_type@), active, triggered },
        ) == (LoopPhase::Retired, LoopAction::Stop),
{
    assert(after.timer_map()[record.event_type@] == updated);
}

/// Self-retirement of schedule loops: once the schedule of a loop's event
/// type is updated, the loop retires at its next wake without producing an
/// event.
pub proof fn updated_schedule_retires(
    before: &Database,
    after: &Database,
    record: ScheduleRecord,
    updated: ScheduleRecord,
    next: i64,
    now: i64,
    active: bool,
    triggered: bool,
)
    requires
        before.schedule_id_of(record.event_type@) == Some(record.id),
        schedule_replaced(before, after, record.event_type@, updated),
    ensures
        schedule_step(
            record,
            LoopPhase::Waiting,
            next,
            LoopSignal::Woke { now, current_id: after.schedule_id_of(record.event_type@), active, triggered },
        ) == (LoopPhase::Retired, next, LoopAction::Stop),
{
    assert(after.schedule_map()[record.event_type@] == updated);
}

/// Missed-tick catch-up: a periodic schedule that is due when it wakes,
/// however many daily firings it slept through, produces exactly one event;
/// its next firing skips the missed days to the first daily anchor after
/// the present, and no wake before that anchor without a manual trigger
/// produces another.
pub proof fn missed_ticks_fire_once(record: ScheduleRecord, next: i64, now: i64, later: i64, active: bool)
    requires
        record.periodic,
        next <= now,
        next <= TIME_LIMIT,
        0 <= now <= TIME_LIMIT,
        now <= later,
    ensures
        ({
            let (phase, moved, action) = schedule_step(
                record,
                LoopPhase::Waiting,
                next,
                LoopSignal::Woke { now, current_id: Some(record.id), active: false, triggered: false },
            );
            &&& action == LoopAction::Emit
            &&& phase == LoopPhase::Emitting
            &&& moved == next + ((now - next) / (DAY_MILLIS as int) + 1) * (DAY_MILLIS as int)
            &&& moved > now
            &&& moved - (DAY_MILLIS as int) <= now
            &&& (later < moved ==> schedule_step(
                record,
                LoopPhase::Waiting,
                moved,
                LoopSignal::Woke { now: later, current_id: Some(record.id), active, triggered: false },
            ).2 != LoopAction::Emit)
        }),
{
    let d = DAY_MILLIS as int;
    let g = now - next;
    let q = g / d;
    assert(q * d <= g && g < q * d + d) by (nonlinear_arith)
        requires
            q == g / d,
            g >= 0,
            d > 0,
    ;
    if next + d <= now {
        let g2 = now - (next + d);
        let q2 = g2 / d;
        assert(q2 == q - 1) by (nonlinear_arith)
            requires
                q2 == g2 / d,
                g2 == g - d,
                g2 >= 0,
                q * d <= g,
                g < q * d + d,
                d > 0,
        ;
        assert(next + d + (q2 + 1) * d == next + (q + 1) * d) by (nonlinear_arith)
            requires
                q2 == q - 1,
        ;
    } else {
        assert(q == 0) by (nonlinear_arith)
            requires
                q * d <= g,
                g < d,
                g >= 0,
                q == g / d,
                d > 0,
        ;
    }
}

/// Ticks are serialised with jobs: once a loop has produced an event, it
/// produces no other until a poll has found no active job of its event
/// type and it is waiting again.
pub proof fn loops_wait_for_their_job(timer: TimerRecord, schedule: ScheduleRecord, next: i64, signal: LoopSignal)
    ensures
        timer_step(timer, LoopPhase::Emitting, signal).1 != LoopAction::Emit,
        timer_step(timer, LoopPhase::Draining, signal).1 != LoopAction::Emit,
        timer_step(timer, LoopPhase::Emitting, signal).0 != LoopPhase::Waiting,
        timer_step(timer, LoopPhase::Draining, signal).0 == LoopPhase::Waiting ==> signal == (LoopSignal::Polled {
            active: false,
        }),
        schedule_step(schedule, LoopPhase::Emitting, next, signal).2 != LoopAction::Emit,
        schedule_step(schedule, LoopPhase::Draining, next, signal).2 != LoopAction::Emit,
        schedule_step(schedule, LoopPhase::Emitting, next, signal).0 != LoopPhase::Waiting,
        schedule_step(schedule, LoopPhase::Draining, next, signal).0 == LoopPhase::Waiting ==> signal == (
        LoopSignal::Polled { active: false }),
{
}

} // verus!
