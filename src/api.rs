use vstd::prelude::*;

use crate::error::describe;
use crate::error::ShevError;
use crate::models::{
    lemma_key_index, lemma_keyed_push, lemma_keyed_remove,
    lemma_keyed_update, position_of, shell_of_lowercase, EnvVar, EventHandler, Job,
    JobStatus, ScheduleRecord, ShellType, TimerRecord, Warning, WarningKind, missing_handler_message,
};
use crate::store::unresolved;
use crate::store::JobStore;
use crate::text::lower_of;
use crate::text::parse_unsigned;
use crate::text::parsed_unsigned;

verus! {

/// Job counts by status.
#[derive(Debug)]
pub struct StatusResponse {
    pub consumer_running: bool,
    pub total_jobs: usize,
    pub pending_jobs: usize,
    pub running_jobs: usize,
    pub completed_jobs: usize,
    pub failed_jobs: usize,
}

/// The state of the consumer after a start or stop.
#[derive(Debug)]
pub struct ControlResponse {
    pub success: bool,
    pub consumer_running: bool,
}

/// The counts of a reload.
#[derive(Debug)]
pub struct ReloadResponse {
    pub success: bool,
    pub handlers_loaded: usize,
    pub timers_loaded: usize,
    pub schedules_loaded: usize,
}

/// The configuration as stored.
#[derive(Debug)]
pub struct ConfigResponse {
    pub port: String,
    pub queue_size: String,
}

/// New configuration values; absent ones stay as they are.
#[derive(Debug)]
pub struct UpdateConfigRequest {
    pub port: Option<String>,
    pub queue_size: Option<String>,
}

/// A handler to register.
#[derive(Debug)]
pub struct CreateHandlerRequest {
    pub event_type: String,
    pub shell: String,
    pub command: String,
    pub timeout: Option<u64>,
    pub env: Vec<EnvVar>,
}

/// New values for a handler; absent ones stay as they are.
#[derive(Debug)]
pub struct UpdateHandlerRequest {
    pub shell: Option<String>,
    pub command: Option<String>,
    pub timeout: Option<Option<u64>>,
    pub env: Option<Vec<EnvVar>>,
}

/// A timer to register.
#[derive(Debug)]
pub struct CreateTimerRequest {
    pub event_type: String,
    pub interval_secs: u64,
    pub context: String,
}

/// New values for a timer; absent ones stay as they are.
#[derive(Debug)]
pub struct UpdateTimerRequest {
    pub interval_secs: Option<u64>,
    pub context: Option<String>,
}

/// A schedule to register; the time is in milliseconds since the epoch.
#[derive(Debug)]
pub struct CreateScheduleRequest {
    pub event_type: String,
    pub scheduled_time: i64,
    pub context: String,
    pub periodic: bool,
}

/// New values for a schedule; absent ones stay as they are.
#[derive(Debug)]
pub struct UpdateScheduleRequest {
    pub scheduled_time: Option<i64>,
    pub context: Option<String>,
    pub periodic: Option<bool>,
}

/// An event to inject.
#[derive(Debug)]
pub struct TriggerEventRequest {
    pub event_type: String,
    pub context: String,
}

/// Whether an injected event was queued, and why.
#[derive(Debug)]
pub struct TriggerEventResponse {
    pub triggered: bool,
    pub message: String,
}

/// An event posted to the event endpoint.
#[derive(Debug)]
pub struct EventRequest {
    pub event_type: String,
    pub context: String,
}

/// The health of the dispatcher: healthy when no warning is unresolved.
#[derive(Debug)]
pub struct HealthResponse {
    pub healthy: bool,
    pub warnings: Vec<Warning>,
}

/// `after` is `before` with a missing-handler warning for `et` from
/// `source` added, unless one for `et` is kept already.
pub open spec fn warned(before: Seq<Warning>, after: Seq<Warning>, et: Seq<char>, source: Seq<char>) -> bool {
    if crate::models::has_key(before, et) {
        after == before
    } else {
        &&& after.len() == before.len() + 1
        &&& after.drop_last() == before
        &&& after.last().kind == WarningKind::MissingHandler
        &&& after.last().event_type@ == et
        &&& after.last().message@ == missing_handler_message(et, source)
    }
}

/// How many jobs of `s` are in `status`.
pub open spec fn count_status(s: Seq<Job>, status: JobStatus) -> nat
    decreases s.len(),
{
    if s.len() == 0 {
        0
    } else {
        count_status(s.drop_last(), status) + if s.last().status == status {
            1nat
        } else {
            0nat
        }
    }
}

/// A valid port: a decimal number from 1 to 65535.
pub open spec fn valid_port(s: Seq<char>) -> bool {
    parsed_unsigned(s, 65535) matches Some(n) && n > 0
}

/// A valid queue size: a positive decimal number that fits in `usize`.
pub open spec fn valid_queue_size(s: Seq<char>) -> bool {
    parsed_unsigned(s, usize::MAX as nat) matches Some(n) && n > 0
}

fn count_jobs(jobs: &Vec<Job>, status: JobStatus) -> (r: usize)
    ensures
        r == count_status(jobs@, status),
{
    let mut n: usize = 0;
    let mut i: usize = 0;
    while i < jobs.len()
        invariant
            i <= jobs@.len(),
            n == count_status(jobs@.take(i as int), status),
            n <= i,
        decreases jobs.len() - i,
    {
        assert(jobs@.take(i + 1).drop_last() =~= jobs@.take(i as int));
        if jobs[i].status == status {
            n = n + 1;
        }
        i = i + 1;
    }
    assert(jobs@.take(jobs@.len() as int) =~= jobs@);
    n
}

impl JobStore {
    /// The job counts by status over all jobs of the catalog.
    pub fn status(&self, consumer_running: bool) -> (r: StatusResponse)
        ensures
            r.consumer_running == consumer_running,
            r.total_jobs == self.db.jobs@.len(),
            r.pending_jobs == count_status(self.db.jobs@, JobStatus::Pending),
            r.running_jobs == count_status(self.db.jobs@, JobStatus::Running),
            r.completed_jobs == count_status(self.db.jobs@, JobStatus::Completed),
            r.failed_jobs == count_status(self.db.jobs@, JobStatus::Failed),
    {
        StatusResponse {
            consumer_running,
            total_jobs: self.db.jobs.len(),
            pending_jobs: count_jobs(&self.db.jobs, JobStatus::Pending),
            running_jobs: count_jobs(&self.db.jobs, JobStatus::Running),
            completed_jobs: count_jobs(&self.db.jobs, JobStatus::Completed),
            failed_jobs: count_jobs(&self.db.jobs, JobStatus::Failed),
        }
    }

    /// The health report: the unresolved warnings, healthy iff none.
    pub fn health(&self) -> (r: HealthResponse)
        requires
            self.wf(),
        ensures
            r.warnings@ == unresolved(self.warnings@, self.handler_map()),
            r.healthy == (r.warnings@.len() == 0),
    {
        let warnings = self.get_warnings();
        HealthResponse { healthy: warnings.len() == 0, warnings }
    }

    fn mirror_handler(&mut self, handler: EventHandler)
        requires
            old(self).wf(),
        ensures
            final(self).wf(),
            final(self).handler_map() == old(self).handler_map().insert(handler.event_type@, handler@),
            final(self).db == old(self).db,
            final(self).timers == old(self).timers,
            final(self).schedules == old(self).schedules,
            final(self).warnings == old(self).warnings,
    {
        match position_of(&self.handlers, handler.event_type.as_str()) {
            Some(i) => {
                proof {
                    lemma_keyed_update(self.handlers@, i as int, handler);
                }
                self.handlers.set(i, handler);
            },
            None => {
                proof {
                    lemma_keyed_push(self.handlers@, handler);
                }
                self.handlers.push(handler);
            },
        }
    }

    /// Registers the handler that `req` describes, in the catalog and the
    /// mirror. Fails with `InvalidInput` on an unknown shell and with
    /// `Conflict` where the event type has a handler.
    pub fn create_handler(&mut self, req: &CreateHandlerRequest) -> (r: Result<EventHandler, ShevError>)
        requires
            old(self).wf(),
        ensures
            final(self).wf(),
            final(self).warnings == old(self).warnings,
            r is Err ==> *final(self) == *old(self),
            final(self).timers == old(self).timers,
            final(self).schedules == old(self).schedules,
            final(self).db.timers == old(self).db.timers,
            final(self).db.schedules == old(self).db.schedules,
            final(self).db.jobs == old(self).db.jobs,
            shell_of_lowercase(lower_of(req.shell@)) is None ==> (r matches Err(e) && e is InvalidInput),
            shell_of_lowercase(lower_of(req.shell@)) is Some ==> (r is Err <==> old(self).db.handler_map().contains_key(
                req.event_type@,
            )),
            r matches Ok(h) ==> {
                &&& shell_of_lowercase(lower_of(req.shell@)) == Some(h.shell)
                &&& h.event_type@ == req.event_type@
                &&& h.command@ == req.command@
                &&& h.timeout == req.timeout
                &&& h.env@ == req.env@
                &&& final(self).db.handler_map() == old(self).db.handler_map().insert(req.event_type@, h@)
                &&& final(self).handler_map() == old(self).handler_map().insert(req.event_type@, h@)
            },
    {
        let shell = parse_shell(req.shell.as_str())?;
        let env = crate::models::clone_env(&req.env);
        let handler = self.db.insert_handler(req.event_type.as_str(), shell, req.command.as_str(), req.timeout, env)?;
        self.mirror_handler(handler.clone());
        Ok(handler)
    }

    /// Changes the handler of `event_type` as `req` asks, in the catalog and
    /// the mirror, renewing its id. Fails with `InvalidInput` on an unknown
    /// shell and with `NotFound` where the event type has no handler.
    pub fn update_handler(&mut self, event_type: &str, req: &UpdateHandlerRequest) -> (r: Result<
        EventHandler,
        ShevError,
    >)
        requires
            old(self).wf(),
        ensures
            final(self).wf(),
            final(self).warnings == old(self).warnings,
            r is Err ==> *final(self) == *old(self),
            final(self).db.timers == old(self).db.timers,
            final(self).db.schedules == old(self).db.schedules,
            final(self).db.jobs == old(self).db.jobs,
            (req.shell matches Some(s) && shell_of_lowercase(lower_of(s@)) is None) ==> (r matches Err(e)
                && e is InvalidInput),
            !(req.shell matches Some(s) && shell_of_lowercase(lower_of(s@)) is None) ==> (r is Err
                <==> !old(self).db.handler_map().contains_key(event_type@)),
            r matches Ok(h) ==> {
                &&& old(self).db.handler_map().contains_key(event_type@)
                &&& h.id != old(self).db.handler_map()[event_type@].id
                &&& h.event_type@ == event_type@
                &&& final(self).db.handler_map() == old(self).db.handler_map().insert(event_type@, h@)
                &&& final(self).handler_map() == old(self).handler_map().insert(event_type@, h@)
            },
    {
        let shell = match &req.shell {
            Some(name) => Some(parse_shell(name.as_str())?),
            None => None,
        };
        let command = match &req.command {
            Some(c) => Some(c.as_str()),
            None => None,
        };
        let env = match &req.env {
            Some(e) => Some(crate::models::clone_env(e)),
            None => None,
        };
        let handler = self.db.update_handler(event_type, shell, command, req.timeout, env)?;
        proof {
            let m = old(self).db.handler_map();
            assert(m.contains_key(event_type@));
            assert(m[event_type@].event_type == event_type@) by {
                let i = crate::models::key_index(old(self).db.handlers@, event_type@);
                lemma_key_index(old(self).db.handlers@, i);
            }
        }
        self.mirror_handler(handler.clone());
        Ok(handler)
    }

    /// Removes the handler of `event_type` from the catalog and the mirror;
    /// true iff there was one. Where a timer or schedule of the catalog
    /// still produces that event type, a missing-handler warning is kept.
    pub fn remove_handler(&mut self, event_type: &str) -> (r: bool)
        requires
            old(self).wf(),
        ensures
            final(self).wf(),
            r == old(self).db.handler_map().contains_key(event_type@),
            final(self).db.handler_map() == old(self).db.handler_map().remove(event_type@),
            final(self).handler_map() == old(self).handler_map().remove(event_type@),
            final(self).db.timers == old(self).db.timers,
            final(self).db.schedules == old(self).db.schedules,
            final(self).db.jobs == old(self).db.jobs,
            old(self).db.timer_map().contains_key(event_type@) ==> warned(
                old(self).warnings@,
                final(self).warnings@,
                event_type@,
                "Timer"@,
            ),
            !old(self).db.timer_map().contains_key(event_type@) && old(self).db.schedule_map().contains_key(event_type@)
                ==> warned(old(self).warnings@, final(self).warnings@, event_type@, "Schedule"@),
            !old(self).db.timer_map().contains_key(event_type@) && !old(self).db.schedule_map().contains_key(event_type@)
                ==> final(self).warnings == old(self).warnings,
            final(self).timers == old(self).timers,
            final(self).schedules == old(self).schedules,
    {
        let removed = self.db.delete_handler(event_type);
        match position_of(&self.handlers, event_type) {
            Some(i) => {
                proof {
                    lemma_keyed_remove(self.handlers@, i as int);
                }
                self.handlers.remove(i);
            },
            None => {
                assert(self.handler_map() =~= self.handler_map().remove(event_type@));
            },
        }
        if self.db.get_timer_id(event_type).is_some() {
            self.add_warning(Warning::missing_handler(event_type, "Timer"));
        } else if self.db.get_schedule_id(event_type).is_some() {
            self.add_warning(Warning::missing_handler(event_type, "Schedule"));
        }
        removed
    }
}

impl JobStore {
    fn forget_timer(&mut self, event_type: &str)
        requires
            old(self).wf(),
        ensures
            final(self).wf(),
            final(self).timer_map() == old(self).timer_map().remove(event_type@),
            final(self).db == old(self).db,
            final(self).handlers == old(self).handlers,
            final(self).schedules == old(self).schedules,
            final(self).warnings == old(self).warnings,
    {
        match position_of(&self.timers, event_type) {
            Some(i) => {
                proof {
                    lemma_keyed_remove(self.timers@, i as int);
                }
                self.timers.remove(i);
            },
            None => {
                assert(self.timer_map() =~= self.timer_map().remove(event_type@));
            },
        }
    }

    fn forget_schedule(&mut self, event_type: &str)
        requires
            old(self).wf(),
        ensures
            final(self).wf(),
            final(self).schedule_map() == old(self).schedule_map().remove(event_type@),
            final(self).db == old(self).db,
            final(self).handlers == old(self).handlers,
            final(self).timers == old(self).timers,
            final(self).warnings == old(self).warnings,
    {
        match position_of(&self.schedules, event_type) {
            Some(i) => {
                proof {
                    lemma_keyed_remove(self.schedules@, i as int);
                }
                self.schedules.remove(i);
            },
            None => {
                assert(self.schedule_map() =~= self.schedule_map().remove(event_type@));
            },
        }
    }

    /// Registers the timer that `req` describes in the catalog and as the
    /// live record of its event type. Returns it, and whether its loop must
    /// be started. Where its event type has no handler, a missing-handler
    /// warning is kept. Fails as `Database::insert_timer` does.
    pub fn create_timer(&mut self, req: &CreateTimerRequest) -> (r: Result<(TimerRecord, bool), ShevError>)
        requires
            old(self).wf(),
        ensures
            final(self).wf(),
            r is Err ==> *final(self) == *old(self),
            final(self).db.handlers == old(self).db.handlers,
            final(self).db.schedules == old(self).db.schedules,
            final(self).db.jobs == old(self).db.jobs,
            r is Err <==> (req.interval_secs == 0 || old(self).db.timer_map().contains_key(req.event_type@)),
            r matches Ok(created) ==> {
                let t = created.0;
                &&& t.event_type@ == req.event_type@
                &&& t.interval_secs == req.interval_secs
                &&& t.context@ == req.context@
                &&& final(self).db.timer_map() == old(self).db.timer_map().insert(req.event_type@, t)
                &&& created.1 == !crate::store::timer_is_live(old(self).timer_map(), t)
                &&& final(self).timer_map().contains_key(req.event_type@)
                &&& final(self).timer_map()[req.event_type@].id == t.id
            },
            r is Ok && !old(self).handler_map().contains_key(req.event_type@) ==> warned(
                old(self).warnings@,
                final(self).warnings@,
                req.event_type@,
                "Timer"@,
            ),
            r is Ok && old(self).handler_map().contains_key(req.event_type@) ==> final(self).warnings == old(self).warnings,
    {
        let timer = self.db.insert_timer(req.event_type.as_str(), req.interval_secs, req.context.as_str())?;
        let start = self.register_timer(timer.clone());
        if self.get_handler(req.event_type.as_str()).is_none() {
            self.add_warning(Warning::missing_handler(req.event_type.as_str(), "Timer"));
        }
        Ok((timer, start))
    }

    /// Changes the timer of `event_type` as `req` asks, renewing its id, and
    /// registers the new record; the loop of the old one retires. Returns
    /// the record, and whether its loop must be started. Fails as
    /// `Database::update_timer` does.
    pub fn update_timer(&mut self, event_type: &str, req: &UpdateTimerRequest) -> (r: Result<
        (TimerRecord, bool),
        ShevError,
    >)
        requires
            old(self).wf(),
        ensures
            final(self).wf(),
            final(self).warnings == old(self).warnings,
            r is Err ==> *final(self) == *old(self),
            final(self).db.handlers == old(self).db.handlers,
            final(self).db.schedules == old(self).db.schedules,
            final(self).db.jobs == old(self).db.jobs,
            r is Err <==> (req.interval_secs == Some(0u64) || !old(self).db.timer_map().contains_key(event_type@)),
            r matches Ok(updated) ==> {
                let t = updated.0;
                &&& crate::catalog::timer_replaced(&old(self).db, &final(self).db, event_type@, t)
                &&& updated.1 == !crate::store::timer_is_live(old(self).timer_map(), t)
                &&& final(self).timer_map().contains_key(event_type@)
                &&& final(self).timer_map()[event_type@].id == t.id
            },
    {
        let context = match &req.context {
            Some(c) => Some(c.as_str()),
            None => None,
        };
        let timer = self.db.update_timer(event_type, req.interval_secs, context)?;
        let start = self.register_timer(timer.clone());
        Ok((timer, start))
    }

    /// Removes the timer of `event_type` from the catalog and the live
    /// records; true iff the catalog had one. Its loop retires at its next
    /// wake.
    pub fn remove_timer(&mut self, event_type: &str) -> (r: bool)
        requires
            old(self).wf(),
        ensures
            final(self).wf(),
            final(self).warnings == old(self).warnings,
            r == old(self).db.timer_map().contains_key(event_type@),
            final(self).db.timer_map() == old(self).db.timer_map().remove(event_type@),
            final(self).timer_map() == old(self).timer_map().remove(event_type@),
            final(self).db.handlers == old(self).db.handlers,
            final(self).db.schedules == old(self).db.schedules,
            final(self).db.jobs == old(self).db.jobs,
    {
        let removed = self.db.delete_timer(event_type);
        self.forget_timer(event_type);
        removed
    }

    /// Registers the schedule that `req` describes in the catalog and as the
    /// live record of its event type. Returns it, and whether its loop must
    /// be started. Where its event type has no handler, a missing-handler
    /// warning is kept. Fails as `Database::insert_schedule` does.
    pub fn create_schedule(&mut self, req: &CreateScheduleRequest) -> (r: Result<
        (ScheduleRecord, bool),
        ShevError,
    >)
        requires
            old(self).wf(),
        ensures
            final(self).wf(),
            r is Err ==> *final(self) == *old(self),
            final(self).db.handlers == old(self).db.handlers,
            final(self).db.timers == old(self).db.timers,
            final(self).db.jobs == old(self).db.jobs,
            r is Err <==> old(self).db.schedule_map().contains_key(req.event_type@),
            r matches Ok(created) ==> {
                let s = created.0;
                &&& s.event_type@ == req.event_type@
                &&& s.scheduled_time == req.scheduled_time
                &&& s.periodic == req.periodic
                &&& s.context@ == req.context@
                &&& final(self).db.schedule_map() == old(self).db.schedule_map().insert(req.event_type@, s)
                &&& created.1 == !crate::store::schedule_is_live(old(self).schedule_map(), s)
                &&& final(self).schedule_map().contains_key(req.event_type@)
                &&& final(self).schedule_map()[req.event_type@].id == s.id
            },
            r is Ok && !old(self).handler_map().contains_key(req.event_type@) ==> warned(
                old(self).warnings@,
                final(self).warnings@,
                req.event_type@,
                "Schedule"@,
            ),
            r is Ok && old(self).handler_map().contains_key(req.event_type@) ==> final(self).warnings == old(self).warnings,
    {
        let schedule = self.db.insert_schedule(
            req.event_type.as_str(),
            req.scheduled_time,
            req.context.as_str(),
            req.periodic,
        )?;
        let start = self.register_schedule(schedule.clone());
        if self.get_handler(req.event_type.as_str()).is_none() {
            self.add_warning(Warning::missing_handler(req.event_type.as_str(), "Schedule"));
        }
        Ok((schedule, start))
    }

    /// Changes the schedule of `event_type` as `req` asks, renewing its id,
    /// and registers the new record; the loop of the old one retires.
    /// Fails as `Database::update_schedule` does.
    pub fn update_schedule(&mut self, event_type: &str, req: &UpdateScheduleRequest) -> (r: Result<
        (ScheduleRecord, bool),
        ShevError,
    >)
        requires
            old(self).wf(),
        ensures
            final(self).wf(),
            final(self).warnings == old(self).warnings,
            r is Err ==> *final(self) == *old(self),
            final(self).db.handlers == old(self).db.handlers,
            final(self).db.timers == old(self).db.timers,
            final(self).db.jobs == old(self).db.jobs,
            r is Err <==> !old(self).db.schedule_map().contains_key(event_type@),
            r matches Ok(updated) ==> {
                let s = updated.0;
                &&& crate::catalog::schedule_replaced(&old(self).db, &final(self).db, event_type@, s)
                &&& updated.1 == !crate::store::schedule_is_live(old(self).schedule_map(), s)
                &&& final(self).schedule_map().contains_key(event_type@)
                &&& final(self).schedule_map()[event_type@].id == s.id
            },
    {
        let context = match &req.context {
            Some(c) => Some(c.as_str()),
            None => None,
        };
        let schedule = self.db.update_schedule(event_type, req.scheduled_time, context, req.periodic)?;
        let start = self.register_schedule(schedule.clone());
        Ok((schedule, start))
    }

    /// Removes the schedule of `event_type` from the catalog and the live
    /// records; true iff the catalog had one.
    pub fn remove_schedule(&mut self, event_type: &str) -> (r: bool)
        requires
            old(self).wf(),
        ensures
            final(self).wf(),
            final(self).warnings == old(self).warnings,
            r == old(self).db.schedule_map().contains_key(event_type@),
            final(self).db.schedule_map() == old(self).db.schedule_map().remove(event_type@),
            final(self).schedule_map() == old(self).schedule_map().remove(event_type@),
            final(self).db.handlers == old(self).db.handlers,
            final(self).db.timers == old(self).db.timers,
            final(self).db.jobs == old(self).db.jobs,
    {
        let removed = self.db.delete_schedule(event_type);
        self.forget_schedule(event_type);
        removed
    }

    /// The stored configuration, with the defaults where a key is missing.
    pub fn config(&self) -> (r: ConfigResponse)
        requires
            self.wf(),
        ensures
            r.port@ == (if self.db.config_value("port"@) is Some { self.db.config_value("port"@)->0 } else { "3000"@ }),
            r.queue_size@ == (if self.db.config_value("queue_size"@) is Some {
                self.db.config_value("queue_size"@)->0
            } else {
                "100"@
            }),
    {
        let port = match self.db.get_config("port") {
            Some(v) => v,
            None => "3000".to_owned(),
        };
        let queue_size = match self.db.get_config("queue_size") {
            Some(v) => v,
            None => "100".to_owned(),
        };
        ConfigResponse { port, queue_size }
    }

    /// Sets the configuration values that `req` gives, after checking them:
    /// a port must be a number from 1 to 65535 and a queue size a positive
    /// number, else nothing changes and the result is `InvalidInput`. The
    /// values take effect at the next start.
    pub fn update_config(&mut self, req: &UpdateConfigRequest) -> (r: Result<ConfigResponse, ShevError>)
        requires
            old(self).wf(),
        ensures
            final(self).wf(),
            final(self).warnings == old(self).warnings,
            r is Err <==> (req.port matches Some(p) && !valid_port(p@)) || (req.queue_size matches Some(q)
                && !valid_queue_size(q@)),
            r matches Err(e) ==> *final(self) == *old(self) && (e matches ShevError::InvalidInput(m) && m@ == (
                if req.port is Some && !valid_port(req.port->0@) {
                    if parsed_unsigned(req.port->0@, 65535) is Some {
                        "Port cannot be 0"@
                    } else {
                        "Invalid port: "@ + req.port->0@
                    }
                } else if parsed_unsigned(req.queue_size->0@, usize::MAX as nat) is Some {
                    "Queue size cannot be 0"@
                } else {
                    "Invalid queue_size: "@ + req.queue_size->0@
                })),
            r is Ok ==> final(self).db.config_map() == ({
                let m1 = if req.port is Some {
                    old(self).db.config_map().insert("port"@, req.port->0@)
                } else {
                    old(self).db.config_map()
                };
                if req.queue_size is Some {
                    m1.insert("queue_size"@, req.queue_size->0@)
                } else {
                    m1
                }
            }),
            final(self).db.handlers == old(self).db.handlers,
            final(self).db.timers == old(self).db.timers,
            final(self).db.schedules == old(self).db.schedules,
            final(self).db.jobs == old(self).db.jobs,
    {
        if let Some(p) = &req.port {
            match parse_unsigned(p.as_str(), 65535) {
                Some(n) => {
                    if n == 0 {
                        return Err(ShevError::InvalidInput("Port cannot be 0".to_owned()));
                    }
                },
                None => {
                    let mut m = "Invalid port: ".to_owned();
                    m.append(p.as_str());
                    return Err(ShevError::InvalidInput(m));
                },
            }
        }
        if let Some(q) = &req.queue_size {
            match parse_unsigned(q.as_str(), usize::MAX as u64) {
                Some(n) => {
                    if n == 0 {
                        return Err(ShevError::InvalidInput("Queue size cannot be 0".to_owned()));
                    }
                },
                None => {
                    let mut m = "Invalid queue_size: ".to_owned();
                    m.append(q.as_str());
                    return Err(ShevError::InvalidInput(m));
                },
            }
        }
        if let Some(p) = &req.port {
            self.db.set_config("port", p.as_str());
        }
        if let Some(q) = &req.queue_size {
            self.db.set_config("queue_size", q.as_str());
        }
        Ok(self.config())
    }
}

/// Reads a shell name; `InvalidInput` where it names none.
pub fn parse_shell(s: &str) -> (r: Result<ShellType, ShevError>)
    ensures
        r matches Ok(sh) ==> shell_of_lowercase(lower_of(s@)) == Some(sh),
        r matches Err(e) ==> shell_of_lowercase(lower_of(s@)) is None && (e matches ShevError::InvalidInput(m)
            && m@ == "Invalid shell '"@ + s@ + "'. Use: pwsh, bash, or sh"@),
{
    match ShellType::from_str(s) {
        Some(sh) => Ok(sh),
        None => Err(ShevError::InvalidInput(describe("Invalid shell '", s, "'. Use: pwsh, bash, or sh"))),
    }
}

/// Reads a job status name; `InvalidInput` where it names none.
pub fn parse_status(s: &str) -> (r: Result<JobStatus, ShevError>)
    ensures
        r matches Ok(st) ==> crate::models::status_of_lowercase(lower_of(s@)) == Some(st),
        r matches Err(e) ==> crate::models::status_of_lowercase(lower_of(s@)) is None && (e matches ShevError::InvalidInput(m)
            && m@ == "Invalid status '"@ + s@ + "'. Use: pending, running, completed, failed, or cancelled"@),
{
    match JobStatus::from_str(s) {
        Some(st) => Ok(st),
        None => Err(ShevError::InvalidInput(describe(
            "Invalid status '",
            s,
            "'. Use: pending, running, completed, failed, or cancelled",
        ))),
    }
}

} // verus!
