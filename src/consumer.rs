use vstd::prelude::*;

use crate::jobs::job_with_id;
use crate::jobs::time_position;
use crate::jobs::only_job_changed;
use crate::models::EventHandler;
use crate::models::Event;
use crate::models::ExecutionResult;
use crate::models::Job;
use crate::models::JobStatus;
use crate::models::job_wf;
use crate::store::completed_with;
use crate::store::failed_with;
use crate::store::only_jobs_moved;
use crate::store::JobStore;
use crate::text::decimal;
use crate::text::push_decimal;
use crate::text::signed_decimal;
use crate::text::signed_to_decimal;

verus! {

/// Whether the consumer runs the events it receives or passes over them.
#[derive(Debug)]
pub struct ConsumerControl {
    running: bool,
}

impl ConsumerControl {
    /// Whether the consumer runs events.
    pub closed spec fn runs(&self) -> bool {
        self.running
    }

    /// A control that lets the consumer run.
    pub fn new() -> (r: ConsumerControl)
        ensures
            r.runs(),
    {
        ConsumerControl { running: true }
    }

    /// Pauses the consumer: events received meanwhile are passed over.
    pub fn stop(&mut self)
        ensures
            !final(self).runs(),
    {
        self.running = false;
    }

    /// Lets the consumer run again.
    pub fn start(&mut self)
        ensures
            final(self).runs(),
    {
        self.running = true;
    }

    /// Whether the consumer runs events.
    pub fn is_running(&self) -> (r: bool)
        ensures
            r == self.runs(),
    {
        self.running
    }
}

impl Default for ConsumerControl {
    fn default() -> (r: ConsumerControl)
        ensures
            r.runs(),
    {
        ConsumerControl::new()
    }
}

/// The text of an exit code: its decimal value, or `unknown` where the
/// process had none (it was stopped by a signal).
pub open spec fn exit_code_text(code: Option<i32>) -> Seq<char> {
    match code {
        Some(n) => signed_decimal(n as int),
        None => "unknown"@,
    }
}

/// The error recorded for a command that exited unsuccessfully: what it
/// wrote to standard error, or else its exit code.
pub open spec fn failure_text(stderr: Seq<char>, exit_code: Option<i32>) -> Seq<char> {
    if stderr.len() > 0 {
        stderr
    } else {
        "Exit code: "@ + exit_code_text(exit_code)
    }
}

/// The error recorded for a command that ran out of time.
pub open spec fn timeout_text(secs: u64) -> Seq<char> {
    "Command timed out after "@ + decimal(secs as nat) + " seconds"@
}

/// The error recorded for an unsuccessful command.
pub fn failure_message(result: &ExecutionResult) -> (r: String)
    ensures
        r@ == failure_text(result.stderr@, result.exit_code),
{
    if result.stderr.as_str().unicode_len() > 0 {
        result.stderr.clone()
    } else {
        let mut out = "Exit code: ".to_owned();
        match result.exit_code {
            Some(n) => {
                let code = signed_to_decimal(n as i64);
                out.append(code.as_str());
            },
            None => {
                out.append("unknown");
            },
        }
        out
    }
}

/// The error recorded for a command stopped after `secs` seconds.
pub fn timeout_message(secs: u64) -> (r: String)
    ensures
        r@ == timeout_text(secs),
{
    let mut out = "Command timed out after ".to_owned();
    push_decimal(&mut out, secs);
    out.append(" seconds");
    out
}

impl JobStore {
    /// Binds an event to the handler of its type: records a pending job and
    /// returns it with the handler to run. Nothing is recorded where the
    /// consumer is paused or the event type has no handler.
    pub fn dispatch(&mut self, event: Event, control: &ConsumerControl) -> (r: Option<(Job, EventHandler)>)
        requires
            old(self).wf(),
        ensures
            final(self).wf(),
            only_jobs_moved(old(self), final(self)),
            r is Some <==> control.runs() && old(self).handler_map().contains_key(event.event_type@),
            r is None ==> final(self).db.jobs == old(self).db.jobs,
            r matches Some(bound) ==> {
                &&& bound.1@ == old(self).handler_map()[event.event_type@]
                &&& bound.0.event == event
                &&& bound.0.handler_id == bound.1.id
                &&& final(self).db.jobs@ == old(self).db.jobs@.insert(
                    time_position(old(self).db.jobs@, event.timestamp),
                    bound.0,
                )
                &&& bound.0.status == JobStatus::Pending
                &&& job_wf(bound.0)
            },
    {
        if !control.is_running() {
            return None;
        }
        let handler = match self.get_handler(event.event_type.as_str()) {
            Some(h) => h,
            None => {
                return None;
            },
        };
        let job = self.create_job(event, &handler);
        Some((job, handler))
    }

    /// Records how the command of a running job ended: completed with its
    /// standard output on success, failed with `failure_message` otherwise,
    /// failed with the error where it could not run. True iff the job was
    /// running; a job cancelled meanwhile keeps its status.
    pub fn finish_job(&mut self, job_id: u128, outcome: Result<ExecutionResult, String>) -> (r: bool)
        requires
            old(self).wf(),
        ensures
            final(self).wf(),
            only_jobs_moved(old(self), final(self)),
            r == (job_with_id(old(self).db.jobs@, job_id) matches Some(p) && (p.status == JobStatus::Running)),
            !r ==> final(self).db.jobs == old(self).db.jobs,
            r ==> only_job_changed(old(self).db.jobs@, final(self).db.jobs@, job_id),
            r ==> (job_with_id(final(self).db.jobs@, job_id) matches Some(n) && {
                let p = job_with_id(old(self).db.jobs@, job_id)->0;
                match outcome {
                    Ok(res) => if res.success {
                        completed_with(p, n, res.stdout@)
                    } else {
                        failed_with(p, n, failure_text(res.stderr@, res.exit_code))
                    },
                    Err(e) => failed_with(p, n, e@),
                }
            }),
    {
        match outcome {
            Ok(res) => {
                if res.success {
                    self.mark_completed(job_id, res.stdout)
                } else {
                    let message = failure_message(&res);
                    self.mark_failed(job_id, message)
                }
            },
            Err(e) => self.mark_failed(job_id, e),
        }
    }
}

} // verus!
