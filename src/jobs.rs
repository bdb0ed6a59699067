use vstd::prelude::*;

use crate::catalog::jobs_wf;
use crate::catalog::jobs_in_time_order;
use crate::catalog::only_jobs_differ;
use crate::catalog::Database;
use crate::clock::now_millis;
use crate::error::ShevError;
use crate::models::is_active_status;
use crate::models::job_wf;
use crate::models::Job;
use crate::models::JobStatus;
use crate::text::same_text;

verus! {

/// The error recorded on jobs that were active when the process restarted.
pub open spec fn restart_error() -> Seq<char> {
    "Backend restarted"@
}

/// A job of `s` has id `id`.
pub open spec fn has_job(s: Seq<Job>, id: u128) -> bool {
    exists|i: int| 0 <= i < s.len() && #[trigger] s[i].id == id
}

/// The job with id `id`, if any.
pub open spec fn job_with_id(s: Seq<Job>, id: u128) -> Option<Job> {
    if has_job(s, id) {
        Some(s[choose|i: int| 0 <= i < s.len() && #[trigger] s[i].id == id])
    } else {
        None
    }
}

/// `after` differs from `before` at most in the job with id `id`, which
/// keeps its id and place.
pub open spec fn only_job_changed(before: Seq<Job>, after: Seq<Job>, id: u128) -> bool {
    &&& after.len() == before.len()
    &&& forall|i: int|
        0 <= i < before.len() ==> (#[trigger] after[i]).id == before[i].id && (before[i].id == id
            || after[i] == before[i])
}

/// `job` with the mutable fields (status, output, error, times) of `from`.
pub open spec fn with_state_of(job: Job, from: Job) -> Job {
    Job {
        status: from.status,
        output: from.output,
        error: from.error,
        started_at: from.started_at,
        finished_at: from.finished_at,
        ..job
    }
}

/// `after` is what a restart at `now` makes of `before`: an active job is
/// cancelled at `now` with the restart error; any other is kept.
pub open spec fn restarted(before: Job, after: Job, now: i64) -> bool {
    if is_active_status(before.status) {
        &&& after.error is Some
        &&& after.error->0@ == restart_error()
        &&& after == Job {
            status: JobStatus::Cancelled,
            error: after.error,
            finished_at: Some(now),
            ..before
        }
    } else {
        after == before
    }
}

/// `after` is what a restart at `now` makes of the jobs `before`, one by one.
pub open spec fn all_restarted(before: Seq<Job>, after: Seq<Job>, now: i64) -> bool {
    &&& after.len() == before.len()
    &&& forall|i: int| 0 <= i < before.len() ==> restarted(before[i], #[trigger] after[i], now)
}

/// How many jobs of `s` are active.
pub open spec fn active_count(s: Seq<Job>) -> nat
    decreases s.len(),
{
    if s.len() == 0 {
        0
    } else {
        active_count(s.drop_last()) + if is_active_status(s.last().status) {
            1nat
        } else {
            0nat
        }
    }
}

/// How many jobs of `s` have an event no later than `ts`: where a new job
/// of that timestamp goes to keep the time order.
pub open spec fn time_position(s: Seq<Job>, ts: i64) -> int
    decreases s.len(),
{
    if s.len() == 0 {
        0
    } else {
        time_position(s.drop_last(), ts) + if s.last().event.timestamp <= ts {
            1int
        } else {
            0int
        }
    }
}

proof fn lemma_time_position(s: Seq<Job>, ts: i64)
    requires
        jobs_in_time_order(s),
    ensures
        0 <= time_position(s, ts) <= s.len(),
        forall|i: int| 0 <= i < time_position(s, ts) ==> (#[trigger] s[i]).event.timestamp <= ts,
        forall|i: int| time_position(s, ts) <= i < s.len() ==> (#[trigger] s[i]).event.timestamp > ts,
    decreases s.len(),
{
    if s.len() > 0 {
        let d = s.drop_last();
        assert(jobs_in_time_order(d)) by {
            assert forall|i: int, j: int| 0 <= i <= j < d.len() implies (#[trigger] d[i]).event.timestamp <= (#[trigger] d[j]).event.timestamp by {
                assert(d[i] == s[i] && d[j] == s[j]);
            }
        }
        lemma_time_position(d, ts);
        if s.last().event.timestamp <= ts {
            assert forall|i: int| 0 <= i < s.len() implies (#[trigger] s[i]).event.timestamp <= ts by {
                assert(s[i].event.timestamp <= s[s.len() - 1].event.timestamp);
            }
            if time_position(d, ts) < d.len() {
                assert(d[d.len() - 1] == s[d.len() - 1]);
            }
        } else {
            assert forall|i: int| 0 <= i < time_position(s, ts) implies (#[trigger] s[i]).event.timestamp <= ts by {
                assert(d[i] == s[i]);
            }
            assert forall|i: int| time_position(s, ts) <= i < s.len() implies (#[trigger] s[i]).event.timestamp > ts by {
                if i < d.len() {
                    assert(d[i] == s[i]);
                }
            }
        }
    }
}

/// A job is listed under `status`: any job when it is `None`.
pub open spec fn listed_under(job: Job, status: Option<JobStatus>) -> bool {
    status is None || job.status == status->0
}

/// The jobs of `s` at positions `lo..hi` listed under `status`, newest
/// (highest position) first.
pub open spec fn newest_first(s: Seq<Job>, status: Option<JobStatus>, lo: int, hi: int) -> Seq<Job>
    decreases hi - lo,
{
    if hi <= lo {
        Seq::empty()
    } else {
        let rest = newest_first(s, status, lo, hi - 1);
        if listed_under(s[hi - 1], status) {
            seq![s[hi - 1]] + rest
        } else {
            rest
        }
    }
}

/// The listing of jobs: those under `status`, newest first, at most `limit`.
pub open spec fn job_listing(s: Seq<Job>, status: Option<JobStatus>, limit: nat) -> Seq<Job> {
    let all = newest_first(s, status, 0, s.len() as int);
    if all.len() > limit {
        all.take(limit as int)
    } else {
        all
    }
}

proof fn lemma_newest_first_extend(s: Seq<Job>, status: Option<JobStatus>, lo: int, hi: int)
    requires
        0 < lo <= hi,
    ensures
        newest_first(s, status, lo - 1, hi) == newest_first(s, status, lo, hi) + (if listed_under(
            s[lo - 1],
            status,
        ) {
            seq![s[lo - 1]]
        } else {
            Seq::empty()
        }),
    decreases hi - lo,
{
    if hi == lo {
        assert(newest_first(s, status, lo - 1, hi - 1) == Seq::<Job>::empty());
        assert(newest_first(s, status, lo, hi) == Seq::<Job>::empty());
        if listed_under(s[lo - 1], status) {
            assert(newest_first(s, status, lo - 1, hi) =~= seq![s[lo - 1]]);
        }
    } else {
        lemma_newest_first_extend(s, status, lo, hi - 1);
        if listed_under(s[hi - 1], status) {
            assert(newest_first(s, status, lo - 1, hi) =~= newest_first(s, status, lo, hi) + (if listed_under(
                s[lo - 1],
                status,
            ) {
                seq![s[lo - 1]]
            } else {
                Seq::empty()
            }));
        }
    }
}

proof fn lemma_newest_first_split(s: Seq<Job>, status: Option<JobStatus>, lo: int, mid: int, hi: int)
    requires
        0 <= lo <= mid <= hi,
    ensures
        newest_first(s, status, lo, hi) == newest_first(s, status, mid, hi) + newest_first(s, status, lo, mid),
    decreases mid - lo,
{
    if lo == mid {
        assert(newest_first(s, status, lo, mid) == Seq::<Job>::empty());
        assert(newest_first(s, status, mid, hi) + Seq::<Job>::empty() =~= newest_first(s, status, mid, hi));
    } else {
        lemma_newest_first_split(s, status, lo + 1, mid, hi);
        lemma_newest_first_extend(s, status, lo + 1, hi);
        lemma_newest_first_extend(s, status, lo + 1, mid);
        assert(newest_first(s, status, lo, hi) =~= newest_first(s, status, mid, hi) + newest_first(
            s,
            status,
            lo,
            mid,
        ));
    }
}

proof fn lemma_newest_first_descending(s: Seq<Job>, status: Option<JobStatus>, lo: int, hi: int)
    requires
        jobs_in_time_order(s),
        0 <= lo,
        hi <= s.len(),
    ensures
        lo < hi ==> forall|a: int|
            0 <= a < newest_first(s, status, lo, hi).len() ==> (#[trigger] newest_first(s, status, lo, hi)[a]).event.timestamp
                <= s[hi - 1].event.timestamp,
        forall|a: int, b: int|
            0 <= a <= b < newest_first(s, status, lo, hi).len() ==> (#[trigger] newest_first(s, status, lo, hi)[a]).event.timestamp
                >= (#[trigger] newest_first(s, status, lo, hi)[b]).event.timestamp,
    decreases hi - lo,
{
    if lo < hi {
        let rest = newest_first(s, status, lo, hi - 1);
        lemma_newest_first_descending(s, status, lo, hi - 1);
        let r = newest_first(s, status, lo, hi);
        assert forall|a: int| 0 <= a < rest.len() implies (#[trigger] rest[a]).event.timestamp <= s[hi - 1].event.timestamp by {
            assert(s[hi - 2].event.timestamp <= s[hi - 1].event.timestamp);
        }
        if listed_under(s[hi - 1], status) {
            assert forall|a: int| 0 <= a < r.len() implies (#[trigger] r[a]).event.timestamp <= s[hi - 1].event.timestamp by {
                if a > 0 {
                    assert(r[a] == rest[a - 1]);
                }
            }
            assert forall|a: int, b: int| 0 <= a <= b < r.len() implies (#[trigger] r[a]).event.timestamp >= (#[trigger] r[b]).event.timestamp by {
                if a > 0 {
                    assert(r[a] == rest[a - 1] && r[b] == rest[b - 1]);
                } else if b > 0 {
                    assert(r[b] == rest[b - 1]);
                }
            }
        }
    }
}

proof fn lemma_listing_descending(s: Seq<Job>, status: Option<JobStatus>, limit: nat)
    requires
        jobs_in_time_order(s),
    ensures
        forall|a: int, b: int|
            0 <= a <= b < job_listing(s, status, limit).len() ==> (#[trigger] job_listing(s, status, limit)[a]).event.timestamp
                >= (#[trigger] job_listing(s, status, limit)[b]).event.timestamp,
{
    lemma_newest_first_descending(s, status, 0, s.len() as int);
    let all = newest_first(s, status, 0, s.len() as int);
    let l = job_listing(s, status, limit);
    assert forall|a: int, b: int| 0 <= a <= b < l.len() implies (#[trigger] l[a]).event.timestamp >= (#[trigger] l[b]).event.timestamp by {
        assert(l[a] == all[a] && l[b] == all[b]);
    }
}

proof fn lemma_job_with_id(s: Seq<Job>, i: int)
    requires
        jobs_wf(s),
        0 <= i < s.len(),
    ensures
        job_with_id(s, s[i].id) == Some(s[i]),
{
    assert(has_job(s, s[i].id));
    let j = choose|j: int| 0 <= j < s.len() && #[trigger] s[j].id == s[i].id;
    assert(s[j].id == s[i].id);
}

proof fn lemma_active_count_prefix(s: Seq<Job>, i: int)
    requires
        0 <= i < s.len(),
    ensures
        active_count(s.take(i + 1)) == active_count(s.take(i)) + if is_active_status(s[i].status) {
            1nat
        } else {
            0nat
        },
{
    assert(s.take(i + 1).drop_last() =~= s.take(i));
}

impl Database {
    fn job_position(&self, id: u128) -> (r: Option<usize>)
        requires
            jobs_wf(self.jobs@),
        ensures
            r matches Some(i) ==> i < self.jobs@.len() && self.jobs@[i as int].id == id
                && job_with_id(self.jobs@, id) == Some(self.jobs@[i as int]),
            r is None ==> !has_job(self.jobs@, id) && job_with_id(self.jobs@, id) is None,
    {
        let mut i: usize = 0;
        while i < self.jobs.len()
            invariant
                i <= self.jobs@.len(),
                jobs_wf(self.jobs@),
                forall|j: int| 0 <= j < i ==> #[trigger] self.jobs@[j].id != id,
            decreases self.jobs.len() - i,
        {
            if self.jobs[i].id == id {
                proof {
                    lemma_job_with_id(self.jobs@, i as int);
                }
                return Some(i);
            }
            i = i + 1;
        }
        None
    }

    /// Stores a new job; fails with `Conflict` where a job has its id.
    pub fn insert_job(&mut self, job: &Job) -> (r: Result<(), ShevError>)
        requires
            old(self).wf(),
            job_wf(*job),
        ensures
            final(self).wf(),
            only_jobs_differ(old(self), final(self)),
            r is Err <==> has_job(old(self).jobs@, job.id),
            r matches Err(e) ==> e is Conflict && *final(self) == *old(self),
            r is Ok ==> final(self).jobs@ == old(self).jobs@.insert(
                time_position(old(self).jobs@, job.event.timestamp),
                *job,
            ),
    {
        if self.job_position(job.id).is_some() {
            return Err(ShevError::Conflict("Job already exists".to_owned()));
        }
        let ts = job.event.timestamp;
        let ghost s0 = self.jobs@;
        let mut p: usize = 0;
        let mut i: usize = 0;
        while i < self.jobs.len()
            invariant
                i <= self.jobs@.len(),
                s0 == self.jobs@,
                p == time_position(s0.take(i as int), ts),
                p <= i,
            decreases self.jobs.len() - i,
        {
            assert(s0.take(i + 1).drop_last() =~= s0.take(i as int));
            if self.jobs[i].event.timestamp <= ts {
                p = p + 1;
            }
            i = i + 1;
        }
        assert(s0.take(s0.len() as int) =~= s0);
        proof {
            lemma_time_position(s0, ts);
        }
        self.jobs.insert(p, job.clone());
        proof {
            let s = self.jobs@;
            let pi = p as int;
            assert forall|a: int| 0 <= a < s.len() && a != pi implies #[trigger] s[a] == s0[if a < pi { a } else { a - 1 }] by {
            }
            assert(s[pi] == *job);
            assert forall|a: int, b: int|
                0 <= a < s.len() && 0 <= b < s.len() && a != b implies #[trigger] s[a].id != #[trigger] s[b].id by {
                if a != pi && b != pi {
                    assert(s[a] == s0[if a < pi { a } else { a - 1 }]);
                    assert(s[b] == s0[if b < pi { b } else { b - 1 }]);
                } else if a != pi {
                    assert(s[a] == s0[if a < pi { a } else { a - 1 }]);
                    assert(has_job(s0, s0[if a < pi { a } else { a - 1 }].id));
                } else {
                    assert(s[b] == s0[if b < pi { b } else { b - 1 }]);
                    assert(has_job(s0, s0[if b < pi { b } else { b - 1 }].id));
                }
            }
            assert forall|a: int| 0 <= a < s.len() implies job_wf(#[trigger] s[a]) by {
                if a != pi {
                    assert(s[a] == s0[if a < pi { a } else { a - 1 }]);
                }
            }
            assert forall|a: int, b: int| 0 <= a <= b < s.len() implies (#[trigger] s[a]).event.timestamp <= (#[trigger] s[b]).event.timestamp by {
                if a != pi {
                    assert(s[a] == s0[if a < pi { a } else { a - 1 }]);
                }
                if b != pi {
                    assert(s[b] == s0[if b < pi { b } else { b - 1 }]);
                }
            }
        }
        Ok(())
    }

    /// Writes the status, output, error and times of `job` onto the stored
    /// job with its id; nothing changes where there is none.
    pub fn update_job(&mut self, job: &Job) -> (r: Result<(), ShevError>)
        requires
            old(self).wf(),
            job_wf(*job),
        ensures
            r is Ok,
            final(self).wf(),
            only_jobs_differ(old(self), final(self)),
            job_with_id(old(self).jobs@, job.id) matches Some(prev) ==> {
                &&& job_with_id(final(self).jobs@, job.id) == Some(with_state_of(prev, *job))
                &&& only_job_changed(old(self).jobs@, final(self).jobs@, job.id)
            },
            job_with_id(old(self).jobs@, job.id) is None ==> *final(self) == *old(self),
    {
        match self.job_position(job.id) {
            Some(i) => {
                let prev = &self.jobs[i];
                let updated = Job {
                    id: prev.id,
                    event: prev.event.clone(),
                    handler_id: prev.handler_id,
                    status: job.status,
                    output: match &job.output {
                        Some(o) => Some(o.clone()),
                        None => None,
                    },
                    error: match &job.error {
                        Some(e) => Some(e.clone()),
                        None => None,
                    },
                    started_at: job.started_at,
                    finished_at: job.finished_at,
                };
                assert(updated == with_state_of(self.jobs@[i as int], *job));
                self.jobs.set(i, updated);
                proof {
                    let s = self.jobs@;
                    assert forall|a: int, b: int|
                        0 <= a < s.len() && 0 <= b < s.len() && a != b implies #[trigger] s[a].id != #[trigger] s[b].id by {
                        assert(s[a].id == old(self).jobs@[a].id && s[b].id == old(self).jobs@[b].id);
                    }
                    assert forall|a: int| 0 <= a < s.len() implies job_wf(#[trigger] s[a]) by {
                        if a != i {
                            assert(s[a] == old(self).jobs@[a]);
                        }
                    }
                    assert forall|a: int, b: int| 0 <= a <= b < s.len() implies (#[trigger] s[a]).event.timestamp <= (#[trigger] s[b]).event.timestamp by {
                        assert(s[a].event == old(self).jobs@[a].event && s[b].event == old(self).jobs@[b].event);
                    }
                    lemma_job_with_id(s, i as int);
                    assert forall|a: int| 0 <= a < old(self).jobs@.len() implies (#[trigger] s[a]).id == old(self).jobs@[a].id && (old(self).jobs@[a].id == job.id
                        || s[a] == old(self).jobs@[a]) by {
                        if a != i {
                            assert(s[a] == old(self).jobs@[a]);
                        }
                    }
                }
                Ok(())
            },
            None => Ok(()),
        }
    }

    /// The job with id `id`, if any.
    pub fn get_job(&self, id: u128) -> (r: Option<Job>)
        requires
            self.wf(),
        ensures
            r == job_with_id(self.jobs@, id),
            r matches Some(j) ==> j.id == id && job_wf(j),
    {
        match self.job_position(id) {
            Some(i) => Some(self.jobs[i].clone()),
            None => None,
        }
    }

    /// The jobs under `status` (all where `None`), newest first, at most
    /// `limit` of them.
    pub fn get_all_jobs(&self, status: Option<&JobStatus>, limit: usize) -> (r: Vec<Job>)
        ensures
            r@ == job_listing(
                self.jobs@,
                match status {
                    Some(s) => Some(*s),
                    None => None,
                },
                limit as nat,
            ),
            jobs_wf(self.jobs@) ==> forall|a: int, b: int|
                0 <= a <= b < r@.len() ==> (#[trigger] r@[a]).event.timestamp >= (#[trigger] r@[b]).event.timestamp,
    {
        let ghost st = match status {
            Some(s) => Some(*s),
            None => None,
        };
        let ghost s = self.jobs@;
        let mut out: Vec<Job> = Vec::new();
        let mut i: usize = self.jobs.len();
        while i > 0
            invariant
                i <= s.len(),
                s == self.jobs@,
                st == match status {
                    Some(x) => Some(*x),
                    None => None,
                },
                out@ == newest_first(s, st, i as int, s.len() as int),
                out@.len() <= limit,
            decreases i,
        {
            if out.len() == limit {
                proof {
                    lemma_newest_first_split(s, st, 0, i as int, s.len() as int);
                    let all = newest_first(s, st, 0, s.len() as int);
                    if all.len() > limit {
                        assert(all.take(limit as int) =~= out@);
                    } else {
                        assert(all =~= out@);
                    }
                    if jobs_wf(s) {
                        lemma_listing_descending(s, st, limit as nat);
                    }
                }
                return out;
            }
            proof {
                lemma_newest_first_extend(s, st, i as int, s.len() as int);
            }
            let listed = match status {
                Some(st_ref) => self.jobs[i - 1].status == *st_ref,
                None => true,
            };
            assert(listed == listed_under(s[i - 1], st));
            if listed {
                out.push(self.jobs[i - 1].clone());
            }
            assert(out@ =~= newest_first(s, st, i - 1, s.len() as int));
            i = i - 1;
        }
        proof {
            if jobs_wf(s) {
                lemma_listing_descending(s, st, limit as nat);
            }
        }
        out
    }

    /// Whether some job of `event_type` is pending or running.
    pub fn has_active_job(&self, event_type: &str) -> (r: bool)
        ensures
            r == self.has_active(event_type@),
    {
        let mut i: usize = 0;
        while i < self.jobs.len()
            invariant
                i <= self.jobs@.len(),
                forall|j: int|
                    0 <= j < i ==> !(#[trigger] self.jobs@[j].event.event_type@ == event_type@
                        && is_active_status(self.jobs@[j].status)),
            decreases self.jobs.len() - i,
        {
            let job = &self.jobs[i];
            if job.status.is_active() && same_text(job.event.event_type.as_str(), event_type) {
                return true;
            }
            i = i + 1;
        }
        false
    }

    /// Cancels, at time `now`, every job left pending or running, recording
    /// the restart error; returns how many were cancelled.
    pub fn cancel_stale_jobs_at(&mut self, now: i64) -> (r: usize)
        requires
            old(self).wf(),
        ensures
            final(self).wf(),
            only_jobs_differ(old(self), final(self)),
            r == active_count(old(self).jobs@),
            all_restarted(old(self).jobs@, final(self).jobs@, now),
    {
        let ghost s0 = self.jobs@;
        let mut count: usize = 0;
        let mut i: usize = 0;
        while i < self.jobs.len()
            invariant
                i <= self.jobs@.len(),
                self.jobs@.len() == s0.len(),
                forall|j: int| 0 <= j < i ==> restarted(s0[j], #[trigger] self.jobs@[j], now),
                forall|j: int| i <= j < s0.len() ==> #[trigger] self.jobs@[j] == s0[j],
                count == active_count(s0.take(i as int)),
                count <= i,
                self.handlers == old(self).handlers,
                self.timers == old(self).timers,
                self.schedules == old(self).schedules,
                self.config == old(self).config,
            decreases self.jobs.len() - i,
        {
            proof {
                lemma_active_count_prefix(s0, i as int);
            }
            if self.jobs[i].status.is_active() {
                let prev = &self.jobs[i];
                proof {
                    reveal_strlit("Backend restarted");
                }
                let cancelled = Job {
                    id: prev.id,
                    event: prev.event.clone(),
                    handler_id: prev.handler_id,
                    status: JobStatus::Cancelled,
                    output: match &prev.output {
                        Some(o) => Some(o.clone()),
                        None => None,
                    },
                    error: Some("Backend restarted".to_owned()),
                    started_at: prev.started_at,
                    finished_at: Some(now),
                };
                self.jobs.set(i, cancelled);
                count = count + 1;
            }
            i = i + 1;
        }
        proof {
            assert(s0.take(s0.len() as int) =~= s0);
            let s = self.jobs@;
            assert forall|a: int, b: int|
                0 <= a < s.len() && 0 <= b < s.len() && a != b implies #[trigger] s[a].id != #[trigger] s[b].id by {
                assert(s[a].id == s0[a].id && s[b].id == s0[b].id);
            }
            assert forall|a: int| 0 <= a < s.len() implies job_wf(#[trigger] s[a]) by {
                assert(restarted(s0[a], s[a], now));
                assert(job_wf(s0[a]));
            }
            assert forall|a: int, b: int| 0 <= a <= b < s.len() implies (#[trigger] s[a]).event.timestamp <= (#[trigger] s[b]).event.timestamp by {
                assert(restarted(s0[a], s[a], now) && restarted(s0[b], s[b], now));
            }
        }
        count
    }

    /// Cancels, at the current time, every job left pending or running,
    /// recording the restart error; returns how many were cancelled. This is
    /// the recovery step at start-up.
    pub fn cancel_stale_jobs(&mut self) -> (r: usize)
        requires
            old(self).wf(),
        ensures
            final(self).wf(),
            only_jobs_differ(old(self), final(self)),
            r == active_count(old(self).jobs@),
            exists|now: i64| now >= 0 && #[trigger] all_restarted(old(self).jobs@, final(self).jobs@, now),
    {
        let now = now_millis();
        self.cancel_stale_jobs_at(now)
    }
}

/// Crash recovery: after the restart step no job is pending or running, and
/// every job that was has a finish time and the restart error.
pub proof fn restart_leaves_no_active_job(before: &Database, after: &Database, now: i64)
    requires
        all_restarted(before.jobs@, after.jobs@, now),
    ensures
        forall|i: int| 0 <= i < after.jobs@.len() ==> !is_active_status(#[trigger] after.jobs@[i].status),
        forall|i: int|
            0 <= i < before.jobs@.len() && is_active_status(#[trigger] before.jobs@[i].status) ==> {
                &&& after.jobs@[i].status == JobStatus::Cancelled
                &&& after.jobs@[i].finished_at == Some(now)
                &&& after.jobs@[i].error matches Some(e) && e@ == restart_error()
            },
        forall|et: Seq<char>| !#[trigger] after.has_active(et),
{
    assert forall|i: int| 0 <= i < after.jobs@.len() implies !is_active_status(#[trigger] after.jobs@[i].status) by {
        assert(restarted(before.jobs@[i], after.jobs@[i], now));
    }
    assert forall|i: int|
        0 <= i < before.jobs@.len() && is_active_status(#[trigger] before.jobs@[i].status) implies {
            &&& after.jobs@[i].status == JobStatus::Cancelled
            &&& after.jobs@[i].finished_at == Some(now)
            &&& after.jobs@[i].error matches Some(e) && e@ == restart_error()
        } by {
        assert(restarted(before.jobs@[i], after.jobs@[i], now));
    }
}

/// Whether the fields of `job` agree with its status.
pub fn job_consistent(job: &Job) -> (r: bool)
    ensures
        r == job_wf(*job),
{
    match job.status {
        JobStatus::Pending => job.started_at.is_none() && job.finished_at.is_none() && job.output.is_none()
            && job.error.is_none(),
        JobStatus::Running => job.started_at.is_some() && job.finished_at.is_none() && job.output.is_none()
            && job.error.is_none(),
        JobStatus::Completed => job.started_at.is_some() && job.finished_at.is_some() && job.output.is_some()
            && job.error.is_none(),
        JobStatus::Failed => job.started_at.is_some() && job.finished_at.is_some() && job.output.is_none()
            && job.error.is_some(),
        JobStatus::Cancelled => job.finished_at.is_some() && job.output.is_none(),
    }
}

impl Database {
    /// Takes in a stored job as it is, where its fields agree with its
    /// status and its id is new; true iff it was taken.
    pub fn restore_job(&mut self, job: Job) -> (r: bool)
        requires
            old(self).wf(),
        ensures
            final(self).wf(),
            only_jobs_differ(old(self), final(self)),
            r == (job_wf(job) && !has_job(old(self).jobs@, job.id)),
            r ==> final(self).jobs@ == old(self).jobs@.insert(time_position(old(self).jobs@, job.event.timestamp), job),
            !r ==> *final(self) == *old(self),
    {
        if !job_consistent(&job) {
            return false;
        }
        self.insert_job(&job).is_ok()
    }
}

/// The ids of a sequence of jobs.
pub open spec fn job_ids(s: Seq<Job>) -> Seq<u128> {
    s.map_values(|j: Job| j.id)
}

impl Database {
    /// The ids of the stored jobs, in order.
    pub fn job_id_list(&self) -> (r: Vec<u128>)
        ensures
            r@ == job_ids(self.jobs@),
    {
        let mut out: Vec<u128> = Vec::new();
        let mut i: usize = 0;
        while i < self.jobs.len()
            invariant
                i <= self.jobs@.len(),
                out@ == job_ids(self.jobs@).take(i as int),
            decreases self.jobs.len() - i,
        {
            out.push(self.jobs[i].id);
            i = i + 1;
            assert(out@ =~= job_ids(self.jobs@).take(i as int));
        }
        assert(out@ =~= job_ids(self.jobs@));
        out
    }
}

} // verus!
