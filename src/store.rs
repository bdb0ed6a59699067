use vstd::prelude::*;

use crate::catalog::ConfigEntry;
use crate::catalog::Database;
use crate::clock::now_millis;
use crate::jobs::job_listing;
use crate::jobs::job_with_id;
use crate::jobs::time_position;
use crate::jobs::has_job;
use crate::ids::is_v4;
use crate::ids::unused_id;
use crate::jobs::only_job_changed;
use crate::models::job_wf;
use crate::models::status_step;
use crate::models::Event;
use crate::models::JobStatus;
use crate::models::{
    copy_schedules, copy_timers,
    has_key, key_index, keyed_map, keys_unique, lemma_key_index, lemma_keyed_push,
    lemma_keyed_update, position_of, EventHandler, HandlerView, Job, Keyed, ScheduleRecord, TimerRecord, Warning,
};

verus! {

/// The most jobs that a listing returns.
pub const JOB_LISTING_LIMIT: usize = 1000;

/// What a store holds, as sequences of plain values.
pub struct StoreModel {
    pub catalog_handlers: Seq<HandlerView>,
    pub catalog_timers: Seq<TimerRecord>,
    pub catalog_schedules: Seq<ScheduleRecord>,
    pub jobs: Seq<Job>,
    pub config: Seq<ConfigEntry>,
    pub handlers: Seq<HandlerView>,
    pub timers: Seq<TimerRecord>,
    pub schedules: Seq<ScheduleRecord>,
    pub warnings: Seq<Warning>,
}

/// The views of a sequence of handlers.
pub open spec fn handler_views(s: Seq<EventHandler>) -> Seq<HandlerView> {
    s.map_values(|h: EventHandler| h@)
}

/// The timer `t` has a live loop among `live`: a record of its event type
/// with its id.
pub open spec fn timer_is_live(live: Map<Seq<char>, TimerRecord>, t: TimerRecord) -> bool {
    live.contains_key(t.event_type@) && live[t.event_type@].id == t.id
}

/// The schedule `s` has a live loop among `live`.
pub open spec fn schedule_is_live(live: Map<Seq<char>, ScheduleRecord>, s: ScheduleRecord) -> bool {
    live.contains_key(s.event_type@) && live[s.event_type@].id == s.id
}

/// The timers of `s`, in order, that have no live loop among `live`.
pub open spec fn timers_to_start(s: Seq<TimerRecord>, live: Map<Seq<char>, TimerRecord>) -> Seq<TimerRecord>
    decreases s.len(),
{
    if s.len() == 0 {
        Seq::empty()
    } else {
        let rest = timers_to_start(s.drop_last(), live);
        if timer_is_live(live, s.last()) {
            rest
        } else {
            rest.push(s.last())
        }
    }
}

/// The schedules of `s`, in order, that have no live loop among `live`.
pub open spec fn schedules_to_start(s: Seq<ScheduleRecord>, live: Map<Seq<char>, ScheduleRecord>) -> Seq<
    ScheduleRecord,
>
    decreases s.len(),
{
    if s.len() == 0 {
        Seq::empty()
    } else {
        let rest = schedules_to_start(s.drop_last(), live);
        if schedule_is_live(live, s.last()) {
            rest
        } else {
            rest.push(s.last())
        }
    }
}

/// What a reload brings: the counts loaded and the records whose loops must
/// be started.
#[derive(Debug)]
pub struct ReloadOutcome {
    pub handlers_loaded: usize,
    pub timers_loaded: usize,
    pub schedules_loaded: usize,
    pub timers_to_start: Vec<TimerRecord>,
    pub schedules_to_start: Vec<ScheduleRecord>,
}

/// The in-memory store: the catalog, its mirror of handlers, and the
/// timers and schedules whose loops are live, with the warnings.
#[derive(Debug)]
pub struct JobStore {
    pub db: Database,
    pub handlers: Vec<EventHandler>,
    pub timers: Vec<TimerRecord>,
    pub schedules: Vec<ScheduleRecord>,
    pub warnings: Vec<Warning>,
}

fn copy_handlers(v: &Vec<EventHandler>) -> (r: Vec<EventHandler>)
    ensures
        r@.len() == v@.len(),
        handler_views(r@) == handler_views(v@),
        forall|i: int| 0 <= i < v@.len() ==> (#[trigger] r@[i]).key() == v@[i].key(),
{
    let mut out: Vec<EventHandler> = Vec::new();
    let mut i: usize = 0;
    while i < v.len()
        invariant
            i <= v@.len(),
            out@.len() == i,
            forall|j: int| 0 <= j < i ==> (#[trigger] out@[j])@ == v@[j]@,
        decreases v.len() - i,
    {
        out.push(v[i].clone());
        i = i + 1;
    }
    assert(handler_views(out@) =~= handler_views(v@));
    out
}

proof fn lemma_keys_unique_views(a: Seq<EventHandler>, b: Seq<EventHandler>)
    requires
        keys_unique(b),
        a.len() == b.len(),
        forall|i: int| 0 <= i < a.len() ==> (#[trigger] a[i]).key() == b[i].key(),
        handler_views(a) == handler_views(b),
    ensures
        keys_unique(a),
        keyed_map(a) == keyed_map(b),
{
    assert forall|i: int, j: int|
        0 <= i < a.len() && 0 <= j < a.len() && i != j implies #[trigger] a[i].key() != #[trigger] a[j].key() by {
        assert(a[i].key() == b[i].key() && a[j].key() == b[j].key());
    }
    assert forall|k: Seq<char>| has_key(a, k) == has_key(b, k) by {
        if has_key(a, k) {
            let i = key_index(a, k);
            assert(b[i].key() == k);
        }
        if has_key(b, k) {
            let i = key_index(b, k);
            assert(a[i].key() == k);
        }
    }
    assert forall|k: Seq<char>| #[trigger] has_key(a, k) implies a[key_index(a, k)].model() == b[key_index(b, k)].model() by {
        let i = key_index(a, k);
        lemma_key_index(a, i);
        assert(a[i].key() == b[i].key());
        lemma_key_index(b, i);
        assert(handler_views(a)[i] == a[i]@);
        assert(handler_views(b)[i] == b[i]@);
        assert(handler_views(a)[i] == handler_views(b)[i]);
    }
    assert(keyed_map(a) =~= keyed_map(b));
}



/// The timers of `records` without a live loop among `live`.
fn select_timers_to_start(records: &Vec<TimerRecord>, live: &Vec<TimerRecord>) -> (r: Vec<TimerRecord>)
    requires
        keys_unique(live@),
    ensures
        r@ == timers_to_start(records@, keyed_map(live@)),
{
    let ghost m = keyed_map(live@);
    let mut out: Vec<TimerRecord> = Vec::new();
    let mut i: usize = 0;
    while i < records.len()
        invariant
            i <= records@.len(),
            keys_unique(live@),
            m == keyed_map(live@),
            out@ == timers_to_start(records@.subrange(0, i as int), m),
        decreases records.len() - i,
    {
        let t = &records[i];
        assert(records@.subrange(0, i + 1).drop_last() =~= records@.subrange(0, i as int));
        let live_here = match position_of(live, t.event_type.as_str()) {
            Some(j) => {
                proof {
                    lemma_key_index(live@, j as int);
                }
                live[j].id == t.id
            },
            None => false,
        };
        assert(live_here == timer_is_live(m, *t));
        if !live_here {
            out.push(t.clone());
        }
        i = i + 1;
    }
    assert(records@.subrange(0, records@.len() as int) =~= records@);
    out
}

/// The schedules of `records` without a live loop among `live`.
fn select_schedules_to_start(records: &Vec<ScheduleRecord>, live: &Vec<ScheduleRecord>) -> (r: Vec<
    ScheduleRecord,
>)
    requires
        keys_unique(live@),
    ensures
        r@ == schedules_to_start(records@, keyed_map(live@)),
{
    let ghost m = keyed_map(live@);
    let mut out: Vec<ScheduleRecord> = Vec::new();
    let mut i: usize = 0;
    while i < records.len()
        invariant
            i <= records@.len(),
            keys_unique(live@),
            m == keyed_map(live@),
            out@ == schedules_to_start(records@.subrange(0, i as int), m),
        decreases records.len() - i,
    {
        let s = &records[i];
        assert(records@.subrange(0, i + 1).drop_last() =~= records@.subrange(0, i as int));
        let live_here = match position_of(live, s.event_type.as_str()) {
            Some(j) => {
                proof {
                    lemma_key_index(live@, j as int);
                }
                live[j].id == s.id
            },
            None => false,
        };
        assert(live_here == schedule_is_live(m, *s));
        if !live_here {
            out.push(s.clone());
        }
        i = i + 1;
    }
    assert(records@.subrange(0, records@.len() as int) =~= records@);
    out
}

impl JobStore {
    /// The invariant of the store: the catalog's, and one entry per event
    /// type in each mirror and among the warnings.
    pub open spec fn wf(&self) -> bool {
        &&& self.db.wf()
        &&& keys_unique(self.handlers@)
        &&& keys_unique(self.timers@)
        &&& keys_unique(self.schedules@)
        &&& keys_unique(self.warnings@)
    }

    /// What the store holds.
    pub open spec fn model(&self) -> StoreModel {
        StoreModel {
            catalog_handlers: handler_views(self.db.handlers@),
            catalog_timers: self.db.timers@,
            catalog_schedules: self.db.schedules@,
            jobs: self.db.jobs@,
            config: self.db.config@,
            handlers: handler_views(self.handlers@),
            timers: self.timers@,
            schedules: self.schedules@,
            warnings: self.warnings@,
        }
    }

    /// The mirrored handlers by event type.
    pub open spec fn handler_map(&self) -> Map<Seq<char>, HandlerView> {
        keyed_map(self.handlers@)
    }

    /// The timers with a live loop, by event type.
    pub open spec fn timer_map(&self) -> Map<Seq<char>, TimerRecord> {
        keyed_map(self.timers@)
    }

    /// The schedules with a live loop, by event type.
    pub open spec fn schedule_map(&self) -> Map<Seq<char>, ScheduleRecord> {
        keyed_map(self.schedules@)
    }

    /// A store over `db` with empty mirrors.
    pub fn new(db: Database) -> (r: JobStore)
        requires
            db.wf(),
        ensures
            r.wf(),
            r.db == db,
            r.handlers@.len() == 0,
            r.timers@.len() == 0,
            r.schedules@.len() == 0,
            r.warnings@.len() == 0,
    {
        JobStore { db, handlers: Vec::new(), timers: Vec::new(), schedules: Vec::new(), warnings: Vec::new() }
    }

    /// Replaces the mirror of handlers by the catalog's.
    pub fn load_handlers(&mut self)
        requires
            old(self).wf(),
        ensures
            final(self).wf(),
            final(self).model() == (StoreModel { handlers: old(self).model().catalog_handlers, ..old(self).model() }),
            final(self).handler_map() == final(self).db.handler_map(),
    {
        let handlers = copy_handlers(&self.db.handlers);
        proof {
            lemma_keys_unique_views(handlers@, self.db.handlers@);
        }
        self.handlers = handlers;
    }

    /// Replaces the live timers by the catalog's and returns them.
    pub fn load_timers(&mut self) -> (r: Vec<TimerRecord>)
        requires
            old(self).wf(),
        ensures
            final(self).wf(),
            final(self).model() == (StoreModel { timers: old(self).model().catalog_timers, ..old(self).model() }),
            r@ == old(self).db.timers@,
    {
        self.timers = copy_timers(&self.db.timers);
        copy_timers(&self.db.timers)
    }

    /// Replaces the live schedules by the catalog's and returns them.
    pub fn load_schedules(&mut self) -> (r: Vec<ScheduleRecord>)
        requires
            old(self).wf(),
        ensures
            final(self).wf(),
            final(self).model() == (StoreModel { schedules: old(self).model().catalog_schedules, ..old(self).model() }),
            r@ == old(self).db.schedules@,
    {
        self.schedules = copy_schedules(&self.db.schedules);
        copy_schedules(&self.db.schedules)
    }

    /// Reconciles the store with the catalog: the mirrors become the
    /// catalog's handlers, timers and schedules, and the records whose id
    /// had no live loop are returned to be started. Loops of records that
    /// changed or left retire on their own.
    pub fn reload(&mut self) -> (r: ReloadOutcome)
        requires
            old(self).wf(),
        ensures
            final(self).wf(),
            reloaded(old(self), final(self), r),
    {
        let timers_to_start = select_timers_to_start(&self.db.timers, &self.timers);
        let schedules_to_start = select_schedules_to_start(&self.db.schedules, &self.schedules);
        self.load_handlers();
        let timers = self.load_timers();
        let schedules = self.load_schedules();
        ReloadOutcome {
            handlers_loaded: self.handlers.len(),
            timers_loaded: timers.len(),
            schedules_loaded: schedules.len(),
            timers_to_start,
            schedules_to_start,
        }
    }
}

/// `after` is `before` reloaded, with outcome `r`: the mirrors equal the
/// catalog, and the records to start are those without a live loop before.
pub open spec fn reloaded(before: &JobStore, after: &JobStore, r: ReloadOutcome) -> bool {
    let m = before.model();
    &&& after.model() == (StoreModel {
        handlers: m.catalog_handlers,
        timers: m.catalog_timers,
        schedules: m.catalog_schedules,
        ..m
    })
    &&& r.handlers_loaded == m.catalog_handlers.len()
    &&& r.timers_loaded == m.catalog_timers.len()
    &&& r.schedules_loaded == m.catalog_schedules.len()
    &&& r.timers_to_start@ == timers_to_start(m.catalog_timers, before.timer_map())
    &&& r.schedules_to_start@ == schedules_to_start(m.catalog_schedules, before.schedule_map())
}

proof fn lemma_no_timer_to_start(s: Seq<TimerRecord>, n: int)
    requires
        keys_unique(s),
        0 <= n <= s.len(),
    ensures
        timers_to_start(s.take(n), keyed_map(s)).len() == 0,
    decreases n,
{
    if n > 0 {
        assert(s.take(n).drop_last() =~= s.take(n - 1));
        lemma_no_timer_to_start(s, n - 1);
        lemma_key_index(s, n - 1);
    }
}

proof fn lemma_no_schedule_to_start(s: Seq<ScheduleRecord>, n: int)
    requires
        keys_unique(s),
        0 <= n <= s.len(),
    ensures
        schedules_to_start(s.take(n), keyed_map(s)).len() == 0,
    decreases n,
{
    if n > 0 {
        assert(s.take(n).drop_last() =~= s.take(n - 1));
        lemma_no_schedule_to_start(s, n - 1);
        lemma_key_index(s, n - 1);
    }
}

/// Reload idempotence: a second reload right after a first leaves the store
/// as the first left it, reports the same counts, and starts no loop.
pub proof fn reload_is_idempotent(
    s0: &JobStore,
    s1: &JobStore,
    s2: &JobStore,
    r1: ReloadOutcome,
    r2: ReloadOutcome,
)
    requires
        s0.wf(),
        reloaded(s0, s1, r1),
        reloaded(s1, s2, r2),
    ensures
        s2.model() == s1.model(),
        r2.handlers_loaded == r1.handlers_loaded,
        r2.timers_loaded == r1.timers_loaded,
        r2.schedules_loaded == r1.schedules_loaded,
        r2.timers_to_start@.len() == 0,
        r2.schedules_to_start@.len() == 0,
{
    let t = s0.db.timers@;
    let sc = s0.db.schedules@;
    assert(s1.timers@ == t);
    assert(s1.schedules@ == sc);
    assert(s1.db.timers@ == t);
    assert(s1.db.schedules@ == sc);
    lemma_no_timer_to_start(t, t.len() as int);
    assert(t.take(t.len() as int) =~= t);
    lemma_no_schedule_to_start(sc, sc.len() as int);
    assert(sc.take(sc.len() as int) =~= sc);
}

/// `next` is `prev` moved to running, with a start time.
pub open spec fn started(prev: Job, next: Job) -> bool {
    next.started_at is Some && next == Job { status: JobStatus::Running, started_at: next.started_at, ..prev }
}

/// `next` is `prev` completed with `output`, with a finish time.
pub open spec fn completed_with(prev: Job, next: Job, output: Seq<char>) -> bool {
    &&& next.output matches Some(o) && o@ == output
    &&& next.finished_at is Some
    &&& next == Job {
        status: JobStatus::Completed,
        output: next.output,
        finished_at: next.finished_at,
        ..prev
    }
}

/// `next` is `prev` failed with `error`, with a finish time.
pub open spec fn failed_with(prev: Job, next: Job, error: Seq<char>) -> bool {
    &&& next.error matches Some(e) && e@ == error
    &&& next.finished_at is Some
    &&& next == Job { status: JobStatus::Failed, error: next.error, finished_at: next.finished_at, ..prev }
}

/// `next` is `prev` cancelled, with a finish time.
pub open spec fn cancelled_from(prev: Job, next: Job) -> bool {
    next.finished_at is Some && next == Job {
        status: JobStatus::Cancelled,
        finished_at: next.finished_at,
        ..prev
    }
}

/// `after` differs from `before` in the catalog's jobs alone.
pub open spec fn only_jobs_moved(before: &JobStore, after: &JobStore) -> bool {
    after.model() == (StoreModel { jobs: after.model().jobs, ..before.model() })
}

impl JobStore {
    fn write_job(&mut self, job: &Job)
        requires
            old(self).wf(),
            job_wf(*job),
            has_job(old(self).db.jobs@, job.id),
        ensures
            final(self).wf(),
            only_jobs_moved(old(self), final(self)),
            only_job_changed(old(self).db.jobs@, final(self).db.jobs@, job.id),
            job_with_id(final(self).db.jobs@, job.id) == Some(
                crate::jobs::with_state_of(job_with_id(old(self).db.jobs@, job.id)->0, *job),
            ),
    {
        let _ = self.db.update_job(job);
    }

    /// Records a new pending job for `event`, bound to `handler`, with an
    /// id that no stored job has.
    pub fn create_job(&mut self, event: Event, handler: &EventHandler) -> (r: Job)
        requires
            old(self).wf(),
        ensures
            final(self).wf(),
            only_jobs_moved(old(self), final(self)),
            is_v4(r.id),
            !has_job(old(self).db.jobs@, r.id),
            r.event == event,
            r.handler_id == handler.id,
            r.status == JobStatus::Pending,
            job_wf(r),
            final(self).db.jobs@ == old(self).db.jobs@.insert(time_position(old(self).db.jobs@, event.timestamp), r),
    {
        let id = unused_id(&self.db.job_id_list());
        proof {
            if has_job(self.db.jobs@, id) {
                let i = choose|i: int| 0 <= i < self.db.jobs@.len() && #[trigger] self.db.jobs@[i].id == id;
                assert(crate::jobs::job_ids(self.db.jobs@)[i] == id);
            }
        }
        let job = Job {
            id,
            event,
            handler_id: handler.id,
            status: JobStatus::Pending,
            output: None,
            error: None,
            started_at: None,
            finished_at: None,
        };
        let _ = self.db.insert_job(&job);
        job
    }

    /// Moves a pending job to running; true iff the job exists and was
    /// pending. A job cancelled in the meantime is left as it is.
    pub fn mark_running(&mut self, job_id: u128) -> (r: bool)
        requires
            old(self).wf(),
        ensures
            final(self).wf(),
            only_jobs_moved(old(self), final(self)),
            r == (job_with_id(old(self).db.jobs@, job_id) matches Some(p) && (p.status == JobStatus::Pending)),
            r ==> {
                &&& only_job_changed(old(self).db.jobs@, final(self).db.jobs@, job_id)
                &&& job_with_id(final(self).db.jobs@, job_id) matches Some(n)
                    && started(job_with_id(old(self).db.jobs@, job_id)->0, n)
            },
            !r ==> final(self).db.jobs == old(self).db.jobs,
    {
        match self.db.get_job(job_id) {
            Some(job) => {
                if job.status == JobStatus::Pending {
                    let next = Job { status: JobStatus::Running, started_at: Some(now_millis()), ..job };
                    self.write_job(&next);
                    true
                } else {
                    false
                }
            },
            None => false,
        }
    }

    /// Completes a running job with `output`; true iff the job exists and
    /// was running. A job cancelled while it ran keeps its status.
    pub fn mark_completed(&mut self, job_id: u128, output: String) -> (r: bool)
        requires
            old(self).wf(),
        ensures
            final(self).wf(),
            only_jobs_moved(old(self), final(self)),
            r == (job_with_id(old(self).db.jobs@, job_id) matches Some(p) && p.status == JobStatus::Running),
            r ==> {
                &&& only_job_changed(old(self).db.jobs@, final(self).db.jobs@, job_id)
                &&& job_with_id(final(self).db.jobs@, job_id) matches Some(n)
                    && completed_with(job_with_id(old(self).db.jobs@, job_id)->0, n, output@)
            },
            !r ==> final(self).db.jobs == old(self).db.jobs,
    {
        match self.db.get_job(job_id) {
            Some(job) => {
                if job.status == JobStatus::Running {
                    let next = Job {
                        status: JobStatus::Completed,
                        output: Some(output),
                        finished_at: Some(now_millis()),
                        ..job
                    };
                    self.write_job(&next);
                    true
                } else {
                    false
                }
            },
            None => false,
        }
    }

    /// Fails a running job with `error`; true iff the job exists and was
    /// running. A job cancelled while it ran keeps its status.
    pub fn mark_failed(&mut self, job_id: u128, error: String) -> (r: bool)
        requires
            old(self).wf(),
        ensures
            final(self).wf(),
            only_jobs_moved(old(self), final(self)),
            r == (job_with_id(old(self).db.jobs@, job_id) matches Some(p) && p.status == JobStatus::Running),
            r ==> {
                &&& only_job_changed(old(self).db.jobs@, final(self).db.jobs@, job_id)
                &&& job_with_id(final(self).db.jobs@, job_id) matches Some(n)
                    && failed_with(job_with_id(old(self).db.jobs@, job_id)->0, n, error@)
            },
            !r ==> final(self).db.jobs == old(self).db.jobs,
    {
        match self.db.get_job(job_id) {
            Some(job) => {
                if job.status == JobStatus::Running {
                    let next = Job {
                        status: JobStatus::Failed,
                        error: Some(error),
                        finished_at: Some(now_millis()),
                        ..job
                    };
                    self.write_job(&next);
                    true
                } else {
                    false
                }
            },
            None => false,
        }
    }

    /// Cancels a pending or running job; true iff the job exists and was
    /// one of these. A running process is not stopped.
    pub fn cancel_job(&mut self, job_id: u128) -> (r: bool)
        requires
            old(self).wf(),
        ensures
            final(self).wf(),
            only_jobs_moved(old(self), final(self)),
            r == (job_with_id(old(self).db.jobs@, job_id) matches Some(p) && (p.status == JobStatus::Pending
                || p.status == JobStatus::Running)),
            r ==> {
                &&& only_job_changed(old(self).db.jobs@, final(self).db.jobs@, job_id)
                &&& job_with_id(final(self).db.jobs@, job_id) matches Some(n)
                    && cancelled_from(job_with_id(old(self).db.jobs@, job_id)->0, n)
            },
            !r ==> final(self).db.jobs == old(self).db.jobs,
    {
        match self.db.get_job(job_id) {
            Some(job) => {
                if job.status == JobStatus::Pending || job.status == JobStatus::Running {
                    let next = Job { status: JobStatus::Cancelled, finished_at: Some(now_millis()), ..job };
                    self.write_job(&next);
                    true
                } else {
                    false
                }
            },
            None => false,
        }
    }
}

impl JobStore {
    /// The mirrored handler of `event_type`, if any.
    pub fn get_handler(&self, event_type: &str) -> (r: Option<EventHandler>)
        requires
            self.wf(),
        ensures
            r is Some <==> self.handler_map().contains_key(event_type@),
            r matches Some(h) ==> h@ == self.handler_map()[event_type@] && h.event_type@ == event_type@,
    {
        match position_of(&self.handlers, event_type) {
            Some(i) => {
                proof {
                    lemma_key_index(self.handlers@, i as int);
                }
                Some(self.handlers[i].clone())
            },
            None => None,
        }
    }
}

/// The warnings of `ws`, in order, whose event type has no handler in
/// `handlers`: those not yet resolved.
pub open spec fn unresolved(ws: Seq<Warning>, handlers: Map<Seq<char>, HandlerView>) -> Seq<Warning>
    decreases ws.len(),
{
    if ws.len() == 0 {
        Seq::empty()
    } else {
        let rest = unresolved(ws.drop_last(), handlers);
        if handlers.contains_key(ws.last().event_type@) {
            rest
        } else {
            rest.push(ws.last())
        }
    }
}

impl JobStore {
    /// All mirrored handlers.
    pub fn get_handlers(&self) -> (r: Vec<EventHandler>)
        ensures
            handler_views(r@) == handler_views(self.handlers@),
    {
        copy_handlers(&self.handlers)
    }

    /// Registers the loop of `timer`: false, with nothing changed, where a
    /// loop with its id is live; otherwise it becomes the live record of its
    /// event type and true says that its loop must be started. A loop with
    /// an older id retires on its own.
    pub fn register_timer(&mut self, timer: TimerRecord) -> (r: bool)
        requires
            old(self).wf(),
        ensures
            final(self).wf(),
            r == !timer_is_live(old(self).timer_map(), timer),
            final(self).model() == (StoreModel { timers: final(self).model().timers, ..old(self).model() }),
            final(self).db == old(self).db,
            final(self).handlers == old(self).handlers,
            final(self).schedules == old(self).schedules,
            final(self).warnings == old(self).warnings,
            r ==> final(self).timer_map() == old(self).timer_map().insert(timer.event_type@, timer),
            final(self).timer_map().contains_key(timer.event_type@),
            final(self).timer_map()[timer.event_type@].id == timer.id,
            !r ==> final(self).timers == old(self).timers,
    {
        match position_of(&self.timers, timer.event_type.as_str()) {
            Some(i) => {
                proof {
                    lemma_key_index(self.timers@, i as int);
                }
                if self.timers[i].id == timer.id {
                    false
                } else {
                    proof {
                        lemma_keyed_update(self.timers@, i as int, timer);
                    }
                    self.timers.set(i, timer);
                    true
                }
            },
            None => {
                proof {
                    lemma_keyed_push(self.timers@, timer);
                }
                self.timers.push(timer);
                true
            },
        }
    }

    /// Registers the loop of `schedule`, as `register_timer` does for timers.
    pub fn register_schedule(&mut self, schedule: ScheduleRecord) -> (r: bool)
        requires
            old(self).wf(),
        ensures
            final(self).wf(),
            r == !schedule_is_live(old(self).schedule_map(), schedule),
            final(self).model() == (StoreModel { schedules: final(self).model().schedules, ..old(self).model() }),
            final(self).db == old(self).db,
            final(self).handlers == old(self).handlers,
            final(self).timers == old(self).timers,
            final(self).warnings == old(self).warnings,
            r ==> final(self).schedule_map() == old(self).schedule_map().insert(schedule.event_type@, schedule),
            final(self).schedule_map().contains_key(schedule.event_type@),
            final(self).schedule_map()[schedule.event_type@].id == schedule.id,
            !r ==> final(self).schedules == old(self).schedules,
    {
        match position_of(&self.schedules, schedule.event_type.as_str()) {
            Some(i) => {
                proof {
                    lemma_key_index(self.schedules@, i as int);
                }
                if self.schedules[i].id == schedule.id {
                    false
                } else {
                    proof {
                        lemma_keyed_update(self.schedules@, i as int, schedule);
                    }
                    self.schedules.set(i, schedule);
                    true
                }
            },
            None => {
                proof {
                    lemma_keyed_push(self.schedules@, schedule);
                }
                self.schedules.push(schedule);
                true
            },
        }
    }

    /// The live timer record of `event_type`, if any.
    pub fn get_timer(&self, event_type: &str) -> (r: Option<TimerRecord>)
        requires
            self.wf(),
        ensures
            r is Some <==> self.timer_map().contains_key(event_type@),
            r matches Some(t) ==> t == self.timer_map()[event_type@],
    {
        match position_of(&self.timers, event_type) {
            Some(i) => {
                proof {
                    lemma_key_index(self.timers@, i as int);
                }
                Some(self.timers[i].clone())
            },
            None => None,
        }
    }

    /// All live timer records.
    pub fn get_timers(&self) -> (r: Vec<TimerRecord>)
        ensures
            r@ == self.timers@,
    {
        copy_timers(&self.timers)
    }

    /// The live schedule record of `event_type`, if any.
    pub fn get_schedule(&self, event_type: &str) -> (r: Option<ScheduleRecord>)
        requires
            self.wf(),
        ensures
            r is Some <==> self.schedule_map().contains_key(event_type@),
            r matches Some(s) ==> s == self.schedule_map()[event_type@],
    {
        match position_of(&self.schedules, event_type) {
            Some(i) => {
                proof {
                    lemma_key_index(self.schedules@, i as int);
                }
                Some(self.schedules[i].clone())
            },
            None => None,
        }
    }

    /// All live schedule records.
    pub fn get_schedules(&self) -> (r: Vec<ScheduleRecord>)
        ensures
            r@ == self.schedules@,
    {
        copy_schedules(&self.schedules)
    }

    /// The job with id `job_id`, if any.
    pub fn get_job(&self, job_id: u128) -> (r: Option<Job>)
        requires
            self.wf(),
        ensures
            r == job_with_id(self.db.jobs@, job_id),
    {
        self.db.get_job(job_id)
    }

    /// The newest jobs, at most `JOB_LISTING_LIMIT` of them.
    pub fn get_all_jobs(&self) -> (r: Vec<Job>)
        ensures
            r@ == job_listing(self.db.jobs@, None, JOB_LISTING_LIMIT as nat),
    {
        self.db.get_all_jobs(None, JOB_LISTING_LIMIT)
    }

    /// The newest jobs in `status`, at most `JOB_LISTING_LIMIT` of them.
    pub fn get_jobs_by_status(&self, status: JobStatus) -> (r: Vec<Job>)
        ensures
            r@ == job_listing(self.db.jobs@, Some(status), JOB_LISTING_LIMIT as nat),
    {
        self.db.get_all_jobs(Some(&status), JOB_LISTING_LIMIT)
    }

    /// The newest completed jobs, at most `JOB_LISTING_LIMIT` of them.
    pub fn get_completed_jobs(&self) -> (r: Vec<Job>)
        ensures
            r@ == job_listing(self.db.jobs@, Some(JobStatus::Completed), JOB_LISTING_LIMIT as nat),
    {
        self.get_jobs_by_status(JobStatus::Completed)
    }

    /// Whether a job of `event_type` is pending or running.
    pub fn has_active_job(&self, event_type: &str) -> (r: bool)
        ensures
            r == self.db.has_active(event_type@),
    {
        self.db.has_active_job(event_type)
    }

    /// The catalog's current timer id for `event_type`, if any.
    pub fn get_timer_id(&self, event_type: &str) -> (r: Option<u128>)
        requires
            self.wf(),
        ensures
            r == self.db.timer_id_of(event_type@),
    {
        self.db.get_timer_id(event_type)
    }

    /// The catalog's current schedule id for `event_type`, if any.
    pub fn get_schedule_id(&self, event_type: &str) -> (r: Option<u128>)
        requires
            self.wf(),
        ensures
            r == self.db.schedule_id_of(event_type@),
    {
        self.db.get_schedule_id(event_type)
    }

    /// Adds `warning` unless one of its kind for its event type is kept.
    pub fn add_warning(&mut self, warning: Warning)
        requires
            old(self).wf(),
        ensures
            final(self).wf(),
            final(self).db == old(self).db,
            final(self).handlers == old(self).handlers,
            final(self).timers == old(self).timers,
            final(self).schedules == old(self).schedules,
            has_key(final(self).warnings@, warning.event_type@),
            has_key(old(self).warnings@, warning.event_type@) ==> final(self).warnings == old(self).warnings,
            !has_key(old(self).warnings@, warning.event_type@) ==> final(self).warnings@ == old(self).warnings@.push(
                warning,
            ),
            !has_key(old(self).warnings@, warning.event_type@) ==> final(self).warnings@.drop_last() == old(
                self,
            ).warnings@ && final(self).warnings@.last() == warning,
    {
        if position_of(&self.warnings, warning.event_type.as_str()).is_none() {
            proof {
                lemma_keyed_push(self.warnings@, warning);
            }
            self.warnings.push(warning);
            assert(self.warnings@[self.warnings@.len() - 1].key() == warning.key());
            assert(self.warnings@.drop_last() =~= old(self).warnings@);
        }
    }

    /// The warnings not yet resolved: those whose event type still has no
    /// handler.
    pub fn get_warnings(&self) -> (r: Vec<Warning>)
        requires
            self.wf(),
        ensures
            r@ == unresolved(self.warnings@, self.handler_map()),
    {
        let ghost m = self.handler_map();
        let mut out: Vec<Warning> = Vec::new();
        let mut i: usize = 0;
        while i < self.warnings.len()
            invariant
                i <= self.warnings@.len(),
                self.wf(),
                m == self.handler_map(),
                out@ == unresolved(self.warnings@.subrange(0, i as int), m),
            decreases self.warnings.len() - i,
        {
            let w = &self.warnings[i];
            assert(self.warnings@.subrange(0, i + 1).drop_last() =~= self.warnings@.subrange(0, i as int));
            let resolved = position_of(&self.handlers, w.event_type.as_str()).is_some();
            proof {
                if resolved {
                    let j = choose|j: int| 0 <= j < self.handlers@.len() && #[trigger] self.handlers@[j].key() == w.event_type@;
                    lemma_key_index(self.handlers@, j);
                }
            }
            if !resolved {
                out.push(w.clone());
            }
            i = i + 1;
        }
        assert(self.warnings@.subrange(0, self.warnings@.len() as int) =~= self.warnings@);
        out
    }
}

/// Job transitions: each move that the store makes goes along an allowed
/// edge (pending to running or cancelled; running to completed, failed or
/// cancelled) and keeps the job's fields in agreement with its status.
pub proof fn store_moves_are_allowed(prev: Job, next: Job, text: Seq<char>)
    requires
        job_wf(prev),
    ensures
        prev.status == JobStatus::Pending && started(prev, next) ==> status_step(prev.status, next.status)
            && job_wf(next),
        prev.status == JobStatus::Running && completed_with(prev, next, text) ==> status_step(
            prev.status,
            next.status,
        ) && job_wf(next),
        prev.status == JobStatus::Running && failed_with(prev, next, text) ==> status_step(prev.status, next.status)
            && job_wf(next),
        (prev.status == JobStatus::Pending || prev.status == JobStatus::Running) && cancelled_from(prev, next)
            ==> status_step(prev.status, next.status) && job_wf(next),
{
}

/// Reload idempotence, for any number of reloads: in a run of successive
/// reloads, every store after the first reload is the one the first reload
/// left, and no reload after the first starts a loop.
pub proof fn reloads_in_a_row_are_one(stores: Seq<JobStore>, outcomes: Seq<ReloadOutcome>)
    requires
        stores.len() == outcomes.len() + 1,
        stores.len() >= 2,
        stores[0].wf(),
        forall|i: int| 0 <= i < outcomes.len() ==> reloaded(&stores[i], &stores[i + 1], #[trigger] outcomes[i]),
    ensures
        forall|i: int| 1 <= i < stores.len() ==> (#[trigger] stores[i]).model() == stores[1].model(),
        forall|i: int|
            1 <= i < outcomes.len() ==> (#[trigger] outcomes[i]).timers_to_start@.len() == 0
                && outcomes[i].schedules_to_start@.len() == 0,
    decreases stores.len(),
{
    if stores.len() > 2 {
        let n = outcomes.len() - 1;
        let s2 = stores.drop_last();
        let o2 = outcomes.drop_last();
        assert forall|i: int| 0 <= i < o2.len() implies reloaded(&s2[i], &s2[i + 1], #[trigger] o2[i]) by {
            assert(s2[i] == stores[i] && s2[i + 1] == stores[i + 1] && o2[i] == outcomes[i]);
        }
        reloads_in_a_row_are_one(s2, o2);
        assert(s2[n] == stores[n]);
        assert(stores[n].model() == stores[1].model());
        assert(stores[0].wf());
        assert(reloaded(&stores[n - 1], &stores[n], outcomes[n - 1]));
        assert(reloaded(&stores[n], &stores[n + 1], outcomes[n]));
        assert(stores[n].timers@ == stores[1].timers@ && stores[n].schedules@ == stores[1].schedules@);
        assert(stores[n].timer_map() == stores[1].timer_map());
        assert(stores[n].schedule_map() == stores[1].schedule_map());
        assert(reloaded(&stores[1], &stores[n + 1], outcomes[n]));
        reload_is_idempotent(&stores[0], &stores[1], &stores[n + 1], outcomes[0], outcomes[n]);
        assert forall|i: int| 1 <= i < stores.len() implies (#[trigger] stores[i]).model() == stores[1].model() by {
            if i < stores.len() - 1 {
                assert(s2[i] == stores[i]);
            }
        }
        assert forall|i: int|
            1 <= i < outcomes.len() implies (#[trigger] outcomes[i]).timers_to_start@.len() == 0
                && outcomes[i].schedules_to_start@.len() == 0 by {
            if i < n {
                assert(o2[i] == outcomes[i]);
            }
        }
    } else {
        assert(reloaded(&stores[0], &stores[1], outcomes[0]));
    }
}

} // verus!
