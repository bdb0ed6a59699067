use vstd::prelude::*;

use crate::error::describe;
use crate::error::ShevError;
use crate::ids::unused_id;
use crate::ids::is_v4;
use crate::models::{
    insert_in_order, key_position, keys_sorted, lemma_ids_insert, lemma_key_position,
    lemma_sorted_remove, lemma_sorted_update,
    copy_schedules, copy_timers,
    handler_ids, ids_distinct, lemma_ids_remove, lemma_ids_update, schedule_ids,
    timer_ids,
    has_key, is_active_status, job_wf, keyed_map, keys_unique, lemma_key_index,
    lemma_keyed_push, lemma_keyed_remove, lemma_keyed_update, position_of, clone_env, EnvVar, EventHandler,
    HandlerView, Job, Keyed, ScheduleRecord, ShellType, TimerRecord,
};
use crate::text::parsed_unsigned;
use crate::text::text_before;
use crate::text::parse_unsigned;

verus! {

/// One configuration entry.
#[derive(Debug)]
pub struct ConfigEntry {
    pub key: String,
    pub value: String,
}

impl Keyed for ConfigEntry {
    type Model = Seq<char>;

    open spec fn key(&self) -> Seq<char> {
        self.key@
    }

    open spec fn model(&self) -> Seq<char> {
        self.value@
    }

    fn key_ref(&self) -> (r: &String) {
        &self.key
    }
}

/// The port used where none is configured.
pub const DEFAULT_PORT: u16 = 3000;

/// The queue capacity used where none is configured.
pub const DEFAULT_QUEUE_SIZE: usize = 100;

/// The durable catalog: handlers, timers and schedules keyed by event type,
/// the jobs, and the configuration. Every change is made here first; the
/// application writes it through to disk.
#[derive(Debug)]
pub struct Database {
    pub handlers: Vec<EventHandler>,
    pub timers: Vec<TimerRecord>,
    pub schedules: Vec<ScheduleRecord>,
    pub jobs: Vec<Job>,
    pub config: Vec<ConfigEntry>,
}

/// The jobs of `s` stand in the order of their events' timestamps.
pub open spec fn jobs_in_time_order(s: Seq<Job>) -> bool {
    forall|i: int, j: int|
        0 <= i <= j < s.len() ==> (#[trigger] s[i]).event.timestamp <= (#[trigger] s[j]).event.timestamp
}

/// Every job is well formed, no two jobs share an id, and the jobs stand
/// in the order of their events' timestamps.
pub open spec fn jobs_wf(s: Seq<Job>) -> bool {
    &&& forall|i: int| 0 <= i < s.len() ==> job_wf(#[trigger] s[i])
    &&& jobs_in_time_order(s)
    &&& forall|i: int, j: int|
        0 <= i < s.len() && 0 <= j < s.len() && i != j ==> #[trigger] s[i].id != #[trigger] s[j].id
}

/// A configured value read as a port: a decimal number from 1 to 65535, or
/// the default.
pub open spec fn effective_port(v: Option<Seq<char>>) -> u16 {
    if v is Some && parsed_unsigned(v->0, 65535) is Some && parsed_unsigned(v->0, 65535)->0 > 0 {
        parsed_unsigned(v->0, 65535)->0 as u16
    } else {
        DEFAULT_PORT
    }
}

/// A configured value read as a queue size: a positive decimal number that
/// fits in `usize`, or the default.
pub open spec fn effective_queue_size(v: Option<Seq<char>>) -> usize {
    if v is Some && parsed_unsigned(v->0, usize::MAX as nat) is Some
        && parsed_unsigned(v->0, usize::MAX as nat)->0 > 0 {
        parsed_unsigned(v->0, usize::MAX as nat)->0 as usize
    } else {
        DEFAULT_QUEUE_SIZE
    }
}

/// A handler after an update: a new id, the given fields, the others kept.
pub open spec fn updated_handler(
    old: HandlerView,
    id: u128,
    shell: Option<ShellType>,
    command: Option<Seq<char>>,
    timeout: Option<Option<u64>>,
    env: Option<Seq<EnvVar>>,
) -> HandlerView {
    HandlerView {
        id,
        event_type: old.event_type,
        shell: if shell is Some { shell->0 } else { old.shell },
        command: if command is Some { command->0 } else { old.command },
        timeout: if timeout is Some { timeout->0 } else { old.timeout },
        env: if env is Some { env->0 } else { old.env },
    }
}

/// `after` is `before` with the timer of `et` replaced by `t`, whose id
/// differs from the one it replaces.
pub open spec fn timer_replaced(before: &Database, after: &Database, et: Seq<char>, t: TimerRecord) -> bool {
    &&& before.timer_map().contains_key(et)
    &&& t.event_type@ == et
    &&& t.id != before.timer_map()[et].id
    &&& after.timer_map() == before.timer_map().insert(et, t)
}

/// `after` is `before` with the schedule of `et` replaced by `s`, whose id
/// differs from the one it replaces.
pub open spec fn schedule_replaced(
    before: &Database,
    after: &Database,
    et: Seq<char>,
    s: ScheduleRecord,
) -> bool {
    &&& before.schedule_map().contains_key(et)
    &&& s.event_type@ == et
    &&& s.id != before.schedule_map()[et].id
    &&& after.schedule_map() == before.schedule_map().insert(et, s)
}

impl Database {
    /// The invariant of the catalog: one handler, one timer and one
    /// schedule at most per event type, timers with a positive interval,
    /// well-formed jobs with distinct ids, one value per configuration key.
    pub open spec fn wf(&self) -> bool {
        &&& keys_unique(self.handlers@)
        &&& keys_unique(self.timers@)
        &&& keys_unique(self.schedules@)
        &&& keys_unique(self.config@)
        &&& keys_sorted(self.handlers@)
        &&& keys_sorted(self.timers@)
        &&& keys_sorted(self.schedules@)
        &&& ids_distinct(handler_ids(self.handlers@))
        &&& ids_distinct(timer_ids(self.timers@))
        &&& ids_distinct(schedule_ids(self.schedules@))
        &&& forall|i: int| 0 <= i < self.timers@.len() ==> #[trigger] self.timers@[i].interval_secs > 0
        &&& jobs_wf(self.jobs@)
    }

    /// The handlers by event type.
    pub open spec fn handler_map(&self) -> Map<Seq<char>, HandlerView> {
        keyed_map(self.handlers@)
    }

    /// The timers by event type.
    pub open spec fn timer_map(&self) -> Map<Seq<char>, TimerRecord> {
        keyed_map(self.timers@)
    }

    /// The schedules by event type.
    pub open spec fn schedule_map(&self) -> Map<Seq<char>, ScheduleRecord> {
        keyed_map(self.schedules@)
    }

    /// The configuration by key.
    pub open spec fn config_map(&self) -> Map<Seq<char>, Seq<char>> {
        keyed_map(self.config@)
    }

    /// The configured value of `key`, if any.
    pub open spec fn config_value(&self, key: Seq<char>) -> Option<Seq<char>> {
        if self.config_map().contains_key(key) {
            Some(self.config_map()[key])
        } else {
            None
        }
    }

    /// The current id of the handler of `et`, if any.
    pub open spec fn handler_id_of(&self, et: Seq<char>) -> Option<u128> {
        if self.handler_map().contains_key(et) {
            Some(self.handler_map()[et].id)
        } else {
            None
        }
    }

    /// The current id of the timer of `et`, if any.
    pub open spec fn timer_id_of(&self, et: Seq<char>) -> Option<u128> {
        if self.timer_map().contains_key(et) {
            Some(self.timer_map()[et].id)
        } else {
            None
        }
    }

    /// The current id of the schedule of `et`, if any.
    pub open spec fn schedule_id_of(&self, et: Seq<char>) -> Option<u128> {
        if self.schedule_map().contains_key(et) {
            Some(self.schedule_map()[et].id)
        } else {
            None
        }
    }

    /// Some job of event type `et` is pending or running.
    pub open spec fn has_active(&self, et: Seq<char>) -> bool {
        exists|i: int|
            0 <= i < self.jobs@.len() && #[trigger] self.jobs@[i].event.event_type@ == et
                && is_active_status(self.jobs@[i].status)
    }

    /// An empty catalog with the default configuration.
    pub fn new() -> (r: Database)
        ensures
            r.wf(),
            r.handlers@.len() == 0,
            r.timers@.len() == 0,
            r.schedules@.len() == 0,
            r.jobs@.len() == 0,
            r.config_value("port"@) == Some("3000"@),
            r.config_value("queue_size"@) == Some("100"@),
    {
        let mut config: Vec<ConfigEntry> = Vec::new();
        let port = ConfigEntry { key: "port".to_owned(), value: "3000".to_owned() };
        let queue = ConfigEntry { key: "queue_size".to_owned(), value: "100".to_owned() };
        proof {
            reveal_strlit("port");
            reveal_strlit("queue_size");
            assert(port.key() != queue.key()) by {
                assert(port.key().len() != queue.key().len());
            }
            lemma_keyed_push(config@, port);
        }
        config.push(port);
        proof {
            assert(!has_key(config@, queue.key()));
            lemma_keyed_push(config@, queue);
        }
        config.push(queue);
        Database {
            handlers: Vec::new(),
            timers: Vec::new(),
            schedules: Vec::new(),
            jobs: Vec::new(),
            config,
        }
    }

    /// The configured value of `key`, if any.
    pub fn get_config(&self, key: &str) -> (r: Option<String>)
        requires
            self.wf(),
        ensures
            r matches Some(v) ==> self.config_value(key@) == Some(v@),
            r is None ==> self.config_value(key@) is None,
    {
        match position_of(&self.config, key) {
            Some(i) => {
                proof {
                    lemma_key_index(self.config@, i as int);
                }
                Some(self.config[i].value.clone())
            },
            None => None,
        }
    }

    /// Sets the configured value of `key`.
    pub fn set_config(&mut self, key: &str, value: &str)
        requires
            old(self).wf(),
        ensures
            final(self).wf(),
            final(self).config_map() == old(self).config_map().insert(key@, value@),
            final(self).handlers == old(self).handlers,
            final(self).timers == old(self).timers,
            final(self).schedules == old(self).schedules,
            final(self).jobs == old(self).jobs,
    {
        let entry = ConfigEntry { key: key.to_owned(), value: value.to_owned() };
        match position_of(&self.config, key) {
            Some(i) => {
                proof {
                    lemma_keyed_update(self.config@, i as int, entry);
                }
                self.config.set(i, entry);
            },
            None => {
                proof {
                    lemma_keyed_push(self.config@, entry);
                }
                self.config.push(entry);
            },
        }
    }

    /// The port to listen on: the configured `port` where it is a number
    /// from 1 to 65535, else the default.
    pub fn get_port(&self) -> (r: u16)
        requires
            self.wf(),
        ensures
            r == effective_port(self.config_value("port"@)),
    {
        match self.get_config("port") {
            Some(v) => match parse_unsigned(v.as_str(), 65535) {
                Some(n) => if n > 0 { n as u16 } else { DEFAULT_PORT },
                None => DEFAULT_PORT,
            },
            None => DEFAULT_PORT,
        }
    }

    /// The capacity of the event queue: the configured `queue_size` where it
    /// is a positive number, else the default.
    pub fn get_queue_size(&self) -> (r: usize)
        requires
            self.wf(),
        ensures
            r == effective_queue_size(self.config_value("queue_size"@)),
    {
        match self.get_config("queue_size") {
            Some(v) => match parse_unsigned(v.as_str(), usize::MAX as u64) {
                Some(n) => if n > 0 { n as usize } else { DEFAULT_QUEUE_SIZE },
                None => DEFAULT_QUEUE_SIZE,
            },
            None => DEFAULT_QUEUE_SIZE,
        }
    }
}

/// Only the handlers differ between `a` and `b`.
pub open spec fn only_handlers_differ(a: &Database, b: &Database) -> bool {
    a.timers == b.timers && a.schedules == b.schedules && a.jobs == b.jobs && a.config == b.config
}

/// Only the timers differ between `a` and `b`.
pub open spec fn only_timers_differ(a: &Database, b: &Database) -> bool {
    a.handlers == b.handlers && a.schedules == b.schedules && a.jobs == b.jobs && a.config == b.config
}

/// Only the schedules differ between `a` and `b`.
pub open spec fn only_schedules_differ(a: &Database, b: &Database) -> bool {
    a.handlers == b.handlers && a.timers == b.timers && a.jobs == b.jobs && a.config == b.config
}

/// Only the jobs differ between `a` and `b`.
pub open spec fn only_jobs_differ(a: &Database, b: &Database) -> bool {
    a.handlers == b.handlers && a.timers == b.timers && a.schedules == b.schedules && a.config == b.config
}

impl Database {
    /// Registers a handler for `event_type`, with a fresh id; fails with
    /// `Conflict` where the event type already has one.
    pub fn insert_handler(
        &mut self,
        event_type: &str,
        shell: ShellType,
        command: &str,
        timeout: Option<u64>,
        env: Vec<EnvVar>,
    ) -> (r: Result<EventHandler, ShevError>)
        requires
            old(self).wf(),
        ensures
            final(self).wf(),
            only_handlers_differ(old(self), final(self)),
            r is Err <==> old(self).handler_map().contains_key(event_type@),
            r matches Err(e) ==> *final(self) == *old(self) && (e matches ShevError::Conflict(m) && m@ == "Handler '"@ + event_type@ + "' already exists"@),
            r matches Ok(h) ==> {
                &&& is_v4(h.id)
                &&& forall|i: int| 0 <= i < old(self).handlers@.len() ==> old(self).handlers@[i].id != h.id
                &&& h@ == (HandlerView {
                    id: h.id,
                    event_type: event_type@,
                    shell,
                    command: command@,
                    timeout,
                    env: env@,
                })
                &&& final(self).handler_map() == old(self).handler_map().insert(event_type@, h@)
            },
    {
        if position_of(&self.handlers, event_type).is_some() {
            return Err(ShevError::Conflict(describe("Handler '", event_type, "' already exists")));
        }
        let id = unused_id(&self.handler_id_list());
        proof {
            assert forall|k: int| 0 <= k < self.handlers@.len() implies #[trigger] self.handlers@[k].id != id by {
                assert(handler_ids(self.handlers@)[k] == self.handlers@[k].id);
            }
        }
        let handler = EventHandler { id, event_type: event_type.to_owned(), shell, command: command.to_owned(), timeout, env };
        let result = handler.clone();
        proof {
            lemma_key_position(self.handlers@, handler.key());
            let place = key_position(self.handlers@, handler.key());
            lemma_ids_insert(handler_ids(self.handlers@), place, handler.id);
            assert(handler_ids(self.handlers@.insert(place, handler)) =~= handler_ids(self.handlers@).insert(place, handler.id));
        }
        let place = insert_in_order(&mut self.handlers, handler);
        Ok(result)
    }

    /// Changes the handler of `event_type`: the given fields are replaced,
    /// the others kept, and the id is renewed. Fails with `NotFound` where
    /// the event type has no handler.
    pub fn update_handler(
        &mut self,
        event_type: &str,
        shell: Option<ShellType>,
        command: Option<&str>,
        timeout: Option<Option<u64>>,
        env: Option<Vec<EnvVar>>,
    ) -> (r: Result<EventHandler, ShevError>)
        requires
            old(self).wf(),
        ensures
            final(self).wf(),
            only_handlers_differ(old(self), final(self)),
            r is Err <==> !old(self).handler_map().contains_key(event_type@),
            r matches Err(e) ==> *final(self) == *old(self) && (e matches ShevError::NotFound(m) && m@ == "Handler '"@ + event_type@ + "' not found"@),
            r matches Ok(h) ==> {
                let before = old(self).handler_map()[event_type@];
                &&& is_v4(h.id)
                &&& forall|i: int| 0 <= i < old(self).handlers@.len() ==> old(self).handlers@[i].id != h.id
                &&& h.id != before.id
                &&& h@ == updated_handler(
                    before,
                    h.id,
                    shell,
                    match command { Some(c) => Some(c@), None => None },
                    timeout,
                    match env { Some(e) => Some(e@), None => None },
                )
                &&& final(self).handler_map() == old(self).handler_map().insert(event_type@, h@)
            },
    {
        let i = match position_of(&self.handlers, event_type) {
            Some(i) => i,
            None => {
                return Err(ShevError::NotFound(describe("Handler '", event_type, "' not found")));
            },
        };
        proof {
            lemma_key_index(self.handlers@, i as int);
        }
        let id = unused_id(&self.handler_id_list());
        proof {
            assert forall|k: int| 0 <= k < self.handlers@.len() implies #[trigger] self.handlers@[k].id != id by {
                assert(handler_ids(self.handlers@)[k] == self.handlers@[k].id);
            }
        }
        let existing = &self.handlers[i];
        let handler = EventHandler {
            id,
            event_type: existing.event_type.clone(),
            shell: match shell {
                Some(s) => s,
                None => existing.shell,
            },
            command: match command {
                Some(c) => c.to_owned(),
                None => existing.command.clone(),
            },
            timeout: match timeout {
                Some(t) => t,
                None => existing.timeout,
            },
            env: match env {
                Some(e) => e,
                None => clone_env(&existing.env),
            },
        };
        let result = handler.clone();
        proof {
            lemma_keyed_update(self.handlers@, i as int, handler);
        }
        proof {
            lemma_ids_update(handler_ids(self.handlers@), i as int, handler.id);
            lemma_sorted_update(self.handlers@, i as int, handler);
            assert(handler_ids(self.handlers@.update(i as int, handler)) =~= handler_ids(self.handlers@).update(i as int, handler.id));
        }
        self.handlers.set(i, handler);
        Ok(result)
    }

    /// Inserts a handler for `event_type`, or, where it has one, replaces
    /// all its fields and renews its id.
    pub fn upsert_handler(
        &mut self,
        event_type: &str,
        shell: ShellType,
        command: &str,
        timeout: Option<u64>,
        env: Vec<EnvVar>,
    ) -> (r: EventHandler)
        requires
            old(self).wf(),
        ensures
            final(self).wf(),
            only_handlers_differ(old(self), final(self)),
            is_v4(r.id),
            forall|i: int| 0 <= i < old(self).handlers@.len() ==> old(self).handlers@[i].id != r.id,
            old(self).handler_map().contains_key(event_type@) ==> r.id != old(self).handler_map()[event_type@].id,
            r@ == (HandlerView { id: r.id, event_type: event_type@, shell, command: command@, timeout, env: env@ }),
            final(self).handler_map() == old(self).handler_map().insert(event_type@, r@),
    {
        let position = position_of(&self.handlers, event_type);
        proof {
            if position is Some {
                lemma_key_index(self.handlers@, position->0 as int);
            }
        }
        let id = unused_id(&self.handler_id_list());
        proof {
            assert forall|k: int| 0 <= k < self.handlers@.len() implies #[trigger] self.handlers@[k].id != id by {
                assert(handler_ids(self.handlers@)[k] == self.handlers@[k].id);
            }
        }
        let handler = EventHandler { id, event_type: event_type.to_owned(), shell, command: command.to_owned(), timeout, env };
        let result = handler.clone();
        match position {
            Some(i) => {
                proof {
                    lemma_keyed_update(self.handlers@, i as int, handler);
                }
                proof {
                    lemma_ids_update(handler_ids(self.handlers@), i as int, handler.id);
                    lemma_sorted_update(self.handlers@, i as int, handler);
                    assert(handler_ids(self.handlers@.update(i as int, handler)) =~= handler_ids(self.handlers@).update(i as int, handler.id));
                }
                self.handlers.set(i, handler);
            },
            None => {
                proof {
                    lemma_key_position(self.handlers@, handler.key());
                    let place = key_position(self.handlers@, handler.key());
                    lemma_ids_insert(handler_ids(self.handlers@), place, handler.id);
                    assert(handler_ids(self.handlers@.insert(place, handler)) =~= handler_ids(self.handlers@).insert(place, handler.id));
                }
                let place = insert_in_order(&mut self.handlers, handler);
            },
        }
        result
    }

    /// Removes the handler of `event_type`; true iff there was one.
    pub fn delete_handler(&mut self, event_type: &str) -> (r: bool)
        requires
            old(self).wf(),
        ensures
            final(self).wf(),
            only_handlers_differ(old(self), final(self)),
            r == old(self).handler_map().contains_key(event_type@),
            final(self).handler_map() == old(self).handler_map().remove(event_type@),
    {
        match position_of(&self.handlers, event_type) {
            Some(i) => {
                proof {
                    lemma_keyed_remove(self.handlers@, i as int);
                }
                proof {
                    lemma_ids_remove(handler_ids(self.handlers@), i as int);
                    lemma_sorted_remove(self.handlers@, i as int);
                    assert(handler_ids(self.handlers@.remove(i as int)) =~= handler_ids(self.handlers@).remove(i as int));
                }
                self.handlers.remove(i);
                true
            },
            None => {
                assert(self.handler_map() =~= self.handler_map().remove(event_type@));
                false
            },
        }
    }

    /// The handler of `event_type`, if any.
    pub fn get_handler(&self, event_type: &str) -> (r: Option<EventHandler>)
        requires
            self.wf(),
        ensures
            r is Some <==> self.handler_map().contains_key(event_type@),
            r matches Some(h) ==> h@ == self.handler_map()[event_type@],
    {
        match position_of(&self.handlers, event_type) {
            Some(i) => {
                proof {
                    lemma_key_index(self.handlers@, i as int);
                }
                Some(self.handlers[i].clone())
            },
            None => None,
        }
    }

    /// The current id of the handler of `event_type`, if any.
    pub fn get_handler_id(&self, event_type: &str) -> (r: Option<u128>)
        requires
            self.wf(),
        ensures
            r == self.handler_id_of(event_type@),
    {
        match position_of(&self.handlers, event_type) {
            Some(i) => {
                proof {
                    lemma_key_index(self.handlers@, i as int);
                }
                Some(self.handlers[i].id)
            },
            None => None,
        }
    }

    /// All handlers, in increasing order of event type.
    pub fn get_all_handlers(&self) -> (r: Vec<EventHandler>)
        ensures
            self.wf() ==> forall|i: int, j: int|
                0 <= i < j < r@.len() ==> text_before((#[trigger] r@[i]).event_type@, (#[trigger] r@[j]).event_type@),
            r@.len() == self.handlers@.len(),
            forall|i: int| 0 <= i < r@.len() ==> (#[trigger] r@[i])@ == self.handlers@[i]@,
    {
        let mut out: Vec<EventHandler> = Vec::new();
        let mut i: usize = 0;
        while i < self.handlers.len()
            invariant
                i <= self.handlers@.len(),
                out@.len() == i,
                forall|j: int| 0 <= j < i ==> (#[trigger] out@[j])@ == self.handlers@[j]@,
            decreases self.handlers.len() - i,
        {
            out.push(self.handlers[i].clone());
            i = i + 1;
        }
        out
    }
}

impl Database {
    /// Registers a timer for `event_type`, with a fresh id. Fails with
    /// `InvalidInput` on a zero interval, and with `Conflict` where the event
    /// type already has a timer.
    pub fn insert_timer(&mut self, event_type: &str, interval_secs: u64, context: &str) -> (r: Result<
        TimerRecord,
        ShevError,
    >)
        requires
            old(self).wf(),
        ensures
            final(self).wf(),
            only_timers_differ(old(self), final(self)),
            r is Err <==> (interval_secs == 0 || old(self).timer_map().contains_key(event_type@)),
            r matches Err(e) ==> *final(self) == *old(self) && (if interval_secs == 0 {
                (e matches ShevError::InvalidInput(m) && m@ == "Timer '"@ + event_type@ + "' needs a positive interval"@)
            } else {
                (e matches ShevError::Conflict(m) && m@ == "Timer '"@ + event_type@ + "' already exists"@)
            }),
            r matches Ok(t) ==> {
                &&& is_v4(t.id)
                &&& forall|i: int| 0 <= i < old(self).timers@.len() ==> old(self).timers@[i].id != t.id
                &&& t.event_type@ == event_type@
                &&& t.context@ == context@
                &&& t.interval_secs == interval_secs
                &&& final(self).timer_map() == old(self).timer_map().insert(event_type@, t)
            },
    {
        if interval_secs == 0 {
            return Err(ShevError::InvalidInput(describe("Timer '", event_type, "' needs a positive interval")));
        }
        if position_of(&self.timers, event_type).is_some() {
            return Err(ShevError::Conflict(describe("Timer '", event_type, "' already exists")));
        }
        let id = unused_id(&self.timer_id_list());
        proof {
            assert forall|k: int| 0 <= k < self.timers@.len() implies #[trigger] self.timers@[k].id != id by {
                assert(timer_ids(self.timers@)[k] == self.timers@[k].id);
            }
        }
        let timer = TimerRecord { id, event_type: event_type.to_owned(), context: context.to_owned(), interval_secs };
        let result = timer.clone();
        proof {
            lemma_key_position(self.timers@, timer.key());
            let place = key_position(self.timers@, timer.key());
            lemma_ids_insert(timer_ids(self.timers@), place, timer.id);
            assert(timer_ids(self.timers@.insert(place, timer)) =~= timer_ids(self.timers@).insert(place, timer.id));
        }
        let place = insert_in_order(&mut self.timers, timer);
        proof {
            assert forall|i: int| 0 <= i < self.timers@.len() implies #[trigger] self.timers@[i].interval_secs > 0 by {
                if i < place {
                    assert(self.timers@[i] == old(self).timers@[i]);
                } else if i > place {
                    assert(self.timers@[i] == old(self).timers@[i - 1]);
                }
            }
        }
        Ok(result)
    }

    /// Changes the timer of `event_type`: the given fields are replaced, the
    /// others kept, and the id is renewed, so that the loop of the old record
    /// retires. Fails with `InvalidInput` on a zero interval and with
    /// `NotFound` where the event type has no timer.
    pub fn update_timer(&mut self, event_type: &str, interval_secs: Option<u64>, context: Option<&str>) -> (r:
        Result<TimerRecord, ShevError>)
        requires
            old(self).wf(),
        ensures
            final(self).wf(),
            only_timers_differ(old(self), final(self)),
            r is Err <==> (interval_secs == Some(0u64) || !old(self).timer_map().contains_key(event_type@)),
            r matches Err(e) ==> *final(self) == *old(self) && (if interval_secs == Some(0u64) {
                (e matches ShevError::InvalidInput(m) && m@ == "Timer '"@ + event_type@ + "' needs a positive interval"@)
            } else {
                (e matches ShevError::NotFound(m) && m@ == "Timer '"@ + event_type@ + "' not found"@)
            }),
            r matches Ok(t) ==> {
                let before = old(self).timer_map()[event_type@];
                &&& is_v4(t.id)
                &&& forall|i: int| 0 <= i < old(self).timers@.len() ==> old(self).timers@[i].id != t.id
                &&& timer_replaced(old(self), final(self), event_type@, t)
                &&& t.interval_secs == (if interval_secs is Some { interval_secs->0 } else { before.interval_secs })
                &&& t.context@ == (if context is Some { context->0@ } else { before.context@ })
            },
    {
        if interval_secs == Some(0u64) {
            return Err(ShevError::InvalidInput(describe("Timer '", event_type, "' needs a positive interval")));
        }
        let i = match position_of(&self.timers, event_type) {
            Some(i) => i,
            None => {
                return Err(ShevError::NotFound(describe("Timer '", event_type, "' not found")));
            },
        };
        proof {
            lemma_key_index(self.timers@, i as int);
        }
        let id = unused_id(&self.timer_id_list());
        proof {
            assert forall|k: int| 0 <= k < self.timers@.len() implies #[trigger] self.timers@[k].id != id by {
                assert(timer_ids(self.timers@)[k] == self.timers@[k].id);
            }
        }
        let existing = &self.timers[i];
        let timer = TimerRecord {
            id,
            event_type: existing.event_type.clone(),
            context: match context {
                Some(c) => c.to_owned(),
                None => existing.context.clone(),
            },
            interval_secs: match interval_secs {
                Some(n) => n,
                None => existing.interval_secs,
            },
        };
        let result = timer.clone();
        proof {
            lemma_keyed_update(self.timers@, i as int, timer);
        }
        proof {
            lemma_ids_update(timer_ids(self.timers@), i as int, timer.id);
            lemma_sorted_update(self.timers@, i as int, timer);
            assert(timer_ids(self.timers@.update(i as int, timer)) =~= timer_ids(self.timers@).update(i as int, timer.id));
        }
        self.timers.set(i, timer);
        proof {
            assert forall|j: int| 0 <= j < self.timers@.len() implies #[trigger] self.timers@[j].interval_secs > 0 by {
                if j != i {
                    assert(self.timers@[j] == old(self).timers@[j]);
                }
            }
        }
        Ok(result)
    }

    /// Removes the timer of `event_type`; true iff there was one. Its loop
    /// retires at its next wake.
    pub fn delete_timer(&mut self, event_type: &str) -> (r: bool)
        requires
            old(self).wf(),
        ensures
            final(self).wf(),
            only_timers_differ(old(self), final(self)),
            r == old(self).timer_map().contains_key(event_type@),
            final(self).timer_map() == old(self).timer_map().remove(event_type@),
    {
        match position_of(&self.timers, event_type) {
            Some(i) => {
                proof {
                    lemma_keyed_remove(self.timers@, i as int);
                }
                proof {
                    lemma_ids_remove(timer_ids(self.timers@), i as int);
                    lemma_sorted_remove(self.timers@, i as int);
                    assert(timer_ids(self.timers@.remove(i as int)) =~= timer_ids(self.timers@).remove(i as int));
                }
                self.timers.remove(i);
                proof {
                    assert forall|j: int| 0 <= j < self.timers@.len() implies #[trigger] self.timers@[j].interval_secs > 0 by {
                        let k = if j < i { j } else { j + 1 };
                        assert(self.timers@[j] == old(self).timers@[k]);
                    }
                }
                true
            },
            None => {
                assert(self.timer_map() =~= self.timer_map().remove(event_type@));
                false
            },
        }
    }

    /// The current id of the timer of `event_type`, if any.
    pub fn get_timer_id(&self, event_type: &str) -> (r: Option<u128>)
        requires
            self.wf(),
        ensures
            r == self.timer_id_of(event_type@),
    {
        match position_of(&self.timers, event_type) {
            Some(i) => {
                proof {
                    lemma_key_index(self.timers@, i as int);
                }
                Some(self.timers[i].id)
            },
            None => None,
        }
    }

    /// The timer of `event_type`, if any.
    pub fn get_timer(&self, event_type: &str) -> (r: Option<TimerRecord>)
        requires
            self.wf(),
        ensures
            r is Some <==> self.timer_map().contains_key(event_type@),
            r matches Some(t) ==> t == self.timer_map()[event_type@],
    {
        match position_of(&self.timers, event_type) {
            Some(i) => {
                proof {
                    lemma_key_index(self.timers@, i as int);
                }
                Some(self.timers[i].clone())
            },
            None => None,
        }
    }

    /// All timers, in increasing order of event type.
    pub fn get_all_timers(&self) -> (r: Vec<TimerRecord>)
        ensures
            self.wf() ==> forall|i: int, j: int|
                0 <= i < j < r@.len() ==> text_before((#[trigger] r@[i]).event_type@, (#[trigger] r@[j]).event_type@),
            r@ == self.timers@,
    {
        copy_timers(&self.timers)
    }

    /// Registers a schedule for `event_type`, with a fresh id; fails with
    /// `Conflict` where the event type already has one.
    pub fn insert_schedule(
        &mut self,
        event_type: &str,
        scheduled_time: i64,
        context: &str,
        periodic: bool,
    ) -> (r: Result<ScheduleRecord, ShevError>)
        requires
            old(self).wf(),
        ensures
            final(self).wf(),
            only_schedules_differ(old(self), final(self)),
            r is Err <==> old(self).schedule_map().contains_key(event_type@),
            r matches Err(e) ==> *final(self) == *old(self) && (e matches ShevError::Conflict(m) && m@ == "Schedule '"@ + event_type@ + "' already exists"@),
            r matches Ok(s) ==> {
                &&& is_v4(s.id)
                &&& forall|i: int| 0 <= i < old(self).schedules@.len() ==> old(self).schedules@[i].id != s.id
                &&& s.event_type@ == event_type@
                &&& s.context@ == context@
                &&& s.scheduled_time == scheduled_time
                &&& s.periodic == periodic
                &&& final(self).schedule_map() == old(self).schedule_map().insert(event_type@, s)
            },
    {
        if position_of(&self.schedules, event_type).is_some() {
            return Err(ShevError::Conflict(describe("Schedule '", event_type, "' already exists")));
        }
        let id = unused_id(&self.schedule_id_list());
        proof {
            assert forall|k: int| 0 <= k < self.schedules@.len() implies #[trigger] self.schedules@[k].id != id by {
                assert(schedule_ids(self.schedules@)[k] == self.schedules@[k].id);
            }
        }
        let schedule = ScheduleRecord {
            id,
            event_type: event_type.to_owned(),
            context: context.to_owned(),
            scheduled_time,
            periodic,
        };
        let result = schedule.clone();
        proof {
            lemma_key_position(self.schedules@, schedule.key());
            let place = key_position(self.schedules@, schedule.key());
            lemma_ids_insert(schedule_ids(self.schedules@), place, schedule.id);
            assert(schedule_ids(self.schedules@.insert(place, schedule)) =~= schedule_ids(self.schedules@).insert(place, schedule.id));
        }
        let place = insert_in_order(&mut self.schedules, schedule);
        Ok(result)
    }

    /// Changes the schedule of `event_type`: the given fields are replaced,
    /// the others kept, and the id is renewed. Fails with `NotFound` where
    /// the event type has no schedule.
    pub fn update_schedule(
        &mut self,
        event_type: &str,
        scheduled_time: Option<i64>,
        context: Option<&str>,
        periodic: Option<bool>,
    ) -> (r: Result<ScheduleRecord, ShevError>)
        requires
            old(self).wf(),
        ensures
            final(self).wf(),
            only_schedules_differ(old(self), final(self)),
            r is Err <==> !old(self).schedule_map().contains_key(event_type@),
            r matches Err(e) ==> *final(self) == *old(self) && (e matches ShevError::NotFound(m) && m@ == "Schedule '"@ + event_type@ + "' not found"@),
            r matches Ok(s) ==> {
                let before = old(self).schedule_map()[event_type@];
                &&& is_v4(s.id)
                &&& forall|i: int| 0 <= i < old(self).schedules@.len() ==> old(self).schedules@[i].id != s.id
                &&& schedule_replaced(old(self), final(self), event_type@, s)
                &&& s.scheduled_time == (if scheduled_time is Some { scheduled_time->0 } else { before.scheduled_time })
                &&& s.context@ == (if context is Some { context->0@ } else { before.context@ })
                &&& s.periodic == (if periodic is Some { periodic->0 } else { before.periodic })
            },
    {
        let i = match position_of(&self.schedules, event_type) {
            Some(i) => i,
            None => {
                return Err(ShevError::NotFound(describe("Schedule '", event_type, "' not found")));
            },
        };
        proof {
            lemma_key_index(self.schedules@, i as int);
        }
        let id = unused_id(&self.schedule_id_list());
        proof {
            assert forall|k: int| 0 <= k < self.schedules@.len() implies #[trigger] self.schedules@[k].id != id by {
                assert(schedule_ids(self.schedules@)[k] == self.schedules@[k].id);
            }
        }
        let existing = &self.schedules[i];
        let schedule = ScheduleRecord {
            id,
            event_type: existing.event_type.clone(),
            context: match context {
                Some(c) => c.to_owned(),
                None => existing.context.clone(),
            },
            scheduled_time: match scheduled_time {
                Some(t) => t,
                None => existing.scheduled_time,
            },
            periodic: match periodic {
                Some(p) => p,
                None => existing.periodic,
            },
        };
        let result = schedule.clone();
        proof {
            lemma_keyed_update(self.schedules@, i as int, schedule);
        }
        proof {
            lemma_ids_update(schedule_ids(self.schedules@), i as int, schedule.id);
            lemma_sorted_update(self.schedules@, i as int, schedule);
            assert(schedule_ids(self.schedules@.update(i as int, schedule)) =~= schedule_ids(self.schedules@).update(i as int, schedule.id));
        }
        self.schedules.set(i, schedule);
        Ok(result)
    }

    /// Removes the schedule of `event_type`; true iff there was one.
    pub fn delete_schedule(&mut self, event_type: &str) -> (r: bool)
        requires
            old(self).wf(),
        ensures
            final(self).wf(),
            only_schedules_differ(old(self), final(self)),
            r == old(self).schedule_map().contains_key(event_type@),
            final(self).schedule_map() == old(self).schedule_map().remove(event_type@),
    {
        match position_of(&self.schedules, event_type) {
            Some(i) => {
                proof {
                    lemma_keyed_remove(self.schedules@, i as int);
                }
                proof {
                    lemma_ids_remove(schedule_ids(self.schedules@), i as int);
                    lemma_sorted_remove(self.schedules@, i as int);
                    assert(schedule_ids(self.schedules@.remove(i as int)) =~= schedule_ids(self.schedules@).remove(i as int));
                }
                self.schedules.remove(i);
                true
            },
            None => {
                assert(self.schedule_map() =~= self.schedule_map().remove(event_type@));
                false
            },
        }
    }

    /// The current id of the schedule of `event_type`, if any.
    pub fn get_schedule_id(&self, event_type: &str) -> (r: Option<u128>)
        requires
            self.wf(),
        ensures
            r == self.schedule_id_of(event_type@),
    {
        match position_of(&self.schedules, event_type) {
            Some(i) => {
                proof {
                    lemma_key_index(self.schedules@, i as int);
                }
                Some(self.schedules[i].id)
            },
            None => None,
        }
    }

    /// The schedule of `event_type`, if any.
    pub fn get_schedule(&self, event_type: &str) -> (r: Option<ScheduleRecord>)
        requires
            self.wf(),
        ensures
            r is Some <==> self.schedule_map().contains_key(event_type@),
            r matches Some(s) ==> s == self.schedule_map()[event_type@],
    {
        match position_of(&self.schedules, event_type) {
            Some(i) => {
                proof {
                    lemma_key_index(self.schedules@, i as int);
                }
                Some(self.schedules[i].clone())
            },
            None => None,
        }
    }

    /// All schedules, in increasing order of event type.
    pub fn get_all_schedules(&self) -> (r: Vec<ScheduleRecord>)
        ensures
            self.wf() ==> forall|i: int, j: int|
                0 <= i < j < r@.len() ==> text_before((#[trigger] r@[i]).event_type@, (#[trigger] r@[j]).event_type@),
            r@ == self.schedules@,
    {
        copy_schedules(&self.schedules)
    }
}

/// Uniqueness: a well-formed catalog holds at most one handler, one timer
/// and one schedule for each event type; every operation that changes the
/// catalog keeps it well formed.
pub proof fn one_entry_per_event_type(db: &Database, et: Seq<char>)
    requires
        db.wf(),
    ensures
        forall|i: int, j: int|
            0 <= i < db.handlers@.len() && 0 <= j < db.handlers@.len() && (#[trigger] db.handlers@[i]).event_type@
                == et && (#[trigger] db.handlers@[j]).event_type@ == et ==> i == j,
        forall|i: int, j: int|
            0 <= i < db.timers@.len() && 0 <= j < db.timers@.len() && (#[trigger] db.timers@[i]).event_type@ == et
                && (#[trigger] db.timers@[j]).event_type@ == et ==> i == j,
        forall|i: int, j: int|
            0 <= i < db.schedules@.len() && 0 <= j < db.schedules@.len() && (#[trigger] db.schedules@[i]).event_type@
                == et && (#[trigger] db.schedules@[j]).event_type@ == et ==> i == j,
{
    assert forall|i: int, j: int|
        0 <= i < db.handlers@.len() && 0 <= j < db.handlers@.len() && (#[trigger] db.handlers@[i]).event_type@ == et
            && (#[trigger] db.handlers@[j]).event_type@ == et implies i == j by {
        if i != j {
            assert(db.handlers@[i].key() != db.handlers@[j].key());
        }
    }
    assert forall|i: int, j: int|
        0 <= i < db.timers@.len() && 0 <= j < db.timers@.len() && (#[trigger] db.timers@[i]).event_type@ == et
            && (#[trigger] db.timers@[j]).event_type@ == et implies i == j by {
        if i != j {
            assert(db.timers@[i].key() != db.timers@[j].key());
        }
    }
    assert forall|i: int, j: int|
        0 <= i < db.schedules@.len() && 0 <= j < db.schedules@.len() && (#[trigger] db.schedules@[i]).event_type@
            == et && (#[trigger] db.schedules@[j]).event_type@ == et implies i == j by {
        if i != j {
            assert(db.schedules@[i].key() != db.schedules@[j].key());
        }
    }
}

impl Database {
    /// Takes in a stored handler as it is, id included, where its event
    /// type has none yet; true iff it was taken.
    pub fn restore_handler(&mut self, handler: EventHandler) -> (r: bool)
        requires
            old(self).wf(),
        ensures
            final(self).wf(),
            only_handlers_differ(old(self), final(self)),
            r == (!old(self).handler_map().contains_key(handler.event_type@) && !handler_ids(old(self).handlers@).contains(handler.id)),
            r ==> final(self).handler_map() == old(self).handler_map().insert(handler.event_type@, handler@),
            !r ==> *final(self) == *old(self),
    {
        if position_of(&self.handlers, handler.event_type.as_str()).is_some() || contains_id(&self.handler_id_list(), handler.id) {
            return false;
        }
        proof {
            lemma_key_position(self.handlers@, handler.key());
            let place = key_position(self.handlers@, handler.key());
            lemma_ids_insert(handler_ids(self.handlers@), place, handler.id);
            assert(handler_ids(self.handlers@.insert(place, handler)) =~= handler_ids(self.handlers@).insert(place, handler.id));
        }
        let place = insert_in_order(&mut self.handlers, handler);
        true
    }

    /// Takes in a stored timer as it is, where its interval is positive and
    /// its event type has none yet; true iff it was taken.
    pub fn restore_timer(&mut self, timer: TimerRecord) -> (r: bool)
        requires
            old(self).wf(),
        ensures
            final(self).wf(),
            only_timers_differ(old(self), final(self)),
            r == (timer.interval_secs > 0 && !old(self).timer_map().contains_key(timer.event_type@) && !timer_ids(old(self).timers@).contains(timer.id)),
            r ==> final(self).timer_map() == old(self).timer_map().insert(timer.event_type@, timer),
            !r ==> *final(self) == *old(self),
    {
        if timer.interval_secs == 0 || position_of(&self.timers, timer.event_type.as_str()).is_some() || contains_id(&self.timer_id_list(), timer.id) {
            return false;
        }
        proof {
            lemma_key_position(self.timers@, timer.key());
            let place = key_position(self.timers@, timer.key());
            lemma_ids_insert(timer_ids(self.timers@), place, timer.id);
            assert(timer_ids(self.timers@.insert(place, timer)) =~= timer_ids(self.timers@).insert(place, timer.id));
        }
        let place = insert_in_order(&mut self.timers, timer);
        proof {
            assert forall|i: int| 0 <= i < self.timers@.len() implies #[trigger] self.timers@[i].interval_secs > 0 by {
                if i < place {
                    assert(self.timers@[i] == old(self).timers@[i]);
                } else if i > place {
                    assert(self.timers@[i] == old(self).timers@[i - 1]);
                }
            }
        }
        true
    }

    /// Takes in a stored schedule as it is, where its event type has none
    /// yet; true iff it was taken.
    pub fn restore_schedule(&mut self, schedule: ScheduleRecord) -> (r: bool)
        requires
            old(self).wf(),
        ensures
            final(self).wf(),
            only_schedules_differ(old(self), final(self)),
            r == (!old(self).schedule_map().contains_key(schedule.event_type@) && !schedule_ids(old(self).schedules@).contains(schedule.id)),
            r ==> final(self).schedule_map() == old(self).schedule_map().insert(schedule.event_type@, schedule),
            !r ==> *final(self) == *old(self),
    {
        if position_of(&self.schedules, schedule.event_type.as_str()).is_some() || contains_id(&self.schedule_id_list(), schedule.id) {
            return false;
        }
        proof {
            lemma_key_position(self.schedules@, schedule.key());
            let place = key_position(self.schedules@, schedule.key());
            lemma_ids_insert(schedule_ids(self.schedules@), place, schedule.id);
            assert(schedule_ids(self.schedules@.insert(place, schedule)) =~= schedule_ids(self.schedules@).insert(place, schedule.id));
        }
        let place = insert_in_order(&mut self.schedules, schedule);
        true
    }
}

/// Whether `id` is one of `ids`.
pub fn contains_id(ids: &Vec<u128>, id: u128) -> (r: bool)
    ensures
        r == ids@.contains(id),
{
    let mut i: usize = 0;
    while i < ids.len()
        invariant
            i <= ids@.len(),
            forall|j: int| 0 <= j < i ==> ids@[j] != id,
        decreases ids.len() - i,
    {
        if ids[i] == id {
            assert(ids@[i as int] == id);
            return true;
        }
        i = i + 1;
    }
    false
}

impl Database {
    fn handler_id_list(&self) -> (r: Vec<u128>)
        ensures
            r@ == handler_ids(self.handlers@),
    {
        let mut out: Vec<u128> = Vec::new();
        let mut i: usize = 0;
        while i < self.handlers.len()
            invariant
                i <= self.handlers@.len(),
                out@ == handler_ids(self.handlers@).take(i as int),
            decreases self.handlers.len() - i,
        {
            out.push(self.handlers[i].id);
            i = i + 1;
            assert(out@ =~= handler_ids(self.handlers@).take(i as int));
        }
        assert(out@ =~= handler_ids(self.handlers@));
        out
    }

    fn timer_id_list(&self) -> (r: Vec<u128>)
        ensures
            r@ == timer_ids(self.timers@),
    {
        let mut out: Vec<u128> = Vec::new();
        let mut i: usize = 0;
        while i < self.timers.len()
            invariant
                i <= self.timers@.len(),
                out@ == timer_ids(self.timers@).take(i as int),
            decreases self.timers.len() - i,
        {
            out.push(self.timers[i].id);
            i = i + 1;
            assert(out@ =~= timer_ids(self.timers@).take(i as int));
        }
        assert(out@ =~= timer_ids(self.timers@));
        out
    }

    fn schedule_id_list(&self) -> (r: Vec<u128>)
        ensures
            r@ == schedule_ids(self.schedules@),
    {
        let mut out: Vec<u128> = Vec::new();
        let mut i: usize = 0;
        while i < self.schedules.len()
            invariant
                i <= self.schedules@.len(),
                out@ == schedule_ids(self.schedules@).take(i as int),
            decreases self.schedules.len() - i,
        {
            out.push(self.schedules[i].id);
            i = i + 1;
            assert(out@ =~= schedule_ids(self.schedules@).take(i as int));
        }
        assert(out@ =~= schedule_ids(self.schedules@));
        out
    }
}

} // verus!
