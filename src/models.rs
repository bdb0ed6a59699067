use vstd::prelude::*;

use crate::clock::now_millis;
use crate::ids::is_v4;
use crate::ids::new_id;
use crate::text::lower_of;
use crate::text::lowercase;
use crate::text::same_text;
use crate::text::lemma_text_order;
use crate::text::text_before;
use crate::text::text_lt;

verus! {

/// The shell that runs a handler's command.
#[derive(Debug, Clone, Copy, PartialEq, Eq, Structural)]
pub enum ShellType {
    Pwsh,
    Bash,
    Sh,
}

/// The canonical name of a shell.
pub open spec fn shell_name(shell: ShellType) -> Seq<char> {
    match shell {
        ShellType::Pwsh => seq!['p', 'w', 's', 'h'],
        ShellType::Bash => seq!['b', 'a', 's', 'h'],
        ShellType::Sh => seq!['s', 'h'],
    }
}

/// The flag that hands a command to a shell.
pub open spec fn shell_flag(shell: ShellType) -> Seq<char> {
    match shell {
        ShellType::Pwsh => seq!['-', 'C', 'o', 'm', 'm', 'a', 'n', 'd'],
        _ => seq!['-', 'c'],
    }
}

/// The shell named by an already lower-cased name; `powershell` is
/// accepted for `pwsh`.
pub open spec fn shell_of_lowercase(s: Seq<char>) -> Option<ShellType> {
    if s == seq!['p', 'w', 's', 'h'] || s == seq!['p', 'o', 'w', 'e', 'r', 's', 'h', 'e', 'l', 'l'] {
        Some(ShellType::Pwsh)
    } else if s == seq!['b', 'a', 's', 'h'] {
        Some(ShellType::Bash)
    } else if s == seq!['s', 'h'] {
        Some(ShellType::Sh)
    } else {
        None
    }
}

impl ShellType {
    /// The program and the arguments that run `command` under this shell.
    pub fn command_args<'a>(&self, command: &'a str) -> (r: (&'static str, Vec<&'a str>))
        ensures
            r.0@ == shell_name(*self),
            r.1@.len() == 2,
            r.1@[0]@ == shell_flag(*self),
            r.1@[1] == command,
    {
        proof {
            reveal_strlit("pwsh");
            reveal_strlit("bash");
            reveal_strlit("sh");
            reveal_strlit("-Command");
            reveal_strlit("-c");
        }
        match self {
            ShellType::Pwsh => ("pwsh", vec!["-Command", command]),
            ShellType::Bash => ("bash", vec!["-c", command]),
            ShellType::Sh => ("sh", vec!["-c", command]),
        }
    }

    /// The canonical name of this shell.
    pub fn as_str(&self) -> (r: &'static str)
        ensures
            r@ == shell_name(*self),
    {
        proof {
            reveal_strlit("pwsh");
            reveal_strlit("bash");
            reveal_strlit("sh");
        }
        match self {
            ShellType::Pwsh => "pwsh",
            ShellType::Bash => "bash",
            ShellType::Sh => "sh",
        }
    }

    /// The shell named by `s`, which is already lower case.
    pub fn from_lowercase(s: &str) -> (r: Option<ShellType>)
        ensures
            r == shell_of_lowercase(s@),
    {
        proof {
            reveal_strlit("pwsh");
            reveal_strlit("powershell");
            reveal_strlit("bash");
            reveal_strlit("sh");
            assert("pwsh"@ =~= seq!['p', 'w', 's', 'h']);
            assert("powershell"@ =~= seq!['p', 'o', 'w', 'e', 'r', 's', 'h', 'e', 'l', 'l']);
            assert("bash"@ =~= seq!['b', 'a', 's', 'h']);
            assert("sh"@ =~= seq!['s', 'h']);
        }
        if same_text(s, "pwsh") || same_text(s, "powershell") {
            Some(ShellType::Pwsh)
        } else if same_text(s, "bash") {
            Some(ShellType::Bash)
        } else if same_text(s, "sh") {
            Some(ShellType::Sh)
        } else {
            None
        }
    }

    /// The shell named by `s`, in any letter case.
    pub fn from_str(s: &str) -> (r: Option<ShellType>)
        ensures
            r == shell_of_lowercase(lower_of(s@)),
    {
        let lower = lowercase(s);
        ShellType::from_lowercase(lower.as_str())
    }
}

/// The lifecycle state of a job.
#[derive(Debug, Clone, Copy, PartialEq, Eq, Structural)]
pub enum JobStatus {
    Pending,
    Running,
    Completed,
    Failed,
    Cancelled,
}

/// The name of a job status.
pub open spec fn status_name(status: JobStatus) -> Seq<char> {
    match status {
        JobStatus::Pending => seq!['p', 'e', 'n', 'd', 'i', 'n', 'g'],
        JobStatus::Running => seq!['r', 'u', 'n', 'n', 'i', 'n', 'g'],
        JobStatus::Completed => seq!['c', 'o', 'm', 'p', 'l', 'e', 't', 'e', 'd'],
        JobStatus::Failed => seq!['f', 'a', 'i', 'l', 'e', 'd'],
        JobStatus::Cancelled => seq!['c', 'a', 'n', 'c', 'e', 'l', 'l', 'e', 'd'],
    }
}

/// The status named by an already lower-cased name.
pub open spec fn status_of_lowercase(s: Seq<char>) -> Option<JobStatus> {
    if s == status_name(JobStatus::Pending) {
        Some(JobStatus::Pending)
    } else if s == status_name(JobStatus::Running) {
        Some(JobStatus::Running)
    } else if s == status_name(JobStatus::Completed) {
        Some(JobStatus::Completed)
    } else if s == status_name(JobStatus::Failed) {
        Some(JobStatus::Failed)
    } else if s == status_name(JobStatus::Cancelled) {
        Some(JobStatus::Cancelled)
    } else {
        None
    }
}

/// A job in this status is active: pending or running.
pub open spec fn is_active_status(status: JobStatus) -> bool {
    status == JobStatus::Pending || status == JobStatus::Running
}

impl JobStatus {
    /// The name of this status.
    pub fn as_str(&self) -> (r: &'static str)
        ensures
            r@ == status_name(*self),
    {
        proof {
            reveal_strlit("pending");
            reveal_strlit("running");
            reveal_strlit("completed");
            reveal_strlit("failed");
            reveal_strlit("cancelled");
        }
        match self {
            JobStatus::Pending => "pending",
            JobStatus::Running => "running",
            JobStatus::Completed => "completed",
            JobStatus::Failed => "failed",
            JobStatus::Cancelled => "cancelled",
        }
    }

    /// The status named by `s`, which is already lower case.
    pub fn from_lowercase(s: &str) -> (r: Option<JobStatus>)
        ensures
            r == status_of_lowercase(s@),
    {
        proof {
            reveal_strlit("pending");
            reveal_strlit("running");
            reveal_strlit("completed");
            reveal_strlit("failed");
            reveal_strlit("cancelled");
            assert("pending"@ =~= status_name(JobStatus::Pending));
            assert("running"@ =~= status_name(JobStatus::Running));
            assert("completed"@ =~= status_name(JobStatus::Completed));
            assert("failed"@ =~= status_name(JobStatus::Failed));
            assert("cancelled"@ =~= status_name(JobStatus::Cancelled));
        }
        if same_text(s, "pending") {
            Some(JobStatus::Pending)
        } else if same_text(s, "running") {
            Some(JobStatus::Running)
        } else if same_text(s, "completed") {
            Some(JobStatus::Completed)
        } else if same_text(s, "failed") {
            Some(JobStatus::Failed)
        } else if same_text(s, "cancelled") {
            Some(JobStatus::Cancelled)
        } else {
            None
        }
    }

    /// The status named by `s`, in any letter case.
    pub fn from_str(s: &str) -> (r: Option<JobStatus>)
        ensures
            r == status_of_lowercase(lower_of(s@)),
    {
        let lower = lowercase(s);
        JobStatus::from_lowercase(lower.as_str())
    }

    /// Whether a job in this status is active (pending or running).
    pub fn is_active(&self) -> (r: bool)
        ensures
            r == is_active_status(*self),
    {
        *self == JobStatus::Pending || *self == JobStatus::Running
    }
}

/// An item of the catalog keyed by its event type.
pub trait Keyed: Sized {
    type Model;

    spec fn key(&self) -> Seq<char>;

    /// What the item holds, as compared in contracts.
    spec fn model(&self) -> Self::Model;

    fn key_ref(&self) -> (r: &String)
        ensures
            r@ == self.key(),
    ;
}

/// No two items of `s` share an event type.
pub open spec fn keys_unique<T: Keyed>(s: Seq<T>) -> bool {
    forall|i: int, j: int|
        0 <= i < s.len() && 0 <= j < s.len() && i != j ==> #[trigger] s[i].key() != #[trigger] s[j].key()
}

/// Some item of `s` has event type `key`.
pub open spec fn has_key<T: Keyed>(s: Seq<T>, key: Seq<char>) -> bool {
    exists|i: int| 0 <= i < s.len() && #[trigger] s[i].key() == key
}

/// A position of the item of `s` with event type `key`.
pub open spec fn key_index<T: Keyed>(s: Seq<T>, key: Seq<char>) -> int {
    choose|i: int| 0 <= i < s.len() && #[trigger] s[i].key() == key
}

/// The items of `s` by event type.
pub open spec fn keyed_map<T: Keyed>(s: Seq<T>) -> Map<Seq<char>, T::Model> {
    Map::new(|k: Seq<char>| has_key(s, k), |k: Seq<char>| s[key_index(s, k)].model())
}

/// In a sequence with unique keys, the item with a key stands at one place.
pub proof fn lemma_key_index<T: Keyed>(s: Seq<T>, i: int)
    requires
        keys_unique(s),
        0 <= i < s.len(),
    ensures
        has_key(s, s[i].key()),
        key_index(s, s[i].key()) == i,
{
    assert(has_key(s, s[i].key()));
    let j = key_index(s, s[i].key());
    assert(s[j].key() == s[i].key());
}

/// Appending an item of a new key adds it to the map.
pub proof fn lemma_keyed_push<T: Keyed>(s: Seq<T>, x: T)
    requires
        keys_unique(s),
        !has_key(s, x.key()),
    ensures
        keys_unique(s.push(x)),
        keyed_map(s.push(x)) == keyed_map(s).insert(x.key(), x.model()),
{
    let t = s.push(x);
    assert forall|i: int, j: int|
        0 <= i < t.len() && 0 <= j < t.len() && i != j implies #[trigger] t[i].key() != #[trigger] t[j].key() by {
        if i < s.len() && j < s.len() {
            assert(t[i] == s[i] && t[j] == s[j]);
        } else if i < s.len() {
            assert(t[i] == s[i]);
        } else {
            assert(t[j] == s[j]);
        }
    }
    assert forall|k: Seq<char>| has_key(t, k) == (has_key(s, k) || k == x.key()) by {
        if has_key(s, k) {
            let i = key_index(s, k);
            assert(t[i] == s[i]);
        }
        if has_key(t, k) && k != x.key() {
            let i = key_index(t, k);
            assert(i < s.len());
            assert(s[i] == t[i]);
        }
        if k == x.key() {
            assert(t[s.len() as int] == x);
        }
    }
    assert forall|k: Seq<char>| #[trigger] has_key(t, k) implies t[key_index(t, k)].model() == (if k == x.key() { x.model() } else { s[key_index(s, k)].model() }) by {
        if k == x.key() {
            lemma_key_index(t, s.len() as int);
        } else {
            let i = key_index(s, k);
            lemma_key_index(s, i);
            assert(t[i] == s[i]);
            lemma_key_index(t, i);
        }
    }
    assert(keyed_map(t) =~= keyed_map(s).insert(x.key(), x.model()));
}

/// Replacing an item by one of the same key replaces it in the map.
pub proof fn lemma_keyed_update<T: Keyed>(s: Seq<T>, i: int, x: T)
    requires
        keys_unique(s),
        0 <= i < s.len(),
        x.key() == s[i].key(),
    ensures
        keys_unique(s.update(i, x)),
        keyed_map(s.update(i, x)) == keyed_map(s).insert(x.key(), x.model()),
{
    let t = s.update(i, x);
    assert forall|a: int, b: int|
        0 <= a < t.len() && 0 <= b < t.len() && a != b implies #[trigger] t[a].key() != #[trigger] t[b].key() by {
        assert(t[a].key() == s[a].key() && t[b].key() == s[b].key());
    }
    assert forall|k: Seq<char>| has_key(t, k) == has_key(s, k) by {
        if has_key(s, k) {
            let a = key_index(s, k);
            assert(t[a].key() == s[a].key());
        }
        if has_key(t, k) {
            let a = key_index(t, k);
            assert(t[a].key() == s[a].key());
        }
    }
    assert forall|k: Seq<char>| #[trigger] has_key(t, k) implies t[key_index(t, k)].model() == (if k == x.key() { x.model() } else { s[key_index(s, k)].model() }) by {
        let a = key_index(t, k);
        lemma_key_index(t, a);
        if k == x.key() {
            lemma_key_index(t, i);
        } else {
            assert(a != i);
            assert(t[a] == s[a]);
            lemma_key_index(s, a);
        }
    }
    assert(keyed_map(t) =~= keyed_map(s).insert(x.key(), x.model()));
}

/// Removing an item removes its key from the map.
pub proof fn lemma_keyed_remove<T: Keyed>(s: Seq<T>, i: int)
    requires
        keys_unique(s),
        0 <= i < s.len(),
    ensures
        keys_unique(s.remove(i)),
        keyed_map(s.remove(i)) == keyed_map(s).remove(s[i].key()),
{
    let t = s.remove(i);
    let gone = s[i].key();
    assert forall|a: int, b: int|
        0 <= a < t.len() && 0 <= b < t.len() && a != b implies #[trigger] t[a].key() != #[trigger] t[b].key() by {
        let sa = if a < i { a } else { a + 1 };
        let sb = if b < i { b } else { b + 1 };
        assert(t[a] == s[sa] && t[b] == s[sb]);
    }
    assert forall|k: Seq<char>| has_key(t, k) == (has_key(s, k) && k != gone) by {
        if has_key(t, k) {
            let a = key_index(t, k);
            let sa = if a < i { a } else { a + 1 };
            assert(t[a] == s[sa]);
        }
        if has_key(s, k) && k != gone {
            let a = key_index(s, k);
            assert(a != i);
            let ta = if a < i { a } else { a - 1 };
            assert(t[ta] == s[a]);
        }
    }
    assert forall|k: Seq<char>| #[trigger] has_key(t, k) implies t[key_index(t, k)].model() == s[key_index(s, k)].model() by {
        let a = key_index(t, k);
        let sa = if a < i { a } else { a + 1 };
        assert(t[a] == s[sa]);
        lemma_key_index(s, sa);
    }
    assert(keyed_map(t) =~= keyed_map(s).remove(gone));
}

/// The position in `v` of the item with event type `key`, if any.
pub fn position_of<T: Keyed>(v: &Vec<T>, key: &str) -> (r: Option<usize>)
    ensures
        r matches Some(i) ==> i < v@.len() && v@[i as int].key() == key@,
        r is None <==> !has_key(v@, key@),
{
    let mut i: usize = 0;
    while i < v.len()
        invariant
            i <= v@.len(),
            forall|j: int| 0 <= j < i ==> #[trigger] v@[j].key() != key@,
        decreases v.len() - i,
    {
        if same_text(v[i].key_ref().as_str(), key) {
            return Some(i);
        }
        i = i + 1;
    }
    None
}

/// One variable of a handler's environment.
#[derive(Debug)]
pub struct EnvVar {
    pub key: String,
    pub value: String,
}

impl Clone for EnvVar {
    fn clone(&self) -> (r: Self)
        ensures
            r == *self,
    {
        EnvVar { key: self.key.clone(), value: self.value.clone() }
    }
}

/// Copies an environment, variable by variable.
pub fn clone_env(env: &Vec<EnvVar>) -> (r: Vec<EnvVar>)
    ensures
        r@ == env@,
{
    let mut out: Vec<EnvVar> = Vec::new();
    let mut i: usize = 0;
    while i < env.len()
        invariant
            i <= env@.len(),
            out@ == env@.subrange(0, i as int),
        decreases env.len() - i,
    {
        out.push(env[i].clone());
        i = i + 1;
        assert(out@ =~= env@.subrange(0, i as int));
    }
    assert(out@ =~= env@);
    out
}

/// An event: a named occurrence with a context string, to be bound to the
/// handler of its event type.
#[derive(Debug)]
pub struct Event {
    pub id: u128,
    pub event_type: String,
    pub context: String,
    /// Milliseconds since the Unix epoch.
    pub timestamp: i64,
}

impl Clone for Event {
    fn clone(&self) -> (r: Self)
        ensures
            r == *self,
    {
        Event {
            id: self.id,
            event_type: self.event_type.clone(),
            context: self.context.clone(),
            timestamp: self.timestamp,
        }
    }
}

impl Event {
    /// A new event with a fresh id, stamped with the current time.
    pub fn new(event_type: String, context: String) -> (r: Event)
        ensures
            r.event_type == event_type,
            r.context == context,
            is_v4(r.id),
            r.timestamp >= 0,
    {
        Event { id: new_id(), event_type, context, timestamp: now_millis() }
    }
}

/// A shell command registered for an event type.
#[derive(Debug)]
pub struct EventHandler {
    pub id: u128,
    pub event_type: String,
    pub shell: ShellType,
    pub command: String,
    /// Seconds after which the command is stopped.
    pub timeout: Option<u64>,
    pub env: Vec<EnvVar>,
}

/// What a handler holds, with its environment as a sequence.
pub struct HandlerView {
    pub id: u128,
    pub event_type: Seq<char>,
    pub shell: ShellType,
    pub command: Seq<char>,
    pub timeout: Option<u64>,
    pub env: Seq<EnvVar>,
}

impl View for EventHandler {
    type V = HandlerView;

    open spec fn view(&self) -> HandlerView {
        HandlerView {
            id: self.id,
            event_type: self.event_type@,
            shell: self.shell,
            command: self.command@,
            timeout: self.timeout,
            env: self.env@,
        }
    }
}

impl Clone for EventHandler {
    fn clone(&self) -> (r: Self)
        ensures
            r@ == self@,
    {
        EventHandler {
            id: self.id,
            event_type: self.event_type.clone(),
            shell: self.shell,
            command: self.command.clone(),
            timeout: self.timeout,
            env: clone_env(&self.env),
        }
    }
}

impl Keyed for EventHandler {
    type Model = HandlerView;

    open spec fn key(&self) -> Seq<char> {
        self.event_type@
    }

    open spec fn model(&self) -> HandlerView {
        self@
    }

    fn key_ref(&self) -> (r: &String) {
        &self.event_type
    }
}

impl EventHandler {
    /// A new handler with a fresh id.
    pub fn new(
        event_type: String,
        shell: ShellType,
        command: String,
        timeout: Option<u64>,
        env: Vec<EnvVar>,
    ) -> (r: EventHandler)
        ensures
            is_v4(r.id),
            r.event_type == event_type,
            r.shell == shell,
            r.command == command,
            r.timeout == timeout,
            r.env@ == env@,
    {
        EventHandler { id: new_id(), event_type, shell, command, timeout, env }
    }
}

/// An interval timer: emits an event of its type every `interval_secs`.
#[derive(Debug)]
pub struct TimerRecord {
    pub id: u128,
    pub event_type: String,
    pub context: String,
    pub interval_secs: u64,
}

impl Clone for TimerRecord {
    fn clone(&self) -> (r: Self)
        ensures
            r == *self,
    {
        TimerRecord {
            id: self.id,
            event_type: self.event_type.clone(),
            context: self.context.clone(),
            interval_secs: self.interval_secs,
        }
    }
}

impl Keyed for TimerRecord {
    type Model = TimerRecord;

    open spec fn key(&self) -> Seq<char> {
        self.event_type@
    }

    open spec fn model(&self) -> TimerRecord {
        *self
    }

    fn key_ref(&self) -> (r: &String) {
        &self.event_type
    }
}

impl TimerRecord {
    /// A new timer record with a fresh id.
    pub fn new(event_type: String, context: String, interval_secs: u64) -> (r: TimerRecord)
        ensures
            is_v4(r.id),
            r.event_type == event_type,
            r.context == context,
            r.interval_secs == interval_secs,
    {
        TimerRecord { id: new_id(), event_type, context, interval_secs }
    }
}

/// A wall-clock schedule: fires at `scheduled_time`, and then daily at the
/// same time when `periodic`.
#[derive(Debug)]
pub struct ScheduleRecord {
    pub id: u128,
    pub event_type: String,
    pub context: String,
    /// Milliseconds since the Unix epoch.
    pub scheduled_time: i64,
    pub periodic: bool,
}

impl Clone for ScheduleRecord {
    fn clone(&self) -> (r: Self)
        ensures
            r == *self,
    {
        ScheduleRecord {
            id: self.id,
            event_type: self.event_type.clone(),
            context: self.context.clone(),
            scheduled_time: self.scheduled_time,
            periodic: self.periodic,
        }
    }
}

impl Keyed for ScheduleRecord {
    type Model = ScheduleRecord;

    open spec fn key(&self) -> Seq<char> {
        self.event_type@
    }

    open spec fn model(&self) -> ScheduleRecord {
        *self
    }

    fn key_ref(&self) -> (r: &String) {
        &self.event_type
    }
}

/// One attempted execution of a handler against an event.
#[derive(Debug)]
pub struct Job {
    pub id: u128,
    pub event: Event,
    /// The id of the handler at dispatch time.
    pub handler_id: u128,
    pub status: JobStatus,
    pub output: Option<String>,
    pub error: Option<String>,
    pub started_at: Option<i64>,
    pub finished_at: Option<i64>,
}

impl Clone for Job {
    fn clone(&self) -> (r: Self)
        ensures
            r == *self,
    {
        Job {
            id: self.id,
            event: self.event.clone(),
            handler_id: self.handler_id,
            status: self.status,
            output: match &self.output {
                Some(o) => Some(o.clone()),
                None => None,
            },
            error: match &self.error {
                Some(e) => Some(e.clone()),
                None => None,
            },
            started_at: self.started_at,
            finished_at: self.finished_at,
        }
    }
}

/// The fields of a job agree with its status: a start time once it has
/// run, a finish time once it is over, output only when completed, an error
/// only when failed or cancelled.
pub open spec fn job_wf(j: Job) -> bool {
    match j.status {
        JobStatus::Pending => j.started_at is None && j.finished_at is None && j.output is None
            && j.error is None,
        JobStatus::Running => j.started_at is Some && j.finished_at is None && j.output is None
            && j.error is None,
        JobStatus::Completed => j.started_at is Some && j.finished_at is Some && j.output is Some
            && j.error is None,
        JobStatus::Failed => j.started_at is Some && j.finished_at is Some && j.output is None
            && j.error is Some,
        JobStatus::Cancelled => j.finished_at is Some && j.output is None,
    }
}

/// The allowed moves of a job's status: pending to running or cancelled,
/// running to completed, failed or cancelled.
pub open spec fn status_step(from: JobStatus, to: JobStatus) -> bool {
    ||| from == JobStatus::Pending && (to == JobStatus::Running || to == JobStatus::Cancelled)
    ||| from == JobStatus::Running && (to == JobStatus::Completed || to == JobStatus::Failed
        || to == JobStatus::Cancelled)
}

impl Job {
    /// A new pending job for `event`, bound to the handler with id `handler_id`.
    pub fn new(event: Event, handler_id: u128) -> (r: Job)
        ensures
            is_v4(r.id),
            r.event == event,
            r.handler_id == handler_id,
            r.status == JobStatus::Pending,
            job_wf(r),
    {
        Job {
            id: new_id(),
            event,
            handler_id,
            status: JobStatus::Pending,
            output: None,
            error: None,
            started_at: None,
            finished_at: None,
        }
    }
}

/// The outcome of running a command: whether it exited successfully, what
/// it printed, and its exit code where it has one.
#[derive(Debug)]
pub struct ExecutionResult {
    pub success: bool,
    pub stdout: String,
    pub stderr: String,
    pub exit_code: Option<i32>,
}

/// What a warning is about.
#[derive(Debug, Clone, Copy, PartialEq, Eq, Structural)]
pub enum WarningKind {
    /// A timer or schedule whose event type has no handler.
    MissingHandler,
}

/// A condition that an operator should resolve; kept in memory only.
#[derive(Debug)]
pub struct Warning {
    pub kind: WarningKind,
    pub event_type: String,
    pub message: String,
    /// Milliseconds since the Unix epoch.
    pub created_at: i64,
}

impl Clone for Warning {
    fn clone(&self) -> (r: Self)
        ensures
            r == *self,
    {
        Warning {
            kind: self.kind,
            event_type: self.event_type.clone(),
            message: self.message.clone(),
            created_at: self.created_at,
        }
    }
}

impl Keyed for Warning {
    type Model = Warning;

    open spec fn key(&self) -> Seq<char> {
        self.event_type@
    }

    open spec fn model(&self) -> Warning {
        *self
    }

    fn key_ref(&self) -> (r: &String) {
        &self.event_type
    }
}

/// The message of a missing-handler warning.
pub open spec fn missing_handler_message(event_type: Seq<char>, source: Seq<char>) -> Seq<char> {
    source + " '"@ + event_type + "' has no handler - events will be skipped"@
}

impl Warning {
    /// A warning that events of `event_type`, produced by `source` (a timer
    /// or a schedule), have no handler to run.
    pub fn missing_handler(event_type: &str, source: &str) -> (r: Warning)
        ensures
            r.kind == WarningKind::MissingHandler,
            r.event_type@ == event_type@,
            r.message@ == missing_handler_message(event_type@, source@),
            r.created_at >= 0,
    {
        let mut message = source.to_owned();
        message.append(" '");
        message.append(event_type);
        message.append("' has no handler - events will be skipped");
        Warning {
            kind: WarningKind::MissingHandler,
            event_type: event_type.to_owned(),
            message,
            created_at: now_millis(),
        }
    }
}

/// No two elements of `s` are equal.
pub open spec fn ids_distinct(s: Seq<u128>) -> bool {
    forall|i: int, j: int| 0 <= i < s.len() && 0 <= j < s.len() && i != j ==> #[trigger] s[i] != #[trigger] s[j]
}

/// The ids of a sequence of handlers.
pub open spec fn handler_ids(s: Seq<EventHandler>) -> Seq<u128> {
    s.map_values(|h: EventHandler| h.id)
}

/// The ids of a sequence of timers.
pub open spec fn timer_ids(s: Seq<TimerRecord>) -> Seq<u128> {
    s.map_values(|t: TimerRecord| t.id)
}

/// The ids of a sequence of schedules.
pub open spec fn schedule_ids(s: Seq<ScheduleRecord>) -> Seq<u128> {
    s.map_values(|t: ScheduleRecord| t.id)
}

/// Replacing an id by an unused one keeps ids distinct.
pub proof fn lemma_ids_update(s: Seq<u128>, i: int, x: u128)
    requires
        ids_distinct(s),
        !s.contains(x),
        0 <= i < s.len(),
    ensures
        ids_distinct(s.update(i, x)),
{
    let t = s.update(i, x);
    assert forall|a: int, b: int| 0 <= a < t.len() && 0 <= b < t.len() && a != b implies #[trigger] t[a] != #[trigger] t[b] by {
        if a == i {
            assert(s[b] == t[b]);
        } else if b == i {
            assert(s[a] == t[a]);
        }
    }
}

/// Removing an id keeps ids distinct.
pub proof fn lemma_ids_remove(s: Seq<u128>, i: int)
    requires
        ids_distinct(s),
        0 <= i < s.len(),
    ensures
        ids_distinct(s.remove(i)),
{
    let t = s.remove(i);
    assert forall|a: int, b: int| 0 <= a < t.len() && 0 <= b < t.len() && a != b implies #[trigger] t[a] != #[trigger] t[b] by {
        let sa = if a < i { a } else { a + 1 };
        let sb = if b < i { b } else { b + 1 };
        assert(t[a] == s[sa] && t[b] == s[sb]);
    }
}

/// A copy of a sequence of timers.
pub fn copy_timers(v: &Vec<TimerRecord>) -> (r: Vec<TimerRecord>)
    ensures
        r@ == v@,
{
    let mut out: Vec<TimerRecord> = Vec::new();
    let mut i: usize = 0;
    while i < v.len()
        invariant
            i <= v@.len(),
            out@ == v@.subrange(0, i as int),
        decreases v.len() - i,
    {
        out.push(v[i].clone());
        i = i + 1;
        assert(out@ =~= v@.subrange(0, i as int));
    }
    assert(out@ =~= v@);
    out
}

/// A copy of a sequence of schedules.
pub fn copy_schedules(v: &Vec<ScheduleRecord>) -> (r: Vec<ScheduleRecord>)
    ensures
        r@ == v@,
{
    let mut out: Vec<ScheduleRecord> = Vec::new();
    let mut i: usize = 0;
    while i < v.len()
        invariant
            i <= v@.len(),
            out@ == v@.subrange(0, i as int),
        decreases v.len() - i,
    {
        out.push(v[i].clone());
        i = i + 1;
        assert(out@ =~= v@.subrange(0, i as int));
    }
    assert(out@ =~= v@);
    out
}

/// The items of `s` stand in increasing order of event type.
pub open spec fn keys_sorted<T: Keyed>(s: Seq<T>) -> bool {
    forall|i: int, j: int| 0 <= i < j < s.len() ==> text_before((#[trigger] s[i]).key(), (#[trigger] s[j]).key())
}

/// How many items of `s` have an event type before `key`: where an item of
/// that event type goes to keep the order.
pub open spec fn key_position<T: Keyed>(s: Seq<T>, key: Seq<char>) -> int
    decreases s.len(),
{
    if s.len() == 0 {
        0
    } else {
        key_position(s.drop_last(), key) + if text_before(s.last().key(), key) {
            1int
        } else {
            0int
        }
    }
}

/// Items in order of event type have distinct event types.
pub proof fn lemma_sorted_unique<T: Keyed>(s: Seq<T>)
    requires
        keys_sorted(s),
    ensures
        keys_unique(s),
{
    assert forall|i: int, j: int| 0 <= i < s.len() && 0 <= j < s.len() && i != j implies #[trigger] s[i].key() != #[trigger] s[j].key() by {
        lemma_text_order(s[i].key(), s[j].key(), s[j].key());
        lemma_text_order(s[j].key(), s[i].key(), s[i].key());
    }
}

pub proof fn lemma_key_position<T: Keyed>(s: Seq<T>, key: Seq<char>)
    requires
        keys_sorted(s),
    ensures
        0 <= key_position(s, key) <= s.len(),
        forall|i: int| 0 <= i < key_position(s, key) ==> text_before((#[trigger] s[i]).key(), key),
        forall|i: int| key_position(s, key) <= i < s.len() ==> !text_before((#[trigger] s[i]).key(), key),
    decreases s.len(),
{
    if s.len() > 0 {
        let d = s.drop_last();
        assert(keys_sorted(d)) by {
            assert forall|i: int, j: int| 0 <= i < j < d.len() implies text_before((#[trigger] d[i]).key(), (#[trigger] d[j]).key()) by {
                assert(d[i] == s[i] && d[j] == s[j]);
            }
        }
        lemma_key_position(d, key);
        let n = s.len() - 1;
        if text_before(s[n].key(), key) {
            assert forall|i: int| 0 <= i < s.len() implies text_before((#[trigger] s[i]).key(), key) by {
                if i < n {
                    lemma_text_order(s[i].key(), s[n].key(), key);
                }
            }
            if key_position(d, key) < d.len() {
                assert(d[n - 1] == s[n - 1]);
                if n - 1 >= 0 {
                    assert(text_before(s[n - 1].key(), key));
                }
            }
        } else {
            assert forall|i: int| 0 <= i < key_position(s, key) implies text_before((#[trigger] s[i]).key(), key) by {
                assert(d[i] == s[i]);
            }
            assert forall|i: int| key_position(s, key) <= i < s.len() implies !text_before((#[trigger] s[i]).key(), key) by {
                if i < n {
                    assert(d[i] == s[i]);
                }
            }
        }
    }
}

/// Replacing an item by one of the same key keeps the order.
pub proof fn lemma_sorted_update<T: Keyed>(s: Seq<T>, i: int, x: T)
    requires
        keys_sorted(s),
        0 <= i < s.len(),
        x.key() == s[i].key(),
    ensures
        keys_sorted(s.update(i, x)),
{
    let t = s.update(i, x);
    assert forall|a: int, b: int| 0 <= a < b < t.len() implies text_before((#[trigger] t[a]).key(), (#[trigger] t[b]).key()) by {
        assert(t[a].key() == s[a].key() && t[b].key() == s[b].key());
    }
}

/// Removing an item keeps the order.
pub proof fn lemma_sorted_remove<T: Keyed>(s: Seq<T>, i: int)
    requires
        keys_sorted(s),
        0 <= i < s.len(),
    ensures
        keys_sorted(s.remove(i)),
{
    let t = s.remove(i);
    assert forall|a: int, b: int| 0 <= a < b < t.len() implies text_before((#[trigger] t[a]).key(), (#[trigger] t[b]).key()) by {
        let sa = if a < i { a } else { a + 1 };
        let sb = if b < i { b } else { b + 1 };
        assert(t[a] == s[sa] && t[b] == s[sb]);
    }
}

/// Inserting an unused id keeps ids distinct.
pub proof fn lemma_ids_insert(s: Seq<u128>, p: int, x: u128)
    requires
        ids_distinct(s),
        !s.contains(x),
        0 <= p <= s.len(),
    ensures
        ids_distinct(s.insert(p, x)),
{
    let t = s.insert(p, x);
    assert forall|a: int, b: int| 0 <= a < t.len() && 0 <= b < t.len() && a != b implies #[trigger] t[a] != #[trigger] t[b] by {
        let sa = if a < p { a } else { a - 1 };
        let sb = if b < p { b } else { b - 1 };
        if a != p && b != p {
            assert(t[a] == s[sa] && t[b] == s[sb]);
        } else if a != p {
            assert(t[a] == s[sa]);
        } else {
            assert(t[b] == s[sb]);
        }
    }
}

/// Inserts `x` where its event type keeps `v` in order of event type, and
/// returns the place.
pub fn insert_in_order<T: Keyed>(v: &mut Vec<T>, x: T) -> (p: usize)
    requires
        keys_sorted(old(v)@),
        !has_key(old(v)@, x.key()),
    ensures
        p == key_position(old(v)@, x.key()),
        final(v)@ == old(v)@.insert(p as int, x),
        keys_sorted(final(v)@),
        keys_unique(final(v)@),
        keyed_map(final(v)@) == keyed_map(old(v)@).insert(x.key(), x.model()),
{
    let ghost s0 = v@;
    let ghost k = x.key();
    let mut p: usize = 0;
    let mut i: usize = 0;
    while i < v.len()
        invariant
            i <= v@.len(),
            s0 == v@,
            k == x.key(),
            p == key_position(s0.take(i as int), k),
            p <= i,
        decreases v.len() - i,
    {
        assert(s0.take(i + 1).drop_last() =~= s0.take(i as int));
        if text_lt(v[i].key_ref().as_str(), x.key_ref().as_str()) {
            p = p + 1;
        }
        i = i + 1;
    }
    assert(s0.take(s0.len() as int) =~= s0);
    proof {
        lemma_key_position(s0, k);
        lemma_sorted_unique(s0);
    }
    v.insert(p, x);
    proof {
        let t = v@;
        let pi = p as int;
        assert forall|a: int, b: int| 0 <= a < b < t.len() implies text_before((#[trigger] t[a]).key(), (#[trigger] t[b]).key()) by {
            let sa = if a < pi { a } else { a - 1 };
            let sb = if b < pi { b } else { b - 1 };
            if a != pi && b != pi {
                assert(t[a] == s0[sa] && t[b] == s0[sb]);
            } else if a == pi {
                assert(t[b] == s0[sb]);
                assert(s0[sb].key() != k);
                lemma_text_order(k, s0[sb].key(), k);
            } else {
                assert(t[a] == s0[sa]);
            }
        }
        lemma_sorted_unique(t);
        assert forall|kk: Seq<char>| has_key(t, kk) == (has_key(s0, kk) || kk == k) by {
            if has_key(s0, kk) {
                let j = key_index(s0, kk);
                let tj = if j < pi { j } else { j + 1 };
                assert(t[tj] == s0[j]);
            }
            if has_key(t, kk) && kk != k {
                let j = key_index(t, kk);
                assert(j != pi);
                let sj = if j < pi { j } else { j - 1 };
                assert(s0[sj] == t[j]);
            }
            if kk == k {
                assert(t[pi] == x);
            }
        }
        assert forall|kk: Seq<char>| #[trigger] has_key(t, kk) implies t[key_index(t, kk)].model() == (if kk == k { x.model() } else { s0[key_index(s0, kk)].model() }) by {
            let j = key_index(t, kk);
            lemma_key_index(t, j);
            if kk == k {
                assert(t[pi] == x);
                lemma_key_index(t, pi);
            } else {
                assert(j != pi);
                let sj = if j < pi { j } else { j - 1 };
                assert(s0[sj] == t[j]);
                lemma_key_index(s0, sj);
            }
        }
        assert(keyed_map(t) =~= keyed_map(s0).insert(k, x.model()));
    }
    p
}

} // verus!
