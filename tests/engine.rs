use shev::api::{
    CreateHandlerRequest, CreateScheduleRequest, CreateTimerRequest, UpdateConfigRequest,
    UpdateHandlerRequest, UpdateTimerRequest,
};
use shev::catalog::Database;
use shev::clock::DAY_MILLIS;
use shev::consumer::ConsumerControl;
use shev::error::ShevError;
use shev::jobs::job_consistent;
use shev::models::{EnvVar, Event, EventHandler, ExecutionResult, Job, JobStatus, ScheduleRecord, ShellType, TimerRecord};
use shev::producer::{advance_past, LoopAction, LoopPhase, LoopSignal, ScheduleLoop, TimerLoop};
use shev::store::JobStore;

fn handler_request(event_type: &str, command: &str) -> CreateHandlerRequest {
    CreateHandlerRequest {
        event_type: event_type.to_string(),
        shell: "sh".to_string(),
        command: command.to_string(),
        timeout: None,
        env: vec![],
    }
}

fn store() -> JobStore {
    JobStore::new(Database::new())
}

#[test]
fn handler_crud_rotates_ids() {
    let mut db = Database::new();
    let h = db
        .insert_handler("echo", ShellType::Sh, "echo hi", None, vec![EnvVar { key: "A".into(), value: "1".into() }])
        .ok()
        .unwrap();
    assert!(matches!(db.insert_handler("echo", ShellType::Bash, "x", None, vec![]), Err(ShevError::Conflict(_))));
    assert_eq!(db.get_handler_id("echo"), Some(h.id));
    let u = db.update_handler("echo", None, Some("echo bye"), Some(Some(5)), None).ok().unwrap();
    assert_ne!(u.id, h.id);
    assert_eq!(u.shell, ShellType::Sh);
    assert_eq!(u.command, "echo bye");
    assert_eq!(u.timeout, Some(5));
    assert_eq!(u.env.len(), 1);
    assert_eq!(db.get_handler_id("echo"), Some(u.id));
    assert!(matches!(db.update_handler("nope", None, None, None, None), Err(ShevError::NotFound(_))));
    let again = db.upsert_handler("echo", ShellType::Bash, "true", None, vec![]);
    assert_ne!(again.id, u.id);
    assert_eq!(db.get_handler("echo").unwrap().shell, ShellType::Bash);
    assert!(db.delete_handler("echo"));
    assert!(!db.delete_handler("echo"));
    assert_eq!(db.get_handler("echo").map(|h| h.id), None);
}

#[test]
fn timer_and_schedule_crud() {
    let mut db = Database::new();
    assert!(matches!(db.insert_timer("tick", 0, ""), Err(ShevError::InvalidInput(_))));
    let t = db.insert_timer("tick", 2, "").ok().unwrap();
    assert!(matches!(db.insert_timer("tick", 3, ""), Err(ShevError::Conflict(_))));
    let t2 = db.update_timer("tick", None, Some("ctx")).ok().unwrap();
    assert_ne!(t2.id, t.id);
    assert_eq!(t2.interval_secs, 2);
    assert_eq!(t2.context, "ctx");
    assert!(matches!(db.update_timer("tick", Some(0), None), Err(ShevError::InvalidInput(_))));
    assert!(matches!(db.update_timer("tock", Some(1), None), Err(ShevError::NotFound(_))));
    assert_eq!(db.get_timer_id("tick"), Some(t2.id));
    assert_eq!(db.get_all_timers().len(), 1);
    let s = db.insert_schedule("daily", 1_000, "c", true).ok().unwrap();
    let s2 = db.update_schedule("daily", None, None, Some(false)).ok().unwrap();
    assert_ne!(s2.id, s.id);
    assert_eq!(s2.scheduled_time, 1_000);
    assert!(!s2.periodic);
    assert_eq!(db.get_schedule_id("daily"), Some(s2.id));
    assert!(db.delete_schedule("daily"));
    assert_eq!(db.get_schedule_id("daily"), None);
    assert!(db.delete_timer("tick"));
    assert_eq!(db.get_timer_id("tick"), None);
}

#[test]
fn config_defaults_and_updates() {
    let mut db = Database::new();
    assert_eq!(db.get_port(), 3000);
    assert_eq!(db.get_queue_size(), 100);
    assert_eq!(db.get_config("port").as_deref(), Some("3000"));
    db.set_config("port", "8080");
    assert_eq!(db.get_port(), 8080);
    db.set_config("port", "0");
    assert_eq!(db.get_port(), 3000);
    db.set_config("queue_size", "abc");
    assert_eq!(db.get_queue_size(), 100);
    let mut st = JobStore::new(Database::new());
    let bad_port = UpdateConfigRequest { port: Some("0".into()), queue_size: None };
    assert!(matches!(st.update_config(&bad_port), Err(ShevError::InvalidInput(_))));
    let bad_size = UpdateConfigRequest { port: None, queue_size: Some("x".into()) };
    assert!(matches!(st.update_config(&bad_size), Err(ShevError::InvalidInput(_))));
    let good = UpdateConfigRequest { port: Some("4000".into()), queue_size: Some("7".into()) };
    let r = st.update_config(&good).ok().unwrap();
    assert_eq!(r.port, "4000");
    assert_eq!(r.queue_size, "7");
    assert_eq!(st.db.get_port(), 4000);
    assert_eq!(st.db.get_queue_size(), 7);
}

#[test]
fn job_listing_newest_first() {
    let mut db = Database::new();
    let mut ids = vec![];
    for i in 0..5 {
        let job = Job::new(Event::new(format!("e{}", i), String::new()), 1);
        ids.push(job.id);
        assert!(db.insert_job(&job).is_ok());
    }
    let dup = db.get_job(ids[0]).unwrap();
    assert!(matches!(db.insert_job(&dup), Err(ShevError::Conflict(_))));
    let all = db.get_all_jobs(None, 10);
    assert_eq!(all.iter().map(|j| j.id).collect::<Vec<_>>(), ids.iter().rev().cloned().collect::<Vec<_>>());
    let two = db.get_all_jobs(None, 2);
    assert_eq!(two.iter().map(|j| j.id).collect::<Vec<_>>(), vec![ids[4], ids[3]]);
    assert_eq!(db.get_all_jobs(Some(&JobStatus::Completed), 10).len(), 0);
    assert_eq!(db.get_all_jobs(Some(&JobStatus::Pending), 10).len(), 5);
    assert!(db.has_active_job("e2"));
    assert!(!db.has_active_job("zz"));
}

#[test]
fn stale_jobs_cancelled_on_restart() {
    let mut st = store();
    let h = st.create_handler(&handler_request("a", "true")).ok().unwrap();
    let pending = st.create_job(Event::new("a".into(), String::new()), &h);
    let running = st.create_job(Event::new("a".into(), String::new()), &h);
    let done = st.create_job(Event::new("a".into(), String::new()), &h);
    assert!(st.mark_running(running.id));
    assert!(st.mark_running(done.id));
    assert!(st.mark_completed(done.id, "ok".into()));
    assert_eq!(st.db.cancel_stale_jobs(), 2);
    for id in [pending.id, running.id] {
        let j = st.get_job(id).unwrap();
        assert_eq!(j.status, JobStatus::Cancelled);
        assert_eq!(j.error.as_deref(), Some("Backend restarted"));
        assert!(j.finished_at.is_some());
    }
    assert_eq!(st.get_job(done.id).unwrap().status, JobStatus::Completed);
    assert!(!st.has_active_job("a"));
    assert_eq!(st.db.cancel_stale_jobs(), 0);
}

#[test]
fn job_lifecycle_transitions() {
    let mut st = store();
    let h = st.create_handler(&handler_request("a", "true")).ok().unwrap();
    let job = st.create_job(Event::new("a".into(), String::new()), &h);
    assert!(!st.mark_completed(job.id, "early".into()));
    assert!(st.mark_running(job.id));
    assert!(!st.mark_running(job.id));
    let j = st.get_job(job.id).unwrap();
    assert_eq!(j.status, JobStatus::Running);
    assert!(j.started_at.is_some());
    assert!(st.mark_failed(job.id, "bad".into()));
    let j = st.get_job(job.id).unwrap();
    assert_eq!(j.status, JobStatus::Failed);
    assert_eq!(j.error.as_deref(), Some("bad"));
    assert!(!st.cancel_job(job.id));
    assert!(!st.cancel_job(12345));
    let other = st.create_job(Event::new("a".into(), String::new()), &h);
    assert!(st.mark_running(other.id));
    assert!(st.cancel_job(other.id));
    assert!(!st.mark_completed(other.id, "late".into()));
    let j = st.get_job(other.id).unwrap();
    assert_eq!(j.status, JobStatus::Cancelled);
    assert!(j.output.is_none());
    let status = st.status(true);
    assert_eq!(status.total_jobs, 2);
    assert_eq!(status.failed_jobs, 1);
    assert_eq!(status.pending_jobs, 0);
    assert!(status.consumer_running);
}

#[test]
fn echo_event_completes() {
    let mut st = store();
    st.create_handler(&handler_request("echo", "echo hi")).ok().unwrap();
    let control = ConsumerControl::new();
    let (job, handler) = st.dispatch(Event::new("echo".into(), String::new()), &control).unwrap();
    assert_eq!(handler.command, "echo hi");
    assert_eq!(job.handler_id, handler.id);
    assert!(st.mark_running(job.id));
    let outcome = ExecutionResult { success: true, stdout: "hi\n".into(), stderr: String::new(), exit_code: Some(0) };
    assert!(st.finish_job(job.id, Ok(outcome)));
    let jobs = st.get_all_jobs();
    assert_eq!(jobs.len(), 1);
    assert_eq!(jobs[0].status, JobStatus::Completed);
    assert_eq!(jobs[0].output.as_deref(), Some("hi\n"));
    assert!(st.dispatch(Event::new("unknown".into(), String::new()), &control).is_none());
    assert_eq!(st.get_all_jobs().len(), 1);
}

#[test]
fn slow_event_times_out() {
    let mut st = store();
    let req = CreateHandlerRequest { timeout: Some(1), ..handler_request("slow", "sleep 5") };
    st.create_handler(&req).ok().unwrap();
    let (job, handler) = st.dispatch(Event::new("slow".into(), String::new()), &ConsumerControl::new()).unwrap();
    assert_eq!(handler.timeout, Some(1));
    assert!(st.mark_running(job.id));
    let error = shev::consumer::timeout_message(handler.timeout.unwrap());
    assert!(st.finish_job(job.id, Err(error)));
    let j = st.get_job(job.id).unwrap();
    assert_eq!(j.status, JobStatus::Failed);
    assert!(j.error.unwrap().contains("timed out after 1"));
}

#[test]
fn paused_consumer_passes_over_events() {
    let mut st = store();
    st.create_handler(&handler_request("echo", "echo hi")).ok().unwrap();
    let mut control = ConsumerControl::new();
    control.stop();
    assert!(st.dispatch(Event::new("echo".into(), String::new()), &control).is_none());
    assert_eq!(st.get_all_jobs().len(), 0);
}

#[test]
fn cancel_pending_job_before_it_runs() {
    let mut st = store();
    st.create_handler(&handler_request("echo", "echo hi")).ok().unwrap();
    let (job, _) = st.dispatch(Event::new("echo".into(), String::new()), &ConsumerControl::new()).unwrap();
    assert!(st.cancel_job(job.id));
    assert!(!st.mark_running(job.id));
    let j = st.get_job(job.id).unwrap();
    assert_eq!(j.status, JobStatus::Cancelled);
    assert!(j.started_at.is_none());
    assert!(!st.cancel_job(job.id));
}

#[test]
fn missing_handler_warning_resolves() {
    let mut st = store();
    st.create_handler(&handler_request("e", "true")).ok().unwrap();
    let timer = CreateTimerRequest { event_type: "e".into(), interval_secs: 5, context: String::new() };
    let (_, start) = st.create_timer(&timer).ok().unwrap();
    assert!(start);
    assert!(st.health().healthy);
    assert!(st.remove_handler("e"));
    let health = st.health();
    assert!(!health.healthy);
    assert_eq!(health.warnings.len(), 1);
    assert_eq!(health.warnings[0].event_type, "e");
    st.create_handler(&handler_request("e", "true")).ok().unwrap();
    let health = st.health();
    assert!(health.healthy);
    assert_eq!(health.warnings.len(), 0);
}

#[test]
fn handler_update_request() {
    let mut st = store();
    let h = st.create_handler(&handler_request("x", "true")).ok().unwrap();
    let bad = UpdateHandlerRequest { shell: Some("csh".into()), command: None, timeout: None, env: None };
    assert!(matches!(st.update_handler("x", &bad), Err(ShevError::InvalidInput(_))));
    let good = UpdateHandlerRequest { shell: Some("BASH".into()), command: None, timeout: Some(Some(9)), env: None };
    let u = st.update_handler("x", &good).ok().unwrap();
    assert_ne!(u.id, h.id);
    assert_eq!(u.shell, ShellType::Bash);
    assert_eq!(u.timeout, Some(9));
    assert_eq!(st.get_handler("x").unwrap().id, u.id);
    let bad_shell = CreateHandlerRequest { shell: "cmd".into(), ..handler_request("y", "dir") };
    assert!(matches!(st.create_handler(&bad_shell), Err(ShevError::InvalidInput(_))));
}

#[test]
fn reload_twice_is_reload_once() {
    let mut st = store();
    st.db.insert_handler("h", ShellType::Sh, "true", None, vec![]).ok().unwrap();
    let t = st.db.insert_timer("t", 3, "").ok().unwrap();
    st.db.insert_schedule("s", 10, "", true).ok().unwrap();
    let first = st.reload();
    assert_eq!((first.handlers_loaded, first.timers_loaded, first.schedules_loaded), (1, 1, 1));
    assert_eq!(first.timers_to_start.len(), 1);
    assert_eq!(first.timers_to_start[0].id, t.id);
    assert_eq!(first.schedules_to_start.len(), 1);
    let timers_after_first: Vec<u128> = st.get_timers().iter().map(|t| t.id).collect();
    let second = st.reload();
    assert_eq!((second.handlers_loaded, second.timers_loaded, second.schedules_loaded), (1, 1, 1));
    assert_eq!(second.timers_to_start.len(), 0);
    assert_eq!(second.schedules_to_start.len(), 0);
    let timers_after_second: Vec<u128> = st.get_timers().iter().map(|t| t.id).collect();
    assert_eq!(timers_after_first, timers_after_second);
    let t2 = st.db.update_timer("t", Some(4), None).ok().unwrap();
    let third = st.reload();
    assert_eq!(third.timers_to_start.len(), 1);
    assert_eq!(third.timers_to_start[0].id, t2.id);
}

#[test]
fn register_timer_is_idempotent() {
    let mut st = store();
    let (t, start) = st
        .create_timer(&CreateTimerRequest { event_type: "tick".into(), interval_secs: 2, context: String::new() })
        .ok()
        .unwrap();
    assert!(start);
    assert!(!st.register_timer(t.clone()));
    let (t2, start2) = st
        .update_timer("tick", &UpdateTimerRequest { interval_secs: Some(3), context: None })
        .ok()
        .unwrap();
    assert!(start2);
    assert_eq!(st.get_timer("tick").unwrap().id, t2.id);
    assert!(st.remove_timer("tick"));
    assert!(st.get_timer("tick").is_none());
}

#[test]
fn timer_loop_skips_while_job_active() {
    let mut st = store();
    st.create_handler(&handler_request("tick", "sleep 5")).ok().unwrap();
    let (t, _) = st
        .create_timer(&CreateTimerRequest { event_type: "tick".into(), interval_secs: 2, context: String::new() })
        .ok()
        .unwrap();
    let (mut lp, mut action) = TimerLoop::new(t);
    // Simulated clock in milliseconds; each job runs for five seconds.
    let mut now: i64 = 0;
    let mut running: Option<(u128, i64)> = None;
    let mut created = 0;
    let done = ExecutionResult { success: true, stdout: String::new(), stderr: String::new(), exit_code: Some(0) };
    while now <= 10_000 {
        let signal = match action {
            LoopAction::Sleep { millis } => {
                now += millis as i64;
                if now > 10_000 {
                    break;
                }
                if let Some((id, end)) = running {
                    if now >= end {
                        assert!(st.finish_job(id, Ok(done_clone(&done))));
                        running = None;
                    }
                }
                st.timer_wake("tick", now, false)
            },
            LoopAction::Emit => {
                assert!(!st.has_active_job("tick"));
                let (job, _) = st.dispatch(Event::new("tick".into(), String::new()), &ConsumerControl::new()).unwrap();
                assert!(st.mark_running(job.id));
                running = Some((job.id, now + 5_000));
                created += 1;
                LoopSignal::Sent { delivered: true }
            },
            LoopAction::Poll { millis } => {
                now += millis as i64;
                if let Some((id, end)) = running {
                    if now >= end {
                        assert!(st.finish_job(id, Ok(done_clone(&done))));
                        running = None;
                    }
                }
                LoopSignal::Polled { active: st.has_active_job("tick") }
            },
            LoopAction::Stop => panic!("the loop must not stop"),
        };
        action = lp.step(signal);
    }
    assert_eq!(created, 2);
}

fn done_clone(r: &ExecutionResult) -> ExecutionResult {
    ExecutionResult { success: r.success, stdout: r.stdout.clone(), stderr: r.stderr.clone(), exit_code: r.exit_code }
}

#[test]
fn updated_timer_loop_retires() {
    let mut st = store();
    let (t, _) = st
        .create_timer(&CreateTimerRequest { event_type: "tick".into(), interval_secs: 1, context: String::new() })
        .ok()
        .unwrap();
    let (mut lp, _) = TimerLoop::new(t);
    st.update_timer("tick", &UpdateTimerRequest { interval_secs: None, context: Some("x".into()) }).ok().unwrap();
    let signal = st.timer_wake("tick", 1000, false);
    assert_eq!(lp.step(signal), LoopAction::Stop);
    assert_eq!(lp.phase, LoopPhase::Retired);
    let (t3, _) = st.get_timer("tick").map(|t| (t, ())).unwrap();
    let (mut fresh, _) = TimerLoop::new(t3);
    assert_eq!(fresh.step(st.timer_wake("tick", 1000, false)), LoopAction::Emit);
    assert_eq!(fresh.step(LoopSignal::Sent { delivered: false }), LoopAction::Stop);
    assert_eq!(fresh.phase, LoopPhase::Retired);
}

#[test]
fn periodic_schedule_catches_up_once() {
    let now: i64 = 1_736_951_400_000;
    let start = now - 3 * DAY_MILLIS;
    let mut st = store();
    let req = CreateScheduleRequest { event_type: "daily".into(), scheduled_time: start, context: String::new(), periodic: true };
    let (s, _) = st.create_schedule(&req).ok().unwrap();
    let (mut lp, first) = ScheduleLoop::new(s);
    assert_eq!(first, LoopAction::Sleep { millis: 0 });
    assert_eq!(lp.step(st.schedule_wake("daily", now, false)), LoopAction::Emit);
    assert_eq!(lp.next_time, now + DAY_MILLIS);
    assert_eq!(lp.step(LoopSignal::Sent { delivered: true }), LoopAction::Poll { millis: 100 });
    assert_eq!(lp.step(LoopSignal::Polled { active: false }), LoopAction::Sleep { millis: 0 });
    assert_eq!(
        lp.step(st.schedule_wake("daily", now + 5, false)),
        LoopAction::Sleep { millis: (DAY_MILLIS - 5) as u64 }
    );
    assert_eq!(advance_past(start, now), now + DAY_MILLIS);
    assert_eq!(advance_past(start + 1, now), now + 1);
    assert_eq!(advance_past(start - 1, now), now + DAY_MILLIS - 1);
    assert_eq!(advance_past(now + 10, now), now + 10);
}

#[test]
fn one_shot_schedule_fires_once() {
    let mut st = store();
    let h = st.create_handler(&handler_request("once", "true")).ok().unwrap();
    let req = CreateScheduleRequest { event_type: "once".into(), scheduled_time: 5_000, context: String::new(), periodic: false };
    let (s, _) = st.create_schedule(&req).ok().unwrap();
    let (mut lp, _) = ScheduleLoop::new(s);
    assert_eq!(lp.step(st.schedule_wake("once", 1_000, false)), LoopAction::Sleep { millis: 4_000 });
    let busy = st.create_job(Event::new("once".into(), String::new()), &h);
    assert_eq!(lp.step(st.schedule_wake("once", 5_000, false)), LoopAction::Sleep { millis: 100 });
    assert!(st.cancel_job(busy.id));
    assert_eq!(lp.step(st.schedule_wake("once", 5_100, false)), LoopAction::Emit);
    assert_eq!(lp.step(LoopSignal::Sent { delivered: true }), LoopAction::Stop);
    assert_eq!(lp.phase, LoopPhase::Retired);
}

#[test]
fn event_queue_keeps_order() {
    let rt = tokio::runtime::Builder::new_current_thread().build().unwrap();
    rt.block_on(async {
        let (tx, mut rx) = tokio::sync::mpsc::channel::<Event>(2);
        let producer = tokio::spawn(async move {
            for i in 0..6 {
                tx.send(Event::new(format!("e{}", i), String::new())).await.unwrap();
            }
        });
        let mut seen = vec![];
        while let Some(e) = rx.recv().await {
            seen.push(e.event_type);
        }
        producer.await.unwrap();
        assert_eq!(seen, vec!["e0", "e1", "e2", "e3", "e4", "e5"]);
    });
}

#[test]
fn restoring_stored_rows_keeps_invariant() {
    let mut db = Database::new();
    let h = EventHandler { id: 11, event_type: "a".into(), shell: ShellType::Bash, command: "true".into(), timeout: None, env: vec![] };
    assert!(db.restore_handler(h));
    let dup = EventHandler { id: 12, event_type: "a".into(), shell: ShellType::Sh, command: "false".into(), timeout: None, env: vec![] };
    assert!(!db.restore_handler(dup));
    assert_eq!(db.get_handler_id("a"), Some(11));
    assert!(!db.restore_timer(TimerRecord { id: 1, event_type: "t".into(), context: String::new(), interval_secs: 0 }));
    assert!(db.restore_timer(TimerRecord { id: 2, event_type: "t".into(), context: String::new(), interval_secs: 9 }));
    assert!(!db.restore_timer(TimerRecord { id: 3, event_type: "t".into(), context: String::new(), interval_secs: 9 }));
    assert_eq!(db.get_timer_id("t"), Some(2));
    assert!(db.restore_schedule(ScheduleRecord { id: 4, event_type: "s".into(), context: String::new(), scheduled_time: 0, periodic: false }));
    assert!(!db.restore_schedule(ScheduleRecord { id: 5, event_type: "s".into(), context: String::new(), scheduled_time: 0, periodic: true }));
    let good = Job::new(Event::new("a".into(), String::new()), 11);
    assert!(job_consistent(&good));
    let mut odd = Job::new(Event::new("a".into(), String::new()), 11);
    odd.status = JobStatus::Completed;
    assert!(!job_consistent(&odd));
    assert!(!db.restore_job(odd));
    let id = good.id;
    assert!(db.restore_job(good));
    assert_eq!(db.get_job(id).map(|j| j.status), Some(JobStatus::Pending));
}

#[test]
fn job_queries_by_status() {
    let mut st = store();
    let h = st.create_handler(&handler_request("q", "true")).ok().unwrap();
    let a = st.create_job(Event::new("q".into(), String::new()), &h);
    let b = st.create_job(Event::new("q".into(), String::new()), &h);
    assert!(st.mark_running(a.id));
    assert!(st.mark_completed(a.id, "out".into()));
    assert_eq!(st.get_completed_jobs().iter().map(|j| j.id).collect::<Vec<_>>(), vec![a.id]);
    assert_eq!(st.get_jobs_by_status(JobStatus::Pending).iter().map(|j| j.id).collect::<Vec<_>>(), vec![b.id]);
    assert_eq!(st.get_all_jobs().iter().map(|j| j.id).collect::<Vec<_>>(), vec![b.id, a.id]);
    assert_eq!(st.get_timer_id("q"), None);
    let s = st.status(false);
    assert_eq!((s.total_jobs, s.pending_jobs, s.completed_jobs, s.running_jobs), (2, 1, 1, 0));
}

#[test]
fn error_messages_name_the_event_type() {
    let mut db = Database::new();
    match db.update_handler("ghost", None, None, None, None) {
        Err(ShevError::NotFound(m)) => assert_eq!(m, "Handler 'ghost' not found"),
        _ => panic!("expected NotFound"),
    }
    match db.update_timer("ghost", None, None) {
        Err(ShevError::NotFound(m)) => assert_eq!(m, "Timer 'ghost' not found"),
        _ => panic!("expected NotFound"),
    }
    let mut st = store();
    let bad = UpdateConfigRequest { port: Some("70000".into()), queue_size: None };
    match st.update_config(&bad) {
        Err(ShevError::InvalidInput(m)) => assert_eq!(m, "Invalid port: 70000"),
        _ => panic!("expected InvalidInput"),
    }
}

#[test]
fn restore_refuses_a_used_id() {
    let mut db = Database::new();
    assert!(db.restore_timer(TimerRecord { id: 7, event_type: "a".into(), context: String::new(), interval_secs: 1 }));
    assert!(!db.restore_timer(TimerRecord { id: 7, event_type: "b".into(), context: String::new(), interval_secs: 1 }));
    let t = db.update_timer("a", Some(2), None).ok().unwrap();
    assert_ne!(t.id, 7);
}

#[test]
fn catalog_lists_in_event_type_order() {
    let mut db = Database::new();
    for et in ["delta", "alpha", "charlie", "bravo"] {
        db.insert_handler(et, ShellType::Sh, "true", None, vec![]).ok().unwrap();
        db.insert_timer(et, 5, "").ok().unwrap();
        db.insert_schedule(et, 0, "", false).ok().unwrap();
    }
    let expected = vec!["alpha", "bravo", "charlie", "delta"];
    assert_eq!(db.get_all_handlers().iter().map(|h| h.event_type.as_str()).collect::<Vec<_>>(), expected);
    assert_eq!(db.get_all_timers().iter().map(|t| t.event_type.as_str()).collect::<Vec<_>>(), expected);
    assert_eq!(db.get_all_schedules().iter().map(|s| s.event_type.as_str()).collect::<Vec<_>>(), expected);
    assert!(db.delete_timer("bravo"));
    assert_eq!(db.get_all_timers().iter().map(|t| t.event_type.as_str()).collect::<Vec<_>>(), vec!["alpha", "charlie", "delta"]);
    assert!(shev::text::text_lt("ab", "b"));
    assert!(shev::text::text_lt("a", "ab"));
    assert!(!shev::text::text_lt("b", "ab"));
    assert!(!shev::text::text_lt("same", "same"));
}

#[test]
fn jobs_listed_newest_event_first() {
    let mut db = Database::new();
    let mut ids = vec![];
    for ts in [30i64, 10, 20] {
        let mut event = Event::new("e".into(), String::new());
        event.timestamp = ts;
        let job = Job::new(event, 1);
        ids.push((ts, job.id));
        assert!(db.insert_job(&job).is_ok());
    }
    let listed: Vec<i64> = db.get_all_jobs(None, 10).iter().map(|j| j.event.timestamp).collect();
    assert_eq!(listed, vec![30, 20, 10]);
    let two: Vec<i64> = db.get_all_jobs(None, 2).iter().map(|j| j.event.timestamp).collect();
    assert_eq!(two, vec![30, 20]);
}
