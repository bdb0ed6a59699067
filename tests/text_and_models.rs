use shev::access::{IpFilter, IpKey};
use shev::api::{parse_shell, parse_status};
use shev::clock::parse_time;
use shev::consumer::{failure_message, timeout_message, ConsumerControl};
use shev::error::ShevError;
use shev::ids::{is_v4_value, new_id, unused_id};
use shev::models::{ExecutionResult, Job, JobStatus, ShellType, Warning, WarningKind, Event};
use shev::text::{parse_env_assignment, parse_unsigned, push_decimal, same_text, signed_to_decimal, truncate};

#[test]
fn decimal_text_of_numbers() {
    let mut s = String::from("n=");
    push_decimal(&mut s, 0);
    assert_eq!(s, "n=0");
    let mut t = String::new();
    push_decimal(&mut t, 1_234_567);
    assert_eq!(t, "1234567");
    assert_eq!(signed_to_decimal(-42), "-42");
    assert_eq!(signed_to_decimal(i64::MIN), "-9223372036854775808");
    assert_eq!(signed_to_decimal(7), "7");
}

#[test]
fn unsigned_parsing() {
    assert_eq!(parse_unsigned("3000", 65535), Some(3000));
    assert_eq!(parse_unsigned("+42", 65535), Some(42));
    assert_eq!(parse_unsigned("0007", 65535), Some(7));
    assert_eq!(parse_unsigned("65535", 65535), Some(65535));
    assert_eq!(parse_unsigned("65536", 65535), None);
    assert_eq!(parse_unsigned("", 65535), None);
    assert_eq!(parse_unsigned("+", 65535), None);
    assert_eq!(parse_unsigned("12a", 65535), None);
    assert_eq!(parse_unsigned("-1", 65535), None);
    assert_eq!(parse_unsigned("18446744073709551615", u64::MAX), Some(u64::MAX));
    assert_eq!(parse_unsigned("18446744073709551616", u64::MAX), None);
}

#[test]
fn truncate_marks_cut() {
    assert_eq!(truncate("short", 15), "short");
    assert_eq!(truncate("exactly-fifteen", 15), "exactly-fifteen");
    assert_eq!(truncate("a-very-long-event-type", 15), "a-very-long-...");
}

#[test]
fn env_assignment_split() {
    assert_eq!(parse_env_assignment("KEY=VALUE"), Some(("KEY".to_string(), "VALUE".to_string())));
    assert_eq!(parse_env_assignment("A=b=c"), Some(("A".to_string(), "b=c".to_string())));
    assert_eq!(parse_env_assignment("EMPTY="), Some(("EMPTY".to_string(), String::new())));
    assert_eq!(parse_env_assignment("novalue"), None);
    assert!(same_text("abc", "abc"));
    assert!(!same_text("abc", "abd"));
}

#[test]
fn ids_are_v4_and_fresh() {
    let a = new_id();
    assert!(is_v4_value(a));
    let b = unused_id(&vec![a]);
    assert!(is_v4_value(b));
    assert_ne!(a, b);
    let taken: Vec<u128> = (0..50).map(|_| new_id()).collect();
    let c = unused_id(&taken);
    assert!(is_v4_value(c));
    assert!(!taken.contains(&c));
    let u = uuid::Uuid::from_u128(a);
    assert_eq!(u.get_version_num(), 4);
}

#[test]
fn shell_names() {
    assert_eq!(ShellType::Pwsh.as_str(), "pwsh");
    assert_eq!(ShellType::Bash.as_str(), "bash");
    assert_eq!(ShellType::Sh.as_str(), "sh");
    assert_eq!(ShellType::from_str("BASH"), Some(ShellType::Bash));
    assert_eq!(ShellType::from_str("PowerShell"), Some(ShellType::Pwsh));
    assert_eq!(ShellType::from_str("sh"), Some(ShellType::Sh));
    assert_eq!(ShellType::from_str("zsh"), None);
    assert_eq!(ShellType::from_str(""), None);
    assert!(matches!(parse_shell("fish"), Err(ShevError::InvalidInput(_))));
    assert_eq!(parse_shell("Sh").ok(), Some(ShellType::Sh));
}

#[test]
fn shell_command_args() {
    let (prog, args) = ShellType::Pwsh.command_args("Get-Date");
    assert_eq!(prog, "pwsh");
    assert_eq!(args, vec!["-Command", "Get-Date"]);
    let (prog, args) = ShellType::Bash.command_args("echo hi");
    assert_eq!(prog, "bash");
    assert_eq!(args, vec!["-c", "echo hi"]);
    let (prog, args) = ShellType::Sh.command_args("ls");
    assert_eq!(prog, "sh");
    assert_eq!(args, vec!["-c", "ls"]);
}

#[test]
fn status_names() {
    let all = [
        (JobStatus::Pending, "pending"),
        (JobStatus::Running, "running"),
        (JobStatus::Completed, "completed"),
        (JobStatus::Failed, "failed"),
        (JobStatus::Cancelled, "cancelled"),
    ];
    for (st, name) in all {
        assert_eq!(st.as_str(), name);
        assert_eq!(JobStatus::from_str(name), Some(st));
        assert_eq!(JobStatus::from_str(&name.to_uppercase()), Some(st));
    }
    assert_eq!(JobStatus::from_str("done"), None);
    assert!(JobStatus::Pending.is_active());
    assert!(JobStatus::Running.is_active());
    assert!(!JobStatus::Failed.is_active());
    assert!(matches!(parse_status("bogus"), Err(ShevError::InvalidInput(_))));
}

#[test]
fn new_job_is_pending() {
    let event = Event::new("echo".to_string(), "ctx".to_string());
    assert!(event.timestamp > 0);
    let job = Job::new(event.clone(), 77);
    assert_eq!(job.status, JobStatus::Pending);
    assert_eq!(job.handler_id, 77);
    assert_eq!(job.event.event_type, "echo");
    assert_eq!(job.event.context, "ctx");
    assert!(job.output.is_none() && job.error.is_none());
    assert!(job.started_at.is_none() && job.finished_at.is_none());
}

#[test]
fn missing_handler_warning_text() {
    let w = Warning::missing_handler("e", "Timer");
    assert_eq!(w.kind, WarningKind::MissingHandler);
    assert_eq!(w.event_type, "e");
    assert_eq!(w.message, "Timer 'e' has no handler - events will be skipped");
}

#[test]
fn failure_messages() {
    let with_stderr = ExecutionResult {
        success: false,
        stdout: String::new(),
        stderr: "boom\n".to_string(),
        exit_code: Some(2),
    };
    assert_eq!(failure_message(&with_stderr), "boom\n");
    let silent = ExecutionResult { success: false, stdout: String::new(), stderr: String::new(), exit_code: Some(3) };
    assert_eq!(failure_message(&silent), "Exit code: 3");
    let negative = ExecutionResult { success: false, stdout: String::new(), stderr: String::new(), exit_code: Some(-1) };
    assert_eq!(failure_message(&negative), "Exit code: -1");
    let signalled = ExecutionResult { success: false, stdout: String::new(), stderr: String::new(), exit_code: None };
    assert_eq!(failure_message(&signalled), "Exit code: unknown");
    assert_eq!(timeout_message(1), "Command timed out after 1 seconds");
    assert!(timeout_message(1).contains("timed out after 1"));
}

#[test]
fn consumer_control_toggles() {
    let mut c = ConsumerControl::new();
    assert!(c.is_running());
    c.stop();
    assert!(!c.is_running());
    c.start();
    assert!(c.is_running());
    assert!(ConsumerControl::default().is_running());
}

#[test]
fn rfc3339_times() {
    assert_eq!(parse_time("2025-01-15T14:30:00Z").ok(), Some(1_736_951_400_000));
    assert_eq!(parse_time("2025-01-15T15:30:00+01:00").ok(), Some(1_736_951_400_000));
    assert_eq!(parse_time("1970-01-01T00:00:00.250Z").ok(), Some(250));
    assert!(matches!(parse_time("yesterday"), Err(ShevError::InvalidInput(_))));
}

#[test]
fn ip_filter_rules() {
    let reader = IpKey { v6: false, bits: 0x0A00_0001 };
    let writer = IpKey { v6: false, bits: 0x0A00_0002 };
    let stranger = IpKey { v6: false, bits: 0x0A00_0003 };
    let open = IpFilter::new(vec![], vec![writer]);
    assert!(open.is_allowed(stranger, false, false));
    assert!(!open.is_allowed(stranger, false, true));
    assert!(open.is_allowed(writer, false, true));
    assert!(open.is_allowed(stranger, true, true));
    let closed = IpFilter::new(vec![reader], vec![writer]);
    assert!(closed.is_allowed(reader, false, false));
    assert!(!closed.is_allowed(reader, false, true));
    assert!(!closed.is_allowed(stranger, false, false));
    assert!(closed.is_allowed(writer, false, false));
}
