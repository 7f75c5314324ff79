use discord_shield::linux_hooks::{
    check_ptrace_status, fd_link_accesses, first_tracer_pid_in, ld_preload_suspicious, parse_pid,
    seccomp_status_line, setup_protection, stealer_entry_lowered, suspicious_cmdline_entry,
    tracing_pid,
};

const STATUS_FREE: &str = "Name:\tdiscord-shield\nState:\tS (sleeping)\nTracerPid:\t0\nSeccomp:\t0\n";
const STATUS_TRACED: &str = "Name:\tdiscord-shield\nTracerPid:\t4242\nSeccomp:\t2\nSeccomp_filters:\t1\n";

#[test]
fn test_ptrace_check() {
    // Should return false when not being traced
    let result = check_ptrace_status(STATUS_FREE);
    assert!(!result);
}

#[test]
fn test_ld_preload_check() {
    assert!(!ld_preload_suspicious(None));
}

#[test]
fn ld_preload_set_is_suspicious() {
    assert!(ld_preload_suspicious(Some("/tmp/evil.so")));
    assert!(!ld_preload_suspicious(Some("")));
}

#[test]
fn traced_status_is_detected() {
    assert!(check_ptrace_status(STATUS_TRACED));
    assert_eq!(first_tracer_pid_in(STATUS_TRACED), Some(4242));
    assert_eq!(first_tracer_pid_in(STATUS_FREE), Some(0));
    assert_eq!(first_tracer_pid_in("Name:\tx\n"), None);
}

#[test]
fn any_tracer_line_counts_for_ptrace_check() {
    let status = "TracerPid:\t0\nTracerPid:\t17\n";
    assert!(check_ptrace_status(status));
    assert_eq!(first_tracer_pid_in(status), Some(0));
}

#[test]
fn unparsable_tracer_counts_as_zero() {
    assert!(!check_ptrace_status("TracerPid:\tabc\n"));
    assert!(!check_ptrace_status("TracerPid:\n"));
    assert_eq!(first_tracer_pid_in("TracerPid:\tabc\n"), Some(0));
}

#[test]
fn seccomp_line_is_found() {
    assert_eq!(seccomp_status_line(STATUS_TRACED), Some("Seccomp:\t2".to_string()));
    assert_eq!(seccomp_status_line("Name:\tx\n"), None);
}

#[test]
fn setup_protection_reports_all_checks() {
    let r = setup_protection(Some(STATUS_TRACED), Some("libhook.so"));
    assert!(r.traced);
    assert!(r.ld_preload_suspicious);
    assert_eq!(r.seccomp, Some("Seccomp:\t2".to_string()));
    let r = setup_protection(None, None);
    assert!(!r.traced);
    assert!(!r.ld_preload_suspicious);
    assert_eq!(r.seccomp, None);
}

#[test]
fn suspicious_cmdline_is_reported() {
    assert_eq!(
        suspicious_cmdline_entry(42, "python3\0Token_Grab.py\0"),
        Some("PID 42: python3 Token_Grab.py ".to_string())
    );
    assert_eq!(suspicious_cmdline_entry(7, "/usr/bin/vim\0notes.txt"), None);
}

#[test]
fn fd_accesses_name_each_matching_path() {
    let paths = vec!["discord/Local Storage".to_string(), "leveldb".to_string(), "Cookies".to_string()];
    let link = "/home/u/.config/discord/Local Storage/leveldb/000003.log";
    assert_eq!(
        fd_link_accesses(1, 99, link, &paths),
        vec![(99, link.to_string()), (99, link.to_string())]
    );
    assert_eq!(fd_link_accesses(99, 99, link, &paths), vec![]);
    assert_eq!(fd_link_accesses(1, 99, "/dev/null", &paths), vec![]);
}

#[test]
fn pids_parse_like_std() {
    assert_eq!(parse_pid("1234"), Some(1234));
    assert_eq!(parse_pid("self"), None);
    assert_eq!(parse_pid(""), None);
}

#[test]
fn tracing_pid_names_the_first_tracer() {
    assert_eq!(tracing_pid(STATUS_TRACED), Some(4242));
    assert_eq!(tracing_pid(STATUS_FREE), None);
    assert_eq!(tracing_pid("TracerPid:\t0\nTracerPid:\t17\nTracerPid:\t18\n"), Some(17));
    assert_eq!(tracing_pid("TracerPid:\tabc\n"), None);
}

#[test]
fn stealer_entry_from_lowered_cmdline() {
    assert_eq!(
        stealer_entry_lowered(5, "Run\0HARVEST", "run\0harvest"),
        Some("PID 5: Run HARVEST".to_string())
    );
    assert_eq!(stealer_entry_lowered(5, "Run\0HARVEST", "Run\0HARVEST"), None);
    assert_eq!(stealer_entry_lowered(6, "vim", "vim"), None);
}
