use discord_shield::config::ShieldConfig;
use discord_shield::memory_guard::{is_memory_scanner_lowered, GuardActivation, MemoryGuard, MemoryThreat};

#[test]
fn default_config_values() {
    let c = ShieldConfig::default();
    assert!(c.memory_protection && c.file_monitoring && c.process_monitoring);
    assert!(c.token_vault && c.block_grabbers && c.alerts_enabled);
    assert!(c.protected_paths.is_empty());
    assert_eq!(c.whitelisted_processes, vec!["Discord.exe", "DiscordCanary.exe", "DiscordPTB.exe", "discord"]);
    assert_eq!(c.grabber_signatures, vec!["token", "grabber", "stealer", "logger", "webhook", "exfil"]);
}

#[test]
fn loaded_config_wins_over_default() {
    let mut c = ShieldConfig::default();
    c.memory_protection = false;
    let l = ShieldConfig::loaded_or_default(Some(c));
    assert!(!l.memory_protection);
    let d = ShieldConfig::loaded_or_default(None);
    assert!(d.memory_protection);
    let dup = l.duplicate();
    assert_eq!(dup.grabber_signatures, l.grabber_signatures);
}

#[test]
fn memory_guard_activation() {
    let mut g = MemoryGuard::new(&ShieldConfig::default());
    assert!(!g.is_active());
    assert_eq!(g.activate(), GuardActivation::Activated);
    assert!(g.is_active());
    let mut off = ShieldConfig::default();
    off.memory_protection = false;
    let mut g = MemoryGuard::new(&off);
    assert_eq!(g.activate(), GuardActivation::Disabled);
    assert!(!g.is_active());
}

#[test]
fn memory_threats_from_status() {
    let g = MemoryGuard::new(&ShieldConfig::default());
    let none: Vec<String> = vec![];
    assert_eq!(g.scan_for_memory_threats(Some("TracerPid:\t77\n"), &none), vec![MemoryThreat::DebuggerDetected]);
    assert!(g.scan_for_memory_threats(Some("TracerPid:\t0\nTracerPid:\t5\n"), &none).is_empty());
    assert!(g.scan_for_memory_threats(None, &none).is_empty());
    assert!(!g.detect_memory_scanners(&none));
    assert!(g.is_debugger_present(Some("Name:\tx\nTracerPid:\t1\n")));
}

#[test]
fn memory_scanners_among_processes() {
    let g = MemoryGuard::new(&ShieldConfig::default());
    let plain = vec!["bash".to_string(), "firefox".to_string()];
    assert!(!g.detect_memory_scanners(&plain));
    let with_scanner = vec!["bash".to_string(), "CheatEngine-x86_64".to_string()];
    assert!(g.detect_memory_scanners(&with_scanner));
    assert!(g.detect_memory_scanners(&vec!["ghidraRun".to_string()]));
    assert_eq!(
        g.scan_for_memory_threats(Some("TracerPid:\t9\n"), &with_scanner),
        vec![MemoryThreat::DebuggerDetected, MemoryThreat::MemoryScannerDetected]
    );
    assert_eq!(
        g.scan_for_memory_threats(None, &vec!["x64dbg.exe".to_string()]),
        vec![MemoryThreat::MemoryScannerDetected]
    );
}

#[test]
fn memory_scanner_names_lowered() {
    assert!(is_memory_scanner_lowered("processhacker.exe"));
    assert!(is_memory_scanner_lowered("r2 radare2"));
    assert!(!is_memory_scanner_lowered("ProcessHacker"));
    assert!(!is_memory_scanner_lowered("vim"));
}
