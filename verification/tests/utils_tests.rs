use discord_shield::utils::{
    discord_data_locations, discord_leveldb_locations, find_tokens_in_text, find_webhooks_in_text,
    is_suspicious_lowered_name, is_suspicious_process_name, matches_or_none, BaseDir, Platform,
};

const TOKEN: &str = "MTIzNDU2Nzg5MDEyMzQ1Njc4.GhIjKl.abcdefghijklmnopqrstuvwxyz0";

#[test]
fn tokens_are_found_in_order() {
    let mfa = format!("mfa.{}", "a".repeat(84));
    let text = format!("xx\"{}\"yy {} zz", TOKEN, mfa);
    assert_eq!(find_tokens_in_text(&text), vec![TOKEN.to_string(), mfa]);
    assert!(find_tokens_in_text("no tokens here").is_empty());
}

#[test]
fn webhooks_are_found() {
    let text = "post to https://discord.com/api/webhooks/123456/abc-DEF_1 and discordapp.com/api/webhooks/9/x";
    assert_eq!(
        find_webhooks_in_text(text),
        vec![
            "discord.com/api/webhooks/123456/abc-DEF_1".to_string(),
            "discordapp.com/api/webhooks/9/x".to_string()
        ]
    );
}

#[test]
fn process_names() {
    assert!(is_suspicious_process_name("TokenGrabber.exe"));
    assert!(is_suspicious_process_name("MIMIKATZ"));
    assert!(is_suspicious_process_name("c2-agent"));
    assert!(!is_suspicious_process_name("firefox"));
    assert!(!is_suspicious_process_name("Discord.exe"));
}

#[test]
fn leveldb_locations_per_platform() {
    let linux = discord_leveldb_locations(Platform::Linux);
    assert_eq!(linux.len(), 3);
    assert_eq!(linux[0], (BaseDir::Config, "discord/Local Storage/leveldb".to_string()));
    assert_eq!(linux[2], (BaseDir::Config, "discordptb/Local Storage/leveldb".to_string()));
    let windows = discord_leveldb_locations(Platform::Windows);
    assert_eq!(windows.len(), 4);
    assert_eq!(windows[3], (BaseDir::Config, "discord/Local Storage/leveldb".to_string()));
    assert_eq!(discord_leveldb_locations(Platform::MacOs).len(), 2);
    assert!(discord_leveldb_locations(Platform::Other).is_empty());
}

#[test]
fn data_locations() {
    let d = discord_data_locations();
    assert_eq!(d.len(), 6);
    assert_eq!(d[0], (BaseDir::Config, "discord".to_string()));
    assert_eq!(d[5], (BaseDir::DataLocal, "DiscordPTB".to_string()));
}

#[test]
fn lowered_process_names() {
    assert!(is_suspicious_lowered_name("keylogger"));
    assert!(!is_suspicious_lowered_name("KEYLOG"));
    assert!(!is_suspicious_lowered_name("firefox"));
}

#[test]
fn search_results_or_nothing() {
    assert_eq!(matches_or_none(None), Vec::<String>::new());
    let found = vec!["a".to_string(), "b".to_string()];
    assert_eq!(matches_or_none(Some(found.clone())), found);
}
