use discord_shield::config::ShieldConfig;
use discord_shield::crypto::deobfuscate_token;
use discord_shield::shield::{ActivationStep, ShieldActivation};
use discord_shield::token_vault::{
    extract_tokens, is_token_store_extension, TokenStore, TokenVault, VaultError,
};

const T1: &str = "MTIzNDU2Nzg5MDEyMzQ1Njc4.GhIjKl.abcdefghijklmnopqrstuvwxyz0";
const T2: &str = "ATIzNDU2Nzg5MDEyMzQ1Njc4.GhIjKl.abcdefghijklmnopqrstuvwxyz0";

#[test]
fn extracted_tokens_are_sorted_and_unique() {
    let texts = vec![format!("{} junk {}", T1, T2), format!("again {}", T1), "nothing".to_string()];
    assert_eq!(extract_tokens(&texts), vec![T2.to_string(), T1.to_string()]);
    assert!(extract_tokens(&vec![]).is_empty());
}

#[test]
fn gathered_tokens_keep_directory_order() {
    let dirs = vec![vec![T1.to_string()], vec![format!("{} {}", T2, T1)]];
    assert_eq!(
        TokenVault::gather_tokens(&dirs),
        vec![T1.to_string(), T2.to_string(), T1.to_string()]
    );
}

#[test]
fn store_extensions() {
    assert!(is_token_store_extension("ldb"));
    assert!(is_token_store_extension("log"));
    assert!(!is_token_store_extension("LOG"));
    assert!(!is_token_store_extension("txt"));
}

#[test]
fn machine_id_format() {
    assert_eq!(TokenVault::get_machine_id(Some("box"), "alice"), "nullsec_box_alice");
    assert_eq!(TokenVault::get_machine_id(None, "bob"), "nullsec_unknown_bob");
}

#[test]
fn store_insert_replaces() {
    let mut s = TokenStore::new();
    s.insert("a".to_string(), vec![1]);
    s.insert("b".to_string(), vec![2]);
    s.insert("a".to_string(), vec![3]);
    assert_eq!(s.len(), 2);
    assert_eq!(s.get("a"), Some(&vec![3]));
    assert_eq!(s.get("b"), Some(&vec![2]));
    assert_eq!(s.get("c"), None);
}

#[test]
fn secured_tokens_survive_save_and_load() {
    let config = ShieldConfig::default();
    let mut v = TokenVault::new(&config, "nullsec_box_alice", "/tmp/vault.enc".to_string());
    assert_eq!(v.vault_path(), "/tmp/vault.enc");
    let found = vec![T1.to_string(), T2.to_string()];
    let bytes = v.secure_tokens(&found).unwrap().unwrap();
    assert_eq!(deobfuscate_token(v.token("token_0").unwrap()), Some(T1.to_string()));
    assert_eq!(deobfuscate_token(v.token("token_1").unwrap()), Some(T2.to_string()));

    let mut w = TokenVault::new(&config, "nullsec_box_alice", "/tmp/vault.enc".to_string());
    assert_eq!(w.load_vault(&bytes), Ok(()));
    assert_eq!(deobfuscate_token(w.token("token_1").unwrap()), Some(T2.to_string()));
    assert_eq!(w.token("token_0"), v.token("token_0"));

    let mut other = TokenVault::new(&config, "nullsec_other_bob", "/tmp/vault.enc".to_string());
    assert!(other.load_vault(&bytes).is_err());
    assert_eq!(other.token("token_0"), None);
}

#[test]
fn nothing_found_nothing_saved() {
    let mut v = TokenVault::new(&ShieldConfig::default(), "id", "p".to_string());
    assert_eq!(v.secure_tokens(&vec![]), Ok(None));
    assert_eq!(v.token("token_0"), None);
}

#[test]
fn vault_switched_off_keeps_nothing() {
    let mut config = ShieldConfig::default();
    config.token_vault = false;
    let mut v = TokenVault::new(&config, "id", "p".to_string());
    assert_eq!(v.secure_tokens(&vec![T1.to_string()]), Ok(None));
    assert_eq!(v.token("token_0"), None);
}

#[test]
fn saved_vault_is_nonce_json_and_tag() {
    let mut v = TokenVault::new(&ShieldConfig::default(), "id", "p".to_string());
    v.secure_tokens(&vec![T1.to_string()]).unwrap();
    let bytes = v.save_vault().unwrap();
    assert!(bytes.len() > 12 + 16);
    let c = discord_shield::crypto::TokenCrypto::new("id");
    let json = c.decrypt(&bytes).unwrap();
    assert_eq!(bytes.len(), 12 + json.len() + 16);
    assert_eq!(json[0], b'{');
}

#[test]
fn loading_garbage_fails_and_keeps_tokens() {
    let mut v = TokenVault::new(&ShieldConfig::default(), "id", "p".to_string());
    v.secure_tokens(&vec![T1.to_string()]).unwrap();
    assert!(matches!(v.load_vault(&[1, 2]), Err(VaultError::Crypto(_))));
    assert!(v.token("token_0").is_some());
    let not_json = {
        let c = discord_shield::crypto::TokenCrypto::new("id");
        c.encrypt(b"not json").unwrap()
    };
    assert_eq!(v.load_vault(&not_json), Err(VaultError::Serialization));
    assert!(v.token("token_0").is_some());
}

#[test]
fn activation_runs_steps_in_order() {
    let mut a = ShieldActivation::new();
    let mut seen = Vec::new();
    while let Some(step) = a.next_step() {
        seen.push(step);
        a.record(true);
    }
    assert_eq!(
        seen,
        vec![
            ActivationStep::SecureTokens,
            ActivationStep::MemoryProtection,
            ActivationStep::FileMonitoring,
            ActivationStep::ProcessMonitoring,
            ActivationStep::Hardening
        ]
    );
    assert!(a.is_active());
}

#[test]
fn activation_stops_at_failure() {
    let mut a = ShieldActivation::new();
    a.record(true);
    assert_eq!(a.next_step(), Some(ActivationStep::MemoryProtection));
    a.record(false);
    assert_eq!(a.next_step(), None);
    a.record(true);
    assert!(!a.is_active());
}
