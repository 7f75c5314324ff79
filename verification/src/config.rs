//! The shield's configuration and its defaults.

use vstd::prelude::*;

verus! {

broadcast use vstd::string::group_string_axioms;

/// Which protections run, and the lists they go by.
pub struct ShieldConfig {
    /// Enable memory protection
    pub memory_protection: bool,
    /// Enable file monitoring
    pub file_monitoring: bool,
    /// Enable process monitoring
    pub process_monitoring: bool,
    /// Enable token encryption in vault
    pub token_vault: bool,
    /// Block known token grabber processes
    pub block_grabbers: bool,
    /// Alert on suspicious activity
    pub alerts_enabled: bool,
    /// Custom protected paths
    pub protected_paths: Vec<String>,
    /// Whitelist process names
    pub whitelisted_processes: Vec<String>,
    /// Known token grabber signatures
    pub grabber_signatures: Vec<String>,
}

/// The texts of a list of strings.
pub open spec fn texts(v: Vec<String>) -> Seq<Seq<char>> {
    v@.map_values(|s: String| s@)
}

/// A configuration as values: its switches and the texts of its lists.
pub struct ConfigView {
    pub memory_protection: bool,
    pub file_monitoring: bool,
    pub process_monitoring: bool,
    pub token_vault: bool,
    pub block_grabbers: bool,
    pub alerts_enabled: bool,
    pub protected_paths: Seq<Seq<char>>,
    pub whitelisted_processes: Seq<Seq<char>>,
    pub grabber_signatures: Seq<Seq<char>>,
}

impl View for ShieldConfig {
    type V = ConfigView;

    open spec fn view(&self) -> ConfigView {
        ConfigView {
            memory_protection: self.memory_protection,
            file_monitoring: self.file_monitoring,
            process_monitoring: self.process_monitoring,
            token_vault: self.token_vault,
            block_grabbers: self.block_grabbers,
            alerts_enabled: self.alerts_enabled,
            protected_paths: texts(self.protected_paths),
            whitelisted_processes: texts(self.whitelisted_processes),
            grabber_signatures: texts(self.grabber_signatures),
        }
    }
}

/// The process names that are never treated as threats by default.
pub open spec fn default_whitelist() -> Seq<Seq<char>> {
    seq!["Discord.exe"@, "DiscordCanary.exe"@, "DiscordPTB.exe"@, "discord"@]
}

/// The pieces of a process name or command line that mark a token grabber
/// by default.
pub open spec fn default_signatures() -> Seq<Seq<char>> {
    seq!["token"@, "grabber"@, "stealer"@, "logger"@, "webhook"@, "exfil"@]
}

/// The default configuration: every protection on, no protected paths, the
/// chat client's own processes whitelisted, the usual grabber signatures.
pub open spec fn is_default_config(c: ConfigView) -> bool {
    &&& c.memory_protection
    &&& c.file_monitoring
    &&& c.process_monitoring
    &&& c.token_vault
    &&& c.block_grabbers
    &&& c.alerts_enabled
    &&& c.protected_paths.len() == 0
    &&& c.whitelisted_processes == default_whitelist()
    &&& c.grabber_signatures == default_signatures()
}

/// A copy of a list of strings with the same texts.
fn copy_strings(v: &Vec<String>) -> (r: Vec<String>)
    ensures
        r@ == v@,
{
    let mut out: Vec<String> = Vec::new();
    let mut i: usize = 0;
    while i < v.len()
        invariant
            i <= v.len(),
            out@ == v@.take(i as int),
        decreases v.len() - i,
    {
        out.push(v[i].clone());
        i = i + 1;
        assert(out@ =~= v@.take(i as int));
    }
    assert(v@.take(v@.len() as int) =~= v@);
    out
}

impl ShieldConfig {
    /// A copy of this configuration.
    pub fn duplicate(&self) -> (c: ShieldConfig)
        ensures
            c@ == self@,
    {
        let c = ShieldConfig {
            memory_protection: self.memory_protection,
            file_monitoring: self.file_monitoring,
            process_monitoring: self.process_monitoring,
            token_vault: self.token_vault,
            block_grabbers: self.block_grabbers,
            alerts_enabled: self.alerts_enabled,
            protected_paths: copy_strings(&self.protected_paths),
            whitelisted_processes: copy_strings(&self.whitelisted_processes),
            grabber_signatures: copy_strings(&self.grabber_signatures),
        };
        assert(c@ =~= self@);
        c
    }

    /// The configuration that was loaded, or the default one where none could
    /// be read or parsed.
    pub fn loaded_or_default(loaded: Option<ShieldConfig>) -> (c: ShieldConfig)
        ensures
            match loaded {
                Some(l) => c == l,
                None => is_default_config(c@),
            },
    {
        match loaded {
            Some(l) => l,
            None => ShieldConfig::default(),
        }
    }
}

impl Default for ShieldConfig {
    fn default() -> (c: ShieldConfig)
        ensures
            is_default_config(c@),
    {
        let whitelisted_processes = vec![
            "Discord.exe".to_owned(),
            "DiscordCanary.exe".to_owned(),
            "DiscordPTB.exe".to_owned(),
            "discord".to_owned(),
        ];
        let grabber_signatures = vec![
            "token".to_owned(),
            "grabber".to_owned(),
            "stealer".to_owned(),
            "logger".to_owned(),
            "webhook".to_owned(),
            "exfil".to_owned(),
        ];
        assert(texts(whitelisted_processes) =~= default_whitelist());
        assert(texts(grabber_signatures) =~= default_signatures());
        ShieldConfig {
            memory_protection: true,
            file_monitoring: true,
            process_monitoring: true,
            token_vault: true,
            block_grabbers: true,
            alerts_enabled: true,
            protected_paths: Vec::new(),
            whitelisted_processes,
            grabber_signatures,
        }
    }
}

} // verus!
