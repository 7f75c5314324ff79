//! Finding tokens and webhook addresses in text, judging process names, and
//! where the chat client keeps its token database on each platform.

use vstd::prelude::*;
use crate::text::{chars_of, contains_any, contains_any_chars, contains_seq, decimal, lowercase_of, to_lowercase};

verus! {

broadcast use vstd::string::group_string_axioms;

/// The pattern of an authentication token: three dot-separated parts of word
/// characters and dashes (24, 6 and 27 long), or `mfa.` and 84 of them.
pub open spec fn token_pattern() -> Seq<char> {
    "[\\w-]{24}\\.[\\w-]{6}\\.[\\w-]{27}|mfa\\.[\\w-]{84}"@
}

/// The character class of a token's parts: word characters and the dash.
pub open spec fn token_char_class() -> Seq<char> {
    "[\\w-]"@
}

/// A run of exactly `n` characters of the token class, as a pattern.
pub open spec fn token_run(n: nat) -> Seq<char> {
    token_char_class() + "{"@ + decimal(n) + "}"@
}

/// The token pattern is built from runs of the class `[\w-]`, so a dash
/// may stand anywhere a word character may: three runs of 24, 6 and 27
/// joined by literal dots, or the literal `mfa.` followed by a run of 84.
pub proof fn lemma_token_pattern_runs()
    ensures
        token_pattern() == token_run(24) + "\\."@ + token_run(6) + "\\."@ + token_run(27)
            + "|mfa\\."@ + token_run(84),
        token_char_class().contains('-'),
{
    reveal_strlit("[\\w-]{24}\\.[\\w-]{6}\\.[\\w-]{27}|mfa\\.[\\w-]{84}");
    reveal_strlit("[\\w-]");
    reveal_strlit("{");
    reveal_strlit("}");
    reveal_strlit("\\.");
    reveal_strlit("|mfa\\.");
    reveal_with_fuel(decimal, 3);
    assert(decimal(24) =~= seq!['2', '4']);
    assert(decimal(6) =~= seq!['6']);
    assert(decimal(27) =~= seq!['2', '7']);
    assert(decimal(84) =~= seq!['8', '4']);
    assert(token_char_class()[3] == '-');
    assert(token_pattern() =~= token_run(24) + "\\."@ + token_run(6) + "\\."@ + token_run(27)
        + "|mfa\\."@ + token_run(84));
}

/// The pattern of a webhook address.
pub open spec fn webhook_pattern() -> Seq<char> {
    "discord(?:app)?\\.com/api/webhooks/\\d+/[\\w-]+"@
}

/// The name of whether `regex::Regex::new` accepts the pattern.
pub uninterp spec fn regex_compiles(pattern: Seq<char>) -> bool;

/// The name of the texts of the successive non-overlapping matches that
/// `regex::Regex::find_iter` yields for a compiled pattern on a text.
pub uninterp spec fn regex_matches(pattern: Seq<char>, text: Seq<char>) -> Seq<Seq<char>>;

/// Compiles `pattern` with `regex::Regex::new` and collects the text of every
/// match that `find_iter` yields on `text`. `None` where the pattern does not
/// compile. Each match is a piece of `text` (the documentation of `Match`
/// says so); which pieces match is only named.
#[verifier::external_body]
pub fn regex_find_all(pattern: &str, text: &str) -> (res: Option<Vec<String>>)
    ensures
        res is Some <==> regex_compiles(pattern@),
        res matches Some(v) ==> v@.map_values(|m: String| m@) == regex_matches(pattern@, text@),
        res matches Some(v) ==> forall|i: int|
            0 <= i < v@.len() ==> contains_seq(text@, #[trigger] v@[i]@),
{
    regex::Regex::new(pattern).ok().map(
        |re| re.find_iter(text).map(|m| m.as_str().to_string()).collect(),
    )
}

/// What a search with a fixed pattern finds: its matches, or nothing where
/// the pattern does not compile.
pub open spec fn found_by(pattern: Seq<char>, text: Seq<char>) -> Seq<Seq<char>> {
    if regex_compiles(pattern) {
        regex_matches(pattern, text)
    } else {
        Seq::empty()
    }
}

/// The matches of a search (`None` where its pattern did not compile): the
/// matches as they are, or none.
pub fn matches_or_none(found: Option<Vec<String>>) -> (matches: Vec<String>)
    ensures
        found matches Some(v) ==> matches@ == v@,
        found is None ==> matches@.len() == 0,
{
    match found {
        Some(v) => v,
        None => Vec::new(),
    }
}

/// Every authentication token in `text`, in order of appearance.
pub fn find_tokens_in_text(text: &str) -> (tokens: Vec<String>)
    ensures
        tokens@.map_values(|t: String| t@) == found_by(token_pattern(), text@),
        forall|i: int| 0 <= i < tokens@.len() ==> contains_seq(text@, #[trigger] tokens@[i]@),
{
    matches_or_none(regex_find_all("[\\w-]{24}\\.[\\w-]{6}\\.[\\w-]{27}|mfa\\.[\\w-]{84}", text))
}

/// Every webhook address in `text`, in order of appearance.
pub fn find_webhooks_in_text(text: &str) -> (hooks: Vec<String>)
    ensures
        hooks@.map_values(|t: String| t@) == found_by(webhook_pattern(), text@),
        forall|i: int| 0 <= i < hooks@.len() ==> contains_seq(text@, #[trigger] hooks@[i]@),
{
    matches_or_none(regex_find_all("discord(?:app)?\\.com/api/webhooks/\\d+/[\\w-]+", text))
}

/// The pieces of a process name that mark a possible token stealer or other
/// malware.
pub open spec fn suspicious_name_patterns() -> Seq<Seq<char>> {
    seq![
        "token"@,
        "grab"@,
        "steal"@,
        "logger"@,
        "rat"@,
        "trojan"@,
        "keylog"@,
        "inject"@,
        "hook"@,
        "dump"@,
        "exfil"@,
        "c2"@,
        "beacon"@,
        "cobalt"@,
        "mimikatz"@,
        "lazagne"@,
    ]
}

/// Whether the lower-cased process name contains one of the suspicious pieces.
pub fn is_suspicious_process_name(name: &str) -> (r: bool)
    ensures
        r == contains_any(lowercase_of(name@), suspicious_name_patterns()),
{
    let lower = to_lowercase(name);
    is_suspicious_lowered_name(lower.as_str())
}

/// Whether an already lower-cased process name contains one of the
/// suspicious pieces.
pub fn is_suspicious_lowered_name(lower: &str) -> (r: bool)
    ensures
        r == contains_any(lower@, suspicious_name_patterns()),
{
    let patterns: Vec<Vec<char>> = vec![
        chars_of("token"),
        chars_of("grab"),
        chars_of("steal"),
        chars_of("logger"),
        chars_of("rat"),
        chars_of("trojan"),
        chars_of("keylog"),
        chars_of("inject"),
        chars_of("hook"),
        chars_of("dump"),
        chars_of("exfil"),
        chars_of("c2"),
        chars_of("beacon"),
        chars_of("cobalt"),
        chars_of("mimikatz"),
        chars_of("lazagne"),
    ];
    assert(patterns@.map_values(|p: Vec<char>| p@) =~= suspicious_name_patterns());
    contains_any_chars(&chars_of(lower), &patterns)
}

/// The operating systems whose storage layout is known.
#[derive(Clone, Copy, Debug, PartialEq, Eq)]
pub enum Platform {
    Windows,
    Linux,
    MacOs,
    Other,
}

/// A per-user base directory of the operating system.
#[derive(Clone, Copy, Debug, PartialEq, Eq)]
pub enum BaseDir {
    /// The configuration directory (`dirs::config_dir`).
    Config,
    /// The local data directory (`dirs::data_local_dir`).
    DataLocal,
    /// The data directory (`dirs::data_dir`).
    Data,
}

/// Where the token database may lie on `platform`: a base directory and a
/// path below it, in the order in which they are looked at.
pub open spec fn leveldb_locations(platform: Platform) -> Seq<(BaseDir, Seq<char>)> {
    match platform {
        Platform::Windows => seq![
            (BaseDir::DataLocal, "Discord/Local Storage/leveldb"@),
            (BaseDir::DataLocal, "DiscordCanary/Local Storage/leveldb"@),
            (BaseDir::DataLocal, "DiscordPTB/Local Storage/leveldb"@),
            (BaseDir::Config, "discord/Local Storage/leveldb"@),
        ],
        Platform::Linux => seq![
            (BaseDir::Config, "discord/Local Storage/leveldb"@),
            (BaseDir::Config, "discordcanary/Local Storage/leveldb"@),
            (BaseDir::Config, "discordptb/Local Storage/leveldb"@),
        ],
        Platform::MacOs => seq![
            (BaseDir::Data, "discord/Local Storage/leveldb"@),
            (BaseDir::Data, "discordcanary/Local Storage/leveldb"@),
        ],
        Platform::Other => Seq::empty(),
    }
}

/// The candidate locations of the token database on `platform`; the caller
/// joins each to its base directory, where that directory is known, and keeps
/// those that exist.
pub fn discord_leveldb_locations(platform: Platform) -> (r: Vec<(BaseDir, String)>)
    ensures
        r@.map_values(|e: (BaseDir, String)| (e.0, e.1@)) == leveldb_locations(platform),
{
    let r = match platform {
        Platform::Windows => vec![
            (BaseDir::DataLocal, "Discord/Local Storage/leveldb".to_owned()),
            (BaseDir::DataLocal, "DiscordCanary/Local Storage/leveldb".to_owned()),
            (BaseDir::DataLocal, "DiscordPTB/Local Storage/leveldb".to_owned()),
            (BaseDir::Config, "discord/Local Storage/leveldb".to_owned()),
        ],
        Platform::Linux => vec![
            (BaseDir::Config, "discord/Local Storage/leveldb".to_owned()),
            (BaseDir::Config, "discordcanary/Local Storage/leveldb".to_owned()),
            (BaseDir::Config, "discordptb/Local Storage/leveldb".to_owned()),
        ],
        Platform::MacOs => vec![
            (BaseDir::Data, "discord/Local Storage/leveldb".to_owned()),
            (BaseDir::Data, "discordcanary/Local Storage/leveldb".to_owned()),
        ],
        Platform::Other => Vec::new(),
    };
    assert(r@.map_values(|e: (BaseDir, String)| (e.0, e.1@)) =~= leveldb_locations(platform));
    r
}

/// The chat client's data directories, whose permissions are tightened.
pub open spec fn data_locations() -> Seq<(BaseDir, Seq<char>)> {
    seq![
        (BaseDir::Config, "discord"@),
        (BaseDir::Config, "discordcanary"@),
        (BaseDir::Config, "discordptb"@),
        (BaseDir::DataLocal, "Discord"@),
        (BaseDir::DataLocal, "DiscordCanary"@),
        (BaseDir::DataLocal, "DiscordPTB"@),
    ]
}

/// The chat client's data directories, each as a base directory and a name
/// below it.
pub fn discord_data_locations() -> (r: Vec<(BaseDir, String)>)
    ensures
        r@.map_values(|e: (BaseDir, String)| (e.0, e.1@)) == data_locations(),
{
    let r = vec![
        (BaseDir::Config, "discord".to_owned()),
        (BaseDir::Config, "discordcanary".to_owned()),
        (BaseDir::Config, "discordptb".to_owned()),
        (BaseDir::DataLocal, "Discord".to_owned()),
        (BaseDir::DataLocal, "DiscordCanary".to_owned()),
        (BaseDir::DataLocal, "DiscordPTB".to_owned()),
    ];
    assert(r@.map_values(|e: (BaseDir, String)| (e.0, e.1@)) =~= data_locations());
    r
}

} // verus!
