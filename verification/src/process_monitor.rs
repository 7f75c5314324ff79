//! Judging running processes: which look like token grabbers, and which of
//! those are to be stopped. Listing processes and stopping them is left to
//! the caller.

use vstd::prelude::*;
use vstd::utf8::is_ascii_chars;
use std::collections::HashSet;
use crate::config::{ConfigView, ShieldConfig};
use crate::text::{
    ascii_lower, ascii_upper, chars_of, contains_any, contains_chars, contains_seq, lemma_ascii_case,
    lowercase_of, replace_char, replace_char_exec, string_from_chars, to_lowercase, trim_chars,
    trim_seq,
};
use crate::utils::{regex_compiles, regex_find_all, regex_matches};

verus! {

broadcast use {vstd::string::group_string_axioms, vstd::std_specs::hash::group_hash_axioms};

/// The patterns of a command line that reads the chat client's token store
/// or posts to a webhook.
pub open spec fn cmdline_patterns() -> Seq<Seq<char>> {
    seq![
        "discord.*token"@,
        "leveldb"@,
        "local.storage"@,
        "webhook.*discord"@,
        "base64.*token"@,
    ]
}

/// A pattern of `patterns` compiles and matches somewhere in `text`.
pub open spec fn some_pattern_matches(patterns: Seq<Seq<char>>, text: Seq<char>) -> bool {
    exists|k: int|
        0 <= k < patterns.len() && regex_compiles(#[trigger] patterns[k]) && regex_matches(
            patterns[k],
            text,
        ).len() > 0
}

/// A script interpreter that touches the chat client's tokens or database.
pub open spec fn script_reads_tokens(name_lower: Seq<char>, cmdline_lower: Seq<char>) -> bool {
    &&& (contains_seq(name_lower, "python"@) || contains_seq(name_lower, "node"@))
    &&& contains_seq(cmdline_lower, "discord"@)
    &&& (contains_seq(cmdline_lower, "token"@) || contains_seq(cmdline_lower, "leveldb"@))
}

/// A process with the lower-cased name `nl` and command line `cl` looks like
/// a token grabber: either holds a grabber signature, a suspicious pattern
/// matches the command line (`pattern_hit`), or it is a script interpreter
/// that reads the chat client's tokens.
pub open spec fn suspicious_lowered(
    nl: Seq<char>,
    cl: Seq<char>,
    pattern_hit: bool,
    signatures: Seq<Seq<char>>,
) -> bool {
    ||| contains_any(nl, signatures)
    ||| contains_any(cl, signatures)
    ||| pattern_hit
    ||| script_reads_tokens(nl, cl)
}

/// A process looks like a token grabber, judged on its lower-cased name and
/// command line.
pub open spec fn suspicious_process(name: Seq<char>, cmdline: Seq<char>, signatures: Seq<Seq<char>>) -> bool {
    let cl = lowercase_of(cmdline);
    suspicious_lowered(
        lowercase_of(name),
        cl,
        some_pattern_matches(cmdline_patterns(), cl),
        signatures,
    )
}

/// The same judgement where the name and command line are ASCII, whose
/// lower-casing is written out.
pub open spec fn ascii_suspicious(name: Seq<char>, cmdline: Seq<char>, signatures: Seq<Seq<char>>) -> bool {
    let cl = ascii_lower(cmdline);
    suspicious_lowered(
        ascii_lower(name),
        cl,
        some_pattern_matches(cmdline_patterns(), cl),
        signatures,
    )
}

/// Detection ignores the letter case of an ASCII name and command line:
/// upper-casing them keeps them ASCII and leaves the judgement as it was.
pub proof fn lemma_detection_ignores_ascii_case(
    name: Seq<char>,
    cmdline: Seq<char>,
    signatures: Seq<Seq<char>>,
)
    requires
        is_ascii_chars(name),
        is_ascii_chars(cmdline),
    ensures
        is_ascii_chars(ascii_upper(name)),
        is_ascii_chars(ascii_upper(cmdline)),
        ascii_suspicious(ascii_upper(name), ascii_upper(cmdline), signatures) == ascii_suspicious(
            name,
            cmdline,
            signatures,
        ),
{
    lemma_ascii_case(name);
    lemma_ascii_case(cmdline);
}

/// What the monitor reports of a process.
#[derive(Clone, Copy, Debug, PartialEq, Eq)]
pub enum ThreatKind {
    /// The process looks like a token grabber.
    Detected,
    /// The process is to be stopped and logged.
    Blocked,
}

/// A report of the monitor about one process.
pub struct ThreatAction {
    pub kind: ThreatKind,
    pub pid: u32,
    pub name: String,
}

/// A report as values.
pub open spec fn action_view(a: ThreatAction) -> (ThreatKind, u32, Seq<char>) {
    (a.kind, a.pid, a.name@)
}

/// The reports about one process and the blocked set after it.
pub open spec fn assess_step(
    config: ConfigView,
    blocked: Set<u32>,
    pid: u32,
    name: Seq<char>,
    cmdline: Seq<char>,
) -> (Seq<(ThreatKind, u32, Seq<char>)>, Set<u32>) {
    if contains_any(name, config.whitelisted_processes) {
        (Seq::empty(), blocked)
    } else if suspicious_process(name, cmdline, config.grabber_signatures) {
        if config.block_grabbers && !blocked.contains(pid) {
            (
                seq![(ThreatKind::Detected, pid, name), (ThreatKind::Blocked, pid, name)],
                blocked.insert(pid),
            )
        } else {
            (seq![(ThreatKind::Detected, pid, name)], blocked)
        }
    } else {
        (Seq::empty(), blocked)
    }
}

/// The reports of one scan over `procs` (process id, name, command line), in
/// order, and the blocked set after it.
pub open spec fn scan_outcome(
    config: ConfigView,
    blocked: Set<u32>,
    procs: Seq<(u32, Seq<char>, Seq<char>)>,
) -> (Seq<(ThreatKind, u32, Seq<char>)>, Set<u32>)
    decreases procs.len(),
{
    if procs.len() == 0 {
        (Seq::empty(), blocked)
    } else {
        let (acts, b) = scan_outcome(config, blocked, procs.drop_last());
        let p = procs.last();
        let (more, b2) = assess_step(config, b, p.0, p.1, p.2);
        (acts + more, b2)
    }
}

/// A process listing as values.
pub open spec fn procs_view(procs: Seq<(u32, String, String)>) -> Seq<(u32, Seq<char>, Seq<char>)> {
    procs.map_values(|p: (u32, String, String)| (p.0, p.1@, p.2@))
}

/// Watches the running processes for token grabbers and remembers which it
/// has blocked.
pub struct ProcessMonitor {
    config: ShieldConfig,
    blocked_pids: HashSet<u32>,
}

impl ProcessMonitor {
    /// The configuration the monitor was made with.
    pub closed spec fn config(&self) -> ConfigView {
        self.config@
    }

    /// The processes blocked so far.
    pub closed spec fn blocked(&self) -> Set<u32> {
        self.blocked_pids@
    }

    /// A monitor for `config` that has blocked nothing yet.
    pub fn new(config: &ShieldConfig) -> (m: ProcessMonitor)
        ensures
            m.config() == config@,
            m.blocked() == Set::<u32>::empty(),
    {
        ProcessMonitor { config: config.duplicate(), blocked_pids: HashSet::new() }
    }

    /// Whether the monitor is to run at all.
    pub fn monitoring_enabled(&self) -> (r: bool)
        ensures
            r == self.config().process_monitoring,
    {
        self.config.process_monitoring
    }

    /// Whether process `pid` has been blocked.
    pub fn is_blocked(&self, pid: u32) -> (r: bool)
        ensures
            r == self.blocked().contains(pid),
    {
        self.blocked_pids.contains(&pid)
    }

    /// Whether the process name contains a whitelisted name.
    pub fn is_whitelisted(name: &str, config: &ShieldConfig) -> (r: bool)
        ensures
            r == contains_any(name@, config@.whitelisted_processes),
    {
        let name_chars = chars_of(name);
        let mut k: usize = 0;
        while k < config.whitelisted_processes.len()
            invariant
                k <= config.whitelisted_processes.len(),
                name_chars@ == name@,
                forall|j: int|
                    0 <= j < k ==> !contains_seq(
                        name@,
                        #[trigger] config@.whitelisted_processes[j],
                    ),
            decreases config.whitelisted_processes.len() - k,
        {
            let w = chars_of(config.whitelisted_processes[k].as_str());
            if contains_chars(&name_chars, &w) {
                assert(contains_seq(name@, config@.whitelisted_processes[k as int]));
                return true;
            }
            k = k + 1;
        }
        false
    }

    /// Whether some signature occurs in the text.
    fn has_signature(text: &Vec<char>, signatures: &Vec<String>) -> (r: bool)
        ensures
            r == contains_any(text@, signatures@.map_values(|s: String| s@)),
    {
        let ghost sigs = signatures@.map_values(|s: String| s@);
        let mut k: usize = 0;
        while k < signatures.len()
            invariant
                k <= signatures.len(),
                sigs == signatures@.map_values(|s: String| s@),
                forall|j: int| 0 <= j < k ==> !contains_seq(text@, #[trigger] sigs[j]),
            decreases signatures.len() - k,
        {
            let s = chars_of(signatures[k].as_str());
            if contains_chars(text, &s) {
                assert(contains_seq(text@, sigs[k as int]));
                return true;
            }
            k = k + 1;
        }
        false
    }

    /// Whether a suspicious pattern matches the lower-cased command line.
    fn matches_cmdline_pattern(cmdline_lower: &str) -> (r: bool)
        ensures
            r == some_pattern_matches(cmdline_patterns(), cmdline_lower@),
    {
        let patterns: Vec<&str> = vec![
            "discord.*token",
            "leveldb",
            "local.storage",
            "webhook.*discord",
            "base64.*token",
        ];
        assert(patterns@.map_values(|p: &str| p@) =~= cmdline_patterns());
        let mut k: usize = 0;
        while k < patterns.len()
            invariant
                k <= patterns.len(),
                patterns@.map_values(|p: &str| p@) == cmdline_patterns(),
                forall|j: int|
                    0 <= j < k ==> !(regex_compiles(#[trigger] cmdline_patterns()[j])
                        && regex_matches(cmdline_patterns()[j], cmdline_lower@).len() > 0),
            decreases patterns.len() - k,
        {
            assert(patterns@[k as int]@ == cmdline_patterns()[k as int]);
            match regex_find_all(patterns[k], cmdline_lower) {
                Some(found) => {
                    if found.len() > 0 {
                        return true;
                    }
                },
                None => {},
            }
            k = k + 1;
        }
        false
    }

    /// Whether a process looks like a token grabber. Letter case does not
    /// matter: for ASCII text the judgement is written out.
    pub fn is_suspicious_process(name: &str, cmdline: &str, config: &ShieldConfig) -> (r: bool)
        ensures
            r == suspicious_process(name@, cmdline@, config@.grabber_signatures),
            is_ascii_chars(name@) && is_ascii_chars(cmdline@) ==> r == ascii_suspicious(
                name@,
                cmdline@,
                config@.grabber_signatures,
            ),
    {
        let name_lower = to_lowercase(name);
        let cmdline_lower = to_lowercase(cmdline);
        let pattern_hit = Self::matches_cmdline_pattern(cmdline_lower.as_str());
        Self::is_suspicious_lowered(name_lower.as_str(), cmdline_lower.as_str(), pattern_hit, config)
    }

    /// Whether a process looks like a token grabber, given its lower-cased
    /// name and command line and whether a suspicious pattern matches the
    /// command line.
    pub fn is_suspicious_lowered(
        name_lower: &str,
        cmdline_lower: &str,
        pattern_hit: bool,
        config: &ShieldConfig,
    ) -> (r: bool)
        ensures
            r == suspicious_lowered(name_lower@, cmdline_lower@, pattern_hit, config@.grabber_signatures),
    {
        let nl = chars_of(name_lower);
        let cl = chars_of(cmdline_lower);
        if Self::has_signature(&nl, &config.grabber_signatures) || Self::has_signature(
            &cl,
            &config.grabber_signatures,
        ) {
            return true;
        }
        if pattern_hit {
            return true;
        }
        let python = chars_of("python");
        let node = chars_of("node");
        let discord = chars_of("discord");
        let token = chars_of("token");
        let leveldb = chars_of("leveldb");
        if contains_chars(&nl, &python) || contains_chars(&nl, &node) {
            if contains_chars(&cl, &discord) && (contains_chars(&cl, &token) || contains_chars(
                &cl,
                &leveldb,
            )) {
                return true;
            }
        }
        false
    }

    /// Records `pid` as blocked: `true` where it was not blocked before, and
    /// the caller is to stop and log it; `false` where it already was.
    pub fn handle_threat(&mut self, pid: u32) -> (newly: bool)
        ensures
            final(self).config() == old(self).config(),
            final(self).blocked() == old(self).blocked().insert(pid),
            newly == !old(self).blocked().contains(pid),
    {
        if self.blocked_pids.contains(&pid) {
            return false;
        }
        self.blocked_pids.insert(pid);
        true
    }

    /// One scan over the listed processes (process id, name, command line):
    /// whitelisted ones are skipped, suspicious ones reported, and, where
    /// grabbers are to be blocked, those not blocked before are blocked.
    pub fn scan_processes(&mut self, processes: &Vec<(u32, String, String)>) -> (actions: Vec<
        ThreatAction,
    >)
        ensures
            final(self).config() == old(self).config(),
            (actions@.map_values(|a: ThreatAction| action_view(a)), final(self).blocked())
                == scan_outcome(old(self).config(), old(self).blocked(), procs_view(processes@)),
    {
        let mut actions: Vec<ThreatAction> = Vec::new();
        let ghost start = self.blocked();
        let mut i: usize = 0;
        while i < processes.len()
            invariant
                i <= processes.len(),
                self.config() == old(self).config(),
                start == old(self).blocked(),
                (actions@.map_values(|a: ThreatAction| action_view(a)), self.blocked())
                    == scan_outcome(self.config(), start, procs_view(processes@.take(i as int))),
            decreases processes.len() - i,
        {
            let ghost before = actions@.map_values(|a: ThreatAction| action_view(a));
            let ghost b = self.blocked();
            assert(procs_view(processes@.take(i + 1)).drop_last() =~= procs_view(
                processes@.take(i as int),
            ));
            let pid = processes[i].0;
            let name = &processes[i].1;
            let cmdline = &processes[i].2;
            assert(procs_view(processes@.take(i + 1)).last() == (pid, name@, cmdline@));
            if Self::is_whitelisted(name.as_str(), &self.config) {
            } else if Self::is_suspicious_process(name.as_str(), cmdline.as_str(), &self.config) {
                actions.push(ThreatAction { kind: ThreatKind::Detected, pid, name: name.clone() });
                if self.config.block_grabbers {
                    if self.handle_threat(pid) {
                        actions.push(
                            ThreatAction { kind: ThreatKind::Blocked, pid, name: name.clone() },
                        );
                    }
                }
            }
            i = i + 1;
            let ghost step = assess_step(self.config(), b, pid, name@, cmdline@);
            assert(actions@.map_values(|a: ThreatAction| action_view(a)) =~= before + step.0);
        }
        assert(processes@.take(processes@.len() as int) =~= processes@);
        actions
    }
}

/// A listed process from what `/proc` shows of it: its name (`comm`) with the
/// surrounding white space removed, and its command line with the NUL
/// separators shown as spaces; `None` where the name is empty.
pub fn process_entry(pid: u32, comm: &str, cmdline: &str) -> (r: Option<(u32, String, String)>)
    ensures
        trim_seq(comm@).len() == 0 ==> r is None,
        trim_seq(comm@).len() > 0 ==> (r matches Some(e) && e.0 == pid && e.1@ == trim_seq(comm@)
            && e.2@ == replace_char(cmdline@, '\0', ' ')),
{
    let name = trim_chars(&chars_of(comm));
    if name.len() == 0 {
        return None;
    }
    let cmd = replace_char_exec(&chars_of(cmdline), '\0', ' ');
    Some((pid, string_from_chars(name.as_slice()), string_from_chars(cmd.as_slice())))
}

/// What one scan reports, over any listing: a process is reported blocked
/// only if it was not blocked before and is blocked after, never twice in
/// one scan, and the blocked set grows by exactly the processes reported
/// blocked; every report is about a listed process that is not whitelisted
/// and looks like a grabber.
pub proof fn lemma_scan_reports(
    config: ConfigView,
    blocked: Set<u32>,
    procs: Seq<(u32, Seq<char>, Seq<char>)>,
)
    ensures
        forall|i: int|
            0 <= i < scan_outcome(config, blocked, procs).0.len() && (#[trigger] scan_outcome(
                config,
                blocked,
                procs,
            ).0[i]).0 == ThreatKind::Blocked ==> !blocked.contains(scan_outcome(config, blocked, procs).0[i].1)
                && scan_outcome(config, blocked, procs).1.contains(scan_outcome(config, blocked, procs).0[i].1),
        forall|i: int, j: int|
            0 <= i < j < scan_outcome(config, blocked, procs).0.len() && (#[trigger] scan_outcome(
                config,
                blocked,
                procs,
            ).0[i]).0 == ThreatKind::Blocked && (#[trigger] scan_outcome(config, blocked, procs).0[j]).0
                == ThreatKind::Blocked ==> scan_outcome(config, blocked, procs).0[i].1 != scan_outcome(
                config,
                blocked,
                procs,
            ).0[j].1,
        forall|p: u32|
            #[trigger] scan_outcome(config, blocked, procs).1.contains(p) <==> (blocked.contains(p)
                || exists|i: int|
                0 <= i < scan_outcome(config, blocked, procs).0.len() && #[trigger] scan_outcome(
                    config,
                    blocked,
                    procs,
                ).0[i] == (ThreatKind::Blocked, p, scan_outcome(config, blocked, procs).0[i].2)),
        forall|i: int|
            0 <= i < scan_outcome(config, blocked, procs).0.len() ==> exists|k: int|
                0 <= k < procs.len() && (#[trigger] procs[k]).0 == (#[trigger] scan_outcome(
                    config,
                    blocked,
                    procs,
                ).0[i]).1 && procs[k].1 == scan_outcome(config, blocked, procs).0[i].2
                    && !contains_any(procs[k].1, config.whitelisted_processes) && suspicious_process(
                    procs[k].1,
                    procs[k].2,
                    config.grabber_signatures,
                ),
    decreases procs.len(),
{
    if procs.len() > 0 {
        let prev = procs.drop_last();
        lemma_scan_reports(config, blocked, prev);
        let (acts, b) = scan_outcome(config, blocked, prev);
        let p = procs.last();
        let (more, b2) = assess_step(config, b, p.0, p.1, p.2);
        let all = acts + more;
        assert(scan_outcome(config, blocked, procs) == (all, b2));
        assert forall|i: int| 0 <= i < acts.len() implies all[i] == acts[i] by {}
        assert forall|i: int| 0 <= i < more.len() implies all[acts.len() + i] == more[i] by {}
        // Blocked reports were not blocked before and are blocked after.
        assert forall|i: int| 0 <= i < all.len() && (#[trigger] all[i]).0 == ThreatKind::Blocked implies !blocked.contains(all[i].1)
            && b2.contains(all[i].1) by {
            if i < acts.len() {
                assert(all[i] == acts[i]);
            } else {
                assert(all[i] == more[i - acts.len()]);
                assert(!b.contains(p.0));
                assert(forall|q: u32| blocked.contains(q) ==> b.contains(q)) by {
                    assert forall|q: u32| blocked.contains(q) implies #[trigger] b.contains(q) by {
                        if blocked.contains(q) {
                            assert(b.contains(q));
                        }
                    }
                }
            }
        }
        assert forall|i: int, j: int|
            0 <= i < j < all.len() && (#[trigger] all[i]).0 == ThreatKind::Blocked && (#[trigger] all[j]).0
                == ThreatKind::Blocked implies all[i].1 != all[j].1 by {
            if j >= acts.len() {
                assert(all[j] == more[j - acts.len()]);
                if i < acts.len() {
                    assert(all[i] == acts[i]);
                    assert(b.contains(acts[i].1));
                } else {
                    assert(all[i] == more[i - acts.len()]);
                }
            } else {
                assert(all[i] == acts[i]);
                assert(all[j] == acts[j]);
            }
        }
        assert forall|q: u32| #[trigger] b2.contains(q) <==> (blocked.contains(q) || exists|i: int|
            0 <= i < all.len() && #[trigger] all[i] == (ThreatKind::Blocked, q, all[i].2)) by {
            if b2.contains(q) && !blocked.contains(q) {
                if b.contains(q) {
                    let i = choose|i: int|
                        0 <= i < acts.len() && #[trigger] acts[i] == (ThreatKind::Blocked, q, acts[i].2);
                    assert(all[i] == acts[i]);
                } else {
                    assert(more.len() == 2);
                    assert(all[acts.len() as int + 1] == more[1]);
                    assert(all[acts.len() as int + 1] == (ThreatKind::Blocked, q, all[acts.len() as int + 1].2));
                }
            }
            if exists|i: int| 0 <= i < all.len() && #[trigger] all[i] == (ThreatKind::Blocked, q, all[i].2) {
                let i = choose|i: int| 0 <= i < all.len() && #[trigger] all[i] == (ThreatKind::Blocked, q, all[i].2);
                if i < acts.len() {
                    assert(all[i] == acts[i]);
                    assert(b.contains(q) || blocked.contains(q));
                } else {
                    assert(all[i] == more[i - acts.len()]);
                }
            }
        }
        assert forall|i: int| 0 <= i < all.len() implies exists|k: int|
            0 <= k < procs.len() && (#[trigger] procs[k]).0 == (#[trigger] all[i]).1 && procs[k].1
                == all[i].2 && !contains_any(procs[k].1, config.whitelisted_processes)
                && suspicious_process(procs[k].1, procs[k].2, config.grabber_signatures) by {
            if i < acts.len() {
                assert(all[i] == acts[i]);
                let k = choose|k: int|
                    0 <= k < prev.len() && (#[trigger] prev[k]).0 == (#[trigger] acts[i]).1 && prev[k].1
                        == acts[i].2 && !contains_any(prev[k].1, config.whitelisted_processes)
                        && suspicious_process(prev[k].1, prev[k].2, config.grabber_signatures);
                assert(procs[k] == prev[k]);
            } else {
                assert(all[i] == more[i - acts.len()]);
                assert(procs[procs.len() - 1] == p);
            }
        }
    }
}

/// Whitelisting goes by the process name alone. A process listed after
/// `procs` whose name contains no whitelisted name and that looks like a
/// grabber adds, whatever its command line, a `Detected` report and, where
/// grabbers are blocked and it was not blocked yet, a `Blocked` report that
/// blocks it; a process whose name contains a whitelisted name adds nothing,
/// whatever its command line.
pub proof fn lemma_whitelist_by_name(
    config: ConfigView,
    blocked: Set<u32>,
    procs: Seq<(u32, Seq<char>, Seq<char>)>,
    pid: u32,
    name: Seq<char>,
    cmdline: Seq<char>,
)
    ensures
        !contains_any(name, config.whitelisted_processes) && suspicious_process(
            name,
            cmdline,
            config.grabber_signatures,
        ) ==> ({
            let (before, b) = scan_outcome(config, blocked, procs);
            let (after, b2) = scan_outcome(config, blocked, procs.push((pid, name, cmdline)));
            if config.block_grabbers && !b.contains(pid) {
                after == before + seq![(ThreatKind::Detected, pid, name), (ThreatKind::Blocked, pid, name)]
                    && b2 == b.insert(pid)
            } else {
                after == before.push((ThreatKind::Detected, pid, name)) && b2 == b
            }
        }),
        contains_any(name, config.whitelisted_processes) ==> scan_outcome(
            config,
            blocked,
            procs.push((pid, name, cmdline)),
        ) == scan_outcome(config, blocked, procs),
{
    let p = procs.push((pid, name, cmdline));
    assert(p.drop_last() =~= procs);
    assert(p.last() == (pid, name, cmdline));
    let (before, b) = scan_outcome(config, blocked, procs);
    assert(before + Seq::<(ThreatKind, u32, Seq<char>)>::empty() =~= before);
    assert(before + seq![(ThreatKind::Detected, pid, name)] =~= before.push((ThreatKind::Detected, pid, name)));
}

} // verus!
