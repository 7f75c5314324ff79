//! Decisions behind the Linux protection hooks: what the process status text,
//! the `LD_PRELOAD` variable, a process command line or an open file handle
//! reveal. Reading `/proc` and the environment is left to the caller.

use vstd::prelude::*;
use crate::text::{
    chars_of, contains_any, contains_any_chars, contains_chars, contains_seq, decimal,
    fields_exec, fields_of, lines_exec, lines_of, lowercase_of, parse_i32_chars,
    parse_i32_spec, parse_u32_chars, parse_u32_spec, push_decimal, replace_char,
    replace_char_exec, starts_with_chars, starts_with_seq, string_from_chars, to_lowercase,
};

verus! {

broadcast use vstd::string::group_string_axioms;

/// The line of the process status that names the tracing process.
pub open spec fn is_tracer_line(line: Seq<char>) -> bool {
    starts_with_seq(line, "TracerPid:"@)
}

/// The tracer's process id on a status line: the second whitespace-separated
/// field parsed as an `i32`, or 0 where there is none or it does not parse.
pub open spec fn tracer_pid_of(line: Seq<char>) -> i32 {
    let fields = fields_of(line);
    if fields.len() > 1 {
        match parse_i32_spec(fields[1]) {
            Some(p) => p,
            None => 0,
        }
    } else {
        0
    }
}

/// Some `TracerPid:` line of the status names a tracer other than 0.
pub open spec fn traced_in(status: Seq<char>) -> bool {
    let lines = lines_of(status);
    exists|i: int|
        0 <= i < lines.len() && is_tracer_line(#[trigger] lines[i]) && tracer_pid_of(lines[i])
            != 0
}

/// Line `i` is the first `TracerPid:` line among `lines` that names a tracer
/// other than 0.
pub open spec fn first_tracing_line(lines: Seq<Seq<char>>, i: int) -> bool {
    &&& 0 <= i < lines.len()
    &&& is_tracer_line(lines[i])
    &&& tracer_pid_of(lines[i]) != 0
    &&& forall|k: int|
        0 <= k < i ==> !(is_tracer_line(#[trigger] lines[k]) && tracer_pid_of(lines[k]) != 0)
}

/// The tracer named on the first `TracerPid:` line among `lines`, if any.
pub open spec fn first_tracer_pid(lines: Seq<Seq<char>>) -> Option<i32>
    decreases lines.len(),
{
    if lines.len() == 0 {
        None
    } else if is_tracer_line(lines[0]) {
        Some(tracer_pid_of(lines[0]))
    } else {
        first_tracer_pid(lines.drop_first())
    }
}

/// The index of the first line among `lines` that begins with `prefix`.
pub open spec fn first_line_with(lines: Seq<Seq<char>>, prefix: Seq<char>) -> Option<int>
    decreases lines.len(),
{
    if lines.len() == 0 {
        None
    } else if starts_with_seq(lines[0], prefix) {
        Some(0)
    } else {
        match first_line_with(lines.drop_first(), prefix) {
            Some(i) => Some(i + 1),
            None => None,
        }
    }
}

/// A found line lies within `lines` and begins with the prefix.
pub proof fn lemma_first_line_with(lines: Seq<Seq<char>>, prefix: Seq<char>)
    ensures
        first_line_with(lines, prefix) matches Some(i) ==> 0 <= i < lines.len()
            && starts_with_seq(lines[i], prefix),
    decreases lines.len(),
{
    if lines.len() > 0 && !starts_with_seq(lines[0], prefix) {
        lemma_first_line_with(lines.drop_first(), prefix);
    }
}

/// The first `Seccomp:` line of the status, if any.
pub open spec fn seccomp_line_of(status: Seq<char>) -> Option<Seq<char>> {
    match first_line_with(lines_of(status), "Seccomp:"@) {
        Some(i) => Some(lines_of(status)[i]),
        None => None,
    }
}

/// A non-empty `LD_PRELOAD` is suspicious.
pub open spec fn ld_preload_suspicious_spec(value: Option<Seq<char>>) -> bool {
    match value {
        Some(v) => v.len() > 0,
        None => false,
    }
}

/// The names in a command line that mark a process as a possible token stealer.
pub open spec fn stealer_cmdline_names() -> Seq<Seq<char>> {
    seq![
        "token"@,
        "stealer"@,
        "grabber"@,
        "discord"@,
        "inject"@,
        "hook"@,
        "dump"@,
        "extract"@,
        "harvest"@,
    ]
}

/// The report line for a suspicious process: `PID <pid>: <command line>`, the
/// command line with its NUL separators shown as spaces.
pub open spec fn stealer_report(pid: u32, cmdline: Seq<char>) -> Seq<char> {
    "PID "@ + decimal(pid as nat) + ": "@ + replace_char(cmdline, '\0', ' ')
}

/// What the Linux hooks found when they were set up.
pub struct ProtectionReport {
    /// A tracer is attached to this process.
    pub traced: bool,
    /// `LD_PRELOAD` is set to something.
    pub ld_preload_suspicious: bool,
    /// The `Seccomp:` line of the process status, if it has one.
    pub seccomp: Option<String>,
}

/// The first line among `lines` that begins with `prefix`.
fn find_line_with(lines: &Vec<Vec<char>>, prefix: &Vec<char>) -> (r: Option<usize>)
    ensures
        match first_line_with(lines@.map_values(|l: Vec<char>| l@), prefix@) {
            Some(i) => r == Some(i as usize),
            None => r is None,
        },
        r matches Some(i) ==> i < lines.len(),
{
    let ghost ls = lines@.map_values(|l: Vec<char>| l@);
    assert(ls.skip(0) =~= ls);
    let mut i: usize = 0;
    while i < lines.len()
        invariant
            i <= lines.len(),
            ls == lines@.map_values(|l: Vec<char>| l@),
            first_line_with(ls, prefix@) == match first_line_with(ls.skip(i as int), prefix@) {
                Some(j) => Some(j + i),
                None => None,
            },
        decreases lines.len() - i,
    {
        assert(ls.skip(i as int)[0] == ls[i as int]);
        assert(ls.skip(i as int).drop_first() =~= ls.skip(i + 1));
        if starts_with_chars(&lines[i], prefix) {
            return Some(i);
        }
        i = i + 1;
    }
    assert(ls.skip(i as int).len() == 0);
    None
}

/// The tracer's process id on a `TracerPid:` line (0 where it cannot be read).
pub fn tracer_pid_of_line(line: &Vec<char>) -> (p: i32)
    ensures
        p == tracer_pid_of(line@),
{
    let fields = fields_exec(line);
    if fields.len() > 1 {
        match parse_i32_chars(&fields[1]) {
            Some(p) => p,
            None => 0,
        }
    } else {
        0
    }
}

/// Whether the process status text shows a tracer: some `TracerPid:` line
/// names a process other than 0.
pub fn check_ptrace_status(status: &str) -> (traced: bool)
    ensures
        traced == traced_in(status@),
{
    tracing_pid(status).is_some()
}

/// The tracer that the process status text shows: the process named on the
/// first `TracerPid:` line that names one other than 0; `None` where no
/// line does.
pub fn tracing_pid(status: &str) -> (r: Option<i32>)
    ensures
        r is Some <==> traced_in(status@),
        r matches Some(p) ==> exists|i: int|
            first_tracing_line(lines_of(status@), i) && p == tracer_pid_of(
                #[trigger] lines_of(status@)[i],
            ),
{
    let chars = chars_of(status);
    let lines = lines_exec(&chars);
    let ghost ls = lines@.map_values(|l: Vec<char>| l@);
    let prefix = chars_of("TracerPid:");
    let mut i: usize = 0;
    while i < lines.len()
        invariant
            i <= lines.len(),
            ls == lines@.map_values(|l: Vec<char>| l@),
            ls == lines_of(status@),
            prefix@ == "TracerPid:"@,
            forall|k: int|
                0 <= k < i ==> !(is_tracer_line(#[trigger] ls[k]) && tracer_pid_of(ls[k]) != 0),
        decreases lines.len() - i,
    {
        if starts_with_chars(&lines[i], &prefix) {
            let pid = tracer_pid_of_line(&lines[i]);
            if pid != 0 {
                assert(is_tracer_line(ls[i as int]) && tracer_pid_of(ls[i as int]) != 0);
                assert(first_tracing_line(ls, i as int));
                return Some(pid);
            }
        }
        i = i + 1;
    }
    None
}

/// The tracer named on the first `TracerPid:` line of the status, if any.
pub fn first_tracer_pid_in(status: &str) -> (r: Option<i32>)
    ensures
        r == first_tracer_pid(lines_of(status@)),
{
    let chars = chars_of(status);
    let lines = lines_exec(&chars);
    let ghost ls = lines@.map_values(|l: Vec<char>| l@);
    let prefix = chars_of("TracerPid:");
    assert(ls.skip(0) =~= ls);
    let mut i: usize = 0;
    while i < lines.len()
        invariant
            i <= lines.len(),
            ls == lines@.map_values(|l: Vec<char>| l@),
            prefix@ == "TracerPid:"@,
            first_tracer_pid(lines_of(status@)) == first_tracer_pid(ls.skip(i as int)),
        decreases lines.len() - i,
    {
        assert(ls.skip(i as int)[0] == ls[i as int]);
        assert(ls.skip(i as int).drop_first() =~= ls.skip(i + 1));
        if starts_with_chars(&lines[i], &prefix) {
            return Some(tracer_pid_of_line(&lines[i]));
        }
        i = i + 1;
    }
    assert(ls.skip(i as int).len() == 0);
    None
}

/// The `Seccomp:` line of the process status text, if it has one.
pub fn seccomp_status_line(status: &str) -> (r: Option<String>)
    ensures
        match seccomp_line_of(status@) {
            Some(l) => r matches Some(s) && s@ == l,
            None => r is None,
        },
{
    let chars = chars_of(status);
    let lines = lines_exec(&chars);
    let prefix = chars_of("Seccomp:");
    let ghost ls = lines@.map_values(|l: Vec<char>| l@);
    proof {
        lemma_first_line_with(ls, prefix@);
    }
    match find_line_with(&lines, &prefix) {
        Some(i) => {
            assert(ls[i as int] == lines@[i as int]@);
            Some(string_from_chars(lines[i].as_slice()))
        },
        None => None,
    }
}

/// Whether the value of `LD_PRELOAD` (`None` where it is unset or not
/// Unicode) is suspicious: it is, when it is set and not empty.
pub fn ld_preload_suspicious(value: Option<&str>) -> (r: bool)
    ensures
        r == ld_preload_suspicious_spec(
            match value {
                Some(v) => Some(v@),
                None => None,
            },
        ),
{
    match value {
        Some(v) => !v.is_empty(),
        None => false,
    }
}

/// The report line for a process whose lower-cased command line names a
/// stealer; `None` for any other process.
pub fn suspicious_cmdline_entry(pid: u32, cmdline: &str) -> (r: Option<String>)
    ensures
        contains_any(lowercase_of(cmdline@), stealer_cmdline_names()) ==> (r matches Some(s)
            && s@ == stealer_report(pid, cmdline@)),
        !contains_any(lowercase_of(cmdline@), stealer_cmdline_names()) ==> r is None,
{
    let lower = to_lowercase(cmdline);
    stealer_entry_lowered(pid, cmdline, lower.as_str())
}

/// The report line for process `pid` with command line `cmdline`, given the
/// lower-cased command line: a line where it names a stealer, else `None`.
pub fn stealer_entry_lowered(pid: u32, cmdline: &str, cmdline_lower: &str) -> (r: Option<String>)
    ensures
        contains_any(cmdline_lower@, stealer_cmdline_names()) ==> (r matches Some(s) && s@
            == stealer_report(pid, cmdline@)),
        !contains_any(cmdline_lower@, stealer_cmdline_names()) ==> r is None,
{
    let lower_chars = chars_of(cmdline_lower);
    let names: Vec<Vec<char>> = vec![
        chars_of("token"),
        chars_of("stealer"),
        chars_of("grabber"),
        chars_of("discord"),
        chars_of("inject"),
        chars_of("hook"),
        chars_of("dump"),
        chars_of("extract"),
        chars_of("harvest"),
    ];
    assert(names@.map_values(|p: Vec<char>| p@) =~= stealer_cmdline_names());
    if contains_any_chars(&lower_chars, &names) {
        let mut out = chars_of("PID ");
        push_decimal(pid as u64, &mut out);
        let sep = chars_of(": ");
        let mut k: usize = 0;
        while k < sep.len()
            invariant
                k <= sep.len(),
                out@ == "PID "@ + decimal(pid as nat) + sep@.take(k as int),
            decreases sep.len() - k,
        {
            out.push(sep[k]);
            k = k + 1;
            assert(sep@.take(k as int) =~= sep@.take(k - 1).push(sep@[k - 1]));
        }
        assert(sep@.take(sep@.len() as int) =~= sep@);
        let cmd = replace_char_exec(&chars_of(cmdline), '\0', ' ');
        let mut j: usize = 0;
        let ghost head = out@;
        while j < cmd.len()
            invariant
                j <= cmd.len(),
                out@ == head + cmd@.take(j as int),
            decreases cmd.len() - j,
        {
            out.push(cmd[j]);
            j = j + 1;
            assert(cmd@.take(j as int) =~= cmd@.take(j - 1).push(cmd@[j - 1]));
        }
        assert(cmd@.take(cmd@.len() as int) =~= cmd@);
        assert(out@ =~= stealer_report(pid, cmdline@));
        Some(string_from_chars(out.as_slice()))
    } else {
        None
    }
}

/// The open-file accesses to report for one file handle of process `pid`
/// whose link target is `link`: one `(pid, link)` for each path of
/// `discord_paths` that the target contains, in that order; none for the
/// process `own_pid` itself.
pub fn fd_link_accesses(own_pid: u32, pid: u32, link: &str, discord_paths: &Vec<String>) -> (r:
    Vec<(u32, String)>)
    ensures
        pid == own_pid ==> r@.len() == 0,
        pid != own_pid ==> r@.map_values(|e: (u32, String)| (e.0, e.1@)) == discord_paths@.filter(
            |p: String| contains_seq(link@, p@),
        ).map_values(|p: String| (pid, link@)),
{
    let mut out: Vec<(u32, String)> = Vec::new();
    if pid == own_pid {
        return out;
    }
    let link_chars = chars_of(link);
    let ghost pred = |p: String| contains_seq(link@, p@);
    let mut i: usize = 0;
    while i < discord_paths.len()
        invariant
            i <= discord_paths.len(),
            link_chars@ == link@,
            pred == (|p: String| contains_seq(link@, p@)),
            out@.map_values(|e: (u32, String)| (e.0, e.1@)) == discord_paths@.take(
                i as int,
            ).filter(pred).map_values(|p: String| (pid, link@)),
        decreases discord_paths.len() - i,
    {
        reveal_with_fuel(Seq::<_>::filter, 1);
        assert(discord_paths@.take(i + 1).drop_last() =~= discord_paths@.take(i as int));
        let ghost prev = discord_paths@.take(i as int).filter(pred);
        let ghost before = out@;
        assert(discord_paths@.take(i + 1).last() == discord_paths@[i as int]);
        let path_chars = chars_of(discord_paths[i].as_str());
        if contains_chars(&link_chars, &path_chars) {
            assert(pred(discord_paths@[i as int]));
            assert(discord_paths@.take(i + 1).filter(pred) == prev.push(discord_paths@[i as int]));
            out.push((pid, link.to_owned()));
            assert(out@.map_values(|e: (u32, String)| (e.0, e.1@)) =~= before.map_values(
                |e: (u32, String)| (e.0, e.1@),
            ).push((pid, link@)));
            assert(prev.push(discord_paths@[i as int]).map_values(|p: String| (pid, link@))
                =~= prev.map_values(|p: String| (pid, link@)).push((pid, link@)));
        } else {
            assert(!pred(discord_paths@[i as int]));
            assert(discord_paths@.take(i + 1).filter(pred) == prev);
        }
        i = i + 1;
    }
    assert(discord_paths@.take(discord_paths@.len() as int) =~= discord_paths@);
    out
}

/// The process id in a `/proc` entry name, where the name is one.
pub fn parse_pid(name: &str) -> (r: Option<u32>)
    ensures
        r == parse_u32_spec(name@),
{
    parse_u32_chars(&chars_of(name))
}

/// Sets up the Linux protection hooks from what was read of the process
/// status (`None` where it could not be read) and of `LD_PRELOAD` (`None` where
/// it is unset): whether a tracer is attached, whether `LD_PRELOAD` is
/// suspicious, and the seccomp status line.
pub fn setup_protection(status: Option<&str>, ld_preload: Option<&str>) -> (report:
    ProtectionReport)
    ensures
        report.traced == match status {
            Some(s) => traced_in(s@),
            None => false,
        },
        report.ld_preload_suspicious == ld_preload_suspicious_spec(
            match ld_preload {
                Some(v) => Some(v@),
                None => None,
            },
        ),
        match status {
            Some(s) => match seccomp_line_of(s@) {
                Some(l) => report.seccomp matches Some(x) && x@ == l,
                None => report.seccomp is None,
            },
            None => report.seccomp is None,
        },
{
    let traced = match status {
        Some(s) => check_ptrace_status(s),
        None => false,
    };
    let ld = ld_preload_suspicious(ld_preload);
    let seccomp = match status {
        Some(s) => seccomp_status_line(s),
        None => None,
    };
    ProtectionReport { traced, ld_preload_suspicious: ld, seccomp }
}

} // verus!
