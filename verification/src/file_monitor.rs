//! Judging file-system events in the chat client's storage: which files are
//! sensitive, which new files look like a grabber's leftovers, and what to do
//! about an event. Watching the file system is left to the caller.

use vstd::prelude::*;
use crate::config::ShieldConfig;
use crate::text::{
    chars_of, contains_any, contains_any_chars, contains_chars, contains_seq, ends_with_chars,
    ends_with_seq, lowercase_of, to_lowercase,
};

verus! {

broadcast use vstd::string::group_string_axioms;

/// A lower-cased file name that ends in `.ldb` or `.log`, or holds `token`
/// or `local storage`.
pub open spec fn sensitive_lowered(n: Seq<char>) -> bool {
    ||| ends_with_seq(n, ".ldb"@)
    ||| ends_with_seq(n, ".log"@)
    ||| contains_seq(n, "token"@)
    ||| contains_seq(n, "local storage"@)
}

/// A file whose lower-cased name is such a name is sensitive.
pub open spec fn sensitive_name(name: Seq<char>) -> bool {
    sensitive_lowered(lowercase_of(name))
}

/// The pieces of a file name that a grabber's leftovers carry.
pub open spec fn artifact_markers() -> Seq<Seq<char>> {
    seq!["token"@, "grab"@, "steal"@, "dump"@, "exfil"@, "webhook"@]
}

/// A file whose lower-cased name holds one of the markers looks like a
/// grabber's leftover.
pub open spec fn artifact_name(name: Seq<char>) -> bool {
    contains_any(lowercase_of(name), artifact_markers())
}

/// The kind of a file-system event, as far as the monitor tells them apart.
#[derive(Clone, Copy, Debug, PartialEq, Eq)]
pub enum FsEventKind {
    Access,
    Modify,
    Create,
    Other,
}

/// What to do about one path of an event.
#[derive(Clone, Copy, Debug, PartialEq, Eq)]
pub enum FileActionKind {
    /// A sensitive file was read: warn, and find out who read it.
    SensitiveAccessed,
    /// A sensitive file was changed: warn.
    SensitiveModified,
    /// A file that looks like a grabber's leftover appeared: move it to
    /// quarantine.
    QuarantineArtifact,
}

/// An action about the path at `index` among the event's paths.
#[derive(Clone, Copy, Debug, PartialEq, Eq)]
pub struct FileAction {
    pub kind: FileActionKind,
    pub index: usize,
}

/// The name of a path as a file name (`None` where the path has none).
pub open spec fn name_of(n: Option<Seq<char>>) -> Seq<char> {
    match n {
        Some(s) => s,
        None => Seq::empty(),
    }
}

/// What to do about the path at `i` whose file name is `name`.
pub open spec fn path_actions(kind: FsEventKind, i: int, name: Option<Seq<char>>) -> Seq<FileAction> {
    match kind {
        FsEventKind::Access => if name is Some && sensitive_name(name_of(name)) {
            seq![FileAction { kind: FileActionKind::SensitiveAccessed, index: i as usize }]
        } else {
            Seq::empty()
        },
        FsEventKind::Modify => if name is Some && sensitive_name(name_of(name)) {
            seq![FileAction { kind: FileActionKind::SensitiveModified, index: i as usize }]
        } else {
            Seq::empty()
        },
        FsEventKind::Create => if name is Some && artifact_name(name_of(name)) {
            seq![FileAction { kind: FileActionKind::QuarantineArtifact, index: i as usize }]
        } else {
            Seq::empty()
        },
        FsEventKind::Other => Seq::empty(),
    }
}

/// What to do about an event whose paths have the file names `names`, in the
/// order of the paths.
pub open spec fn event_actions(kind: FsEventKind, names: Seq<Option<Seq<char>>>) -> Seq<FileAction>
    decreases names.len(),
{
    if names.len() == 0 {
        Seq::empty()
    } else {
        event_actions(kind, names.drop_last()) + path_actions(
            kind,
            names.len() - 1,
            names.last(),
        )
    }
}

/// File names as values.
pub open spec fn names_view(names: Seq<Option<String>>) -> Seq<Option<Seq<char>>> {
    names.map_values(
        |n: Option<String>|
            match n {
                Some(s) => Some(s@),
                None => None,
            },
    )
}

/// How the file monitor is to start.
#[derive(Clone, Copy, Debug, PartialEq, Eq)]
pub enum MonitorStart {
    /// File monitoring is switched off in the configuration.
    Disabled,
    /// No storage directory was found to watch.
    NoPaths,
    /// Watch the storage directories.
    Watch,
}

/// Whether a file, by its name (`None` where the path has none), is
/// sensitive.
pub fn is_sensitive_file(file_name: Option<&str>) -> (r: bool)
    ensures
        r == match file_name {
            Some(n) => sensitive_name(n@),
            None => false,
        },
{
    match file_name {
        Some(n) => {
            let lower = to_lowercase(n);
            is_sensitive_lowered_name(lower.as_str())
        },
        None => false,
    }
}

/// Whether an already lower-cased file name is that of a sensitive file.
pub fn is_sensitive_lowered_name(lower: &str) -> (r: bool)
    ensures
        r == sensitive_lowered(lower@),
{
    let l = chars_of(lower);
    ends_with_chars(&l, &chars_of(".ldb")) || ends_with_chars(&l, &chars_of(".log"))
        || contains_chars(&l, &chars_of("token")) || contains_chars(&l, &chars_of("local storage"))
}

/// Whether a file, by its name (`None` where the path has none), looks like
/// a grabber's leftover.
pub fn looks_like_grabber_artifact(file_name: Option<&str>) -> (r: bool)
    ensures
        r == match file_name {
            Some(n) => artifact_name(n@),
            None => false,
        },
{
    match file_name {
        Some(n) => {
            let lower = to_lowercase(n);
            is_artifact_lowered_name(lower.as_str())
        },
        None => false,
    }
}

/// Whether an already lower-cased file name holds one of the markers of a
/// grabber's leftovers.
pub fn is_artifact_lowered_name(lower: &str) -> (r: bool)
    ensures
        r == contains_any(lower@, artifact_markers()),
{
    let markers: Vec<Vec<char>> = vec![
        chars_of("token"),
        chars_of("grab"),
        chars_of("steal"),
        chars_of("dump"),
        chars_of("exfil"),
        chars_of("webhook"),
    ];
    assert(markers@.map_values(|p: Vec<char>| p@) =~= artifact_markers());
    contains_any_chars(&chars_of(lower), &markers)
}

/// What to do about an event of `kind` on paths whose file names are
/// `file_names` (each `None` where its path has none).
pub fn handle_event(kind: FsEventKind, file_names: &Vec<Option<String>>) -> (actions: Vec<FileAction>)
    ensures
        actions@ == event_actions(kind, names_view(file_names@)),
{
    let mut actions: Vec<FileAction> = Vec::new();
    let mut i: usize = 0;
    while i < file_names.len()
        invariant
            i <= file_names.len(),
            actions@ == event_actions(kind, names_view(file_names@.take(i as int))),
        decreases file_names.len() - i,
    {
        let ghost before = actions@;
        assert(names_view(file_names@.take(i + 1)).drop_last() =~= names_view(
            file_names@.take(i as int),
        ));
        let name: Option<&str> = match &file_names[i] {
            Some(s) => Some(s.as_str()),
            None => None,
        };
        let ghost nv = names_view(file_names@.take(i + 1)).last();
        assert(nv == match name {
            Some(s) => Some(s@),
            None => None,
        });
        match kind {
            FsEventKind::Access => {
                if is_sensitive_file(name) {
                    actions.push(FileAction { kind: FileActionKind::SensitiveAccessed, index: i });
                }
            },
            FsEventKind::Modify => {
                if is_sensitive_file(name) {
                    actions.push(FileAction { kind: FileActionKind::SensitiveModified, index: i });
                }
            },
            FsEventKind::Create => {
                if looks_like_grabber_artifact(name) {
                    actions.push(FileAction { kind: FileActionKind::QuarantineArtifact, index: i });
                }
            },
            FsEventKind::Other => {},
        }
        assert(actions@ =~= before + path_actions(kind, i as int, nv));
        i = i + 1;
    }
    assert(file_names@.take(file_names@.len() as int) =~= file_names@);
    actions
}

/// How the file monitor is to start, given the configuration and the number
/// of storage directories found.
pub fn plan_start(config: &ShieldConfig, path_count: usize) -> (r: MonitorStart)
    ensures
        !config@.file_monitoring ==> r == MonitorStart::Disabled,
        config@.file_monitoring && path_count == 0 ==> r == MonitorStart::NoPaths,
        config@.file_monitoring && path_count > 0 ==> r == MonitorStart::Watch,
{
    if !config.file_monitoring {
        MonitorStart::Disabled
    } else if path_count == 0 {
        MonitorStart::NoPaths
    } else {
        MonitorStart::Watch
    }
}

/// A created file is quarantined for its name alone: in a `Create` event,
/// every path whose file name looks like a grabber's leftover gets a
/// quarantine action at its index, whether or not the name is also that of a
/// sensitive file, and every action is such a quarantine.
pub proof fn lemma_created_artifacts_quarantined(names: Seq<Option<Seq<char>>>)
    requires
        names.len() <= usize::MAX,
    ensures
        forall|i: int|
            0 <= i < names.len() && #[trigger] names[i] is Some && artifact_name(names[i]->0)
                ==> event_actions(FsEventKind::Create, names).contains(
                (FileAction { kind: FileActionKind::QuarantineArtifact, index: i as usize }),
            ),
        forall|a: FileAction|
            #[trigger] event_actions(FsEventKind::Create, names).contains(a) ==> a.kind
                == FileActionKind::QuarantineArtifact && a.index < names.len() && names[a.index as int] is Some
                && artifact_name(names[a.index as int]->0),
    decreases names.len(),
{
    if names.len() > 0 {
        let init = names.drop_last();
        lemma_created_artifacts_quarantined(init);
        let e0 = event_actions(FsEventKind::Create, init);
        let last = names.len() - 1;
        let p = path_actions(FsEventKind::Create, last, names.last());
        let e = event_actions(FsEventKind::Create, names);
        assert(e == e0 + p);
        assert forall|i: int|
            0 <= i < names.len() && #[trigger] names[i] is Some && artifact_name(names[i]->0)
                implies e.contains(
                (FileAction { kind: FileActionKind::QuarantineArtifact, index: i as usize }),
            ) by {
            let a = FileAction { kind: FileActionKind::QuarantineArtifact, index: i as usize };
            if i < last {
                assert(init[i] == names[i]);
                assert(e0.contains(a));
                let m = choose|m: int| 0 <= m < e0.len() && e0[m] == a;
                assert(e[m] == a);
            } else {
                assert(p =~= seq![a]);
                assert(e[e0.len() as int] == a);
            }
        }
        assert forall|a: FileAction| #[trigger] e.contains(a) implies a.kind
            == FileActionKind::QuarantineArtifact && a.index < names.len() && names[a.index as int] is Some
            && artifact_name(names[a.index as int]->0) by {
            let m = choose|m: int| 0 <= m < e.len() && e[m] == a;
            if m < e0.len() {
                assert(e0[m] == a);
                assert(e0.contains(a));
                assert(init[a.index as int] == names[a.index as int]);
            } else {
                assert(p[m - e0.len()] == a);
            }
        }
    }
}

/// The action that an access or a change of a sensitive file calls for.
pub open spec fn sensitive_action(kind: FsEventKind) -> FileActionKind {
    if kind == FsEventKind::Access {
        FileActionKind::SensitiveAccessed
    } else {
        FileActionKind::SensitiveModified
    }
}

/// A sensitive file is flagged for its name alone: in an `Access` or
/// `Modify` event, every path whose file name is sensitive gets the warning
/// of that kind at its index, and every action is such a warning.
pub proof fn lemma_sensitive_files_flagged(kind: FsEventKind, names: Seq<Option<Seq<char>>>)
    requires
        kind == FsEventKind::Access || kind == FsEventKind::Modify,
        names.len() <= usize::MAX,
    ensures
        forall|i: int|
            0 <= i < names.len() && #[trigger] names[i] is Some && sensitive_name(names[i]->0)
                ==> event_actions(kind, names).contains(
                (FileAction { kind: sensitive_action(kind), index: i as usize }),
            ),
        forall|a: FileAction|
            #[trigger] event_actions(kind, names).contains(a) ==> a.kind == sensitive_action(kind)
                && a.index < names.len() && names[a.index as int] is Some && sensitive_name(
                names[a.index as int]->0,
            ),
    decreases names.len(),
{
    if names.len() > 0 {
        let init = names.drop_last();
        lemma_sensitive_files_flagged(kind, init);
        let e0 = event_actions(kind, init);
        let last = names.len() - 1;
        let p = path_actions(kind, last, names.last());
        let e = event_actions(kind, names);
        assert(e == e0 + p);
        assert forall|i: int|
            0 <= i < names.len() && #[trigger] names[i] is Some && sensitive_name(names[i]->0)
                implies e.contains((FileAction { kind: sensitive_action(kind), index: i as usize })) by {
            let a = FileAction { kind: sensitive_action(kind), index: i as usize };
            if i < last {
                assert(init[i] == names[i]);
                assert(e0.contains(a));
                let m = choose|m: int| 0 <= m < e0.len() && e0[m] == a;
                assert(e[m] == a);
            } else {
                assert(p =~= seq![a]);
                assert(e[e0.len() as int] == a);
            }
        }
        assert forall|a: FileAction| #[trigger] e.contains(a) implies a.kind == sensitive_action(kind)
            && a.index < names.len() && names[a.index as int] is Some && sensitive_name(
            names[a.index as int]->0,
        ) by {
            let m = choose|m: int| 0 <= m < e.len() && e[m] == a;
            if m < e0.len() {
                assert(e0[m] == a);
                assert(e0.contains(a));
                assert(init[a.index as int] == names[a.index as int]);
            } else {
                assert(p[m - e0.len()] == a);
            }
        }
    }
}

} // verus!
