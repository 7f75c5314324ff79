//! Protection of the process memory: whether it is switched on, and the
//! threats that a look at the process status and the running processes
//! reveals.

use vstd::prelude::*;
use crate::config::{ConfigView, ShieldConfig};
use crate::linux_hooks::{first_tracer_pid, first_tracer_pid_in};
use crate::text::{chars_of, contains_any, contains_any_chars, lines_of, lowercase_of, to_lowercase};

verus! {

/// A threat to the memory of the protected process.
#[derive(Clone, Copy, Debug, PartialEq, Eq)]
pub enum MemoryThreat {
    DebuggerDetected,
    MemoryScannerDetected,
    InjectionAttempt,
    SuspiciousMemoryAccess,
}

/// What `activate` did.
#[derive(Clone, Copy, Debug, PartialEq, Eq)]
pub enum GuardActivation {
    /// Memory protection is switched off in the configuration; nothing was done.
    Disabled,
    /// Memory protection is on; the platform's protection is to be applied.
    Activated,
}

/// A debugger is attached according to the process status (`None` where it
/// could not be read, or on a platform without one): the first `TracerPid:`
/// line names a process other than 0.
pub open spec fn debugger_in(status: Option<Seq<char>>) -> bool {
    match status {
        Some(s) => match first_tracer_pid(lines_of(s)) {
            Some(p) => p != 0,
            None => false,
        },
        None => false,
    }
}

/// The names of the common memory scanning and debugging tools.
pub open spec fn memory_scanner_names() -> Seq<Seq<char>> {
    seq!["cheatengine"@, "processhacker"@, "x64dbg"@, "ollydbg"@, "ida"@, "ghidra"@, "radare2"@]
}

/// Some running process, by its lower-cased name, is a known memory scanner.
pub open spec fn scanner_running(process_names: Seq<Seq<char>>) -> bool {
    exists|i: int|
        0 <= i < process_names.len() && contains_any(
            lowercase_of(#[trigger] process_names[i]),
            memory_scanner_names(),
        )
}

/// The texts of the running processes' names.
pub open spec fn names_view(names: Seq<String>) -> Seq<Seq<char>> {
    names.map_values(|n: String| n@)
}

/// The memory threats: a debugger, then a memory scanner, each where found.
pub open spec fn memory_threats(debugger: bool, scanner: bool) -> Seq<MemoryThreat> {
    (if debugger {
        seq![MemoryThreat::DebuggerDetected]
    } else {
        Seq::empty()
    }) + (if scanner {
        seq![MemoryThreat::MemoryScannerDetected]
    } else {
        Seq::empty()
    })
}

/// Whether an already lower-cased process name contains the name of a known
/// memory scanner.
pub fn is_memory_scanner_lowered(lower: &str) -> (r: bool)
    ensures
        r == contains_any(lower@, memory_scanner_names()),
{
    let names: Vec<Vec<char>> = vec![
        chars_of("cheatengine"),
        chars_of("processhacker"),
        chars_of("x64dbg"),
        chars_of("ollydbg"),
        chars_of("ida"),
        chars_of("ghidra"),
        chars_of("radare2"),
    ];
    assert(names@.map_values(|p: Vec<char>| p@) =~= memory_scanner_names());
    contains_any_chars(&chars_of(lower), &names)
}

/// Guards the memory of the protected process.
pub struct MemoryGuard {
    config: ShieldConfig,
    active: bool,
}

impl MemoryGuard {
    /// The configuration the guard was made with.
    pub closed spec fn config(&self) -> ConfigView {
        self.config@
    }

    /// Memory protection has been switched on.
    pub closed spec fn active(&self) -> bool {
        self.active
    }

    /// A guard for `config`, not yet active.
    pub fn new(config: &ShieldConfig) -> (g: MemoryGuard)
        ensures
            g.config() == config@,
            !g.active(),
    {
        MemoryGuard { config: config.duplicate(), active: false }
    }

    /// Whether memory protection has been switched on.
    pub fn is_active(&self) -> (r: bool)
        ensures
            r == self.active(),
    {
        self.active
    }

    /// Switches memory protection on, unless the configuration turns it off.
    pub fn activate(&mut self) -> (outcome: GuardActivation)
        ensures
            final(self).config() == old(self).config(),
            old(self).config().memory_protection ==> outcome == GuardActivation::Activated
                && final(self).active(),
            !old(self).config().memory_protection ==> outcome == GuardActivation::Disabled
                && final(self).active() == old(self).active(),
    {
        if !self.config.memory_protection {
            return GuardActivation::Disabled;
        }
        self.active = true;
        GuardActivation::Activated
    }

    /// Whether a debugger is attached, from the process status text.
    pub fn is_debugger_present(&self, status: Option<&str>) -> (r: bool)
        ensures
            r == debugger_in(
                match status {
                    Some(s) => Some(s@),
                    None => None,
                },
            ),
    {
        match status {
            Some(s) => match first_tracer_pid_in(s) {
                Some(p) => p != 0,
                None => false,
            },
            None => false,
        }
    }

    /// Whether a known memory scanner is running, given the names of the
    /// running processes: some lower-cased name contains a scanner's name.
    pub fn detect_memory_scanners(&self, process_names: &Vec<String>) -> (r: bool)
        ensures
            r == scanner_running(names_view(process_names@)),
    {
        let ghost names = names_view(process_names@);
        let mut i: usize = 0;
        while i < process_names.len()
            invariant
                i <= process_names.len(),
                names == names_view(process_names@),
                forall|k: int|
                    0 <= k < i ==> !contains_any(
                        lowercase_of(#[trigger] names[k]),
                        memory_scanner_names(),
                    ),
            decreases process_names.len() - i,
        {
            let lower = to_lowercase(process_names[i].as_str());
            if is_memory_scanner_lowered(lower.as_str()) {
                assert(names[i as int] == process_names@[i as int]@);
                return true;
            }
            i = i + 1;
        }
        false
    }

    /// The memory threats that the process status and the names of the
    /// running processes reveal.
    pub fn scan_for_memory_threats(&self, status: Option<&str>, process_names: &Vec<String>) -> (threats:
        Vec<MemoryThreat>)
        ensures
            threats@ == memory_threats(
                debugger_in(
                    match status {
                        Some(s) => Some(s@),
                        None => None,
                    },
                ),
                scanner_running(names_view(process_names@)),
            ),
    {
        let mut threats: Vec<MemoryThreat> = Vec::new();
        let debugger = self.is_debugger_present(status);
        if debugger {
            threats.push(MemoryThreat::DebuggerDetected);
        }
        let scanner = self.detect_memory_scanners(process_names);
        if scanner {
            threats.push(MemoryThreat::MemoryScannerDetected);
        }
        assert(threats@ =~= memory_threats(debugger, scanner));
        threats
    }
}

} // verus!
