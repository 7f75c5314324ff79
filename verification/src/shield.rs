//! The order in which the shield switches its protections on, and when it
//! counts as active. Performing each step is left to the caller, which
//! reports back whether it succeeded.

use vstd::prelude::*;

verus! {

/// A step of the shield's activation, in the order in which they run.
#[derive(Clone, Copy, Debug, PartialEq, Eq)]
pub enum ActivationStep {
    /// Secure the tokens found in the chat client's database in the vault.
    SecureTokens,
    /// Switch memory protection on.
    MemoryProtection,
    /// Start watching the token database's files.
    FileMonitoring,
    /// Start watching the running processes.
    ProcessMonitoring,
    /// Tighten permissions and clear token leftovers.
    Hardening,
}

/// The number of activation steps.
pub const STEP_COUNT: u8 = 5;

/// The step at position `i` of the activation.
pub open spec fn step_at(i: nat) -> ActivationStep {
    if i == 0 {
        ActivationStep::SecureTokens
    } else if i == 1 {
        ActivationStep::MemoryProtection
    } else if i == 2 {
        ActivationStep::FileMonitoring
    } else if i == 3 {
        ActivationStep::ProcessMonitoring
    } else {
        ActivationStep::Hardening
    }
}

/// The permission bits given to the chat client's data directories (owner
/// only).
pub const DATA_DIR_MODE: u32 = 0o700;

/// The permission bits given to the vault file (owner read and write only).
pub const VAULT_FILE_MODE: u32 = 0o600;

/// How far the activation has come: the number of steps that succeeded, in
/// order, and whether a step failed (after which nothing more runs).
pub struct ShieldActivation {
    completed: u8,
    failed: bool,
}

impl ShieldActivation {
    /// The number of steps that succeeded.
    pub closed spec fn completed(&self) -> nat {
        self.completed as nat
    }

    /// A step failed.
    pub closed spec fn failed(&self) -> bool {
        self.failed
    }

    /// Never more steps than there are, and a failure stops before the end.
    pub closed spec fn wf(&self) -> bool {
        &&& self.completed <= STEP_COUNT
        &&& self.failed ==> self.completed < STEP_COUNT
    }

    /// Every step succeeded.
    pub open spec fn active_spec(&self) -> bool {
        self.completed() == STEP_COUNT && !self.failed()
    }

    /// An activation that has not begun.
    pub fn new() -> (a: ShieldActivation)
        ensures
            a.wf(),
            a.completed() == 0,
            !a.failed(),
    {
        ShieldActivation { completed: 0, failed: false }
    }

    /// The step to run next; `None` once every step succeeded or one failed.
    pub fn next_step(&self) -> (s: Option<ActivationStep>)
        requires
            self.wf(),
        ensures
            (self.failed() || self.completed() == STEP_COUNT) ==> s is None,
            !(self.failed() || self.completed() == STEP_COUNT) ==> s == Some(
                step_at(self.completed()),
            ),
    {
        if self.failed || self.completed == STEP_COUNT {
            None
        } else if self.completed == 0 {
            Some(ActivationStep::SecureTokens)
        } else if self.completed == 1 {
            Some(ActivationStep::MemoryProtection)
        } else if self.completed == 2 {
            Some(ActivationStep::FileMonitoring)
        } else if self.completed == 3 {
            Some(ActivationStep::ProcessMonitoring)
        } else {
            Some(ActivationStep::Hardening)
        }
    }

    /// Records whether the step that `next_step` offered succeeded; once every
    /// step succeeded or one failed, nothing changes.
    pub fn record(&mut self, succeeded: bool)
        requires
            old(self).wf(),
        ensures
            final(self).wf(),
            (final(self).completed(), final(self).failed()) == after_outcome(
                (old(self).completed(), old(self).failed()),
                succeeded,
            ),
    {
        if self.failed || self.completed == STEP_COUNT {
        } else if succeeded {
            self.completed = self.completed + 1;
        } else {
            self.failed = true;
        }
    }

    /// Whether every step succeeded, so that the shield is active.
    pub fn is_active(&self) -> (r: bool)
        ensures
            r == self.active_spec(),
    {
        self.completed == STEP_COUNT && !self.failed
    }
}

/// The state (steps succeeded, a step failed) after one more outcome is
/// recorded.
pub open spec fn after_outcome(state: (nat, bool), succeeded: bool) -> (nat, bool) {
    let (c, f) = state;
    if f || c == STEP_COUNT {
        (c, f)
    } else if succeeded {
        (c + 1, false)
    } else {
        (c, true)
    }
}

/// The state after recording `outcomes` one after another from the start.
pub open spec fn run_outcomes(outcomes: Seq<bool>) -> (nat, bool)
    decreases outcomes.len(),
{
    if outcomes.len() == 0 {
        (0, false)
    } else {
        after_outcome(run_outcomes(outcomes.drop_last()), outcomes.last())
    }
}

/// The shield ends up active exactly when the first five steps it ran all
/// succeeded: a failed step is never followed by another, and activation
/// cannot come about any other way.
pub proof fn lemma_active_iff_all_steps_succeeded(outcomes: Seq<bool>)
    ensures
        (run_outcomes(outcomes).0 == STEP_COUNT && !run_outcomes(outcomes).1) <==> (outcomes.len()
            >= STEP_COUNT && forall|i: int| 0 <= i < STEP_COUNT ==> #[trigger] outcomes[i]),
        run_outcomes(outcomes).0 <= STEP_COUNT,
        run_outcomes(outcomes).0 <= outcomes.len(),
        forall|i: int| 0 <= i < run_outcomes(outcomes).0 ==> #[trigger] outcomes[i],
        run_outcomes(outcomes).1 ==> run_outcomes(outcomes).0 < outcomes.len() && !outcomes[run_outcomes(outcomes).0 as int],
        !run_outcomes(outcomes).1 && run_outcomes(outcomes).0 < STEP_COUNT ==> run_outcomes(outcomes).0 == outcomes.len(),
    decreases outcomes.len(),
{
    if outcomes.len() > 0 {
        let prev = outcomes.drop_last();
        lemma_active_iff_all_steps_succeeded(prev);
        assert forall|i: int| 0 <= i < prev.len() implies prev[i] == outcomes[i] by {}
        let (c, f) = run_outcomes(prev);
        if f || c == STEP_COUNT {
            if f {
                assert(!outcomes[c as int]);
            }
        } else if outcomes.last() {
            assert(c == prev.len());
            assert forall|i: int| 0 <= i < c + 1 implies #[trigger] outcomes[i] by {
                if i < c {
                    assert(prev[i]);
                }
            }
        } else {
            assert(c == prev.len());
        }
    }
}

} // verus!
