//! The agent's start-up: what has to be done, in what order, and what a
//! failure comes to.
//!
//! Start-up runs once, when the agent is loaded. Each step is carried out by
//! whoever embeds the agent, which reports back whether it succeeded. The
//! first failure ends start-up for good: the process is left without the
//! hook and runs on unharmed. Once the hook is installed it stays until the
//! process exits.

use crate::error::HookError;
use vstd::prelude::*;

verus! {

/// The controller listens on this port of the local host.
pub const CONTROLLER_PORT: u16 = 63463;

/// A read of the connection waits this many nanoseconds for data and no
/// longer, so that it never holds up the host.
pub const READ_TIMEOUT_NANOS: u32 = 100;

/// The address at which the controller listens.
pub fn controller_address() -> (address: &'static str)
    ensures
        address@ == "127.0.0.1:63463"@,
{
    "127.0.0.1:63463"
}

/// The module that holds the time query to replace.
pub fn target_module() -> (name: &'static str)
    ensures
        name@ == "kernel32.dll"@,
{
    "kernel32.dll"
}

/// The time query to replace.
pub fn target_function() -> (name: &'static str)
    ensures
        name@ == "GetSystemTimeAsFileTime"@,
{
    "GetSystemTimeAsFileTime"
}

/// The steps of start-up, in the order in which they are taken.
#[derive(Clone, Copy, Debug, PartialEq, Eq, Structural)]
pub enum BootStep {
    /// Open the connection to the controller.
    Connect,
    /// Bound the time a read of the connection may wait.
    SetReadTimeout,
    /// Find the module that holds the time query.
    FindModule,
    /// Find the time query in the module.
    FindFunction,
    /// Set up the detour over the time query.
    InstallHook,
    /// Switch the detour on.
    EnableHook,
}

impl BootStep {
    /// The place of the step in the order, from zero.
    pub open spec fn place(self) -> nat {
        match self {
            BootStep::Connect => 0,
            BootStep::SetReadTimeout => 1,
            BootStep::FindModule => 2,
            BootStep::FindFunction => 3,
            BootStep::InstallHook => 4,
            BootStep::EnableHook => 5,
        }
    }

    /// The step that follows, if any does.
    pub open spec fn following(self) -> Option<BootStep> {
        match self {
            BootStep::Connect => Some(BootStep::SetReadTimeout),
            BootStep::SetReadTimeout => Some(BootStep::FindModule),
            BootStep::FindModule => Some(BootStep::FindFunction),
            BootStep::FindFunction => Some(BootStep::InstallHook),
            BootStep::InstallHook => Some(BootStep::EnableHook),
            BootStep::EnableHook => None,
        }
    }
}

/// How far start-up has come.
#[derive(Clone, Copy, Debug, PartialEq, Eq, Structural)]
pub enum Bootstrap {
    /// This step is to be taken next.
    Pending(BootStep),
    /// Every step succeeded: the hook is in place.
    Installed,
    /// This step failed: start-up is over and the process is left unhooked.
    Aborted(BootStep),
}

impl Bootstrap {
    /// Start-up before anything was done.
    pub open spec fn begin() -> Bootstrap {
        Bootstrap::Pending(BootStep::Connect)
    }

    /// Start-up after the pending step was taken and succeeded or failed.
    /// Nothing changes once start-up is over.
    pub open spec fn advanced(self, succeeded: bool) -> Bootstrap {
        match self {
            Bootstrap::Pending(step) => if !succeeded {
                Bootstrap::Aborted(step)
            } else {
                match step.following() {
                    Some(next) => Bootstrap::Pending(next),
                    None => Bootstrap::Installed,
                }
            },
            over => over,
        }
    }

    /// Start-up after a series of steps succeeded or failed, first to last.
    pub open spec fn run(self, outcomes: Seq<bool>) -> Bootstrap
        decreases outcomes.len(),
    {
        if outcomes.len() == 0 {
            self
        } else {
            self.advanced(outcomes[0]).run(outcomes.skip(1))
        }
    }

    /// Start-up before anything was done.
    pub fn start() -> (state: Bootstrap)
        ensures
            state == Bootstrap::begin(),
    {
        Bootstrap::Pending(BootStep::Connect)
    }

    /// Takes note of how the pending step went.
    pub fn advance(self, succeeded: bool) -> (state: Bootstrap)
        ensures
            state == self.advanced(succeeded),
    {
        match self {
            Bootstrap::Pending(step) => {
                if !succeeded {
                    Bootstrap::Aborted(step)
                } else {
                    match step {
                        BootStep::Connect => Bootstrap::Pending(BootStep::SetReadTimeout),
                        BootStep::SetReadTimeout => Bootstrap::Pending(BootStep::FindModule),
                        BootStep::FindModule => Bootstrap::Pending(BootStep::FindFunction),
                        BootStep::FindFunction => Bootstrap::Pending(BootStep::InstallHook),
                        BootStep::InstallHook => Bootstrap::Pending(BootStep::EnableHook),
                        BootStep::EnableHook => Bootstrap::Installed,
                    }
                }
            },
            Bootstrap::Installed => Bootstrap::Installed,
            Bootstrap::Aborted(step) => Bootstrap::Aborted(step),
        }
    }

    /// The step to take next, or `None` once start-up is over.
    pub fn pending_step(&self) -> (step: Option<BootStep>)
        ensures
            step == (match *self {
                Bootstrap::Pending(next) => Some(next),
                _ => None,
            }),
    {
        match self {
            Bootstrap::Pending(next) => Some(*next),
            _ => None,
        }
    }

    /// Whether the hook is in place.
    pub fn is_installed(&self) -> (installed: bool)
        ensures
            installed == (*self is Installed),
    {
        match self {
            Bootstrap::Installed => true,
            _ => false,
        }
    }
}

/// The message of the error that ends start-up when `step` fails, given
/// what the failing component reported.
pub open spec fn failure_text(step: BootStep, detail: Seq<char>) -> Seq<char> {
    match step {
        BootStep::Connect | BootStep::SetReadTimeout => "std::io::Error"@ + " "@ + detail,
        BootStep::FindModule => "Failed to find kernel32.dll"@,
        BootStep::FindFunction => "Failed to find GetSystemTimeAsFileTime"@,
        BootStep::InstallHook | BootStep::EnableHook => "detour::Error"@ + " "@ + detail,
    }
}

/// The error that ends start-up when `step` fails. `detail` is what the
/// failing component reported. The lookups report nothing, so for them it
/// is not used.
pub fn failure(step: BootStep, detail: &str) -> (error: HookError)
    ensures
        error@ == failure_text(step, detail@),
{
    match step {
        BootStep::Connect | BootStep::SetReadTimeout => HookError::wrap("std::io::Error", detail),
        BootStep::FindModule => HookError::new("Failed to find kernel32.dll"),
        BootStep::FindFunction => HookError::new("Failed to find GetSystemTimeAsFileTime"),
        BootStep::InstallHook | BootStep::EnableHook => HookError::wrap("detour::Error", detail),
    }
}

/// Once start-up is over, nothing that is reported changes how it ended:
/// there is no way back from a failure, and no way to take the hook out.
pub proof fn lemma_boot_end_is_final(state: Bootstrap, outcomes: Seq<bool>)
    requires
        !(state is Pending),
    ensures
        state.run(outcomes) == state,
    decreases outcomes.len(),
{
    if outcomes.len() > 0 {
        lemma_boot_end_is_final(state, outcomes.skip(1));
    }
}

/// From a pending step on, the hook ends up installed exactly if that step
/// and every step after it is reported and succeeds.
pub proof fn lemma_boot_from_step(step: BootStep, outcomes: Seq<bool>)
    ensures
        Bootstrap::Pending(step).run(outcomes) is Installed <==> outcomes.len() >= 6 - step.place()
            && forall|i: int| 0 <= i < 6 - step.place() ==> outcomes[i],
    decreases 6 - step.place(),
{
    if outcomes.len() > 0 {
        let rest = outcomes.skip(1);
        let next = Bootstrap::Pending(step).advanced(outcomes[0]);
        assert(Bootstrap::Pending(step).run(outcomes) == next.run(rest));
        if !outcomes[0] {
            lemma_boot_end_is_final(next, rest);
        } else {
            match step.following() {
                Some(later) => {
                    lemma_boot_from_step(later, rest);
                    let need = 6 - later.place();
                    if rest.len() >= need && forall|i: int| 0 <= i < need ==> rest[i] {
                        assert forall|i: int| 0 <= i < need + 1 implies outcomes[i] by {
                            if i > 0 {
                                assert(outcomes[i] == rest[i - 1]);
                            }
                        }
                    }
                    if outcomes.len() >= need + 1 && forall|i: int|
                        0 <= i < need + 1 ==> outcomes[i] {
                        assert forall|i: int| 0 <= i < need implies rest[i] by {
                            assert(rest[i] == outcomes[i + 1]);
                        }
                    }
                },
                None => {
                    lemma_boot_end_is_final(next, rest);
                },
            }
        }
    }
}

/// The hook is installed exactly if all six steps are reported and every one
/// of them succeeds.
pub proof fn lemma_boot_needs_every_step(outcomes: Seq<bool>)
    ensures
        Bootstrap::begin().run(outcomes) is Installed <==> outcomes.len() >= 6 && forall|i: int|
            0 <= i < 6 ==> outcomes[i],
{
    lemma_boot_from_step(BootStep::Connect, outcomes);
}

/// The first step that fails ends start-up, and start-up says which step it
/// was, whatever is reported after it.
pub proof fn lemma_first_failure_is_fatal(step: BootStep, outcomes: Seq<bool>)
    requires
        outcomes.len() > 0,
        !outcomes[0],
    ensures
        Bootstrap::Pending(step).run(outcomes) == Bootstrap::Aborted(step),
{
    lemma_boot_end_is_final(Bootstrap::Aborted(step), outcomes.skip(1));
}

} // verus!
