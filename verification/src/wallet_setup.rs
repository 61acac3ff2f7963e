//! Making sure a wallet is loaded on the node: load it, create it when it
//! does not exist yet (then wait for the node to load it, up to four
//! times, before loading it by hand), or wait once when it is locked.
//!
//! The driver performs each [`SetupAction`] against the node and reports
//! the outcome as a [`SetupEvent`]; [`WalletSetup::step`] decides what
//! comes next.

use vstd::prelude::*;
use crate::text::{contains_text, text_contains, names_include, list_contains};

verus! {

/// Where a setup stands.
#[derive(Debug, Clone, Copy, PartialEq, Eq, Structural)]
pub enum SetupStep {
    /// Waiting for the list of loaded wallets.
    CheckLoaded,
    /// Waiting for the load of the wallet.
    Load,
    /// Waiting for the creation of the wallet.
    Create,
    /// Waiting, after a pause, for the list of loaded wallets (attempt
    /// `i`, counting from zero).
    Poll(u8),
    /// Waiting for the load by hand after the polls.
    ManualLoad,
    /// Waiting, after a pause, for the list of loaded wallets once the
    /// wallet was found locked.
    LockCheck,
    /// Done.
    Finished(SetupOutcome),
}

/// How a setup ended.
#[derive(Debug, Clone, Copy, PartialEq, Eq, Structural)]
pub enum SetupOutcome {
    /// The wallet was loaded already.
    AlreadyLoaded,
    /// The existing wallet was loaded.
    LoadedExisting,
    /// The new wallet was loaded by the node while polling.
    AutoLoaded,
    /// The new wallet was loaded by hand.
    ManuallyLoaded,
    /// The locked wallet turned out loaded after the pause.
    NowLoaded,
    /// The wallet was still locked after the pause; the setup goes on.
    StillLocked,
    /// A node call failed; the setup fails with that call's error.
    Failed,
}

/// What the driver is to do next.
#[derive(Debug, Clone, Copy, PartialEq, Eq, Structural)]
pub enum SetupAction {
    /// List the loaded wallets.
    ListWallets,
    /// Load the wallet.
    LoadWallet,
    /// Create the wallet.
    CreateWallet,
    /// Pause for the given milliseconds, then list the loaded wallets.
    PauseThenList(u64),
    /// Stop: the setup has ended.
    Finish(SetupOutcome),
    /// Nothing: the event did not fit the setup's state and was ignored.
    Nothing,
}

/// What the node answered.
pub enum SetupEvent {
    /// The names of the loaded wallets.
    Listed(Vec<String>),
    /// The call succeeded.
    Succeeded,
    /// The call failed with this message.
    Failed(String),
}

/// A setup in progress for the wallet `name`.
pub struct WalletSetup {
    pub name: String,
    pub step: SetupStep,
}

/// The step after an event, for the wallet named `name`.
pub open spec fn setup_next(step: SetupStep, name: Seq<char>, e: SetupEvent) -> SetupStep {
    match step {
        SetupStep::CheckLoaded => match e {
            SetupEvent::Listed(names) => if names_include(names@, name) {
                SetupStep::Finished(SetupOutcome::AlreadyLoaded)
            } else {
                SetupStep::Load
            },
            SetupEvent::Failed(_) => SetupStep::Finished(SetupOutcome::Failed),
            SetupEvent::Succeeded => step,
        },
        SetupStep::Load => match e {
            SetupEvent::Succeeded => SetupStep::Finished(SetupOutcome::LoadedExisting),
            SetupEvent::Failed(msg) => if contains_text(msg@, "Path does not exist"@) {
                SetupStep::Create
            } else if contains_text(msg@, "lock"@) {
                SetupStep::LockCheck
            } else {
                SetupStep::Finished(SetupOutcome::Failed)
            },
            SetupEvent::Listed(_) => step,
        },
        SetupStep::Create => match e {
            SetupEvent::Succeeded => SetupStep::Poll(0),
            SetupEvent::Failed(_) => SetupStep::Finished(SetupOutcome::Failed),
            SetupEvent::Listed(_) => step,
        },
        SetupStep::Poll(i) => match e {
            SetupEvent::Listed(names) => if names_include(names@, name) {
                SetupStep::Finished(SetupOutcome::AutoLoaded)
            } else if i < 3 {
                SetupStep::Poll((i + 1) as u8)
            } else {
                SetupStep::ManualLoad
            },
            SetupEvent::Failed(_) => SetupStep::Finished(SetupOutcome::Failed),
            SetupEvent::Succeeded => step,
        },
        SetupStep::ManualLoad => match e {
            SetupEvent::Succeeded => SetupStep::Finished(SetupOutcome::ManuallyLoaded),
            SetupEvent::Failed(_) => SetupStep::Finished(SetupOutcome::Failed),
            SetupEvent::Listed(_) => step,
        },
        SetupStep::LockCheck => match e {
            SetupEvent::Listed(names) => if names_include(names@, name) {
                SetupStep::Finished(SetupOutcome::NowLoaded)
            } else {
                SetupStep::Finished(SetupOutcome::StillLocked)
            },
            SetupEvent::Failed(_) => SetupStep::Finished(SetupOutcome::Failed),
            SetupEvent::Succeeded => step,
        },
        SetupStep::Finished(_) => step,
    }
}

/// The action that leads to a step: the node call the step waits for.
pub open spec fn action_for(before: SetupStep, after: SetupStep) -> SetupAction {
    if before == after {
        SetupAction::Nothing
    } else {
        match after {
            SetupStep::CheckLoaded => SetupAction::ListWallets,
            SetupStep::Load => SetupAction::LoadWallet,
            SetupStep::Create => SetupAction::CreateWallet,
            SetupStep::Poll(_) => SetupAction::PauseThenList(500),
            SetupStep::ManualLoad => SetupAction::LoadWallet,
            SetupStep::LockCheck => SetupAction::PauseThenList(1000),
            SetupStep::Finished(o) => SetupAction::Finish(o),
        }
    }
}

/// How far a step is from the end: every step that changes the state
/// brings it closer.
pub open spec fn remaining_steps(step: SetupStep) -> int {
    match step {
        SetupStep::CheckLoaded => 9,
        SetupStep::Load => 8,
        SetupStep::Create => 7,
        SetupStep::Poll(i) => 6 - i,
        SetupStep::ManualLoad => 2,
        SetupStep::LockCheck => 2,
        SetupStep::Finished(_) => 0,
    }
}

/// A valid step: a poll counts at most four attempts.
pub open spec fn step_wf(step: SetupStep) -> bool {
    step matches SetupStep::Poll(i) ==> i <= 3
}

impl WalletSetup {
    /// A new setup for the wallet `name`, which first lists the loaded
    /// wallets.
    pub fn start(name: String) -> (r: (WalletSetup, SetupAction))
        ensures
            r.0.name@ == name@,
            r.0.step == SetupStep::CheckLoaded,
            r.1 == SetupAction::ListWallets,
    {
        (WalletSetup { name, step: SetupStep::CheckLoaded }, SetupAction::ListWallets)
    }

    /// Takes the node's answer and says what to do next (see
    /// [`setup_next`], [`action_for`]).
    pub fn step(&mut self, e: SetupEvent) -> (a: SetupAction)
        requires
            step_wf(old(self).step),
        ensures
            final(self).step == setup_next(old(self).step, old(self).name@, e),
            final(self).name@ == old(self).name@,
            a == action_for(old(self).step, final(self).step),
            step_wf(final(self).step),
    {
        let next = match self.step {
            SetupStep::CheckLoaded => match &e {
                SetupEvent::Listed(names) => if list_contains(names, self.name.as_str()) {
                    SetupStep::Finished(SetupOutcome::AlreadyLoaded)
                } else {
                    SetupStep::Load
                },
                SetupEvent::Failed(_) => SetupStep::Finished(SetupOutcome::Failed),
                SetupEvent::Succeeded => self.step,
            },
            SetupStep::Load => match &e {
                SetupEvent::Succeeded => SetupStep::Finished(SetupOutcome::LoadedExisting),
                SetupEvent::Failed(msg) => if text_contains(msg.as_str(), "Path does not exist") {
                    SetupStep::Create
                } else if text_contains(msg.as_str(), "lock") {
                    SetupStep::LockCheck
                } else {
                    SetupStep::Finished(SetupOutcome::Failed)
                },
                SetupEvent::Listed(_) => self.step,
            },
            SetupStep::Create => match &e {
                SetupEvent::Succeeded => SetupStep::Poll(0),
                SetupEvent::Failed(_) => SetupStep::Finished(SetupOutcome::Failed),
                SetupEvent::Listed(_) => self.step,
            },
            SetupStep::Poll(i) => match &e {
                SetupEvent::Listed(names) => if list_contains(names, self.name.as_str()) {
                    SetupStep::Finished(SetupOutcome::AutoLoaded)
                } else if i < 3 {
                    SetupStep::Poll(i + 1)
                } else {
                    SetupStep::ManualLoad
                },
                SetupEvent::Failed(_) => SetupStep::Finished(SetupOutcome::Failed),
                SetupEvent::Succeeded => self.step,
            },
            SetupStep::ManualLoad => match &e {
                SetupEvent::Succeeded => SetupStep::Finished(SetupOutcome::ManuallyLoaded),
                SetupEvent::Failed(_) => SetupStep::Finished(SetupOutcome::Failed),
                SetupEvent::Listed(_) => self.step,
            },
            SetupStep::LockCheck => match &e {
                SetupEvent::Listed(names) => if list_contains(names, self.name.as_str()) {
                    SetupStep::Finished(SetupOutcome::NowLoaded)
                } else {
                    SetupStep::Finished(SetupOutcome::StillLocked)
                },
                SetupEvent::Failed(_) => SetupStep::Finished(SetupOutcome::Failed),
                SetupEvent::Succeeded => self.step,
            },
            SetupStep::Finished(_) => self.step,
        };
        let before = self.step;
        self.step = next;
        if before == next {
            SetupAction::Nothing
        } else {
            match next {
                SetupStep::CheckLoaded => SetupAction::ListWallets,
                SetupStep::Load => SetupAction::LoadWallet,
                SetupStep::Create => SetupAction::CreateWallet,
                SetupStep::Poll(_) => SetupAction::PauseThenList(500),
                SetupStep::ManualLoad => SetupAction::LoadWallet,
                SetupStep::LockCheck => SetupAction::PauseThenList(1000),
                SetupStep::Finished(o) => SetupAction::Finish(o),
            }
        }
    }
}

/// Every event either is ignored or brings the setup strictly closer to its
/// end, so a setup ends after at most nine answers; a finished setup
/// ignores everything.
pub proof fn lemma_setup_progress(step: SetupStep, name: Seq<char>, e: SetupEvent)
    requires
        step_wf(step),
    ensures
        setup_next(step, name, e) == step || remaining_steps(setup_next(step, name, e)) < remaining_steps(step),
        0 <= remaining_steps(setup_next(step, name, e)),
        step_wf(setup_next(step, name, e)),
        step matches SetupStep::Finished(_) ==> setup_next(step, name, e) == step,
{
}

/// A failed node call never ends a setup in success. Before the end, a
/// failure either leads to creating the wallet or to waiting out a lock,
/// both only after a failed load of an existing wallet, or it ends the
/// setup as failed; a failed load by hand fails the setup. Conversely,
/// every successful outcome follows an answer that was no failure.
pub proof fn lemma_failure_never_succeeds(step: SetupStep, name: Seq<char>, m: String, e: SetupEvent)
    requires
        step_wf(step),
        !(step is Finished),
    ensures
        ({
            let n = setup_next(step, name, SetupEvent::Failed(m));
            &&& n == SetupStep::Create || n == SetupStep::LockCheck || n == SetupStep::Finished(
                SetupOutcome::Failed,
            )
            &&& n == SetupStep::Create ==> step == SetupStep::Load
            &&& n == SetupStep::LockCheck ==> step == SetupStep::Load
            &&& step == SetupStep::ManualLoad ==> n == SetupStep::Finished(SetupOutcome::Failed)
        }),
        (setup_next(step, name, e) matches SetupStep::Finished(o) && o != SetupOutcome::Failed) ==> !(e is Failed),
{
}

/// Between the creation of the wallet and its load by hand there are
/// exactly four pauses of half a second: polls 0 to 3 each end in a pause
/// and only the fourth, unanswered, leads to the load by hand.
pub proof fn lemma_four_polls(i: u8, name: Seq<char>, names: Vec<String>)
    requires
        i <= 3,
        !names_include(names@, name),
    ensures
        i < 3 ==> setup_next(SetupStep::Poll(i), name, SetupEvent::Listed(names)) == SetupStep::Poll(
            (i + 1) as u8,
        ),
        i == 3 ==> setup_next(SetupStep::Poll(i), name, SetupEvent::Listed(names)) == SetupStep::ManualLoad,
        action_for(SetupStep::Create, SetupStep::Poll(0)) == SetupAction::PauseThenList(500),
{
}

} // verus!
