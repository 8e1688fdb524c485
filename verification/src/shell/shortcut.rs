//! Switching the launcher's activation shortcut. The new binding is made to
//! work before the old one is released; if any step fails, what was done is
//! undone, the previous shortcut stays active and the error is reported. The
//! steps themselves (the Win hook, the Start-menu provider, global shortcut
//! registration) are carried out by the caller, which reports each outcome.
//!
//! A switch requested while the launcher starts is retried while the shell
//! is not ready yet, unless a newer request superseded it.

use vstd::prelude::*;
use crate::shell::state::{shortcut_error, validate_shortcut, DEFAULT_SHORTCUT};
use crate::text::str_eq;

verus! {

/// How a switch to `combo` starts.
#[derive(Debug, PartialEq, Eq, Structural)]
pub enum ShortcutPlan {
    /// `combo` is already the active shortcut: nothing to do.
    AlreadyActive,
    /// `combo` is Win: the native hook takes the key.
    UseWinHook,
    /// `combo` is a key combination: it is registered as a global shortcut.
    RegisterCombo,
}

/// A request made for `expected` generation when `current` is the latest.
pub open spec fn superseded(expected: Option<u64>, current: u64) -> bool {
    match expected {
        Some(g) => g != current,
        None => false,
    }
}

pub open spec fn plan_for(active: Seq<char>, combo: Seq<char>) -> ShortcutPlan {
    if active == combo {
        ShortcutPlan::AlreadyActive
    } else if combo == DEFAULT_SHORTCUT@ {
        ShortcutPlan::UseWinHook
    } else {
        ShortcutPlan::RegisterCombo
    }
}

/// The shortcut error, then a superseded request (its generation is no
/// longer the current one), then an unchanged shortcut, then the plan for
/// Win or for a key combination.
pub fn shortcut_plan(active: &str, combo: &str, expected_generation: Option<u64>, current_generation: u64) -> (r:
    Result<ShortcutPlan, String>)
    ensures
        shortcut_error(combo@) matches Some(m) ==> (r matches Err(e) && e@ == m),
        shortcut_error(combo@) is None && superseded(expected_generation, current_generation) ==> (r matches Err(
            e,
        ) && e@ == "shortcut request was superseded"@),
        shortcut_error(combo@) is None && !superseded(expected_generation, current_generation) ==> r == Ok::<
            ShortcutPlan,
            String,
        >(plan_for(active@, combo@)),
{
    validate_shortcut(combo)?;
    match expected_generation {
        Some(g) => {
            if g != current_generation {
                return Err("shortcut request was superseded".to_string());
            }
        },
        None => {},
    }
    if str_eq(active, combo) {
        return Ok(ShortcutPlan::AlreadyActive);
    }
    if str_eq(combo, DEFAULT_SHORTCUT) {
        Ok(ShortcutPlan::UseWinHook)
    } else {
        Ok(ShortcutPlan::RegisterCombo)
    }
}

/// One step of a switch, for the caller to carry out.
#[derive(Debug)]
pub enum ShortcutAction {
    /// Claim the Start-menu provider; reports whether the provider now
    /// suppresses Win, or fails.
    ClaimProvider,
    /// Tell the Win hook whether the provider suppresses the key (cannot fail).
    SetProviderSuppression(bool),
    /// Turn the Win hook on or off; may fail.
    SetWinHook(bool),
    /// Put the Start-menu provider back; may fail.
    RestoreProvider,
    /// Register the new key combination; may fail.
    RegisterCombo,
    /// Release the new key combination (its outcome is not looked at).
    UnregisterNew,
    /// Release the previous key combination, if it is one (its outcome is not
    /// looked at).
    UnregisterOld,
    /// Record the new shortcut as the active one: the switch succeeded.
    Commit,
    /// The switch failed with this error; the previous shortcut stays.
    Fail(String),
}

/// What the caller reports back after carrying out an action.
#[derive(Debug)]
pub enum StepOutcome {
    Done,
    /// The provider was claimed; whether it suppresses Win.
    Claimed(bool),
    Failed(String),
}

/// Where a switch stands.
#[derive(Debug)]
pub enum SwitchStage {
    Start { win: bool },
    WinClaiming,
    WinSuppressionSet,
    WinHookEnabling,
    WinRollbackSuppression(String),
    WinRollbackProvider(String),
    WinReleasingOld,
    ComboRegistering,
    ComboHookDisabling,
    ComboRestoringProvider,
    ComboRollbackHook(String),
    ComboRollbackRegistration(String),
    ComboClearingSuppression,
    ComboReleasingOld,
    Committed,
    Failed,
}

/// The stages of a switch that has already failed: only undoing and the
/// final `Fail` remain.
pub open spec fn rolling_back(stage: SwitchStage) -> bool {
    ||| stage is WinRollbackSuppression
    ||| stage is WinRollbackProvider
    ||| stage is ComboRollbackHook
    ||| stage is ComboRollbackRegistration
    ||| stage is Failed
}

pub open spec fn is_failure(outcome: StepOutcome) -> bool {
    outcome is Failed
}

/// The next stage and action of a switch, from its stage and the outcome of
/// the action it asked for last (ignored where the switch does not look at
/// it).
pub open spec fn switch_step(stage: SwitchStage, outcome: StepOutcome) -> (SwitchStage, ShortcutAction) {
    match stage {
        SwitchStage::Start { win } => if win {
            (SwitchStage::WinClaiming, ShortcutAction::ClaimProvider)
        } else {
            (SwitchStage::ComboRegistering, ShortcutAction::RegisterCombo)
        },
        SwitchStage::WinClaiming => match outcome {
            StepOutcome::Failed(e) => (SwitchStage::Failed, ShortcutAction::Fail(e)),
            StepOutcome::Claimed(s) => (
                SwitchStage::WinSuppressionSet,
                ShortcutAction::SetProviderSuppression(s),
            ),
            StepOutcome::Done => (
                SwitchStage::WinSuppressionSet,
                ShortcutAction::SetProviderSuppression(false),
            ),
        },
        SwitchStage::WinSuppressionSet => (SwitchStage::WinHookEnabling, ShortcutAction::SetWinHook(true)),
        SwitchStage::WinHookEnabling => match outcome {
            StepOutcome::Failed(e) => (
                SwitchStage::WinRollbackSuppression(e),
                ShortcutAction::SetProviderSuppression(false),
            ),
            _ => (SwitchStage::WinReleasingOld, ShortcutAction::UnregisterOld),
        },
        SwitchStage::WinRollbackSuppression(e) => (
            SwitchStage::WinRollbackProvider(e),
            ShortcutAction::RestoreProvider,
        ),
        SwitchStage::WinRollbackProvider(e) => (SwitchStage::Failed, ShortcutAction::Fail(e)),
        SwitchStage::WinReleasingOld => (SwitchStage::Committed, ShortcutAction::Commit),
        SwitchStage::ComboRegistering => match outcome {
            StepOutcome::Failed(e) => (SwitchStage::Failed, ShortcutAction::Fail(e)),
            _ => (SwitchStage::ComboHookDisabling, ShortcutAction::SetWinHook(false)),
        },
        SwitchStage::ComboHookDisabling => match outcome {
            StepOutcome::Failed(e) => (
                SwitchStage::ComboRollbackRegistration(e),
                ShortcutAction::UnregisterNew,
            ),
            _ => (SwitchStage::ComboRestoringProvider, ShortcutAction::RestoreProvider),
        },
        SwitchStage::ComboRestoringProvider => match outcome {
            StepOutcome::Failed(e) => (SwitchStage::ComboRollbackHook(e), ShortcutAction::SetWinHook(true)),
            _ => (SwitchStage::ComboClearingSuppression, ShortcutAction::SetProviderSuppression(false)),
        },
        SwitchStage::ComboRollbackHook(e) => (
            SwitchStage::ComboRollbackRegistration(e),
            ShortcutAction::UnregisterNew,
        ),
        SwitchStage::ComboRollbackRegistration(e) => (SwitchStage::Failed, ShortcutAction::Fail(e)),
        SwitchStage::ComboClearingSuppression => (SwitchStage::ComboReleasingOld, ShortcutAction::UnregisterOld),
        SwitchStage::ComboReleasingOld => (SwitchStage::Committed, ShortcutAction::Commit),
        // A finished switch takes no further step.
        SwitchStage::Committed => (SwitchStage::Committed, ShortcutAction::Commit),
        SwitchStage::Failed => (SwitchStage::Failed, ShortcutAction::UnregisterNew),
    }
}

pub open spec fn finished(stage: SwitchStage) -> bool {
    stage is Committed || stage is Failed
}

/// The first stage of a switch planned as `plan` (`AlreadyActive` needs no
/// switch).
pub fn start_switch(win: bool) -> (r: SwitchStage)
    ensures
        r == (SwitchStage::Start { win }),
{
    SwitchStage::Start { win }
}

/// Advances a switch (see `switch_step`).
pub fn next_switch_step(stage: SwitchStage, outcome: StepOutcome) -> (r: (SwitchStage, ShortcutAction))
    requires
        !finished(stage),
    ensures
        r == switch_step(stage, outcome),
{
    match stage {
        SwitchStage::Start { win } => if win {
            (SwitchStage::WinClaiming, ShortcutAction::ClaimProvider)
        } else {
            (SwitchStage::ComboRegistering, ShortcutAction::RegisterCombo)
        },
        SwitchStage::WinClaiming => match outcome {
            StepOutcome::Failed(e) => (SwitchStage::Failed, ShortcutAction::Fail(e)),
            StepOutcome::Claimed(s) => (SwitchStage::WinSuppressionSet, ShortcutAction::SetProviderSuppression(s)),
            StepOutcome::Done => (SwitchStage::WinSuppressionSet, ShortcutAction::SetProviderSuppression(false)),
        },
        SwitchStage::WinSuppressionSet => (SwitchStage::WinHookEnabling, ShortcutAction::SetWinHook(true)),
        SwitchStage::WinHookEnabling => match outcome {
            StepOutcome::Failed(e) => (
                SwitchStage::WinRollbackSuppression(e),
                ShortcutAction::SetProviderSuppression(false),
            ),
            _ => (SwitchStage::WinReleasingOld, ShortcutAction::UnregisterOld),
        },
        SwitchStage::WinRollbackSuppression(e) => (SwitchStage::WinRollbackProvider(e), ShortcutAction::RestoreProvider),
        SwitchStage::WinRollbackProvider(e) => (SwitchStage::Failed, ShortcutAction::Fail(e)),
        SwitchStage::WinReleasingOld => (SwitchStage::Committed, ShortcutAction::Commit),
        SwitchStage::ComboRegistering => match outcome {
            StepOutcome::Failed(e) => (SwitchStage::Failed, ShortcutAction::Fail(e)),
            _ => (SwitchStage::ComboHookDisabling, ShortcutAction::SetWinHook(false)),
        },
        SwitchStage::ComboHookDisabling => match outcome {
            StepOutcome::Failed(e) => (SwitchStage::ComboRollbackRegistration(e), ShortcutAction::UnregisterNew),
            _ => (SwitchStage::ComboRestoringProvider, ShortcutAction::RestoreProvider),
        },
        SwitchStage::ComboRestoringProvider => match outcome {
            StepOutcome::Failed(e) => (SwitchStage::ComboRollbackHook(e), ShortcutAction::SetWinHook(true)),
            _ => (SwitchStage::ComboClearingSuppression, ShortcutAction::SetProviderSuppression(false)),
        },
        SwitchStage::ComboRollbackHook(e) => (SwitchStage::ComboRollbackRegistration(e), ShortcutAction::UnregisterNew),
        SwitchStage::ComboRollbackRegistration(e) => (SwitchStage::Failed, ShortcutAction::Fail(e)),
        SwitchStage::ComboClearingSuppression => (SwitchStage::ComboReleasingOld, ShortcutAction::UnregisterOld),
        SwitchStage::ComboReleasingOld => (SwitchStage::Committed, ShortcutAction::Commit),
        SwitchStage::Committed => (SwitchStage::Committed, ShortcutAction::Commit),
        SwitchStage::Failed => (SwitchStage::Failed, ShortcutAction::UnregisterNew),
    }
}

/// Once a step of a switch has failed, the switch only undoes what it did
/// and fails: it never commits, and never releases the previous shortcut.
pub proof fn law_failed_switch_never_commits(stage: SwitchStage, outcome: StepOutcome)
    requires
        rolling_back(stage),
        !finished(stage),
    ensures
        rolling_back(switch_step(stage, outcome).0),
        !(switch_step(stage, outcome).1 is Commit),
        !(switch_step(stage, outcome).1 is UnregisterOld),
{
}

/// The stages that wait for the outcome of a step that may fail.
pub open spec fn awaits_fallible_step(stage: SwitchStage) -> bool {
    ||| stage is WinClaiming
    ||| stage is WinHookEnabling
    ||| stage is ComboRegistering
    ||| stage is ComboHookDisabling
    ||| stage is ComboRestoringProvider
}

/// A step that fails turns the switch to undoing what it did, or ends it
/// failed when there is nothing to undo.
pub proof fn law_failure_rolls_back(stage: SwitchStage, e: String)
    requires
        awaits_fallible_step(stage),
    ensures
        rolling_back(switch_step(stage, StepOutcome::Failed(e)).0),
{
}

/// Undoing takes at most two more steps and ends with `Fail`, reporting the
/// error of the step that failed.
pub proof fn law_rollback_reports_the_failure(e: String, o1: StepOutcome, o2: StepOutcome)
    ensures
        ({
            let (s1, _a1) = switch_step(SwitchStage::WinRollbackSuppression(e), o1);
            switch_step(s1, o2) == (SwitchStage::Failed, ShortcutAction::Fail(e))
        }),
        ({
            let (s1, _a1) = switch_step(SwitchStage::ComboRollbackHook(e), o1);
            switch_step(s1, o2) == (SwitchStage::Failed, ShortcutAction::Fail(e))
        }),
        switch_step(SwitchStage::WinRollbackProvider(e), o1) == (SwitchStage::Failed, ShortcutAction::Fail(e)),
        switch_step(SwitchStage::ComboRollbackRegistration(e), o1) == (
            SwitchStage::Failed,
            ShortcutAction::Fail(e),
        ),
{
}

/// The previous shortcut is released only once the new one works: after
/// the Win hook came on, or after the new combination is registered, the
/// hook is off and the provider is back.
pub proof fn law_old_shortcut_released_only_after_success(stage: SwitchStage, outcome: StepOutcome)
    requires
        !finished(stage),
    ensures
        switch_step(stage, outcome).1 is UnregisterOld ==> (stage is WinHookEnabling && !is_failure(outcome))
            || stage is ComboClearingSuppression,
        switch_step(stage, outcome).1 is Commit ==> stage is WinReleasingOld || stage is ComboReleasingOld,
{
}

/// Attempts made right away when the launcher starts, before the retries.
pub const STARTUP_SHELL_RETRY_ATTEMPTS: usize = 120;

/// What to do after a startup attempt to apply the shortcut.
#[derive(Debug, PartialEq, Eq, Structural)]
pub enum StartupRetry {
    /// It worked: done.
    Done,
    /// Wait, then try again if no newer request came.
    WaitAndRetry,
    /// Every attempt failed: report that the taskbar integration was
    /// unavailable.
    ReportFailure,
}

/// The startup application of the saved shortcut: one attempt, then up to
/// `STARTUP_SHELL_RETRY_ATTEMPTS` retries, each only while the request is
/// still the current one.
pub struct StartupShortcut {
    pub generation: u64,
    pub retries_used: usize,
}

impl StartupShortcut {
    pub fn new(generation: u64) -> (r: Self)
        ensures
            r.generation == generation,
            r.retries_used == 0,
    {
        StartupShortcut { generation, retries_used: 0 }
    }

    /// Whether to (re)try now: only while no newer request superseded this one.
    pub fn still_current(&self, current_generation: u64) -> (r: bool)
        ensures
            r == (current_generation == self.generation),
    {
        current_generation == self.generation
    }

    /// After an attempt: done when it worked; else another retry while any
    /// is left, else the failure is reported.
    pub fn after_attempt(&mut self, succeeded: bool) -> (r: StartupRetry)
        requires
            old(self).retries_used <= STARTUP_SHELL_RETRY_ATTEMPTS,
        ensures
            final(self).generation == old(self).generation,
            final(self).retries_used <= STARTUP_SHELL_RETRY_ATTEMPTS,
            succeeded ==> r == StartupRetry::Done && final(self).retries_used == old(self).retries_used,
            !succeeded && old(self).retries_used < STARTUP_SHELL_RETRY_ATTEMPTS ==> r
                == StartupRetry::WaitAndRetry && final(self).retries_used == old(self).retries_used + 1,
            !succeeded && old(self).retries_used == STARTUP_SHELL_RETRY_ATTEMPTS ==> r
                == StartupRetry::ReportFailure && final(self).retries_used == old(self).retries_used,
    {
        if succeeded {
            return StartupRetry::Done;
        }
        if self.retries_used < STARTUP_SHELL_RETRY_ATTEMPTS {
            self.retries_used = self.retries_used + 1;
            StartupRetry::WaitAndRetry
        } else {
            StartupRetry::ReportFailure
        }
    }
}

} // verus!
