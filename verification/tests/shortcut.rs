use prism::shell::shortcut::{
    next_switch_step, shortcut_plan, start_switch, ShortcutAction, ShortcutPlan, StartupRetry, StartupShortcut,
    StepOutcome, SwitchStage, STARTUP_SHELL_RETRY_ATTEMPTS,
};

/// Runs a switch, answering each step from `outcomes` in order.
fn run(win: bool, mut outcomes: Vec<StepOutcome>) -> Vec<ShortcutAction> {
    let mut stage = start_switch(win);
    let mut actions = Vec::new();
    let mut outcome = StepOutcome::Done;
    loop {
        let (next, action) = next_switch_step(stage, outcome);
        let finished = matches!(action, ShortcutAction::Commit | ShortcutAction::Fail(_));
        actions.push(action);
        if finished {
            return actions;
        }
        stage = next;
        outcome = if outcomes.is_empty() { StepOutcome::Done } else { outcomes.remove(0) };
    }
}

#[test]
fn plans_follow_validation_supersession_and_the_active_shortcut() {
    assert!(shortcut_plan("Win", "Ctrl+Q", None, 1).unwrap_err().starts_with("shortcut 'Ctrl+Q' is not supported"));
    assert_eq!(shortcut_plan("Win", "Ctrl+Alt+P", Some(1), 2).unwrap_err(), "shortcut request was superseded");
    assert_eq!(shortcut_plan("Win", "Win", Some(2), 2).unwrap(), ShortcutPlan::AlreadyActive);
    assert_eq!(shortcut_plan("Ctrl+Alt+P", "Win", None, 7).unwrap(), ShortcutPlan::UseWinHook);
    assert_eq!(shortcut_plan("Win", "Ctrl+Alt+Space", Some(3), 3).unwrap(), ShortcutPlan::RegisterCombo);
}

#[test]
fn switching_to_win_claims_the_provider_before_releasing_the_old_combo() {
    let actions = run(true, vec![StepOutcome::Claimed(true), StepOutcome::Done, StepOutcome::Done, StepOutcome::Done]);
    assert!(matches!(actions[0], ShortcutAction::ClaimProvider));
    assert!(matches!(actions[1], ShortcutAction::SetProviderSuppression(true)));
    assert!(matches!(actions[2], ShortcutAction::SetWinHook(true)));
    assert!(matches!(actions[3], ShortcutAction::UnregisterOld));
    assert!(matches!(actions[4], ShortcutAction::Commit));
}

#[test]
fn a_failed_win_hook_restores_the_provider_and_keeps_the_old_shortcut() {
    let actions = run(true, vec![StepOutcome::Claimed(false), StepOutcome::Done, StepOutcome::Failed("hook".into())]);
    assert!(matches!(actions[2], ShortcutAction::SetWinHook(true)));
    assert!(matches!(actions[3], ShortcutAction::SetProviderSuppression(false)));
    assert!(matches!(actions[4], ShortcutAction::RestoreProvider));
    assert!(matches!(&actions[5], ShortcutAction::Fail(e) if e == "hook"));
    assert!(!actions.iter().any(|a| matches!(a, ShortcutAction::UnregisterOld | ShortcutAction::Commit)));
}

#[test]
fn switching_to_a_combo_registers_it_first_and_undoes_on_failure() {
    let ok = run(false, vec![StepOutcome::Done, StepOutcome::Done, StepOutcome::Done, StepOutcome::Done, StepOutcome::Done]);
    assert!(matches!(ok[0], ShortcutAction::RegisterCombo));
    assert!(matches!(ok[1], ShortcutAction::SetWinHook(false)));
    assert!(matches!(ok[2], ShortcutAction::RestoreProvider));
    assert!(matches!(ok[3], ShortcutAction::SetProviderSuppression(false)));
    assert!(matches!(ok[4], ShortcutAction::UnregisterOld));
    assert!(matches!(ok[5], ShortcutAction::Commit));

    let failed = run(false, vec![StepOutcome::Done, StepOutcome::Done, StepOutcome::Failed("restore".into())]);
    assert!(matches!(failed[3], ShortcutAction::SetWinHook(true)));
    assert!(matches!(failed[4], ShortcutAction::UnregisterNew));
    assert!(matches!(&failed[5], ShortcutAction::Fail(e) if e == "restore"));

    let refused = run(false, vec![StepOutcome::Failed("taken".into())]);
    assert_eq!(refused.len(), 2);
    assert!(matches!(&refused[1], ShortcutAction::Fail(e) if e == "taken"));
}

#[test]
fn startup_application_retries_a_bounded_number_of_times() {
    let mut startup = StartupShortcut::new(5);
    assert!(startup.still_current(5));
    assert!(!startup.still_current(6));
    for _ in 0..STARTUP_SHELL_RETRY_ATTEMPTS {
        assert_eq!(startup.after_attempt(false), StartupRetry::WaitAndRetry);
    }
    assert_eq!(startup.after_attempt(false), StartupRetry::ReportFailure);
    let mut second = StartupShortcut::new(1);
    assert_eq!(second.after_attempt(false), StartupRetry::WaitAndRetry);
    assert_eq!(second.after_attempt(true), StartupRetry::Done);
}

#[test]
fn a_finished_stage_is_recognisable() {
    let (stage, _) = next_switch_step(SwitchStage::WinReleasingOld, StepOutcome::Done);
    assert!(matches!(stage, SwitchStage::Committed));
}
