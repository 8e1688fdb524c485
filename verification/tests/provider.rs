use prism::shell::drag::{
    check_drag_paths, drag_result, is_dragging, query_continue_drag, DragResult, DragState,
    DragStep,
};
use prism::shell::provider::{
    claim_journal, journal_has_token, journal_token, restore_step,
    run_start_restore_watchdog_if_requested, supported_provider_version, watchdog_request,
    RestoreJournal, RestoreStep, WatchdogRequest, DO_NOTHING, RESTORE_ARGUMENT, WATCHDOG_ARGUMENT,
};

fn args(items: &[&str]) -> Vec<String> {
    items.iter().map(|s| s.to_string()).collect()
}

#[test]
fn every_startallback_v3_build_uses_provider_suppression() {
    assert!(supported_provider_version((3, 0, 0, 0)));
    assert!(supported_provider_version((3, 9, 24, 5377)));
    assert!(supported_provider_version((3, u16::MAX, u16::MAX, u16::MAX)));
    assert!(!supported_provider_version((2, 9, 24, 5377)));
    assert!(!supported_provider_version((4, 0, 0, 0)));
}

#[test]
fn claiming_records_the_exact_setting_and_restoring_puts_it_back() {
    assert_eq!(claim_journal(Some(DO_NOTHING), 7), None);
    let existed = claim_journal(Some(1), 11).unwrap();
    assert_eq!(
        existed,
        RestoreJournal { version: 2, token: 11, value_existed: true, value: 1 }
    );
    let absent = claim_journal(None, 12).unwrap();
    assert_eq!(
        absent,
        RestoreJournal { version: 2, token: 12, value_existed: false, value: 0 }
    );
    assert_eq!(restore_step(existed, Some(Some(DO_NOTHING))), RestoreStep::Restore(Some(1)));
    assert_eq!(restore_step(absent, Some(Some(DO_NOTHING))), RestoreStep::Restore(None));
    assert_eq!(restore_step(existed, Some(Some(1))), RestoreStep::KeepCurrent);
    assert_eq!(restore_step(existed, None), RestoreStep::RetireJournal);
    let old = RestoreJournal { version: 1, ..existed };
    assert_eq!(restore_step(old, Some(Some(DO_NOTHING))), RestoreStep::Unsupported);
    assert!(journal_has_token(Some(existed), 11));
    assert!(!journal_has_token(Some(existed), 12));
    assert!(!journal_has_token(None, 11));
    assert_eq!(journal_token(5, 1), 5 | (1 << 32));
}

#[test]
fn watchdog_command_lines_are_read_exactly() {
    assert!(matches!(watchdog_request(&[]), WatchdogRequest::Ordinary));
    assert!(!run_start_restore_watchdog_if_requested(&[]));
    assert!(matches!(watchdog_request(&args(&["--minimized"])), WatchdogRequest::Ordinary));
    assert!(run_start_restore_watchdog_if_requested(&args(&[RESTORE_ARGUMENT])));
    assert!(matches!(
        watchdog_request(&args(&[RESTORE_ARGUMENT, "C:\\j.json"])),
        WatchdogRequest::Restore(Some(ref p)) if p == "C:\\j.json"
    ));
    assert!(matches!(watchdog_request(&args(&[RESTORE_ARGUMENT])), WatchdogRequest::Restore(None)));
    match watchdog_request(&args(&[WATCHDOG_ARGUMENT, "+42", "C:\\j.json", "18446744073709551615"])) {
        WatchdogRequest::Watch { parent_pid, journal, token } => {
            assert_eq!(parent_pid, 42);
            assert_eq!(journal, "C:\\j.json");
            assert_eq!(token, u64::MAX);
        }
        other => panic!("unexpected {other:?}"),
    }
    for bad in [
        args(&[WATCHDOG_ARGUMENT]),
        args(&[WATCHDOG_ARGUMENT, "4294967296", "j", "1"]),
        args(&[WATCHDOG_ARGUMENT, "-1", "j", "1"]),
        args(&[WATCHDOG_ARGUMENT, "1", "j"]),
        args(&[WATCHDOG_ARGUMENT, "1", "j", "18446744073709551616"]),
        args(&[WATCHDOG_ARGUMENT, "1", "j", "+"]),
    ] {
        assert!(matches!(watchdog_request(&bad), WatchdogRequest::Malformed), "{bad:?}");
        assert!(run_start_restore_watchdog_if_requested(&bad));
    }
}

#[test]
fn drag_state_is_inactive_by_default() {
    assert!(!is_dragging(&DragState::new()));
}

#[test]
fn drag_state_tracks_a_running_drag() {
    let mut state = DragState::new();
    state.begin();
    assert!(is_dragging(&state));
    state.end();
    assert!(!is_dragging(&state));
    assert_eq!(drag_result(true), DragResult::Dropped);
    assert_eq!(drag_result(false), DragResult::Cancelled);
    assert_eq!(query_continue_drag(true, true), DragStep::Cancel);
    assert_eq!(query_continue_drag(false, false), DragStep::Drop);
    assert_eq!(query_continue_drag(false, true), DragStep::Continue);
}

#[test]
fn get_file_data_object_rejects_empty_paths() {
    let err = check_drag_paths(&[], &[]).unwrap_err();
    assert!(err.contains("No file paths provided"));
}

#[test]
fn get_file_data_object_rejects_nonexistent_paths() {
    let missing = vec![r"C:\nonexistent_file_12345.png".to_string()];
    let err = check_drag_paths(&missing, &[false]).unwrap_err();
    assert!(err.contains("does not exist"));
    assert_eq!(err, r"C:\nonexistent_file_12345.png does not exist");
    assert!(check_drag_paths(&missing, &[true]).is_ok());
}
