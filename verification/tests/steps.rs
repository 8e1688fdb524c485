use prism::catalog::db::{apply_gate, ApplyError, ApplyGate, SubtreeWalk};
use prism::catalog::path::{resolve_path, ParentWalk, PathNode, PathResolution, WalkStep};
use prism::catalog::search::ResultPicker;
use prism::catalog::watcher::{reader_step, ReaderAction, ReaderEvent, ReaderNext, ReaderState};
use prism::query::jev::IntentStore;
use prism::shell::power::PowerAction;
use prism::shell::taskbar_alignment::{alignment_plan, Alignment, AlignmentPlan};
use prism::text::from_utf16_lossy;
use std::collections::HashMap;

fn node(frn: u64, parent: u64, name: &str) -> PathNode {
    PathNode { frn, parent_frn: parent, name: name.into() }
}

/// Drives the walk from a table, recording every lookup it asks for.
fn drive(nodes: &HashMap<u64, PathNode>, frn: u64, mount: &str) -> (PathResolution, Vec<u64>) {
    let mut walk = ParentWalk::new(frn, mount.to_string());
    let mut asked = Vec::new();
    loop {
        match walk.next_step() {
            WalkStep::Finished(resolution) => return (resolution, asked),
            WalkStep::Lookup(next) => {
                asked.push(next);
                let found = nodes.get(&next).map(|n| node(n.frn, n.parent_frn, &n.name));
                if let Some(resolution) = walk.answer(found) {
                    return (resolution, asked);
                }
            }
        }
    }
}

fn show(r: &PathResolution) -> String {
    format!("{r:?}")
}

fn resolved(path: &str) -> String {
    show(&PathResolution::Resolved(path.into()))
}

fn table(entries: &[(u64, u64, &str)]) -> HashMap<u64, PathNode> {
    entries.iter().map(|(f, p, n)| (*f, node(*f, *p, n))).collect()
}

#[test]
fn the_driven_walk_asks_each_parent_once_in_chain_order() {
    let nodes = table(&[(5, 5, "."), (10, 5, "Users"), (20, 10, "a"), (30, 20, "notes.txt")]);
    let (resolution, asked) = drive(&nodes, 30, "C:\\");
    assert_eq!(show(&resolution), resolved("C:\\Users\\a\\notes.txt"));
    assert_eq!(asked, vec![30, 20, 10, 5]);
    let list: Vec<PathNode> = nodes.values().map(|n| node(n.frn, n.parent_frn, &n.name)).collect();
    assert_eq!(show(&resolve_path(30, "C:\\", &list)), show(&resolution));
}

#[test]
fn the_driven_walk_stops_at_a_missing_or_repeated_node() {
    let orphan = table(&[(30, 20, "x")]);
    assert_eq!(show(&drive(&orphan, 30, "C:\\").0), show(&PathResolution::Orphaned { missing_frn: 20 }));
    let cycle = table(&[(1, 2, "a"), (2, 1, "b")]);
    let (resolution, asked) = drive(&cycle, 1, "C:\\");
    assert_eq!(show(&resolution), show(&PathResolution::Cycle { frn: 1 }));
    assert_eq!(asked, vec![1, 2]);
}

#[test]
fn a_bare_drive_mount_joins_without_a_separator() {
    let nodes = table(&[(5, 5, "."), (7, 5, "dir")]);
    assert_eq!(show(&drive(&nodes, 7, "C:").0), resolved("C:dir"));
    assert_eq!(show(&drive(&nodes, 7, "D:\\Mounted").0), resolved("D:\\Mounted\\dir"));
}

#[test]
fn the_picker_takes_existing_distinct_paths_up_to_the_limit() {
    let mut picker = ResultPicker::new(2);
    assert!(picker.wants_more());
    assert!(!picker.offer("C:\\gone.txt", false));
    assert!(picker.offer("C:\\A.txt", true));
    assert!(!picker.offer("c:\\a.TXT", true));
    assert!(picker.wants_more());
    assert!(picker.offer("C:\\b.txt", true));
    assert!(!picker.wants_more());
}

#[test]
fn refusals_carry_the_users_messages() {
    let power = PowerAction::parse("hibernate").unwrap_err();
    assert_eq!(power.message(), "unsupported power action 'hibernate'");
    let mut store = IntentStore::new();
    let intent = store.remember("my eyes hurt", "no.such.action").unwrap_err();
    assert_eq!(intent.message(), "unknown action id 'no.such.action'");
}

#[test]
fn right_alignment_needs_every_taskbar_to_be_classic() {
    let refused = alignment_plan(Alignment::Right, 2, 1).unwrap_err();
    assert!(refused.starts_with("Right alignment requires the StartAllBack classic taskbar"));
    assert!(alignment_plan(Alignment::Right, 0, 0).is_err());
    assert_eq!(
        alignment_plan(Alignment::Right, 2, 2).unwrap(),
        AlignmentPlan { move_classic: true, move_companion_only: false, write_windows_setting: false }
    );
    assert_eq!(
        alignment_plan(Alignment::Center, 1, 0).unwrap(),
        AlignmentPlan { move_classic: false, move_companion_only: true, write_windows_setting: true }
    );
    assert_eq!(
        alignment_plan(Alignment::Left, 0, 0).unwrap(),
        AlignmentPlan { move_classic: false, move_companion_only: true, write_windows_setting: true }
    );
}

#[test]
fn batches_need_the_saved_generation_and_move_forward() {
    assert_eq!(apply_gate(None, None, 7, 100), Err(ApplyError::NoActiveGeneration));
    assert_eq!(apply_gate(Some("7"), None, 7, 100), Err(ApplyError::NoActiveGeneration));
    assert_eq!(apply_gate(None, Some(50), 7, 100), Err(ApplyError::NoActiveGeneration));
    assert_eq!(apply_gate(Some("8"), Some(50), 7, 100), Err(ApplyError::JournalChanged));
    assert_eq!(apply_gate(Some("7"), Some(100), 7, 100), Ok(ApplyGate::AlreadyApplied));
    assert_eq!(apply_gate(Some("7"), Some(120), 7, 100), Ok(ApplyGate::AlreadyApplied));
    assert_eq!(apply_gate(Some("7"), Some(50), 7, 100), Ok(ApplyGate::Apply));
    assert_eq!(
        apply_gate(Some("18446744073709551615"), Some(0), u64::MAX, 1),
        Ok(ApplyGate::Apply)
    );
    assert_eq!(
        ApplyError::NoActiveGeneration.message(),
        "cannot apply journal changes without an active NTFS generation"
    );
    assert_eq!(ApplyError::JournalChanged.message(), "journal ID changed while applying a batch");
}

/// Collects a deleted node and its stored descendants from (frn, parent) rows.
fn doomed(rows: &[(u64, u64)], root: u64) -> (Vec<u64>, Vec<u64>) {
    let mut walk = SubtreeWalk::new(root);
    let mut asked = Vec::new();
    while let Some(node) = walk.next_node() {
        asked.push(node);
        let children: Vec<u64> = rows.iter().filter(|r| r.1 == node).map(|r| r.0).collect();
        walk.add_children(&children);
    }
    (walk.into_doomed(), asked)
}

#[test]
fn deleting_a_directory_takes_its_whole_subtree() {
    let rows = [(2, 1), (3, 2), (4, 2), (5, 4), (9, 8)];
    let (all, asked) = doomed(&rows, 2);
    assert_eq!(all, vec![2, 3, 4, 5]);
    assert_eq!(asked, vec![2, 3, 4, 5]);
    let (leaf, _) = doomed(&rows, 9);
    assert_eq!(leaf, vec![9]);
}

#[test]
fn a_cycle_in_stored_parents_is_walked_once() {
    let rows = [(2, 3), (3, 2)];
    let (all, asked) = doomed(&rows, 2);
    assert_eq!(asked, vec![2, 3]);
    assert_eq!(all, vec![2, 3, 2]);
}

#[test]
fn utf16_names_decode_with_unpaired_surrogates_replaced() {
    assert_eq!(from_utf16_lossy(&[0x48, 0xD83D, 0xDE00, 0x69]), "H\u{1F600}i");
    assert_eq!(from_utf16_lossy(&[0xD800, 0x41, 0xDC00]), "\u{FFFD}A\u{FFFD}");
    assert_eq!(from_utf16_lossy(&[]), "");
}

fn step(state: ReaderState, event: ReaderEvent) -> (ReaderState, ReaderAction) {
    reader_step(state, event)
}

#[test]
fn the_reader_reopens_after_failures_and_reads_on_after_success() {
    let state = ReaderState::new();
    let (state, action) = step(state, ReaderEvent::Opened(false));
    assert_eq!(
        action,
        ReaderAction { report_overflow: true, parse_batch: false, close_handle: false, wait_ms: Some(250), next: ReaderNext::Open }
    );
    let (state, action) = step(state, ReaderEvent::Opened(false));
    assert_eq!(action.wait_ms, Some(500));
    let (mut state, action) = step(state, ReaderEvent::Opened(true));
    assert_eq!(action.next, ReaderNext::Read);
    assert!(state.open);
    state.pending_rename = Some("C:\\old".to_string());
    let (state, action) = step(state, ReaderEvent::Read { success: true, bytes: 0 });
    assert_eq!(
        action,
        ReaderAction { report_overflow: true, parse_batch: false, close_handle: false, wait_ms: None, next: ReaderNext::Read }
    );
    assert_eq!(state.pending_rename.as_deref(), Some("C:\\old"));
    let (state, action) = step(state, ReaderEvent::Read { success: true, bytes: 64 });
    assert!(action.parse_batch && !action.report_overflow);
    let (state, action) = step(state, ReaderEvent::Read { success: false, bytes: 0 });
    assert_eq!(
        action,
        ReaderAction { report_overflow: true, parse_batch: false, close_handle: true, wait_ms: Some(250), next: ReaderNext::Open }
    );
    assert!(!state.open);
    let (state, _) = step(state, ReaderEvent::Opened(true));
    assert_eq!(state.pending_rename, None);
    let (state, action) = step(state, ReaderEvent::Stop);
    assert_eq!(action.next, ReaderNext::Exit);
    assert!(action.close_handle);
    assert!(!state.open);
}
