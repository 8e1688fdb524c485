use prism::catalog::watcher::{fold_events, parse_notify_batch, WatcherEvent, WatcherEventQueue};
use prism::shell::customization::{
    check_icon_capacity, combine_code, combine_name, custom_start_icon, decode_icon_upload,
    decode_png, new_custom_icon_id, searchbox_code, searchbox_mode_name, thickness_codes,
    thickness_name, valid_custom_icon_id, StartIcon,
};
use prism::shell::hook::{
    is_start_command, on_get_message, on_mouse, point_is_in_start_button, HookState, HookWork,
    CONTROL_START_RECT_BOTTOM, CONTROL_START_RECT_LEFT, CONTROL_START_RECT_RIGHT,
    CONTROL_START_RECT_TOP, EVENT_START_RECT_CONFIGURED, SC_TASKLIST, WM_LBUTTONDOWN,
    WM_LBUTTONUP, WM_NULL, WM_SETTINGCHANGE, WM_SYSCOMMAND,
};
use prism::shell::icon_file::{encode_icon_file, icon_magic, parse_icon_file, IconPixels};

#[test]
fn taskbar_preference_codes_have_stable_fallbacks() {
    assert_eq!(thickness_name(0, 1), "compact");
    assert_eq!(thickness_name(1, 0), "compact");
    assert_eq!(thickness_name(1, 1), "default");
    assert_eq!(thickness_name(1, 2), "adaptive");
    assert_eq!(combine_name(0), "always");
    assert_eq!(combine_name(1), "whenFull");
    assert_eq!(combine_name(2), "never");
    assert_eq!(combine_name(99), "always");
}

#[test]
fn searchbox_mode_codes_have_stable_fallbacks() {
    assert_eq!(searchbox_mode_name(0), "hidden");
    assert_eq!(searchbox_mode_name(1), "icon");
    assert_eq!(searchbox_mode_name(2), "box");
    assert_eq!(searchbox_mode_name(3), "iconWithLabel");
    assert_eq!(searchbox_mode_name(99), "icon");
}

#[test]
fn taskbar_choices_map_to_registry_codes() {
    assert_eq!(thickness_codes("compact"), Ok((0, 0)));
    assert_eq!(thickness_codes("default"), Ok((1, 1)));
    assert_eq!(thickness_codes("adaptive"), Ok((1, 2)));
    assert_eq!(
        thickness_codes("huge"),
        Err("unsupported taskbar thickness 'huge'".to_string())
    );
    assert_eq!(combine_code("whenFull"), Ok(1));
    assert!(combine_code("sometimes").is_err());
    assert_eq!(searchbox_code("button"), Ok(1));
    assert_eq!(searchbox_code("searchBox"), Ok(2));
    assert_eq!(searchbox_code("buttonWithLabel"), Ok(3));
    assert_eq!(searchbox_mode_name(searchbox_code("hidden").unwrap()), "hidden");
}

#[test]
fn start_icon_choices_round_trip() {
    for name in ["system", "gem", "diamond", "custom"] {
        assert_eq!(StartIcon::parse(name).unwrap().name(), name);
    }
    assert_eq!(
        StartIcon::parse("rainbow"),
        Err("unsupported Start icon 'rainbow'".to_string())
    );
}

#[test]
fn icon_input_rejects_empty_and_non_png_data() {
    assert_eq!(
        decode_png(&[]).unwrap_err(),
        "Choose a PNG smaller than 2 MB"
    );
    assert_eq!(
        decode_png(b"not-png").unwrap_err(),
        "The selected file is not a valid PNG"
    );
}

#[test]
fn icon_uploads_are_base64_and_previews_are_base64() {
    assert_eq!(decode_icon_upload("aGk=").unwrap(), b"hi".to_vec());
    assert_eq!(
        decode_icon_upload("not base64!").unwrap_err(),
        "The icon data was corrupted in transit"
    );
    let icon = custom_start_icon("legacy".to_string(), b"hi!");
    assert_eq!(icon.id, "legacy");
    assert_eq!(icon.preview, "aGkh");
    assert_eq!(custom_start_icon("x".to_string(), b"h").preview, "aA==");
}

#[test]
fn custom_icon_ids_are_checked_and_generated() {
    assert!(valid_custom_icon_id("legacy"));
    assert!(valid_custom_icon_id("0123456789abcdefABCDEF0123456789"));
    assert!(!valid_custom_icon_id("0123456789abcdef"));
    assert!(!valid_custom_icon_id("0123456789abcdefg123456789abcdef"));
    let id = new_custom_icon_id(0x1f);
    assert_eq!(id, "0000000000000000000000000000001f");
    assert!(valid_custom_icon_id(&id));
    assert_eq!(new_custom_icon_id(u128::MAX), "ffffffffffffffffffffffffffffffff");
    assert!(check_icon_capacity(11).is_ok());
    assert_eq!(
        check_icon_capacity(12).unwrap_err(),
        "Remove an icon before adding another (maximum 12)"
    );
}

#[test]
fn icon_file_header_is_stable() {
    assert_eq!(icon_magic(), b"PRISICON1".to_vec());
}

#[test]
fn icon_files_round_trip_and_reject_bad_headers() {
    let icon = IconPixels { width: 1, height: 2, rgba: vec![1, 2, 3, 4, 5, 6, 7, 8] };
    let bytes = encode_icon_file(&icon);
    assert_eq!(&bytes[..9], b"PRISICON1");
    assert_eq!(&bytes[9..17], &[1, 0, 0, 0, 2, 0, 0, 0]);
    let back = parse_icon_file(&bytes).unwrap();
    assert_eq!((back.width, back.height), (1, 2));
    assert_eq!(back.rgba, icon.rgba);
    assert_eq!(parse_icon_file(b"PRISICON").unwrap_err(), -12);
    assert_eq!(parse_icon_file(&bytes[..20]).unwrap_err(), -13);
    let mut wrong_magic = bytes.clone();
    wrong_magic[0] = b'X';
    assert_eq!(parse_icon_file(&wrong_magic).unwrap_err(), -12);
}

#[test]
fn identifies_only_the_shell_start_command() {
    assert!(is_start_command(WM_SYSCOMMAND, SC_TASKLIST));
    assert!(is_start_command(WM_SYSCOMMAND, SC_TASKLIST | 0x000f));
    assert!(!is_start_command(WM_SYSCOMMAND, 0xF000));
    assert!(!is_start_command(WM_NULL, SC_TASKLIST));
}

#[test]
fn start_button_is_configured_edge_by_edge_and_clicks_are_paired() {
    let bridge = 0xC123;
    let mut hook = HookState::new();
    on_get_message(&mut hook, bridge, bridge, CONTROL_START_RECT_LEFT, 0, true, false);
    on_get_message(&mut hook, bridge, bridge, CONTROL_START_RECT_TOP, 1040, true, false);
    on_get_message(&mut hook, bridge, bridge, CONTROL_START_RECT_RIGHT, 48, true, false);
    assert!(!hook.start.ready);
    let outcome =
        on_get_message(&mut hook, bridge, bridge, CONTROL_START_RECT_BOTTOM, 1080, true, true);
    assert!(outcome.swallow);
    assert_eq!(
        outcome.work,
        HookWork::Report { event: EVENT_START_RECT_CONFIGURED, detail: 1, refresh_icon: true }
    );
    assert!(point_is_in_start_button(&hook, 10, 1050));
    assert!(!point_is_in_start_button(&hook, 48, 1050));

    let down = on_mouse(&mut hook, WM_LBUTTONDOWN, 10, 1050, true);
    assert!(down.swallow && !down.report_click);
    let up = on_mouse(&mut hook, WM_LBUTTONUP, 500, 500, true);
    assert!(up.swallow && !up.report_click);
    let stray_up = on_mouse(&mut hook, WM_LBUTTONUP, 10, 1050, true);
    assert!(!stray_up.swallow);

    let shell_start = on_get_message(&mut hook, bridge, WM_SYSCOMMAND, SC_TASKLIST, 0, true, false);
    assert!(shell_start.swallow);
    let no_observer = on_get_message(&mut hook, bridge, WM_SYSCOMMAND, SC_TASKLIST, 0, false, false);
    assert!(!no_observer.swallow);
    let settings = on_get_message(&mut hook, bridge, WM_SETTINGCHANGE, 0, 0, true, true);
    assert_eq!(settings.work, HookWork::RefreshIcon);
}

fn record(next: u32, action: u32, name: &str) -> Vec<u8> {
    let units: Vec<u16> = name.encode_utf16().collect();
    let mut bytes = Vec::new();
    bytes.extend_from_slice(&next.to_le_bytes());
    bytes.extend_from_slice(&action.to_le_bytes());
    bytes.extend_from_slice(&((units.len() * 2) as u32).to_le_bytes());
    for unit in units {
        bytes.extend_from_slice(&unit.to_le_bytes());
    }
    while bytes.len() % 4 != 0 || bytes.len() < 16 {
        bytes.push(0);
    }
    bytes
}

fn batch(records: &[(u32, &str)]) -> Vec<u8> {
    let mut out = Vec::new();
    for (index, (action, name)) in records.iter().enumerate() {
        let placeholder = record(0, *action, name);
        let next = if index + 1 == records.len() { 0 } else { placeholder.len() as u32 };
        out.extend(record(next, *action, name));
    }
    out
}

fn describe(event: &WatcherEvent) -> String {
    match event {
        WatcherEvent::Added(p) => format!("+{p}"),
        WatcherEvent::Removed(p) => format!("-{p}"),
        WatcherEvent::Renamed { from, to } => format!("{from}>{to}"),
        WatcherEvent::Overflow(p) => format!("!{p}"),
    }
}

#[test]
fn notification_batches_become_ordered_events() {
    let bytes = batch(&[
        (1, "new.txt"),
        (2, "old.txt"),
        (4, "draft.txt"),
        (5, "final.txt"),
        (3, "content-only.txt"),
        (1, "$Recycle.Bin\\x"),
        (1, "Prism\\cache.db"),
    ]);
    let mut pending = None;
    let events = parse_notify_batch(&bytes, bytes.len(), "C:\\", "c:\\prism", &mut pending);
    let described: Vec<String> = events.iter().map(describe).collect();
    assert_eq!(
        described,
        vec!["+C:\\new.txt", "-C:\\old.txt", "C:\\draft.txt>C:\\final.txt"]
    );
    assert!(pending.is_none());

    // A rename split across batches is paired; a lone new name is an addition.
    let first = batch(&[(4, "a.txt")]);
    let events = parse_notify_batch(&first, first.len(), "D:\\data", "c:\\prism", &mut pending);
    assert!(events.is_empty());
    assert_eq!(pending.as_deref(), Some("D:\\data\\a.txt"));
    let second = batch(&[(5, "b.txt"), (5, "c.txt")]);
    let events = parse_notify_batch(&second, second.len(), "D:\\data", "c:\\prism", &mut pending);
    let described: Vec<String> = events.iter().map(describe).collect();
    assert_eq!(described, vec!["D:\\data\\a.txt>D:\\data\\b.txt", "+D:\\data\\c.txt"]);

    // Truncated data ends the batch.
    let events = parse_notify_batch(&bytes, 10, "C:\\", "c:\\prism", &mut pending);
    assert!(events.is_empty());
}

#[test]
fn event_queue_collapses_overload_to_one_overflow_marker() {
    let no_dirs = |_: &str| false;
    let mut queue = WatcherEventQueue::with_limit(2, r"C:\".to_string());
    queue.push(WatcherEvent::Added(r"C:\one.txt".to_string()), &no_dirs);
    queue.push(WatcherEvent::Added(r"C:\two.txt".to_string()), &no_dirs);
    queue.push(WatcherEvent::Added(r"C:\three.txt".to_string()), &no_dirs);
    queue.push(WatcherEvent::Added(r"C:\four.txt".to_string()), &no_dirs);

    assert_eq!(queue.len(), 1);
    assert!(matches!(queue.iter().first(), Some(WatcherEvent::Overflow(_))));

    let drained = queue.take_all();
    assert_eq!(drained.len(), 1);
    queue.push(WatcherEvent::Added(r"C:\after.txt".to_string()), &no_dirs);
    assert_eq!(queue.len(), 1, "draining reopens the bounded queue");
}

#[test]
fn collapsed_queue_keeps_one_marker_per_top_level_directory() {
    let dirs = |path: &str| path == r"C:\Users" || path == r"C:\Data";
    let mut queue = WatcherEventQueue::with_limit(1, r"C:\".to_string());
    queue.push(WatcherEvent::Added(r"C:\Users\a.txt".to_string()), &dirs);
    queue.push(WatcherEvent::Removed(r"C:\Data\b.txt".to_string()), &dirs);
    let mut scopes: Vec<String> = queue.iter().iter().map(describe).collect();
    scopes.sort();
    assert_eq!(scopes, vec![r"!C:\Data", r"!C:\Users"]);
    queue.push(WatcherEvent::Added(r"C:\Users\c.txt".to_string()), &dirs);
    queue.push(WatcherEvent::Added(r"C:\loose.txt".to_string()), &dirs);
    let mut scopes: Vec<String> = queue.iter().iter().map(describe).collect();
    scopes.sort();
    assert_eq!(scopes, vec![r"!C:\", r"!C:\Data", r"!C:\Users"]);
    queue.push(WatcherEvent::Overflow(r"C:\Users".to_string()), &dirs);
    assert_eq!(queue.len(), 3);
    queue.clear();
    assert_eq!(queue.len(), 0);
}

#[test]
fn drained_events_fold_to_their_final_state() {
    let events = vec![
        WatcherEvent::Added(r"C:\kept.txt".to_string()),
        WatcherEvent::Added(r"C:\kept.txt".to_string()),
        WatcherEvent::Removed(r"C:\gone.txt".to_string()),
        WatcherEvent::Added(r"C:\gone.txt".to_string()),
        WatcherEvent::Added(r"C:\dropped.txt".to_string()),
        WatcherEvent::Removed(r"C:\dropped.txt".to_string()),
        WatcherEvent::Renamed { from: r"C:\old.txt".to_string(), to: r"C:\new.txt".to_string() },
        WatcherEvent::Overflow(r"C:\".to_string()),
        WatcherEvent::Overflow(r"C:\".to_string()),
    ];
    let fold = fold_events(&events);
    let mut touched = fold.touched.clone();
    touched.sort();
    assert_eq!(touched, vec![r"C:\gone.txt".to_string(), r"C:\kept.txt".to_string()]);
    assert_eq!(fold.removed, vec![r"C:\dropped.txt".to_string()]);
    assert_eq!(fold.dirty_scopes, vec![r"C:\".to_string()]);
    assert_eq!(
        fold.renames,
        vec![(r"C:\old.txt".to_string(), r"C:\new.txt".to_string())]
    );
    let empty = fold_events(&[]);
    assert!(empty.touched.is_empty() && empty.removed.is_empty() && empty.dirty_scopes.is_empty());
}
