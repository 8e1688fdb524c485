use prism::catalog::scanner::{
    is_own_data_dir, should_descend, EntryStep, EnumerationGuard, IO_REPARSE_TAG_CLOUD,
};

#[test]
fn a_name_returned_four_times_in_a_row_stalls_the_directory() {
    let mut guard = EnumerationGuard::new();
    assert_eq!(guard.step("."), EntryStep::Ignore);
    assert_eq!(guard.step(".."), EntryStep::Ignore);
    assert_eq!(guard.step("a.txt"), EntryStep::Record);
    assert_eq!(guard.step("a.txt"), EntryStep::Repeat);
    assert_eq!(guard.step("a.txt"), EntryStep::Repeat);
    assert_eq!(guard.step("a.txt"), EntryStep::Repeat);
    assert_eq!(guard.step("a.txt"), EntryStep::Stall);
}

#[test]
fn a_new_name_resets_the_repeat_count() {
    let mut guard = EnumerationGuard::new();
    assert_eq!(guard.step("a"), EntryStep::Record);
    assert_eq!(guard.step("a"), EntryStep::Repeat);
    assert_eq!(guard.step("a"), EntryStep::Repeat);
    assert_eq!(guard.step("b"), EntryStep::Record);
    assert_eq!(guard.repeats, 0);
    assert_eq!(guard.step("b"), EntryStep::Repeat);
    assert_eq!(guard.step(""), EntryStep::Ignore);
    assert_eq!(guard.repeats, 1);
}

#[test]
fn descent_skips_excluded_roots_and_non_cloud_reparse_points() {
    assert!(should_descend(false, 0, "documents", true));
    assert!(!should_descend(false, 0, "$recycle.bin", true));
    assert!(!should_descend(false, 0, "system volume information", true));
    assert!(!should_descend(true, 0xA000_000C, "link", true));
    assert!(should_descend(true, IO_REPARSE_TAG_CLOUD | 0x3000, "onedrive", true));
    assert!(!should_descend(false, 0, "documents", false));
}

#[test]
fn the_launchers_own_data_directory_is_not_walked() {
    assert!(is_own_data_dir(r"c:\users\a\appdata\local\prism\catalog", r"C:\Users\A\AppData\Local\Prism\"));
    assert!(is_own_data_dir(r"c:\users\a\appdata\local\prism", r"C:\Users\A\AppData\Local\Prism"));
    assert!(!is_own_data_dir(r"c:\users\a\documents", r"C:\Users\A\AppData\Local\Prism"));
}

use prism::query::open_windows::{is_skipped_class, listed_window, style_allows_switch, PopupWalk};

#[test]
fn shell_windows_and_untitled_or_own_windows_are_not_listed() {
    assert!(is_skipped_class("shell_traywnd"));
    assert!(is_skipped_class("MSCTFIME UI"));
    assert!(!is_skipped_class("Notepad"));
    assert!(listed_window(10, true, true, "Notepad", "notes.txt", 42, 7));
    assert!(!listed_window(0, true, true, "Notepad", "notes.txt", 42, 7));
    assert!(!listed_window(10, false, true, "Notepad", "notes.txt", 42, 7));
    assert!(!listed_window(10, true, true, "Progman", "Program Manager", 42, 7));
    assert!(!listed_window(10, true, true, "Notepad", "", 42, 7));
    assert!(!listed_window(10, true, true, "Notepad", "notes.txt", 7, 7));
    assert!(!listed_window(10, true, true, "Notepad", "notes.txt", 0, 7));
}

#[test]
fn tool_windows_are_switch_targets_only_when_they_ask() {
    assert!(style_allows_switch(0));
    assert!(!style_allows_switch(0x80));
    assert!(style_allows_switch(0x80 | 0x4_0000));
}

#[test]
fn the_popup_walk_ends_on_the_visible_last_active_popup() {
    // Owned window 5 whose root owner 1 has an invisible popup 3, then 5.
    let mut walk = PopupWalk::new(5, 1);
    assert!(walk.wants_popup());
    walk.follow(3, false);
    assert!(walk.wants_popup());
    walk.follow(5, true);
    assert!(!walk.wants_popup());
    assert!(walk.is_switch_target(5, 0));
    assert!(!walk.is_switch_target(5, 0x80));
    // A window without owner whose last active popup is itself.
    let mut alone = PopupWalk::new(9, 0);
    alone.follow(9, false);
    assert!(alone.is_switch_target(9, 0));
    // A window hidden behind another visible popup is not the target.
    let mut hidden = PopupWalk::new(4, 1);
    hidden.follow(2, true);
    assert!(!hidden.is_switch_target(4, 0));
}

use prism::catalog::scanner::{filetime_from_unix, missing_children, u64_from_halves, UNIX_EPOCH_FILETIME};
use prism::catalog::watcher::{shards_to_attach, watch_shards, RootChild, WatchShard};

fn child(name: &str, is_dir: bool, is_symlink: bool) -> RootChild {
    RootChild { name: name.into(), path: format!("D:\\{name}"), is_dir, is_symlink }
}

#[test]
fn a_volume_is_watched_as_its_root_and_one_shard_per_top_level_directory() {
    let shards = watch_shards(
        "D:\\".into(),
        vec![
            child("Users", true, false),
            child("pagefile.sys", false, false),
            child("$Recycle.Bin", true, false),
            child("Link", true, true),
            child("Projects", true, false),
        ],
    );
    let roots: Vec<(&str, bool)> = shards.iter().map(|s| (s.root.as_str(), s.recursive)).collect();
    assert_eq!(roots, vec![("D:\\", false), ("D:\\Users", true), ("D:\\Projects", true)]);
}

#[test]
fn only_new_top_level_directories_are_attached() {
    let discovered = vec![
        WatchShard { root: "D:\\".into(), recursive: false },
        WatchShard { root: "D:\\Users".into(), recursive: true },
        WatchShard { root: "D:\\New".into(), recursive: true },
    ];
    let watched = vec!["d:\\users".to_string()];
    assert_eq!(shards_to_attach(&discovered, &watched), vec!["D:\\New".to_string()]);
}

#[test]
fn times_and_sizes_convert_to_catalog_units() {
    assert_eq!(filetime_from_unix(0, 0), UNIX_EPOCH_FILETIME);
    assert_eq!(filetime_from_unix(1, 250), UNIX_EPOCH_FILETIME + 10_000_002);
    assert_eq!(u64_from_halves(1, 2), 0x1_0000_0002);
    assert_eq!(u64_from_halves(0, u32::MAX), u32::MAX as u64);
}

#[test]
fn a_stalled_listing_is_incomplete() {
    let mut guard = EnumerationGuard::new();
    guard.step("a");
    assert!(guard.listing_complete());
    for _ in 0..4 {
        guard.step("a");
    }
    assert!(!guard.listing_complete());
}

#[test]
fn children_missing_from_a_complete_listing_are_removed() {
    let existing = vec![
        ("c:\\base\\a.txt".to_string(), false),
        ("c:\\base\\gone".to_string(), true),
        ("c:\\base\\b.txt".to_string(), false),
        ("c:\\base\\old.txt".to_string(), false),
    ];
    let seen = vec!["c:\\base\\b.txt".to_string(), "c:\\base\\a.txt".to_string(), "c:\\base\\new".to_string()];
    assert_eq!(
        missing_children(&existing, &seen),
        vec![("c:\\base\\gone".to_string(), true), ("c:\\base\\old.txt".to_string(), false)]
    );
    assert!(missing_children(&existing[..1], &seen).is_empty());
    assert_eq!(missing_children(&existing, &[]), existing);
}
