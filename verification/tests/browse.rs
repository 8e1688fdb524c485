use prism::catalog::browse::{
    browse_action, browse_candidate, browse_cmp, expand_path_input, path_entry, path_input, BrowseAction,
    BrowseCandidate, BrowseList, PathInput,
};
use std::cmp::Ordering;

fn child(name: &str, is_directory: bool, needle: Option<&str>) -> Option<BrowseCandidate> {
    browse_candidate(
        name,
        format!("C:\\base\\{}", name.trim()),
        "C:\\base".to_string(),
        is_directory,
        needle,
    )
}

fn names(list: BrowseList) -> Vec<String> {
    list.into_entries().into_iter().map(|entry| entry.name).collect()
}

#[test]
fn browsing_without_a_needle_lists_folders_first_then_names() {
    let mut list = BrowseList::new(8);
    for (name, is_dir) in [("notes.txt", false), ("Saved", true), ("alpha.md", false), ("Zeta", true)] {
        list.offer(child(name, is_dir, None).unwrap());
    }
    assert_eq!(names(list), vec!["Saved", "Zeta", "alpha.md", "notes.txt"]);
}

#[test]
fn browsing_keeps_only_the_best_limit_children() {
    let mut list = BrowseList::new(2);
    for (name, is_dir) in [("d.txt", false), ("c.txt", false), ("b.txt", false), ("Folder", true), ("a.txt", false)] {
        list.offer(child(name, is_dir, None).unwrap());
    }
    assert_eq!(list.len(), 2);
    assert_eq!(names(list), vec!["Folder", "a.txt"]);
}

#[test]
fn a_needle_scores_and_filters_children() {
    let saved = child("Saved", true, Some("sav")).unwrap();
    assert_eq!(saved.score, 4000);
    assert_eq!(saved.lower_name, "saved");
    assert!(child("notes.txt", false, Some("sav")).is_none());
    let exact = child("sav", false, Some("sav")).unwrap();
    assert_eq!(exact.score, 5000);

    let mut list = BrowseList::new(8);
    list.offer(saved);
    list.offer(exact);
    assert_eq!(names(list), vec!["sav", "Saved"]);
}

#[test]
fn an_empty_needle_scores_every_child_zero() {
    let c = child("Report.pdf", false, Some("")).unwrap();
    assert_eq!(c.score, 0);
    assert_eq!(c.entry.path, "C:\\base\\Report.pdf");
    assert_eq!(c.entry.parent, "C:\\base");
    assert!(c.entry.thumbnail.is_none());
}

#[test]
fn blank_child_names_are_skipped_and_names_are_trimmed() {
    assert!(child("   ", false, None).is_none());
    let c = child("  Music  ", true, None).unwrap();
    assert_eq!(c.entry.name, "Music");
    assert_eq!(c.lower_name, "music");
    assert!(c.entry.is_directory);
}

#[test]
fn browse_order_compares_score_kind_name_then_path() {
    let a = child("b", false, Some("b")).unwrap();
    let b = child("bb", false, Some("b")).unwrap();
    assert_eq!(browse_cmp(&a, &b), Ordering::Less);
    assert_eq!(browse_cmp(&b, &a), Ordering::Greater);
    assert_eq!(browse_cmp(&a, &a), Ordering::Equal);
    let folder = child("z", true, None).unwrap();
    let file = child("a", false, None).unwrap();
    assert_eq!(browse_cmp(&folder, &file), Ordering::Less);
}

#[test]
fn a_file_path_lists_only_itself() {
    let entry = path_entry(" notes.txt ", "C:\\base\\notes.txt".to_string(), "C:\\base".to_string(), false)
        .unwrap();
    assert_eq!(entry.name, "notes.txt");
    assert_eq!(entry.parent, "C:\\base");
    assert!(path_entry("  ", "C:\\".to_string(), String::new(), true).is_none());
}

use prism::catalog::browse::quick_access_entries;

#[test]
fn quick_access_keeps_existing_known_folders_in_table_order() {
    let folders = vec![
        Some("C:\\Users\\a".to_string()),
        None,
        Some("C:\\Users\\a\\Downloads".to_string()),
        Some("C:\\Users\\a\\Documents".to_string()),
        Some("C:\\Users\\a\\Pictures".to_string()),
        None,
        Some("C:\\Users\\a\\Videos".to_string()),
    ];
    let is_dir = vec![true, true, true, false, true, true, true];
    let entries = quick_access_entries(&folders, &is_dir);
    let got: Vec<(&str, &str, &str)> =
        entries.iter().map(|e| (e.name.as_str(), e.path.as_str(), e.kind.as_str())).collect();
    assert_eq!(
        got,
        vec![
            ("Home", "C:\\Users\\a", "home"),
            ("Downloads", "C:\\Users\\a\\Downloads", "downloads"),
            ("Pictures", "C:\\Users\\a\\Pictures", "pictures"),
            ("Videos", "C:\\Users\\a\\Videos", "videos"),
        ]
    );
}

#[test]
fn typed_paths_are_read_before_the_environment() {
    assert_eq!(path_input("   "), None);
    assert_eq!(path_input("C:\\a\0b"), None);
    assert_eq!(path_input("  C:\\Users  "), Some(PathInput::Plain("C:\\Users".into())));
    assert_eq!(
        path_input("%APPDATA%\\Prism"),
        Some(PathInput::Variable {
            name: "APPDATA".into(),
            rest: "\\Prism".into(),
            text: "%APPDATA%\\Prism".into()
        })
    );
    assert_eq!(path_input("%unclosed"), Some(PathInput::Plain("%unclosed".into())));
    assert_eq!(
        path_input("%%x"),
        Some(PathInput::Variable { name: "".into(), rest: "x".into(), text: "%%x".into() })
    );
    assert_eq!(path_input("~"), Some(PathInput::Home { rest: "".into(), text: "~".into() }));
    assert_eq!(
        path_input("~/Docs"),
        Some(PathInput::Home { rest: "/Docs".into(), text: "~/Docs".into() })
    );
    assert_eq!(path_input("~user"), Some(PathInput::Plain("~user".into())));
}

#[test]
fn typed_paths_expand_with_what_the_environment_gave() {
    let var = path_input("%APPDATA%\\Prism").unwrap();
    assert_eq!(expand_path_input(&var, Some("C:\\Roaming")), "C:\\Roaming\\Prism");
    assert_eq!(expand_path_input(&var, None), "%APPDATA%\\Prism");
    let home = path_input("~\\Desktop").unwrap();
    assert_eq!(expand_path_input(&home, Some("C:\\Users\\me")), "C:\\Users\\me\\Desktop");
    assert_eq!(expand_path_input(&home, None), "~\\Desktop");
    let plain = path_input("D:\\x").unwrap();
    assert_eq!(expand_path_input(&plain, Some("ignored")), "D:\\x");
}

#[test]
fn browsing_decides_from_what_the_path_is() {
    assert_eq!(browse_action(false, true, false, Some(true)), BrowseAction::NotAPath);
    assert_eq!(browse_action(true, true, false, Some(true)), BrowseAction::ListDirectory);
    assert_eq!(browse_action(true, false, true, Some(true)), BrowseAction::ShowFile);
    assert_eq!(browse_action(true, false, false, Some(true)), BrowseAction::ListParentMatching);
    assert_eq!(browse_action(true, false, false, Some(false)), BrowseAction::Nothing);
    assert_eq!(browse_action(true, false, false, None), BrowseAction::NotAPath);
}
