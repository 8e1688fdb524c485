use prism::apps::{strip_icons, AppEntry};
use prism::shell::drag::existing_path_candidates;

fn app(name: &str, icon: Option<&str>) -> AppEntry {
    AppEntry {
        name: name.to_string(),
        normalized_name: name.to_lowercase(),
        app_id: format!("id-{name}"),
        icon: icon.map(str::to_string),
        path: Some(format!("C:\\Apps\\{name}.exe")),
        args: Some("--flag".into()),
        working_directory: None,
        location: None,
        aumid: None,
        source: "startMenu".to_string(),
        keywords: vec!["k".into()],
    }
}

#[test]
fn stripping_icons_keeps_everything_else() {
    let list = strip_icons(vec![app("Paint", Some("data:image/png;base64,AAAA")), app("Notepad", None)]);
    assert_eq!(list.len(), 2);
    assert!(list.iter().all(|entry| entry.icon.is_none()));
    assert_eq!(list[0].name, "Paint");
    assert_eq!(list[0].args.as_deref(), Some("--flag"));
    assert_eq!(list[1].app_id, "id-Notepad");
    assert_eq!(list[1].keywords, vec!["k".to_string()]);
}

#[test]
fn only_the_first_paths_of_reasonable_length_are_checked() {
    let mut paths: Vec<String> = (0..70).map(|i| format!("C:\\file{i}")).collect();
    paths[1] = "x".repeat(4097);
    paths[2] = "y".repeat(4096);
    let checked = existing_path_candidates(&paths);
    assert_eq!(checked.len(), 63);
    assert_eq!(checked[0], "C:\\file0");
    assert_eq!(checked[1].len(), 4096);
    assert_eq!(checked.last().unwrap(), "C:\\file63");
}
