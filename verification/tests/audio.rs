use prism::shell::audio::{
    classify_taskbar_element, clean_app_display_name, executable_stem_from_app_id,
    humanize_app_stem, normalize_executable_stem, process_matches_executable,
    resolve_app_executable_stem, taskbar_osd_title, InspectedElement, TaskbarTarget,
};

fn element(name: &str, class_name: &str, automation_id: &str) -> InspectedElement {
    InspectedElement {
        name: name.to_string(),
        class_name: class_name.to_string(),
        automation_id: automation_id.to_string(),
    }
}

fn is_master(t: &TaskbarTarget) -> bool {
    matches!(t, TaskbarTarget::Master)
}

fn is_unknown(t: &TaskbarTarget) -> bool {
    matches!(t, TaskbarTarget::Unknown)
}

fn app_target(stem: &str, title: &str) -> TaskbarTarget {
    TaskbarTarget::Application {
        display_title: title.to_string(),
        executable_stem: stem.to_string(),
    }
}

#[test]
fn test_clean_app_display_name() {
    assert_eq!(
        clean_app_display_name("Google Chrome - 1 running window pinned", "Appid: Chrome"),
        "Google Chrome"
    );
    assert_eq!(clean_app_display_name("Discord - 2 running windows", "Appid: Discord"), "Discord");
    assert_eq!(clean_app_display_name("Fortnite  ", ""), "Fortnite");
    assert_eq!(clean_app_display_name("Spotify Free", "Appid: Spotify.Spotify"), "Spotify Free");
    assert_eq!(clean_app_display_name("", "Appid: Chrome"), "Chrome");
}

#[test]
fn inspection_failure_is_unknown_instead_of_master() {
    assert!(is_unknown(&classify_taskbar_element(None)));
}

#[test]
fn task_list_buttons_resolve_to_the_application() {
    let button = element("Spotify", "TaskListButton", "Appid: Spotify.Spotify");
    match classify_taskbar_element(Some(button)) {
        TaskbarTarget::Application { display_title, executable_stem } => {
            assert_eq!(display_title, "Spotify");
            assert_eq!(executable_stem, "spotify");
        }
        other => panic!("unexpected {other:?}"),
    }
}

#[test]
fn only_positive_taskbar_background_identification_is_master() {
    assert!(is_unknown(&classify_taskbar_element(Some(element("", "", "")))));
    assert!(is_master(&classify_taskbar_element(Some(element("", "TaskbarFrame", "TaskbarFrame")))));
    assert!(is_unknown(&classify_taskbar_element(Some(element(
        "Network",
        "SystemTrayIcon",
        "SystemTrayIcon"
    )))));
    assert!(is_master(&classify_taskbar_element(Some(element(
        "Volume 72%",
        "SystemTrayIcon",
        "SystemTrayIcon"
    )))));
}

#[test]
fn executable_matching_is_exact_and_case_insensitive() {
    assert!(process_matches_executable("Music.exe", "music"));
    assert!(process_matches_executable("MUSIC.EXE", "music"));
    assert!(!process_matches_executable("MusicBee.exe", "music"));
    assert!(!process_matches_executable("Music.exe", "musicbee"));
}

#[test]
fn full_path_app_ids_resolve_to_the_file_stem() {
    assert_eq!(
        normalize_executable_stem(r"C:\Users\hi\AppData\Roaming\Spotify\Spotify.exe"),
        "spotify"
    );
    assert_eq!(normalize_executable_stem("/opt/app/player"), "player");
    assert!(process_matches_executable(
        "Spotify.exe",
        r"C:\Users\hi\AppData\Roaming\Spotify\Spotify.exe"
    ));
}

#[test]
fn ambiguous_app_ids_do_not_resolve_an_executable() {
    assert_eq!(executable_stem_from_app_id("Appid: Discord"), Some("discord".to_string()));
    assert_eq!(executable_stem_from_app_id("Appid: Chrome.exe"), Some("chrome".to_string()));
    assert_eq!(executable_stem_from_app_id("Appid: Spotify.Spotify"), Some("spotify".to_string()));
    assert_eq!(executable_stem_from_app_id("Appid: Vendor.Player"), None);
    assert_eq!(executable_stem_from_app_id("Appid: Package!App"), None);
}

#[test]
fn test_taskbar_background_elements_classify_as_master() {
    assert!(is_master(&classify_taskbar_element(Some(element(
        "",
        "Windows.UI.Composition.DesktopWindowContentBridge",
        ""
    )))));
    assert!(is_master(&classify_taskbar_element(Some(element(
        "Running applications",
        "TaskListOverlayWnd",
        "TaskList"
    )))));
    assert!(is_master(&classify_taskbar_element(Some(element("", "Shell_SecondaryTrayWnd", "")))));
    for auto_id in ["StartButton", "SearchButton", "ClockButton", "NotificationCenterButton"] {
        assert!(is_master(&classify_taskbar_element(Some(element("", "Button", auto_id)))));
    }
}

#[test]
fn test_packaged_and_multisegment_app_resolution() {
    assert_eq!(
        resolve_app_executable_stem("Appid: SpotifyAB.SpotifyMusic_zbprm3161gvg!Spotify", "Spotify"),
        Some("spotify".to_string())
    );
    assert_eq!(
        resolve_app_executable_stem("Appid: Microsoft.WindowsTerminal_8wekyb3d8bbwe!App", "Windows Terminal"),
        Some("windowsterminal".to_string())
    );
    assert_eq!(
        resolve_app_executable_stem("Appid: VideoLAN.VLC", "VLC media player"),
        Some("vlc".to_string())
    );
    assert_eq!(
        resolve_app_executable_stem("Appid: Microsoft.VisualStudioCode", "Visual Studio Code"),
        Some("code".to_string())
    );
}

#[test]
fn osd_titles_use_clean_product_names() {
    assert_eq!(taskbar_osd_title(&app_target("googlechrome", "Google Chrome and pi docs")), "Google Chrome");
    assert_eq!(taskbar_osd_title(&app_target("discord", "General | The ...")), "Discord");
    assert_eq!(taskbar_osd_title(&app_target("code", "Prism - Visual Studio Code")), "VS Code");
    assert_eq!(taskbar_osd_title(&app_target("windowsterminal", "Windows Terminal")), "Terminal");
    assert_eq!(taskbar_osd_title(&TaskbarTarget::Master), "Master Volume");
}

#[test]
fn osd_titles_humanize_unknown_stems() {
    assert_eq!(taskbar_osd_title(&app_target("mstsc", "Irrelevant - window title")), "Mstsc");
    assert_eq!(taskbar_osd_title(&app_target("obs64", "Irrelevant - window title")), "Obs64");
    assert_eq!(taskbar_osd_title(&app_target("<unresolved>", "Some App")), "Some App");
}

#[test]
fn humanizing_splits_words() {
    assert_eq!(humanize_app_stem("windows-terminal"), "Windows terminal");
    assert_eq!(humanize_app_stem("myCoolApp"), "My Cool App");
    assert_eq!(humanize_app_stem("__"), "__");
    assert_eq!(humanize_app_stem(""), "");
    assert_eq!(humanize_app_stem("microsoftedge"), "Microsoft Edge");
    assert_eq!(humanize_app_stem("vlc"), "Vlc");
}

#[test]
fn title_words_resolve_when_ids_do_not() {
    assert_eq!(resolve_app_executable_stem("", "(Notepad++) - x"), Some("notepad".to_string()));
    assert_eq!(resolve_app_executable_stem("", "Application"), None);
    assert_eq!(resolve_app_executable_stem("", "ab c"), None);
    match classify_taskbar_element(Some(element("My Tool", "TaskbarItem", ""))) {
        TaskbarTarget::Application { display_title, executable_stem } => {
            assert_eq!(display_title, "My Tool");
            assert_eq!(executable_stem, "my tool");
        }
        other => panic!("unexpected {other:?}"),
    }
}
