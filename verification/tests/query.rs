use prism::apps::AppEntry;
use prism::query::catalog::{actions, execute as run_action, get, search, ActionEffect};
use prism::query::jev::{map_static, normalize_phrase, resolve, IntentStore};
use prism::query::open_windows::{search as search_windows, OpenWindow};
use prism::query::score::{score_text, score_with_keywords};
use prism::query::{accept_intent, empty_phase1, execute, phase1, ExecuteError, Phase1Kind, RecentCommand};

fn app(name: &str, source: &str) -> AppEntry {
    AppEntry {
        name: name.to_string(),
        normalized_name: name
            .to_lowercase()
            .replace(|ch: char| !ch.is_ascii_alphanumeric(), ""),
        app_id: format!("id-{name}"),
        icon: None,
        path: Some(format!("C:\\Apps\\{name}.exe")),
        args: None,
        working_directory: None,
        location: None,
        aumid: None,
        source: source.to_string(),
        keywords: Vec::new(),
    }
}

// ---- score ----

#[test]
fn exact_title_outranks_prefix() {
    let exact = score_text("display", "Display").unwrap();
    let prefix = score_text("dis", "Display").unwrap();
    assert!(exact > prefix);
}

#[test]
fn keyword_match_is_weaker_than_title() {
    let title = score_with_keywords("night", "Night Light", &["blue light"]).unwrap();
    let keyword = score_with_keywords("blue light", "Night Light", &["blue light"]).unwrap();
    assert!(title >= 800);
    assert!(keyword > 0);
}

#[test]
fn rejects_unrelated_strings() {
    assert_eq!(score_text("zzzz", "Night Light"), None);
}

#[test]
fn score_tiers_have_exact_values() {
    assert_eq!(score_text("display", "Display"), Some(1000));
    assert_eq!(score_text("dis", "Display"), Some(903));
    assert_eq!(score_text("play", "Display"), Some(804));
    assert_eq!(score_text("", "Display"), None);
    // A keyword-only match counts 50 less than the same match on the title.
    assert_eq!(score_with_keywords("blue light", "Night Light", &["blue light"]), Some(950));
}

// ---- catalog ----

#[test]
fn required_actions_are_present() {
    assert!(!actions().is_empty());
    for id in [
        "settings.nightlight",
        "settings.display",
        "settings.hdr",
        "settings.bluetooth",
        "settings.sound",
        "settings.storagepolicies",
        "settings.powersleep",
        "settings.windowsupdate",
        "settings.network-status",
        "settings.easeofaccess-narrator",
        "audio.mute",
        "audio.unmute",
        "audio.toggle-mute",
        "power.lock",
        "power.sleep",
        "power.shutdown",
        "power.restart",
    ] {
        assert!(get(id).is_some(), "missing catalog action {id}");
    }
}

#[test]
fn night_light_matches_direct_query() {
    let hits = search("night light", 4);
    assert_eq!(hits[0].0.id, "settings.nightlight");
}

#[test]
fn narrator_is_in_the_typed_catalog() {
    let hits = search("narrator", 4);
    assert_eq!(hits[0].0.id, "settings.easeofaccess-narrator");
}

#[test]
fn storage_sense_matches_cleanup_keyword() {
    let hits = search("disk cleanup", 4);
    assert!(hits
        .iter()
        .any(|(action, _)| action.id == "settings.storagepolicies"));
}

#[test]
fn ids_are_unique() {
    let all = actions();
    let mut ids: Vec<_> = all.iter().map(|action| action.id).collect();
    ids.sort_unstable();
    ids.dedup();
    assert_eq!(ids.len(), all.len());
}

#[test]
fn search_respects_the_limit() {
    assert!(search("settings", 3).len() <= 3);
    assert!(search("zzzzqqq", 8).is_empty());
}

#[test]
fn running_an_action_reports_its_effect() {
    let mute = get("audio.mute").unwrap();
    assert_eq!(run_action(&mute), Ok(ActionEffect::SetMute(true)));
    let lock = get("power.lock").unwrap();
    assert_eq!(run_action(&lock), Ok(ActionEffect::Power("lock")));
    let night = get("settings.nightlight").unwrap();
    assert!(matches!(run_action(&night), Ok(ActionEffect::OpenSettings(uri)) if uri.starts_with("ms-settings:")));
}

// ---- intent mapping ----

#[test]
fn distilled_phrases_map_to_catalog_ids() {
    assert_eq!(map_static("my eyes hurt"), Some("settings.nightlight"));
    assert_eq!(map_static("kill audio"), Some("audio.mute"));
    assert_eq!(map_static("clean space"), Some("settings.storagepolicies"));
}

#[test]
fn single_generic_word_does_not_false_match() {
    assert_eq!(map_static("hurt"), None);
    assert_eq!(map_static("space"), None);
}

#[test]
fn substring_inside_another_word_does_not_match() {
    assert_eq!(map_static("unlock pc"), None);
    assert_eq!(map_static("block pc"), None);
    assert_eq!(map_static("unlock computer"), None);
}

#[test]
fn longer_query_still_hits_a_multiword_phrase() {
    assert_eq!(map_static("my eyes hurt tonight"), Some("settings.nightlight"));
}

#[test]
fn accepted_pairs_win_over_the_static_table() {
    let mut store = IntentStore::new();
    store.remember("eyeburn", "settings.nightlight").expect("remember");
    assert_eq!(resolve("eyeburn", &store), Some("settings.nightlight"));
}

#[test]
fn rejected_unknown_action_ids() {
    let mut store = IntentStore::new();
    assert!(store.remember("hello", "not.an.action").is_err());
}

#[test]
fn remembered_phrase_is_looked_up_after_normalisation() {
    let mut store = IntentStore::new();
    store.remember("  Eye   BURN!  ", "settings.nightlight").unwrap();
    assert_eq!(store.lookup("eye burn").as_deref(), Some("settings.nightlight"));
    // A later pairing for the same phrase replaces the earlier one.
    store.remember("eye burn", "audio.mute").unwrap();
    assert_eq!(store.lookup("EYE BURN").as_deref(), Some("audio.mute"));
}

#[test]
fn installed_pairs_keep_the_last_value_per_phrase() {
    let mut store = IntentStore::new();
    store.install(vec![
        ("eyeburn".to_string(), "audio.mute".to_string()),
        ("other".to_string(), "power.lock".to_string()),
        ("eyeburn".to_string(), "settings.nightlight".to_string()),
    ]);
    assert_eq!(store.lookup("eyeburn").as_deref(), Some("settings.nightlight"));
    assert_eq!(store.lookup("other").as_deref(), Some("power.lock"));
}

#[test]
fn phrases_normalise_to_lowercase_words() {
    assert_eq!(normalize_phrase("  My  EYES, hurt! "), "my eyes hurt");
    assert_eq!(normalize_phrase("?!"), "");
}

#[test]
fn normalising_twice_changes_nothing() {
    for phrase in ["  My  EYES, hurt! ", "Lock\tthe PC!!", "x1 Y2\n-- z3", "?!", "", "Grüße, ÜBER Straße!", "Ωμέγα  ΣΊΓΜΑ"] {
        let once = normalize_phrase(phrase);
        assert_eq!(normalize_phrase(&once), once);
    }
    assert_eq!(normalize_phrase("Lock\tthe PC!!"), "lock the pc");
    assert_eq!(normalize_phrase("Grüße, ÜBER Straße!"), "grüße über straße");
}

// ---- first phase ----

#[test]
fn eyes_hurt_pins_night_light() {
    let store = IntentStore::new();
    let response = phase1("my eyes hurt", &[], &[], &[], &store);
    assert_eq!(response.intent_action_id.as_deref(), Some("settings.nightlight"));
    assert_eq!(response.actions[0].action_id.as_deref(), Some("settings.nightlight"));
    assert_eq!(response.actions[0].score, 10_000);
}

#[test]
fn kill_audio_pins_mute() {
    let store = IntentStore::new();
    let response = phase1("kill audio", &[], &[], &[], &store);
    assert_eq!(response.actions[0].action_id.as_deref(), Some("audio.mute"));
}

#[test]
fn clean_space_pins_storage_sense() {
    let store = IntentStore::new();
    let response = phase1("clean space", &[], &[], &[], &store);
    assert_eq!(response.actions[0].action_id.as_deref(), Some("settings.storagepolicies"));
}

#[test]
fn start_menu_apps_rank_above_generic_sources() {
    let store = IntentStore::new();
    let apps = vec![app("Terminal", "programs"), app("Terminal", "startMenu")];
    let response = phase1("term", &[], &apps, &[], &store);
    assert_eq!(response.apps[0].source.as_deref(), Some("startMenu"));
    assert_eq!(response.apps.len(), 1);
}

#[test]
fn recents_and_windows_are_included() {
    let store = IntentStore::new();
    let recents = vec![RecentCommand {
        id: "app::id-Chrome".into(),
        title: "Chrome".into(),
    }];
    let windows = vec![OpenWindow {
        hwnd: 42,
        title: "Chrome".into(),
        process_name: "chrome".into(),
    }];
    let response = phase1("chr", &recents, &[], &windows, &store);
    assert_eq!(response.recents[0].id, "app::id-Chrome");
    assert_eq!(response.windows[0].hwnd, Some(42));
}

#[test]
fn empty_query_returns_nothing() {
    let store = IntentStore::new();
    let response = phase1("   ", &[], &[], &[], &store);
    assert!(response.actions.is_empty());
    assert!(response.apps.is_empty());
}

#[test]
fn execute_rejects_unknown_ids() {
    assert!(execute("not.real").is_err());
}

#[test]
fn hits_carry_their_ids_and_subtitles() {
    let store = IntentStore::new();
    let windows = vec![OpenWindow {
        hwnd: -7,
        title: "Notes".into(),
        process_name: String::new(),
    }];
    let response = phase1("  Notes ", &[], &[app("Notes", "startMenu")], &windows, &store);
    assert_eq!(response.query, "Notes");
    assert_eq!(response.windows[0].id, "window::-7");
    assert_eq!(response.windows[0].subtitle, "Open window");
    assert_eq!(response.windows[0].kind, Phase1Kind::Window);
    assert_eq!(response.apps[0].id, "app::id-Notes");
    assert_eq!(response.apps[0].subtitle, "Application");
    let pinned = phase1("my eyes hurt", &[], &[], &[], &store);
    assert_eq!(pinned.actions[0].id, "action::settings.nightlight");
    assert!(pinned.actions[0].subtitle.ends_with(" · from your wording"));
    assert!(pinned.actions.len() <= 8);
    assert_eq!(
        pinned.actions.iter().filter(|h| h.action_id.as_deref() == Some("settings.nightlight")).count(),
        1
    );
}

#[test]
fn empty_response_echoes_the_query() {
    let r = empty_phase1("abc");
    assert_eq!(r.query, "abc");
    assert!(r.recents.is_empty() && r.windows.is_empty() && r.intent_action_id.is_none());
}

#[test]
fn execute_reports_unknown_ids_and_effects() {
    match execute("not.real") {
        Err(e) => {
            assert!(matches!(e, ExecuteError::UnknownAction(ref id) if id == "not.real"));
            assert_eq!(e.message(), "unknown action id 'not.real'");
        }
        Ok(_) => panic!("expected an error"),
    }
    assert_eq!(execute("audio.unmute").ok(), Some(ActionEffect::SetMute(false)));
}

#[test]
fn accepting_an_intent_makes_it_resolve() {
    let mut store = IntentStore::new();
    assert!(accept_intent("brighten things", "power.lock", &mut store).is_ok());
    assert_eq!(resolve("brighten things", &store), Some("power.lock"));
    assert!(accept_intent("brighten things", "no.such", &mut store).is_err());
}

// ---- windows ----

#[test]
fn search_ranks_title_matches() {
    let windows = vec![
        OpenWindow { hwnd: 1, title: "Discord".into(), process_name: "Discord".into() },
        OpenWindow { hwnd: 2, title: "Display settings".into(), process_name: "SystemSettings".into() },
    ];
    let hits = search_windows("disc", &windows, 4);
    assert_eq!(hits[0].0.title, "Discord");
}

#[test]
fn empty_query_matches_nothing() {
    let windows = vec![OpenWindow { hwnd: 1, title: "Discord".into(), process_name: "Discord".into() }];
    assert!(search_windows("", &windows, 4).is_empty());
}

#[test]
fn process_only_matches_count_forty_less() {
    let windows = vec![OpenWindow { hwnd: 5, title: "Untitled".into(), process_name: "notepad".into() }];
    let hits = search_windows("notepad", &windows, 4);
    assert_eq!(hits[0].1, 960);
}
