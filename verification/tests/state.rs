use prism::shell::palette::{
    apply_window_look_with, is_animatable_window_width, monitor_point, palette_position,
    palette_target, presentation_anchor, taskbar_edge, toggle_open_state, PaletteTarget,
    PhysicalPoint, PhysicalRect, PresentationAnchor, TaskbarEdge,
};
use prism::shell::state::{
    allowed_shortcuts, migrate_state_value, startup_shortcut, startup_taskbar_alignment,
    startup_window_look, validate_shortcut, validate_state, JsonNumber, JsonValue,
    DEFAULT_SHORTCUT, LEGACY_STATE_VERSION, STATE_VERSION,
};
use prism::shell::taskbar_alignment::Alignment;

fn text(v: &str) -> JsonValue {
    JsonValue::Str(v.to_string())
}

fn num(n: u64) -> JsonValue {
    JsonValue::Number(JsonNumber::Unsigned(n))
}

fn list(items: Vec<JsonValue>) -> JsonValue {
    JsonValue::Array(items)
}

fn texts(items: &[&str]) -> JsonValue {
    JsonValue::Array(items.iter().map(|s| text(s)).collect())
}

fn obj(members: Vec<(&str, JsonValue)>) -> JsonValue {
    JsonValue::Object(members.into_iter().map(|(k, v)| (k.to_string(), v)).collect())
}

fn settings(members: Vec<(&str, JsonValue)>) -> JsonValue {
    obj(vec![("settings", obj(members))])
}

fn rect(left: i32, top: i32, right: i32, bottom: i32) -> PhysicalRect {
    PhysicalRect { left, top, right, bottom }
}

fn good_settings() -> JsonValue {
    obj(vec![
        ("accent", text("iris")),
        ("width", num(640)),
        ("viewZoom", num(100)),
        ("effect", text("solid")),
        ("shortcut", text("Ctrl+Alt+Space")),
        ("alwaysOnTop", JsonValue::Bool(true)),
        ("taskbarAlignment", text("left")),
        ("theme", text("system")),
        (
            "quickAccess",
            texts(&["home", "desktop", "downloads", "documents", "pictures", "music"]),
        ),
        ("quickAccessCollapsed", JsonValue::Bool(false)),
        ("pinnedApps", texts(&["app-one", "app-two"])),
        ("sectionOrder", texts(&["apps", "recent", "quick", "pinned"])),
    ])
}

fn error_of(state: &JsonValue) -> String {
    match validate_state(state) {
        Ok(()) => panic!("state should be rejected: {state:?}"),
        Err(e) => e,
    }
}

#[test]
fn window_materials_are_always_cleared_for_solid_rendering() {
    let cleared = std::cell::Cell::new(false);
    apply_window_look_with(|| {
        cleared.set(true);
        Ok(())
    })
    .unwrap();
    assert!(cleared.get());

    assert!(apply_window_look_with(|| Err("clear failed".to_string())).is_err());
}

#[test]
fn allowed_shortcuts_parse_and_disallowed_are_rejected() {
    for combo in allowed_shortcuts() {
        assert!(validate_shortcut(combo).is_ok(), "should allow {combo}");
    }
    for bad in [
        "E",
        "Space",
        "Win+L",
        "Ctrl+Alt+Delete",
        "Ctrl+Shift+Esc",
        "F4",
        "Super+Space",
        "Alt+Space",
        "",
        "Ctrl+Win+E",
    ] {
        assert!(validate_shortcut(bad).is_err(), "should reject {bad}");
    }
}

#[test]
fn refused_shortcut_lists_every_choice() {
    assert_eq!(
        validate_shortcut("Win+L").unwrap_err(),
        "shortcut 'Win+L' is not supported; pick one of: Win, Ctrl+Alt+Space, Ctrl+Alt+S, \
         Ctrl+Alt+Shift+S, Ctrl+Alt+P, Ctrl+Alt+Shift+P, Ctrl+Alt+Enter, Ctrl+Alt+Shift+Enter"
    );
}

#[test]
fn startup_shortcut_defaults_to_win_and_preserves_valid_choices() {
    assert_eq!(startup_shortcut(None), DEFAULT_SHORTCUT);
    assert_eq!(
        startup_shortcut(Some(&settings(vec![("shortcut", text("Ctrl+Alt+Space"))]))),
        "Ctrl+Alt+Space"
    );
    assert_eq!(
        startup_shortcut(Some(&settings(vec![("shortcut", text("Win+L"))]))),
        DEFAULT_SHORTCUT
    );
}

#[test]
fn startup_window_look_follows_persisted_theme() {
    assert_eq!(startup_window_look(None, false), "dark");
    assert_eq!(
        startup_window_look(Some(&settings(vec![("theme", text("light"))])), false),
        "light"
    );
    assert_eq!(
        startup_window_look(Some(&settings(vec![("theme", text("system"))])), true),
        "light"
    );
    assert_eq!(
        startup_window_look(Some(&settings(vec![("theme", text("system"))])), false),
        "dark"
    );
    assert_eq!(
        startup_window_look(Some(&settings(vec![("theme", text("hologram"))])), false),
        "dark"
    );
    assert_eq!(
        startup_window_look(Some(&obj(vec![("version", num(3))])), false),
        "dark"
    );
}

#[test]
fn startup_taskbar_alignment_is_available_before_frontend_state_loads() {
    assert_eq!(startup_taskbar_alignment(None), "center");
    for alignment in ["left", "center", "right"] {
        assert_eq!(
            startup_taskbar_alignment(Some(&settings(vec![(
                "taskbarAlignment",
                text(alignment)
            )]))),
            alignment
        );
    }
    assert_eq!(
        startup_taskbar_alignment(Some(&settings(vec![("taskbarAlignment", text("edge"))]))),
        "center"
    );
}

#[test]
fn version_two_state_migrates_only_the_shortcut_once() {
    let legacy = obj(vec![
        ("version", num(LEGACY_STATE_VERSION)),
        (
            "settings",
            obj(vec![
                ("accent", text("mint")),
                ("width", num(720)),
                ("viewZoom", num(110)),
                ("effect", text("mica")),
                ("shortcut", text("Ctrl+Alt+Space")),
                ("alwaysOnTop", JsonValue::Bool(false)),
                ("theme", text("dark")),
            ]),
        ),
        (
            "history",
            list(vec![obj(vec![
                ("id", text("app::test")),
                ("title", text("Test")),
                ("ts", num(7)),
            ])]),
        ),
    ]);
    let (migrated, changed) = migrate_state_value(legacy).unwrap().unwrap();
    assert!(changed);
    assert_eq!(
        migrated.get("version").and_then(|v| v.as_u64()),
        Some(STATE_VERSION)
    );
    let migrated_settings = migrated.get("settings").unwrap();
    assert_eq!(
        migrated_settings.get("shortcut").and_then(|v| v.as_str()),
        Some(DEFAULT_SHORTCUT)
    );
    assert_eq!(
        migrated_settings.get("accent").and_then(|v| v.as_str()),
        Some("mint")
    );
    let history = migrated.get("history").and_then(|v| v.as_array()).unwrap();
    assert_eq!(history[0].get("id").and_then(|v| v.as_str()), Some("app::test"));

    let (unchanged, changed_again) = migrate_state_value(migrated).unwrap().unwrap();
    assert!(!changed_again);
    assert_eq!(
        unchanged
            .get("settings")
            .and_then(|s| s.get("shortcut"))
            .and_then(|v| v.as_str()),
        Some(DEFAULT_SHORTCUT)
    );
}

#[test]
fn unknown_versions_are_ignored_and_broken_legacy_settings_refused() {
    assert!(migrate_state_value(obj(vec![("version", num(1))]))
        .unwrap()
        .is_none());
    assert!(migrate_state_value(text("not a document")).unwrap().is_none());
    assert_eq!(
        migrate_state_value(obj(vec![("version", num(2)), ("settings", list(vec![]))]))
            .unwrap_err(),
        "legacy state.settings must be an object"
    );
    assert_eq!(
        migrate_state_value(obj(vec![
            ("version", num(2)),
            ("settings", obj(vec![("accent", text("neon"))])),
        ]))
        .unwrap_err(),
        "unknown accent 'neon'"
    );
}

#[test]
fn legacy_state_without_a_shortcut_gains_the_default() {
    let (migrated, changed) = migrate_state_value(obj(vec![
        ("settings", obj(vec![("theme", text("light"))])),
        ("version", num(2)),
    ]))
    .unwrap()
    .unwrap();
    assert!(changed);
    assert_eq!(
        migrated
            .get("settings")
            .and_then(|s| s.get("shortcut"))
            .and_then(|v| v.as_str()),
        Some("Win")
    );
    assert_eq!(migrated.get("version").and_then(|v| v.as_u64()), Some(3));
}

#[test]
fn state_validation_accepts_good_and_rejects_bad() {
    let good = obj(vec![("settings", good_settings()), ("history", list(vec![]))]);
    assert!(validate_state(&good).is_ok());

    let patches = vec![
        settings(vec![("accent", text("neon"))]),
        settings(vec![("effect", text("hologram"))]),
        settings(vec![("theme", text("sepia"))]),
        settings(vec![("shortcut", text("X"))]),
        settings(vec![("alwaysOnTop", text("yes"))]),
        settings(vec![("width", num(999))]),
        settings(vec![("viewZoom", num(135))]),
        settings(vec![("viewZoom", text("large"))]),
        settings(vec![("taskbarAlignment", text("edge"))]),
        settings(vec![("taskbarAlignment", num(1))]),
        settings(vec![("quickAccess", text("home"))]),
        settings(vec![("quickAccess", texts(&["home", "home"]))]),
        settings(vec![("quickAccess", texts(&["network"]))]),
        settings(vec![(
            "quickAccess",
            texts(&["home", "desktop", "downloads", "documents", "pictures", "music", "videos"]),
        )]),
        settings(vec![("quickAccessCollapsed", text("yes"))]),
        settings(vec![("sectionOrder", text("apps"))]),
        settings(vec![("sectionOrder", texts(&["apps", "apps"]))]),
        settings(vec![("sectionOrder", texts(&["unknown"]))]),
        settings(vec![("pinnedApps", text("app-one"))]),
        settings(vec![("pinnedApps", texts(&[""]))]),
        settings(vec![("pinnedApps", texts(&["app-one", "app-one"]))]),
        obj(vec![("settings", list(vec![]))]),
        obj(vec![("history", text("nope"))]),
        obj(vec![
            ("settings", good_settings()),
            (
                "history",
                list(vec![obj(vec![
                    ("id", num(4)),
                    ("title", text("bad")),
                    ("ts", num(1)),
                ])]),
            ),
        ]),
    ];
    for patch in patches {
        assert!(validate_state(&patch).is_err(), "should reject {patch:?}");
    }
}

#[test]
fn state_refusals_name_the_first_offending_value() {
    assert_eq!(error_of(&text("x")), "state must be an object");
    assert_eq!(error_of(&obj(vec![])), "state.settings must be an object");
    assert_eq!(
        error_of(&settings(vec![("accent", text("neon")), ("effect", text("glass"))])),
        "unknown accent 'neon'"
    );
    assert_eq!(
        error_of(&settings(vec![("width", num(999))])),
        "unsupported width '999'"
    );
    assert_eq!(
        error_of(&settings(vec![("viewZoom", num(135))])),
        "unsupported view zoom '135'"
    );
    assert_eq!(
        error_of(&settings(vec![("viewZoom", text("large"))])),
        "state.settings.viewZoom must be an integer"
    );
    assert_eq!(
        error_of(&settings(vec![("quickAccess", texts(&["home", "home"]))])),
        "duplicate quick access entry 'home'"
    );
    assert_eq!(
        error_of(&settings(vec![("sectionOrder", texts(&["unknown"]))])),
        "unknown section order entry 'unknown'"
    );
    assert_eq!(
        error_of(&settings(vec![("pinnedApps", texts(&["a", "a"]))])),
        "state.settings.pinnedApps contains duplicates"
    );
    assert_eq!(
        error_of(&obj(vec![("settings", obj(vec![])), ("history", list(vec![num(1)]))])),
        "history entries must be objects"
    );
}

#[test]
fn width_setting_that_is_not_an_integer_is_ignored() {
    // Only integer widths are checked against the presets.
    assert!(validate_state(&settings(vec![("width", text("wide"))])).is_ok());
}

#[test]
fn app_groups_are_checked_group_by_group() {
    let group = |id: &str, name: &str, apps: &[&str]| {
        obj(vec![
            ("id", text(id)),
            ("name", text(name)),
            ("collapsed", JsonValue::Bool(false)),
            ("appIds", texts(apps)),
        ])
    };
    let ok = settings(vec![(
        "appGroups",
        list(vec![group("work", "Work", &["a", "b"]), group("play", "Play", &[])]),
    )]);
    assert!(validate_state(&ok).is_ok());
    assert_eq!(
        error_of(&settings(vec![(
            "appGroups",
            list(vec![group("work", "Work", &[]), group("work", "Other", &[])]),
        )])),
        "state.settings.appGroups contains duplicate ids"
    );
    assert_eq!(
        error_of(&settings(vec![("appGroups", list(vec![group("g", "   ", &[])]))])),
        "app group names must be non-empty strings"
    );
    assert_eq!(
        error_of(&settings(vec![("appGroups", list(vec![group("g", "Tools", &["x", "x"])]))])),
        "app group 'Tools' contains duplicate apps"
    );
    assert_eq!(
        error_of(&settings(vec![(
            "appGroups",
            list(vec![obj(vec![("id", text("g")), ("name", text("G"))])]),
        )])),
        "app group collapsed must be a boolean"
    );
    assert_eq!(
        error_of(&settings(vec![("appGroups", list(vec![text("g")]))])),
        "app group entries must be objects"
    );
}

#[test]
fn repeated_toggle_state_alternates_open_and_closed() {
    let mut open = false;
    assert!(toggle_open_state(&mut open));
    assert!(!toggle_open_state(&mut open));
    assert!(toggle_open_state(&mut open));
    assert!(!toggle_open_state(&mut open));
}

#[test]
fn anchor_placement_tracks_every_taskbar_edge() {
    let bottom_work = rect(0, 0, 1_920, 1_040);
    assert_eq!(
        palette_position(bottom_work, TaskbarEdge::Bottom, Alignment::Center, 720, 620),
        (600, 420)
    );
    let top_work = PhysicalRect { top: 40, ..bottom_work };
    assert_eq!(
        palette_position(top_work, TaskbarEdge::Top, Alignment::Center, 720, 620),
        (600, 40)
    );
    assert_eq!(
        palette_position(
            PhysicalRect { left: 48, bottom: 1_080, ..bottom_work },
            TaskbarEdge::Left,
            Alignment::Center,
            720,
            620
        ),
        (48, 230)
    );
    assert_eq!(
        palette_position(
            PhysicalRect { right: 1_872, bottom: 1_080, ..bottom_work },
            TaskbarEdge::Right,
            Alignment::Center,
            720,
            620
        ),
        (1_152, 230)
    );
}

#[test]
fn anchor_placement_supports_negative_coordinates_and_clamps() {
    let work = rect(-1_920, -1_040, 0, 0);
    assert_eq!(
        palette_position(work, TaskbarEdge::Bottom, Alignment::Center, 720, 620),
        (-1_320, -620)
    );
    let small_work = rect(0, 0, 500, 420);
    assert_eq!(
        palette_position(small_work, TaskbarEdge::Bottom, Alignment::Center, 480, 400),
        (10, 20)
    );
}

#[test]
fn taskbar_alignment_moves_horizontal_menu_with_the_icon_group() {
    let work = rect(0, 0, 1_920, 1_032);
    assert_eq!(
        palette_position(work, TaskbarEdge::Bottom, Alignment::Left, 560, 620),
        (0, 412)
    );
    assert_eq!(
        palette_position(work, TaskbarEdge::Bottom, Alignment::Center, 560, 620),
        (680, 412)
    );
    assert_eq!(
        palette_position(work, TaskbarEdge::Bottom, Alignment::Right, 560, 620),
        (1_360, 412)
    );
}

#[test]
fn window_width_animation_stays_inside_preset_bounds() {
    for width in [560, 561, 639, 640, 719, 720] {
        assert!(is_animatable_window_width(width));
    }
    for width in [0, 559, 721, u32::MAX] {
        assert!(!is_animatable_window_width(width));
    }
}

#[test]
fn taskbar_edge_is_the_widest_inset() {
    let monitor = rect(0, 0, 1_920, 1_080);
    assert_eq!(taskbar_edge(monitor, rect(0, 0, 1_920, 1_032)), Some(TaskbarEdge::Bottom));
    assert_eq!(taskbar_edge(monitor, rect(0, 48, 1_920, 1_080)), Some(TaskbarEdge::Top));
    assert_eq!(taskbar_edge(monitor, rect(60, 0, 1_920, 1_080)), Some(TaskbarEdge::Left));
    assert_eq!(taskbar_edge(monitor, rect(0, 0, 1_860, 1_080)), Some(TaskbarEdge::Right));
    assert_eq!(taskbar_edge(monitor, monitor), None);
    // Equal insets: the edge weighed last wins.
    assert_eq!(taskbar_edge(monitor, rect(0, 40, 1_920, 1_040)), Some(TaskbarEdge::Bottom));
    assert_eq!(taskbar_edge(monitor, rect(40, 40, 1_880, 1_040)), Some(TaskbarEdge::Right));
}

#[test]
fn presentation_anchor_records_the_monitor_it_opened_on() {
    let button = rect(0, 1_040, 48, 1_080);
    assert_eq!(monitor_point(Some(button), None), Some(PhysicalPoint { x: 24, y: 1_060 }));
    let click = PhysicalPoint { x: 5, y: 6 };
    assert_eq!(monitor_point(Some(button), Some(click)), Some(click));
    assert_eq!(monitor_point(None, None), None);

    let monitor = rect(0, 0, 1_920, 1_080);
    let work = rect(0, 0, 1_920, 1_040);
    let anchor = presentation_anchor(Some(button), None, Some((monitor, work)));
    assert_eq!(anchor.taskbar_edge, Some(TaskbarEdge::Bottom));
    assert_eq!(anchor.monitor, Some(monitor));
    assert_eq!(anchor.work_area, Some(work));
    let bare = presentation_anchor(None, Some(click), None);
    assert_eq!(bare.taskbar_edge, None);
    assert_eq!(bare.click_point, Some(click));
}

#[test]
fn palette_target_shrinks_to_the_work_area_and_uses_the_anchor() {
    let monitor = rect(0, 0, 1_920, 1_080);
    let work = rect(0, 48, 1_920, 1_080);
    let anchor = PresentationAnchor {
        start_button: None,
        click_point: None,
        taskbar_edge: None,
        monitor: Some(monitor),
        work_area: Some(work),
    };
    assert_eq!(
        palette_target(Some(anchor), None, Alignment::Center, 720, 620),
        Some(PaletteTarget { x: 600, y: 48, width: 720, height: 620 })
    );
    let small = rect(0, 0, 500, 400);
    assert_eq!(
        palette_target(None, Some((small, small)), Alignment::Center, 720, 620),
        Some(PaletteTarget { x: 0, y: 0, width: 500, height: 400 })
    );
    assert_eq!(palette_target(None, None, Alignment::Center, 720, 620), None);
}
