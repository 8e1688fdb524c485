use prism::shell::audio_hook::{request_is_current, AudioHookState};
use prism::shell::audio_osd::{
    blend_over, composite_coverage, osd_labels, pack_premultiplied, position_in_work_area, scale_for_dpi, scale_pixels,
    should_retry_osd_thread, truncate_string, OsdPosition, Point, Rect as OsdRect, OSD_HEIGHT,
    OSD_WIDTH,
};
use prism::shell::launcher_watch::{
    is_native_launcher, should_skip_scan, LauncherWatch, WIN10_LAUNCHER, WIN10_MODE_INPUT,
    WIN11_CORE_CLASS, WIN11_START_CLASS,
};
use prism::shell::power::PowerAction;
use prism::shell::taskbar::{
    class_name_is, marker_contents, marker_records_topmost, rect_covers_monitor, release_band,
    taskbar_presentation, Rect, ReleaseBand, TaskbarLease, FULLSCREEN_TOLERANCE,
};
use prism::shell::taskbar_alignment::{alignment_delta, bounds_cover, Alignment, Bounds};

const WORK_AREA: OsdRect = OsdRect { left: 0, top: 0, right: 1920, bottom: 1040 };

fn rect(left: i32, top: i32, right: i32, bottom: i32) -> Rect {
    Rect { left, top, right, bottom }
}

#[test]
fn disabled_and_pre_reenable_requests_are_stale() {
    assert!(request_is_current(3, true, 3));
    assert!(!request_is_current(3, false, 3));
    assert!(!request_is_current(3, true, 4));
}

#[test]
fn switching_the_hook_off_and_on_outdates_queued_requests() {
    let mut hook = AudioHookState::new();
    let stamp = hook.generation();
    assert!(request_is_current(stamp, hook.is_enabled(), hook.generation()));
    hook.set_enabled(false);
    hook.set_enabled(true);
    assert!(hook.is_enabled());
    assert!(!request_is_current(stamp, hook.is_enabled(), hook.generation()));
    hook.set_enabled(true);
    assert_eq!(hook.generation(), stamp + 2);
}

#[test]
fn positions_osd_inside_each_taskbar_edge() {
    assert_eq!(
        position_in_work_area(
            OsdRect { left: -1880, top: 0, right: 0, bottom: 1040 },
            Point { x: -1900, y: 520 },
            OSD_WIDTH,
            OSD_HEIGHT,
            96,
        ),
        OsdPosition { x: -1864, y: 492 }
    );
    assert_eq!(
        position_in_work_area(
            OsdRect { left: 1920, top: 0, right: 3800, bottom: 1040 },
            Point { x: 3820, y: 520 },
            OSD_WIDTH,
            OSD_HEIGHT,
            96,
        ),
        OsdPosition { x: 3540, y: 492 }
    );
    assert_eq!(
        position_in_work_area(
            OsdRect { top: 40, ..WORK_AREA },
            Point { x: 960, y: 10 },
            OSD_WIDTH,
            OSD_HEIGHT,
            96,
        ),
        OsdPosition { x: 838, y: 56 }
    );
    assert_eq!(
        position_in_work_area(WORK_AREA, Point { x: 960, y: 1060 }, OSD_WIDTH, OSD_HEIGHT, 96),
        OsdPosition { x: 838, y: 968 }
    );
}

#[test]
fn dimensions_and_offsets_scale_for_monitor_dpi() {
    let width = scale_for_dpi(OSD_WIDTH, 144);
    let height = scale_for_dpi(OSD_HEIGHT, 144);
    assert_eq!((width, height), (366, 84));
    assert_eq!(
        position_in_work_area(WORK_AREA, Point { x: 960, y: 1060 }, width, height, 144),
        OsdPosition { x: 777, y: 932 }
    );
}

#[test]
fn failed_start_retries_only_when_a_new_request_arrived() {
    assert!(!should_retry_osd_thread(4, 4));
    assert!(should_retry_osd_thread(4, 5));
}

#[test]
fn pixel_scaling_fills_the_requested_surface() {
    let source = [1, 2, 3, 4];
    let mut destination = [0; 16];
    scale_pixels(&source, 2, 2, &mut destination, 4, 4);
    assert_eq!(destination[0], 1);
    assert_eq!(destination[3], 2);
    assert_eq!(destination[12], 3);
    assert_eq!(destination[15], 4);
}

#[test]
fn osd_text_and_colors_are_exact() {
    assert_eq!(truncate_string("Spotify Premium", 7), "Spotif…");
    assert_eq!(truncate_string("Mail", 10), "Mail");
    assert_eq!(pack_premultiplied(255, 0, 0, 255), 0xFFFF_0000);
    assert_eq!(pack_premultiplied(255, 255, 255, 0), 0);
    // Opaque white drawn over anything is opaque white.
    assert_eq!(blend_over(0x8000_0000, (255, 255, 255), 255), 0xFFFF_FFFF);
    // Nothing drawn leaves the destination as it was.
    assert_eq!(blend_over(0x8040_2010, (255, 255, 255), 0), 0x8040_2010);
}

#[test]
fn e2e_search_host_core_window_is_hidden() {
    assert!(is_native_launcher(WIN11_CORE_CLASS, "SearchHost.exe", 640, 720));
    assert!(is_native_launcher(WIN11_CORE_CLASS, "StartMenuExperienceHost.exe", 860, 900));
    assert!(is_native_launcher(WIN11_CORE_CLASS, "SearchUI.exe", 500, 500));
}

#[test]
fn e2e_unrelated_core_windows_are_left_alone() {
    assert!(!is_native_launcher(WIN11_CORE_CLASS, "Notepad.exe", 800, 600));
    assert!(!is_native_launcher(WIN11_CORE_CLASS, "ApplicationFrameHost.exe", 1200, 800));
}

#[test]
fn e2e_win11_start_island_requires_menu_size() {
    assert!(is_native_launcher(WIN11_START_CLASS, "explorer.exe", 760, 640));
    assert!(!is_native_launcher(WIN11_START_CLASS, "explorer.exe", 120, 300));
    assert!(!is_native_launcher(WIN11_START_CLASS, "chrome.exe", 760, 640));
}

#[test]
fn e2e_win10_launcher_classes_are_hidden() {
    assert!(is_native_launcher(WIN10_LAUNCHER, "explorer.exe", 1, 1));
    assert!(is_native_launcher(WIN10_MODE_INPUT, "explorer.exe", 1, 1));
}

#[test]
fn scan_skips_when_disabled_or_in_grace() {
    assert!(should_skip_scan(false, false));
    assert!(should_skip_scan(true, true));
    assert!(!should_skip_scan(true, false));
}

#[test]
fn own_toggle_grace_lasts_a_second_and_a_half() {
    let mut watch = LauncherWatch::new();
    assert!(watch.skip_scan_at(10_000));
    watch.set_enabled(true);
    assert!(!watch.skip_scan_at(10_000));
    watch.note_own_toggle(10_000);
    assert!(watch.within_self_grace(10_000));
    assert!(watch.skip_scan_at(11_000));
    assert!(!watch.skip_scan_at(11_501));
}

#[test]
fn accepts_only_the_four_visible_actions() {
    assert!(matches!(PowerAction::parse("lock"), Ok(PowerAction::Lock)));
    assert!(matches!(PowerAction::parse("sleep"), Ok(PowerAction::Sleep)));
    assert!(matches!(PowerAction::parse("shutdown"), Ok(PowerAction::Shutdown)));
    assert!(matches!(PowerAction::parse("restart"), Ok(PowerAction::Restart)));
    for invalid in ["", "hibernate", "logoff", "shutdown /f"] {
        assert!(PowerAction::parse(invalid).is_err());
    }
}

#[test]
fn sleep_uses_standby_and_preserves_wake_events() {
    assert_eq!(PowerAction::Sleep.suspend_parameters(), Some((false, false, false)));
    assert_eq!(PowerAction::Sleep.shutdown_arguments(), None);
}

#[test]
fn shutdown_commands_never_force_close_apps() {
    assert_eq!(PowerAction::Lock.shutdown_arguments(), None);
    for action in [PowerAction::Shutdown, PowerAction::Restart] {
        let arguments = action.shutdown_arguments().unwrap();
        assert_eq!(arguments[1..], ["/t", "0", "/d", "p:0:0"]);
        assert!(!arguments.contains(&"/f"));
    }
    assert_eq!(PowerAction::Shutdown.shutdown_arguments().unwrap()[0], "/s");
    assert_eq!(PowerAction::Restart.shutdown_arguments().unwrap()[0], "/r");
}

#[test]
fn power_action_names_round_trip() {
    for action in [
        PowerAction::Lock,
        PowerAction::Sleep,
        PowerAction::Shutdown,
        PowerAction::Restart,
    ] {
        assert!(matches!(PowerAction::parse(action.name()), Ok(a) if a == action));
    }
}

#[test]
fn palette_open_always_shows_the_taskbar() {
    assert!(taskbar_presentation(false, false).show);
    assert!(taskbar_presentation(true, false).show);
    assert!(taskbar_presentation(false, true).show);
    assert!(taskbar_presentation(true, true).show);
}

#[test]
fn taskbar_is_topmost_only_over_fullscreen_or_auto_hide() {
    assert!(!taskbar_presentation(false, false).topmost);
    assert!(taskbar_presentation(true, false).topmost);
    assert!(taskbar_presentation(false, true).topmost);
    assert!(taskbar_presentation(true, true).topmost);
}

#[test]
fn maximized_work_area_is_not_fullscreen() {
    let monitor = rect(0, 0, 1920, 1080);
    let maximized = rect(0, 0, 1920, 1040);
    assert!(!rect_covers_monitor(maximized, monitor, FULLSCREEN_TOLERANCE));
}

#[test]
fn borderless_cover_is_fullscreen() {
    let monitor = rect(0, 0, 1920, 1080);
    let cover = rect(-2, -2, 1922, 1082);
    assert!(rect_covers_monitor(cover, monitor, FULLSCREEN_TOLERANCE));
}

#[test]
fn a_recorded_topmost_taskbar_is_restored_topmost() {
    assert_eq!(release_band(Some(true), false), ReleaseBand::Topmost);
    assert_eq!(release_band(Some(true), true), ReleaseBand::Topmost);
}

#[test]
fn a_recorded_normal_taskbar_stays_demoted() {
    assert_eq!(release_band(Some(false), false), ReleaseBand::NotTopmost);
    assert_eq!(release_band(Some(false), true), ReleaseBand::Bottom);
}

#[test]
fn a_missing_record_takes_the_safe_demote() {
    assert_eq!(release_band(None, false), ReleaseBand::NotTopmost);
    assert_eq!(release_band(None, true), ReleaseBand::NotTopmost);
}

#[test]
fn lease_restores_the_band_it_recorded() {
    let mut lease = TaskbarLease::new();
    assert_eq!(lease.release(false, None, false), None);
    lease.present(true);
    assert_eq!(lease.release(false, None, true), Some(ReleaseBand::Topmost));
    assert_eq!(lease.release(false, None, true), None);
    // A marker left by a crashed process is honoured.
    assert_eq!(lease.release(true, Some(false), true), Some(ReleaseBand::Bottom));
}

#[test]
fn crash_marker_round_trips() {
    assert_eq!(marker_contents(true), b"topmost".to_vec());
    assert_eq!(marker_contents(false), b"normal".to_vec());
    assert!(marker_records_topmost(&marker_contents(true)));
    assert!(!marker_records_topmost(&marker_contents(false)));
}

#[test]
fn window_classes_compare_ignoring_ascii_case() {
    let class: Vec<u16> = "Shell_TrayWnd".encode_utf16().collect();
    assert!(class_name_is(&class, "shell_traywnd"));
    assert!(!class_name_is(&class, "Shell_SecondaryTrayWnd"));
}

#[test]
fn horizontal_alignment_uses_full_center_and_stays_before_notification_area() {
    let taskbar = Bounds { left: 0, top: 1_032, right: 1_920, bottom: 1_080 };
    let cluster = Bounds { left: 805, top: 1_032, right: 982, bottom: 1_080 };
    let notification = Some(Bounds { left: 1_681, top: 1_032, right: 1_920, bottom: 1_080 });
    assert_eq!(alignment_delta(taskbar, cluster, notification, Alignment::Left), (-805, 0));
    assert_eq!(alignment_delta(taskbar, cluster, notification, Alignment::Center), (66, 0));
    assert_eq!(alignment_delta(taskbar, cluster, notification, Alignment::Right), (699, 0));
}

#[test]
fn vertical_alignment_maps_left_center_right_to_top_center_bottom() {
    let taskbar = Bounds { left: 0, top: 0, right: 48, bottom: 1_080 };
    let cluster = Bounds { left: 0, top: 300, right: 48, bottom: 500 };
    let notification = Some(Bounds { left: 0, top: 900, right: 48, bottom: 1_080 });
    assert_eq!(alignment_delta(taskbar, cluster, notification, Alignment::Left), (0, -300));
    assert_eq!(alignment_delta(taskbar, cluster, notification, Alignment::Center), (0, 140));
    assert_eq!(alignment_delta(taskbar, cluster, notification, Alignment::Right), (0, 400));
}

#[test]
fn full_width_xaml_host_owns_native_taskbar_rendering() {
    let taskbar = Bounds { left: 0, top: 1_032, right: 1_920, bottom: 1_080 };
    assert!(bounds_cover(taskbar, taskbar));
    assert!(bounds_cover(Bounds { left: 0, top: 1_030, right: 1_920, bottom: 1_080 }, taskbar));
    assert!(!bounds_cover(Bounds { left: 850, top: 1_032, right: 1_070, bottom: 1_080 }, taskbar));
}

#[test]
fn alignment_settings_parse_and_round_trip() {
    for (text, alignment) in [
        ("left", Alignment::Left),
        ("center", Alignment::Center),
        ("right", Alignment::Right),
    ] {
        assert!(matches!(Alignment::parse(text), Ok(a) if a == alignment));
        assert_eq!(Alignment::from_code(alignment.code()), Some(alignment));
    }
    assert!(Alignment::parse("edge").is_err());
}

#[test]
fn osd_text_lays_out_title_and_status() {
    let plain = osd_labels("Speakers (Realtek High Definition)", false, 42, OSD_WIDTH);
    assert_eq!(plain.title, "Speakers (Realtek …");
    assert_eq!(plain.title.chars().count(), 19);
    assert_eq!(plain.status, "42%");
    assert_eq!(plain.status_color, (203, 213, 225));
    assert_eq!(plain.title_rect, OsdRect { left: 38, top: 10, right: OSD_WIDTH - 58, bottom: 27 });
    assert_eq!(plain.status_rect, OsdRect { left: OSD_WIDTH - 62, top: 10, right: OSD_WIDTH - 16, bottom: 27 });

    let muted = osd_labels("Headset", true, 0, OSD_WIDTH);
    assert_eq!(muted.title, "Headset");
    assert_eq!(muted.status, "Muted");
    assert_eq!(muted.status_color, (248, 113, 113));

    let silent = osd_labels("  Spotify (No Audio) (No Audio)", true, 80, OSD_WIDTH);
    assert_eq!(silent.title, "Spotify");
    assert_eq!(silent.status, "No Audio");
    assert_eq!(silent.status_color, (148, 163, 184));
    assert_eq!(silent.title_rect.right, OSD_WIDTH - 82);
    assert_eq!(silent.status_rect.left, OSD_WIDTH - 80);

    let long_silent = osd_labels("A very long application name (No Audio)", false, 5, OSD_WIDTH);
    assert_eq!(long_silent.title, "A very long ap…");
}

#[test]
fn text_coverage_blends_only_inside_its_band() {
    let width = 4;
    let mut pixels = vec![0xFF00_0000u32; 12];
    let mut coverage = vec![0u32; 12];
    coverage[5] = 0xFF;
    coverage[6] = 0x80;
    coverage[1] = 0xFF;
    coverage[11] = 0x40;
    composite_coverage(&mut pixels, &coverage, width, (1, 2), (1, 3), (255, 255, 255));
    assert_eq!(pixels[5], blend_over(0xFF00_0000, (255, 255, 255), 0xFF));
    assert_eq!(pixels[6], blend_over(0xFF00_0000, (255, 255, 255), 0x80));
    assert_eq!(pixels[1], 0xFF00_0000);
    assert_eq!(pixels[11], 0xFF00_0000);
    assert_eq!(pixels[5], 0xFFFF_FFFF);
}
