//! In-memory typed action catalog: OS actions live here, never in the file
//! index.

use vstd::prelude::*;
use crate::query::score::{keywords_score, score_with_keywords, str_views};
use crate::sorting::{sort_ranked, stable_sort, Ranked};
use crate::text::{lex_lt, str_eq, str_lex_lt};

verus! {

#[derive(Clone, Copy, Debug, PartialEq, Eq, Structural)]
pub enum ActionKind {
    Settings,
    AudioMute,
    AudioUnmute,
    AudioToggleMute,
    PowerLock,
    PowerSleep,
    PowerShutdown,
    PowerRestart,
}

#[derive(Clone, Copy, Debug)]
pub struct TypedAction {
    pub id: &'static str,
    pub title: &'static str,
    pub subtitle: &'static str,
    pub keywords: &'static [&'static str],
    pub kind: ActionKind,
    pub uri: Option<&'static str>,
    pub icon_key: &'static str,
}

pub open spec fn settings_entry(
    id: &'static str,
    title: &'static str,
    uri: &'static str,
    icon_key: &'static str,
    keywords: &'static [&'static str],
) -> TypedAction {
    TypedAction {
        id,
        title,
        subtitle: "Windows Settings",
        keywords,
        kind: ActionKind::Settings,
        uri: Some(uri),
        icon_key,
    }
}

pub open spec fn action_entry(
    id: &'static str,
    title: &'static str,
    subtitle: &'static str,
    kind: ActionKind,
    icon_key: &'static str,
    keywords: &'static [&'static str],
) -> TypedAction {
    TypedAction { id, title, subtitle, keywords, kind, uri: None, icon_key }
}

fn settings(
    id: &'static str,
    title: &'static str,
    uri: &'static str,
    icon_key: &'static str,
    keywords: &'static [&'static str],
) -> (r: TypedAction)
    ensures
        r == settings_entry(id, title, uri, icon_key, keywords),
{
    TypedAction {
        id,
        title,
        subtitle: "Windows Settings",
        keywords,
        kind: ActionKind::Settings,
        uri: Some(uri),
        icon_key,
    }
}

fn action(
    id: &'static str,
    title: &'static str,
    subtitle: &'static str,
    kind: ActionKind,
    icon_key: &'static str,
    keywords: &'static [&'static str],
) -> (r: TypedAction)
    ensures
        r == action_entry(id, title, subtitle, kind, icon_key, keywords),
{
    TypedAction { id, title, subtitle, keywords, kind, uri: None, icon_key }
}

/// The catalog, in listing order.
pub open spec fn builtin_actions() -> Seq<TypedAction> {
    seq![
        settings_entry("settings.nightlight", "Night Light", "ms-settings:nightlight", "nightlight", &["blue light", "eyes", "warm", "night mode", "nightlight", "reduce blue" ]),
        settings_entry("settings.display", "Display", "ms-settings:display", "display", &["display settings", "screen", "monitor", "resolution", "brightness" ]),
        settings_entry("settings.hdr", "HDR", "ms-settings:hdr", "hdr", &["high dynamic range", "auto hdr", "hdr display", "hdr video"]),
        settings_entry("settings.display-advanced", "Advanced display", "ms-settings:display-advanced", "display", &["refresh rate", "display information"]),
        settings_entry("settings.sound", "Sound", "ms-settings:sound", "sound", &["audio", "speakers", "microphone", "sound settings"]),
        settings_entry("settings.sound-devices", "Sound devices", "ms-settings:sound-devices", "sound", &["audio devices", "input", "output"]),
        settings_entry("settings.apps-volume", "Volume mixer", "ms-settings:apps-volume", "sound", &["app volume", "sound mixer"]),
        settings_entry("settings.storagesense", "Storage", "ms-settings:storagesense", "storage", &["disk space", "storage settings"]),
        settings_entry("settings.storagepolicies", "Storage Sense", "ms-settings:storagepolicies", "storage", &["automatic cleanup", "temporary files", "free space", "disk cleanup" ]),
        settings_entry("settings.powersleep", "Power & sleep", "ms-settings:powersleep", "power", &["power", "battery", "sleep settings"]),
        settings_entry("settings.bluetooth", "Bluetooth", "ms-settings:bluetooth", "bluetooth", &["bluetooth settings", "pair device", "wireless devices"]),
        settings_entry("settings.network-status", "Network & internet", "ms-settings:network-status", "network", &["network status", "internet settings", "wifi", "ethernet"]),
        settings_entry("settings.network-wifi", "Wi-Fi", "ms-settings:network-wifi", "network", &["wifi", "wireless network"]),
        settings_entry("settings.windowsupdate", "Windows Update", "ms-settings:windowsupdate", "update", &["updates", "check for updates"]),
        settings_entry("settings.windowsupdate-history", "Update history", "ms-settings:windowsupdate-history", "update", &["windows update history", "installed updates"]),
        settings_entry("settings.notifications", "Notifications", "ms-settings:notifications", "settings", &["notification settings", "alerts"]),
        settings_entry("settings.quiethours", "Focus assist", "ms-settings:quiethours", "settings", &["focus", "do not disturb", "quiet hours"]),
        settings_entry("settings.clipboard", "Clipboard", "ms-settings:clipboard", "settings", &["clipboard history", "copy paste"]),
        settings_entry("settings.multitasking", "Multitasking", "ms-settings:multitasking", "settings", &["snap windows", "desktops"]),
        settings_entry("settings.about", "About", "ms-settings:about", "settings", &["system information", "device specifications", "pc info"]),
        settings_entry("settings.printers", "Printers & scanners", "ms-settings:printers", "bluetooth", &["printer", "scanner", "printing"]),
        settings_entry("settings.mousetouchpad", "Mouse & touchpad", "ms-settings:mousetouchpad", "settings", &["mouse settings", "pointer", "trackpad"]),
        settings_entry("settings.home", "Settings", "ms-settings:", "settings", &["windows settings", "system settings"]),
        settings_entry("settings.personalization-background", "Background", "ms-settings:personalization-background", "settings", &["wallpaper", "desktop background"]),
        settings_entry("settings.personalization-colors", "Colors", "ms-settings:personalization-colors", "settings", &["accent color", "dark mode", "light mode"]),
        settings_entry("settings.themes", "Themes", "ms-settings:themes", "settings", &["windows theme", "personalization"]),
        settings_entry("settings.taskbar", "Taskbar", "ms-settings:taskbar", "settings", &["taskbar settings", "system tray"]),
        settings_entry("settings.appsfeatures", "Installed apps", "ms-settings:appsfeatures", "settings", &["apps and features", "uninstall apps", "programs"]),
        settings_entry("settings.defaultapps", "Default apps", "ms-settings:defaultapps", "settings", &["file associations", "default programs", "browser default"]),
        settings_entry("settings.privacy-microphone", "Microphone privacy", "ms-settings:privacy-microphone", "settings", &["microphone permissions", "mic privacy", "microphone"]),
        settings_entry("settings.privacy", "Privacy & security", "ms-settings:privacy", "settings", &["privacy settings", "permissions"]),
        settings_entry("settings.windowsdefender", "Windows Security", "ms-settings:windowsdefender", "settings", &["defender", "virus protection", "security settings"]),
        settings_entry("settings.remotedesktop", "Remote Desktop", "ms-settings:remotedesktop", "settings", &["remote access", "rdp"]),
        settings_entry("settings.devices-touchpad", "Touchpad", "ms-settings:devices-touchpad", "settings", &["trackpad", "touchpad gestures"]),
        settings_entry("settings.typing", "Typing", "ms-settings:typing", "settings", &["keyboard typing", "text suggestions", "autocorrect"]),
        settings_entry("settings.usb", "USB", "ms-settings:usb", "settings", &["usb devices", "connection notifications"]),
        settings_entry("settings.camera", "Camera settings", "ms-settings:camera", "settings", &["webcam", "camera device"]),
        settings_entry("settings.network-ethernet", "Ethernet", "ms-settings:network-ethernet", "network", &["wired network", "lan"]),
        settings_entry("settings.network-vpn", "VPN", "ms-settings:network-vpn", "network", &["virtual private network"]),
        settings_entry("settings.network-mobilehotspot", "Mobile hotspot", "ms-settings:network-mobilehotspot", "network", &["hotspot", "internet sharing"]),
        settings_entry("settings.network-airplanemode", "Airplane mode", "ms-settings:network-airplanemode", "network", &["flight mode", "wireless off"]),
        settings_entry("settings.network-proxy", "Proxy", "ms-settings:network-proxy", "network", &["proxy server", "network proxy"]),
        settings_entry("settings.lockscreen", "Lock screen", "ms-settings:lockscreen", "settings", &["lockscreen", "screen timeout"]),
        settings_entry("settings.personalization-start", "Start", "ms-settings:personalization-start", "settings", &["start menu", "start settings"]),
        settings_entry("settings.fonts", "Fonts", "ms-settings:fonts", "settings", &["font settings", "typefaces"]),
        settings_entry("settings.optionalfeatures", "Optional features", "ms-settings:optionalfeatures", "settings", &["windows features", "feature install"]),
        settings_entry("settings.startupapps", "Startup apps", "ms-settings:startupapps", "settings", &["startup programs", "login apps", "boot apps"]),
        settings_entry("settings.yourinfo", "Your info", "ms-settings:yourinfo", "settings", &["account info", "profile picture"]),
        settings_entry("settings.signinoptions", "Sign-in options", "ms-settings:signinoptions", "settings", &["password", "pin", "windows hello", "login"]),
        settings_entry("settings.emailandaccounts", "Email & app accounts", "ms-settings:emailandaccounts", "settings", &["email accounts", "app accounts"]),
        settings_entry("settings.workplace", "Access work or school", "ms-settings:workplace", "settings", &["work account", "school account", "organization"]),
        settings_entry("settings.otherusers", "Family & other users", "ms-settings:otherusers", "settings", &["family", "users", "add account"]),
        settings_entry("settings.dateandtime", "Date & time", "ms-settings:dateandtime", "settings", &["clock", "time zone", "date settings"]),
        settings_entry("settings.regionlanguage", "Language & region", "ms-settings:regionlanguage", "settings", &["language", "region", "locale"]),
        settings_entry("settings.speech", "Speech", "ms-settings:speech", "settings", &["speech language", "voice recognition"]),
        settings_entry("settings.gaming-gamemode", "Game Mode", "ms-settings:gaming-gamemode", "settings", &["gaming mode", "game performance"]),
        settings_entry("settings.gaming-gamebar", "Xbox Game Bar", "ms-settings:gaming-gamebar", "settings", &["game bar", "xbox overlay"]),
        settings_entry("settings.easeofaccess-narrator", "Narrator", "ms-settings:easeofaccess-narrator", "settings", &["screen reader", "accessibility narrator"]),
        settings_entry("settings.easeofaccess-magnifier", "Magnifier", "ms-settings:easeofaccess-magnifier", "settings", &["screen magnifier", "zoom accessibility"]),
        settings_entry("settings.easeofaccess-highcontrast", "Contrast themes", "ms-settings:easeofaccess-highcontrast", "settings", &["high contrast", "accessibility colors"]),
        settings_entry("settings.easeofaccess-colorfilter", "Color filters", "ms-settings:easeofaccess-colorfilter", "settings", &["color blindness", "accessibility filters"]),
        settings_entry("settings.easeofaccess-closedcaptioning", "Captions", "ms-settings:easeofaccess-closedcaptioning", "settings", &["closed captions", "subtitles", "accessibility captions"]),
        settings_entry("settings.privacy-webcam", "Camera privacy", "ms-settings:privacy-webcam", "settings", &["camera permissions", "webcam privacy"]),
        settings_entry("settings.privacy-location", "Location privacy", "ms-settings:privacy-location", "settings", &["location permissions", "gps privacy"]),
        settings_entry("settings.search-permissions", "Search permissions", "ms-settings:search-permissions", "settings", &["windows search", "search history"]),
        settings_entry("settings.windowsupdate-options", "Advanced update options", "ms-settings:windowsupdate-options", "update", &["windows update advanced", "update options"]),
        settings_entry("settings.windowsupdate-optionalupdates", "Optional updates", "ms-settings:windowsupdate-optionalupdates", "update", &["driver updates", "windows optional updates"]),
        settings_entry("settings.activation", "Activation", "ms-settings:activation", "settings", &["windows activation", "product key", "license"]),
        settings_entry("settings.recovery", "Recovery", "ms-settings:recovery", "settings", &["reset pc", "advanced startup", "restore"]),
        settings_entry("settings.troubleshoot", "Troubleshoot", "ms-settings:troubleshoot", "settings", &["troubleshooter", "fix problems"]),
        settings_entry("settings.developers", "For developers", "ms-settings:developers", "settings", &["developer mode", "development settings"]),
        settings_entry("settings.findmydevice", "Find my device", "ms-settings:findmydevice", "settings", &["locate device", "lost pc"]),
        action_entry("audio.mute", "Mute", "Volume", ActionKind::AudioMute, "mute", &["mute sound", "silence", "no audio", "kill audio"]),
        action_entry("audio.unmute", "Unmute", "Volume", ActionKind::AudioUnmute, "unmute", &["restore audio", "sound on", "unmute speakers"]),
        action_entry("audio.toggle-mute", "Toggle mute", "Volume", ActionKind::AudioToggleMute, "mute", &["mute toggle", "endpoint mute", "speaker mute"]),
        action_entry("power.lock", "Lock", "Power", ActionKind::PowerLock, "lock", &["lock pc", "lock computer", "lock workstation"]),
        action_entry("power.sleep", "Sleep", "Power", ActionKind::PowerSleep, "sleep", &["go to sleep", "put to sleep", "sleep now"]),
        action_entry("power.shutdown", "Shut down", "Power", ActionKind::PowerShutdown, "shutdown", &["shutdown", "power off", "turn off"]),
        action_entry("power.restart", "Restart", "Power", ActionKind::PowerRestart, "restart", &["reboot", "restart pc"]),
    ]
}

/// The catalog entries, in listing order.
pub fn actions() -> (r: Vec<TypedAction>)
    ensures
        r@ == builtin_actions(),
{
    vec![
        settings("settings.nightlight", "Night Light", "ms-settings:nightlight", "nightlight", &["blue light", "eyes", "warm", "night mode", "nightlight", "reduce blue" ]),
        settings("settings.display", "Display", "ms-settings:display", "display", &["display settings", "screen", "monitor", "resolution", "brightness" ]),
        settings("settings.hdr", "HDR", "ms-settings:hdr", "hdr", &["high dynamic range", "auto hdr", "hdr display", "hdr video"]),
        settings("settings.display-advanced", "Advanced display", "ms-settings:display-advanced", "display", &["refresh rate", "display information"]),
        settings("settings.sound", "Sound", "ms-settings:sound", "sound", &["audio", "speakers", "microphone", "sound settings"]),
        settings("settings.sound-devices", "Sound devices", "ms-settings:sound-devices", "sound", &["audio devices", "input", "output"]),
        settings("settings.apps-volume", "Volume mixer", "ms-settings:apps-volume", "sound", &["app volume", "sound mixer"]),
        settings("settings.storagesense", "Storage", "ms-settings:storagesense", "storage", &["disk space", "storage settings"]),
        settings("settings.storagepolicies", "Storage Sense", "ms-settings:storagepolicies", "storage", &["automatic cleanup", "temporary files", "free space", "disk cleanup" ]),
        settings("settings.powersleep", "Power & sleep", "ms-settings:powersleep", "power", &["power", "battery", "sleep settings"]),
        settings("settings.bluetooth", "Bluetooth", "ms-settings:bluetooth", "bluetooth", &["bluetooth settings", "pair device", "wireless devices"]),
        settings("settings.network-status", "Network & internet", "ms-settings:network-status", "network", &["network status", "internet settings", "wifi", "ethernet"]),
        settings("settings.network-wifi", "Wi-Fi", "ms-settings:network-wifi", "network", &["wifi", "wireless network"]),
        settings("settings.windowsupdate", "Windows Update", "ms-settings:windowsupdate", "update", &["updates", "check for updates"]),
        settings("settings.windowsupdate-history", "Update history", "ms-settings:windowsupdate-history", "update", &["windows update history", "installed updates"]),
        settings("settings.notifications", "Notifications", "ms-settings:notifications", "settings", &["notification settings", "alerts"]),
        settings("settings.quiethours", "Focus assist", "ms-settings:quiethours", "settings", &["focus", "do not disturb", "quiet hours"]),
        settings("settings.clipboard", "Clipboard", "ms-settings:clipboard", "settings", &["clipboard history", "copy paste"]),
        settings("settings.multitasking", "Multitasking", "ms-settings:multitasking", "settings", &["snap windows", "desktops"]),
        settings("settings.about", "About", "ms-settings:about", "settings", &["system information", "device specifications", "pc info"]),
        settings("settings.printers", "Printers & scanners", "ms-settings:printers", "bluetooth", &["printer", "scanner", "printing"]),
        settings("settings.mousetouchpad", "Mouse & touchpad", "ms-settings:mousetouchpad", "settings", &["mouse settings", "pointer", "trackpad"]),
        settings("settings.home", "Settings", "ms-settings:", "settings", &["windows settings", "system settings"]),
        settings("settings.personalization-background", "Background", "ms-settings:personalization-background", "settings", &["wallpaper", "desktop background"]),
        settings("settings.personalization-colors", "Colors", "ms-settings:personalization-colors", "settings", &["accent color", "dark mode", "light mode"]),
        settings("settings.themes", "Themes", "ms-settings:themes", "settings", &["windows theme", "personalization"]),
        settings("settings.taskbar", "Taskbar", "ms-settings:taskbar", "settings", &["taskbar settings", "system tray"]),
        settings("settings.appsfeatures", "Installed apps", "ms-settings:appsfeatures", "settings", &["apps and features", "uninstall apps", "programs"]),
        settings("settings.defaultapps", "Default apps", "ms-settings:defaultapps", "settings", &["file associations", "default programs", "browser default"]),
        settings("settings.privacy-microphone", "Microphone privacy", "ms-settings:privacy-microphone", "settings", &["microphone permissions", "mic privacy", "microphone"]),
        settings("settings.privacy", "Privacy & security", "ms-settings:privacy", "settings", &["privacy settings", "permissions"]),
        settings("settings.windowsdefender", "Windows Security", "ms-settings:windowsdefender", "settings", &["defender", "virus protection", "security settings"]),
        settings("settings.remotedesktop", "Remote Desktop", "ms-settings:remotedesktop", "settings", &["remote access", "rdp"]),
        settings("settings.devices-touchpad", "Touchpad", "ms-settings:devices-touchpad", "settings", &["trackpad", "touchpad gestures"]),
        settings("settings.typing", "Typing", "ms-settings:typing", "settings", &["keyboard typing", "text suggestions", "autocorrect"]),
        settings("settings.usb", "USB", "ms-settings:usb", "settings", &["usb devices", "connection notifications"]),
        settings("settings.camera", "Camera settings", "ms-settings:camera", "settings", &["webcam", "camera device"]),
        settings("settings.network-ethernet", "Ethernet", "ms-settings:network-ethernet", "network", &["wired network", "lan"]),
        settings("settings.network-vpn", "VPN", "ms-settings:network-vpn", "network", &["virtual private network"]),
        settings("settings.network-mobilehotspot", "Mobile hotspot", "ms-settings:network-mobilehotspot", "network", &["hotspot", "internet sharing"]),
        settings("settings.network-airplanemode", "Airplane mode", "ms-settings:network-airplanemode", "network", &["flight mode", "wireless off"]),
        settings("settings.network-proxy", "Proxy", "ms-settings:network-proxy", "network", &["proxy server", "network proxy"]),
        settings("settings.lockscreen", "Lock screen", "ms-settings:lockscreen", "settings", &["lockscreen", "screen timeout"]),
        settings("settings.personalization-start", "Start", "ms-settings:personalization-start", "settings", &["start menu", "start settings"]),
        settings("settings.fonts", "Fonts", "ms-settings:fonts", "settings", &["font settings", "typefaces"]),
        settings("settings.optionalfeatures", "Optional features", "ms-settings:optionalfeatures", "settings", &["windows features", "feature install"]),
        settings("settings.startupapps", "Startup apps", "ms-settings:startupapps", "settings", &["startup programs", "login apps", "boot apps"]),
        settings("settings.yourinfo", "Your info", "ms-settings:yourinfo", "settings", &["account info", "profile picture"]),
        settings("settings.signinoptions", "Sign-in options", "ms-settings:signinoptions", "settings", &["password", "pin", "windows hello", "login"]),
        settings("settings.emailandaccounts", "Email & app accounts", "ms-settings:emailandaccounts", "settings", &["email accounts", "app accounts"]),
        settings("settings.workplace", "Access work or school", "ms-settings:workplace", "settings", &["work account", "school account", "organization"]),
        settings("settings.otherusers", "Family & other users", "ms-settings:otherusers", "settings", &["family", "users", "add account"]),
        settings("settings.dateandtime", "Date & time", "ms-settings:dateandtime", "settings", &["clock", "time zone", "date settings"]),
        settings("settings.regionlanguage", "Language & region", "ms-settings:regionlanguage", "settings", &["language", "region", "locale"]),
        settings("settings.speech", "Speech", "ms-settings:speech", "settings", &["speech language", "voice recognition"]),
        settings("settings.gaming-gamemode", "Game Mode", "ms-settings:gaming-gamemode", "settings", &["gaming mode", "game performance"]),
        settings("settings.gaming-gamebar", "Xbox Game Bar", "ms-settings:gaming-gamebar", "settings", &["game bar", "xbox overlay"]),
        settings("settings.easeofaccess-narrator", "Narrator", "ms-settings:easeofaccess-narrator", "settings", &["screen reader", "accessibility narrator"]),
        settings("settings.easeofaccess-magnifier", "Magnifier", "ms-settings:easeofaccess-magnifier", "settings", &["screen magnifier", "zoom accessibility"]),
        settings("settings.easeofaccess-highcontrast", "Contrast themes", "ms-settings:easeofaccess-highcontrast", "settings", &["high contrast", "accessibility colors"]),
        settings("settings.easeofaccess-colorfilter", "Color filters", "ms-settings:easeofaccess-colorfilter", "settings", &["color blindness", "accessibility filters"]),
        settings("settings.easeofaccess-closedcaptioning", "Captions", "ms-settings:easeofaccess-closedcaptioning", "settings", &["closed captions", "subtitles", "accessibility captions"]),
        settings("settings.privacy-webcam", "Camera privacy", "ms-settings:privacy-webcam", "settings", &["camera permissions", "webcam privacy"]),
        settings("settings.privacy-location", "Location privacy", "ms-settings:privacy-location", "settings", &["location permissions", "gps privacy"]),
        settings("settings.search-permissions", "Search permissions", "ms-settings:search-permissions", "settings", &["windows search", "search history"]),
        settings("settings.windowsupdate-options", "Advanced update options", "ms-settings:windowsupdate-options", "update", &["windows update advanced", "update options"]),
        settings("settings.windowsupdate-optionalupdates", "Optional updates", "ms-settings:windowsupdate-optionalupdates", "update", &["driver updates", "windows optional updates"]),
        settings("settings.activation", "Activation", "ms-settings:activation", "settings", &["windows activation", "product key", "license"]),
        settings("settings.recovery", "Recovery", "ms-settings:recovery", "settings", &["reset pc", "advanced startup", "restore"]),
        settings("settings.troubleshoot", "Troubleshoot", "ms-settings:troubleshoot", "settings", &["troubleshooter", "fix problems"]),
        settings("settings.developers", "For developers", "ms-settings:developers", "settings", &["developer mode", "development settings"]),
        settings("settings.findmydevice", "Find my device", "ms-settings:findmydevice", "settings", &["locate device", "lost pc"]),
        action("audio.mute", "Mute", "Volume", ActionKind::AudioMute, "mute", &["mute sound", "silence", "no audio", "kill audio"]),
        action("audio.unmute", "Unmute", "Volume", ActionKind::AudioUnmute, "unmute", &["restore audio", "sound on", "unmute speakers"]),
        action("audio.toggle-mute", "Toggle mute", "Volume", ActionKind::AudioToggleMute, "mute", &["mute toggle", "endpoint mute", "speaker mute"]),
        action("power.lock", "Lock", "Power", ActionKind::PowerLock, "lock", &["lock pc", "lock computer", "lock workstation"]),
        action("power.sleep", "Sleep", "Power", ActionKind::PowerSleep, "sleep", &["go to sleep", "put to sleep", "sleep now"]),
        action("power.shutdown", "Shut down", "Power", ActionKind::PowerShutdown, "shutdown", &["shutdown", "power off", "turn off"]),
        action("power.restart", "Restart", "Power", ActionKind::PowerRestart, "restart", &["reboot", "restart pc"]),
    ]
}


/// First catalog entry whose id is `id`.
pub open spec fn find_action(acts: Seq<TypedAction>, id: Seq<char>) -> Option<TypedAction>
    decreases acts.len(),
{
    if acts.len() == 0 {
        None
    } else if acts[0].id@ == id {
        Some(acts[0])
    } else {
        find_action(acts.drop_first(), id)
    }
}

pub open spec fn lookup_action(id: Seq<char>) -> Option<TypedAction> {
    find_action(builtin_actions(), id)
}

/// Entries that match `q`, with their scores, in catalog order.
pub open spec fn scored_actions(q: Seq<char>, acts: Seq<TypedAction>) -> Seq<(TypedAction, i32)>
    decreases acts.len(),
{
    if acts.len() == 0 {
        seq![]
    } else {
        let rest = scored_actions(q, acts.drop_last());
        let a = acts.last();
        match keywords_score(q, a.title@, str_views(a.keywords@)) {
            Some(score) => rest.push((a, score)),
            None => rest,
        }
    }
}

pub open spec fn take_at_most<T>(s: Seq<T>, limit: int) -> Seq<T> {
    if limit < s.len() {
        s.take(limit)
    } else {
        s
    }
}

/// Matching entries, best score first, ties by title, at most `limit`.
pub open spec fn search_results(q: Seq<char>, limit: usize) -> Seq<(TypedAction, i32)> {
    take_at_most(stable_sort(scored_actions(q, builtin_actions())), limit as int)
}

impl Ranked for (TypedAction, i32) {
    open spec fn spec_precedes(&self, other: &Self) -> bool {
        self.1 > other.1 || (self.1 == other.1 && lex_lt(self.0.title@, other.0.title@))
    }

    fn precedes(&self, other: &Self) -> (r: bool) {
        self.1 > other.1 || (self.1 == other.1 && str_lex_lt(self.0.title, other.0.title))
    }
}

/// The catalog entry with this id.
pub fn get(id: &str) -> (r: Option<TypedAction>)
    ensures
        r == lookup_action(id@),
{
    let all = actions();
    let mut i: usize = 0;
    assert(all@.skip(0) =~= all@);
    while i < all.len()
        invariant
            all@ == builtin_actions(),
            i <= all@.len(),
            lookup_action(id@) == find_action(all@.skip(i as int), id@),
        decreases all@.len() - i,
    {
        assert(all@.skip(i as int)[0] == all@[i as int]);
        if str_eq(all[i].id, id) {
            return Some(all[i]);
        }
        assert(all@.skip(i as int).drop_first() =~= all@.skip(i + 1));
        i += 1;
    }
    None
}

/// Catalog entries matching `query`, best first, at most `limit`.
pub fn search(query: &str, limit: usize) -> (r: Vec<(TypedAction, i32)>)
    ensures
        r@ == search_results(query@, limit),
{
    let all = actions();
    let mut ranked: Vec<(TypedAction, i32)> = Vec::new();
    let mut i: usize = 0;
    assert(all@.take(0) =~= seq![]);
    while i < all.len()
        invariant
            all@ == builtin_actions(),
            i <= all@.len(),
            ranked@ == scored_actions(query@, all@.take(i as int)),
        decreases all@.len() - i,
    {
        let a = all[i];
        proof {
            assert(all@.take(i + 1).drop_last() =~= all@.take(i as int));
            assert(all@.take(i + 1).last() == a);
        }
        match score_with_keywords(query, a.title, a.keywords) {
            Some(score) => ranked.push((a, score)),
            None => {},
        }
        i += 1;
    }
    assert(all@.take(all@.len() as int) =~= all@);
    let mut sorted = sort_ranked(ranked);
    sorted.truncate(limit);
    sorted
}

/// What running a catalog action does.
#[derive(Clone, Copy, Debug, PartialEq, Eq)]
pub enum ActionEffect {
    OpenSettings(&'static str),
    SetMute(bool),
    ToggleMute,
    Power(&'static str),
}

#[derive(Clone, Copy, Debug, PartialEq, Eq)]
pub enum CatalogError {
    /// A settings action without its `ms-settings:` URI.
    MissingUri(&'static str),
}

pub open spec fn action_effect(action: TypedAction) -> Result<ActionEffect, CatalogError> {
    match action.kind {
        ActionKind::Settings => match action.uri {
            Some(uri) => Ok(ActionEffect::OpenSettings(uri)),
            None => Err(CatalogError::MissingUri(action.id)),
        },
        ActionKind::AudioMute => Ok(ActionEffect::SetMute(true)),
        ActionKind::AudioUnmute => Ok(ActionEffect::SetMute(false)),
        ActionKind::AudioToggleMute => Ok(ActionEffect::ToggleMute),
        ActionKind::PowerLock => Ok(ActionEffect::Power("lock")),
        ActionKind::PowerSleep => Ok(ActionEffect::Power("sleep")),
        ActionKind::PowerShutdown => Ok(ActionEffect::Power("shutdown")),
        ActionKind::PowerRestart => Ok(ActionEffect::Power("restart")),
    }
}

/// The effect an action has when run: opening its settings page, muting,
/// or a power request.
pub fn execute(action: &TypedAction) -> (r: Result<ActionEffect, CatalogError>)
    ensures
        r == action_effect(*action),
{
    match action.kind {
        ActionKind::Settings => match action.uri {
            Some(uri) => Ok(ActionEffect::OpenSettings(uri)),
            None => Err(CatalogError::MissingUri(action.id)),
        },
        ActionKind::AudioMute => Ok(ActionEffect::SetMute(true)),
        ActionKind::AudioUnmute => Ok(ActionEffect::SetMute(false)),
        ActionKind::AudioToggleMute => Ok(ActionEffect::ToggleMute),
        ActionKind::PowerLock => Ok(ActionEffect::Power("lock")),
        ActionKind::PowerSleep => Ok(ActionEffect::Power("sleep")),
        ActionKind::PowerShutdown => Ok(ActionEffect::Power("shutdown")),
        ActionKind::PowerRestart => Ok(ActionEffect::Power("restart")),
    }
}

} // verus!
