//! Backstop that hides the native Start and Search surfaces while the
//! launcher owns the Win key: which windows those are, and when a scan runs.

use vstd::prelude::*;
use crate::text::{chars_of, eq_ignore_case, eq_ignore_case_exec};

verus! {

pub const WIN11_START_CLASS: &'static str = "XamlExplorerHostIslandWindow";

pub const WIN11_CORE_CLASS: &'static str = "Windows.UI.Core.CoreWindow";

pub const WIN10_LAUNCHER: &'static str = "ImmersiveLauncher";

pub const WIN10_MODE_INPUT: &'static str = "ModeInputWnd";

/// After the launcher toggles itself, scans pause this long (milliseconds).
pub const SELF_GRACE_MS: u64 = 1500;

/// Processes that host the native Start and Search surfaces.
pub open spec fn host_processes() -> Seq<&'static str> {
    seq!["StartMenuExperienceHost.exe", "SearchHost.exe", "SearchApp.exe", "SearchUI.exe"]
}

pub open spec fn host_process(process: Seq<char>) -> bool {
    exists|i: int| 0 <= i < host_processes().len() && eq_ignore_case(process, #[trigger] host_processes()[i]@)
}

/// A window at least as large as the Start menu.
pub open spec fn menu_silhouette(width: i32, height: i32) -> bool {
    width >= 400 && height >= 400
}

/// The native Start menu or Search UI: the Windows 10 launcher classes, the
/// Windows 11 Start island when menu-sized and owned by Explorer or a host,
/// or a core window owned by a host process (classes and processes compared
/// ignoring ASCII case).
pub open spec fn native_launcher(class: Seq<char>, process: Seq<char>, width: i32, height: i32) -> bool {
    if eq_ignore_case(class, WIN10_LAUNCHER@) || eq_ignore_case(class, WIN10_MODE_INPUT@) {
        true
    } else if eq_ignore_case(class, WIN11_START_CLASS@) {
        menu_silhouette(width, height) && (eq_ignore_case(process, "explorer.exe"@) || host_process(
            process,
        ))
    } else if eq_ignore_case(class, WIN11_CORE_CLASS@) {
        host_process(process)
    } else {
        false
    }
}

fn same_ignoring_case(a: &[char], b: &str) -> (r: bool)
    ensures
        r == eq_ignore_case(a@, b@),
{
    let bc = chars_of(b);
    eq_ignore_case_exec(a, bc.as_slice())
}

pub fn is_menu_silhouette(width: i32, height: i32) -> (r: bool)
    ensures
        r == menu_silhouette(width, height),
{
    width >= 400 && height >= 400
}

pub fn is_host_process(process: &str) -> (r: bool)
    ensures
        r == host_process(process@),
{
    let names: Vec<&'static str> = vec![
        "StartMenuExperienceHost.exe",
        "SearchHost.exe",
        "SearchApp.exe",
        "SearchUI.exe",
    ];
    assert(names@ =~= host_processes());
    let pc = chars_of(process);
    let mut i: usize = 0;
    while i < names.len()
        invariant
            i <= names@.len(),
            names@ == host_processes(),
            pc@ == process@,
            forall|k: int| 0 <= k < i ==> !eq_ignore_case(process@, #[trigger] host_processes()[k]@),
        decreases names@.len() - i,
    {
        if same_ignoring_case(pc.as_slice(), names[i]) {
            assert(eq_ignore_case(process@, host_processes()[i as int]@));
            return true;
        }
        i += 1;
    }
    false
}

pub fn is_explorer_or_host(process: &str) -> (r: bool)
    ensures
        r == (eq_ignore_case(process@, "explorer.exe"@) || host_process(process@)),
{
    let pc = chars_of(process);
    same_ignoring_case(pc.as_slice(), "explorer.exe") || is_host_process(process)
}

/// Whether this top-level window is the native Start menu or Search UI.
pub fn is_native_launcher(class: &str, process: &str, width: i32, height: i32) -> (r: bool)
    ensures
        r == native_launcher(class@, process@, width, height),
{
    let cc = chars_of(class);
    if same_ignoring_case(cc.as_slice(), WIN10_LAUNCHER) || same_ignoring_case(
        cc.as_slice(),
        WIN10_MODE_INPUT,
    ) {
        return true;
    }
    if same_ignoring_case(cc.as_slice(), WIN11_START_CLASS) {
        return is_menu_silhouette(width, height) && is_explorer_or_host(process);
    }
    if same_ignoring_case(cc.as_slice(), WIN11_CORE_CLASS) {
        return is_host_process(process);
    }
    false
}

/// A scan is skipped while the watcher is off or within the grace period
/// after the launcher's own toggle.
pub fn should_skip_scan(enabled: bool, in_grace: bool) -> (r: bool)
    ensures
        r == (!enabled || in_grace),
{
    !enabled || in_grace
}

/// The watcher's switch and the time of the launcher's last own toggle.
pub struct LauncherWatch {
    enabled: bool,
    /// Milliseconds on the watcher's clock at the last own toggle, plus one;
    /// zero when there was none.
    last_own_toggle: u64,
}

impl LauncherWatch {
    pub closed spec fn on(&self) -> bool {
        self.enabled
    }

    pub closed spec fn last_toggle_mark(&self) -> u64 {
        self.last_own_toggle
    }

    /// Off, with no toggle recorded.
    pub fn new() -> (r: Self)
        ensures
            !r.on(),
            r.last_toggle_mark() == 0,
    {
        LauncherWatch { enabled: false, last_own_toggle: 0 }
    }

    pub fn set_enabled(&mut self, on: bool)
        ensures
            final(self).on() == on,
            final(self).last_toggle_mark() == old(self).last_toggle_mark(),
    {
        self.enabled = on;
    }

    pub fn is_enabled(&self) -> (r: bool)
        ensures
            r == self.on(),
    {
        self.enabled
    }

    /// Records that the launcher toggled itself at `now_ms` on the watcher's
    /// clock.
    pub fn note_own_toggle(&mut self, now_ms: u64)
        ensures
            final(self).on() == old(self).on(),
            final(self).last_toggle_mark() == now_ms.wrapping_add(1),
    {
        self.last_own_toggle = now_ms.wrapping_add(1);
    }

    /// Whether `now_ms` is within the grace period of the last own toggle.
    pub fn within_self_grace(&self, now_ms: u64) -> (r: bool)
        ensures
            r == (self.last_toggle_mark() != 0 && (if now_ms >= self.last_toggle_mark() {
                now_ms - self.last_toggle_mark()
            } else {
                0
            }) < SELF_GRACE_MS),
    {
        if self.last_own_toggle == 0 {
            return false;
        }
        let since = if now_ms >= self.last_own_toggle {
            now_ms - self.last_own_toggle
        } else {
            0
        };
        since < SELF_GRACE_MS
    }

    /// Whether the scan due at `now_ms` is skipped.
    pub fn skip_scan_at(&self, now_ms: u64) -> (r: bool)
        ensures
            r == (!self.on() || (self.last_toggle_mark() != 0 && (if now_ms >= self.last_toggle_mark() {
                now_ms - self.last_toggle_mark()
            } else {
                0
            }) < SELF_GRACE_MS)),
    {
        should_skip_scan(self.enabled, self.within_self_grace(now_ms))
    }
}

} // verus!
