//! The decisions of the hook Prism loads into Explorer: which bridge
//! messages it answers and how, which Start commands it swallows, and how
//! it turns presses on the Start or Search button into one reported click.
//! The hook's window calls are carried out by the caller; here is what to
//! do, and the state the hook keeps between messages.

use vstd::prelude::*;

verus! {

pub const WM_NULL: u32 = 0;
pub const WM_SYSCOMMAND: u32 = 0x0112;
pub const WM_SETTINGCHANGE: u32 = 0x001A;
pub const WM_LBUTTONDOWN: usize = 0x0201;
pub const WM_LBUTTONUP: usize = 0x0202;
pub const SC_TASKLIST: usize = 0xF130;

pub const CONTROL_DISABLE_WIN_HOTKEY: usize = 1;
pub const EVENT_HOTKEY_DISABLED: usize = 2;
pub const CONTROL_START_RECT_LEFT: usize = 4;
pub const CONTROL_START_RECT_TOP: usize = 5;
pub const CONTROL_START_RECT_RIGHT: usize = 6;
pub const CONTROL_START_RECT_BOTTOM: usize = 7;
pub const EVENT_START_RECT_CONFIGURED: usize = 8;
pub const EVENT_TASKBAR_START_CLICK_X: usize = 9;
pub const EVENT_TASKBAR_START_CLICK_Y: usize = 10;
pub const CONTROL_START_ICON_REFRESH: usize = 11;
pub const CONTROL_START_ICON_SHUTDOWN: usize = 12;
pub const EVENT_START_ICON_SHUTDOWN: usize = 13;
pub const EVENT_START_ICON_REFRESHED: usize = 14;
pub const CONTROL_SEARCH_RECT_LEFT: usize = 15;
pub const CONTROL_SEARCH_RECT_TOP: usize = 16;
pub const CONTROL_SEARCH_RECT_RIGHT: usize = 17;
pub const CONTROL_SEARCH_RECT_BOTTOM: usize = 18;
pub const EVENT_SEARCH_RECT_CONFIGURED: usize = 19;
pub const CONTROL_TASKBAR_PIN: usize = 20;
pub const CONTROL_TASKBAR_UNPIN: usize = 21;
pub const EVENT_TASKBAR_PIN_COMPLETED: usize = 22;

/// The shell's own "open Start" command: `WM_SYSCOMMAND` with `SC_TASKLIST`
/// in the command bits (the low four bits are the system's).
pub open spec fn start_command(message: u32, wparam: usize) -> bool {
    message == WM_SYSCOMMAND && wparam & 0xFFF0 == SC_TASKLIST
}

pub fn is_start_command(message: u32, wparam: usize) -> (r: bool)
    ensures
        r == start_command(message, wparam),
{
    message == WM_SYSCOMMAND && wparam & 0xFFF0 == SC_TASKLIST
}

/// A button rectangle configured one edge per message; it is usable once
/// its last edge arrived and it is not empty.
#[derive(Clone, Copy, Debug, PartialEq, Eq, Structural)]
pub struct ButtonRect {
    pub left: i32,
    pub top: i32,
    pub right: i32,
    pub bottom: i32,
    pub ready: bool,
}

/// What the hook remembers between messages.
#[derive(Clone, Copy, Debug, PartialEq, Eq, Structural)]
pub struct HookState {
    pub start: ButtonRect,
    pub search: ButtonRect,
    /// A button press was swallowed and its release is still due.
    pub press_captured: bool,
}

impl HookState {
    /// No button known yet, no press pending.
    pub fn new() -> (r: Self)
        ensures
            r.start == (ButtonRect { left: 0, top: 0, right: 0, bottom: 0, ready: false }),
            r.search == (ButtonRect { left: 0, top: 0, right: 0, bottom: 0, ready: false }),
            !r.press_captured,
    {
        let empty = ButtonRect { left: 0, top: 0, right: 0, bottom: 0, ready: false };
        HookState { start: empty, search: empty, press_captured: false }
    }
}

/// What the caller carries out for a message, after which the hook passes
/// the message on (a swallowed one as `WM_NULL`).
#[derive(Clone, Copy, Debug, PartialEq, Eq, Structural)]
pub enum HookWork {
    Nothing,
    /// Unregister hot keys 0 to 16, then report `EVENT_HOTKEY_DISABLED`
    /// with whether any was unregistered.
    DisableWinHotkey,
    /// Report `event` with `detail`; repaint the Start icon afterwards when
    /// `refresh_icon`.
    Report { event: usize, detail: isize, refresh_icon: bool },
    /// Repaint the Start icon and report the result as
    /// `EVENT_START_ICON_REFRESHED`.
    RefreshAndReport,
    /// Tear the icon window down and report `EVENT_START_ICON_SHUTDOWN`.
    ShutdownIcon,
    /// Pin (or unpin) the prepared target and report the result as
    /// `EVENT_TASKBAR_PIN_COMPLETED`.
    Pin(bool),
    /// Repaint the Start icon without reporting.
    RefreshIcon,
}

#[derive(Clone, Copy, Debug, PartialEq, Eq, Structural)]
pub struct HookOutcome {
    /// Replace the message by `WM_NULL`.
    pub swallow: bool,
    /// Forget the cached background under the Start button.
    pub clear_background: bool,
    pub work: HookWork,
}

/// A rectangle with positive width and height.
pub open spec fn non_empty(r: ButtonRect) -> bool {
    r.right > r.left && r.bottom > r.top
}

/// The hook state after a bridge control message with the value `value`.
pub open spec fn after_control(s: HookState, control: usize, value: i32) -> HookState {
    if control == CONTROL_START_RECT_LEFT {
        HookState {
            start: ButtonRect { left: value, ready: false, ..s.start },
            press_captured: false,
            ..s
        }
    } else if control == CONTROL_START_RECT_TOP {
        HookState { start: ButtonRect { top: value, ..s.start }, ..s }
    } else if control == CONTROL_START_RECT_RIGHT {
        HookState { start: ButtonRect { right: value, ..s.start }, ..s }
    } else if control == CONTROL_START_RECT_BOTTOM {
        let r = ButtonRect { bottom: value, ..s.start };
        HookState { start: ButtonRect { ready: non_empty(r), ..r }, ..s }
    } else if control == CONTROL_SEARCH_RECT_LEFT {
        HookState {
            search: ButtonRect { left: value, ready: false, ..s.search },
            press_captured: false,
            ..s
        }
    } else if control == CONTROL_SEARCH_RECT_TOP {
        HookState { search: ButtonRect { top: value, ..s.search }, ..s }
    } else if control == CONTROL_SEARCH_RECT_RIGHT {
        HookState { search: ButtonRect { right: value, ..s.search }, ..s }
    } else if control == CONTROL_SEARCH_RECT_BOTTOM {
        let r = ButtonRect { bottom: value, ..s.search };
        HookState { search: ButtonRect { ready: non_empty(r), ..r }, ..s }
    } else {
        s
    }
}

/// The outcome of a bridge control message, given the state after it and
/// whether a custom Start icon is showing.
pub open spec fn control_outcome(after: HookState, control: usize, icon_active: bool) -> HookOutcome {
    let swallowed = |work: HookWork| HookOutcome { swallow: true, clear_background: false, work };
    if control == CONTROL_DISABLE_WIN_HOTKEY {
        swallowed(HookWork::DisableWinHotkey)
    } else if control == CONTROL_START_RECT_LEFT {
        HookOutcome { swallow: true, clear_background: true, work: HookWork::Nothing }
    } else if control == CONTROL_START_RECT_TOP || control == CONTROL_START_RECT_RIGHT || control
        == CONTROL_SEARCH_RECT_LEFT || control == CONTROL_SEARCH_RECT_TOP || control
        == CONTROL_SEARCH_RECT_RIGHT {
        swallowed(HookWork::Nothing)
    } else if control == CONTROL_START_RECT_BOTTOM {
        swallowed(
            HookWork::Report {
                event: EVENT_START_RECT_CONFIGURED,
                detail: if after.start.ready { 1 } else { 0 },
                refresh_icon: after.start.ready && icon_active,
            },
        )
    } else if control == CONTROL_SEARCH_RECT_BOTTOM {
        swallowed(
            HookWork::Report {
                event: EVENT_SEARCH_RECT_CONFIGURED,
                detail: if after.search.ready { 1 } else { 0 },
                refresh_icon: false,
            },
        )
    } else if control == CONTROL_START_ICON_REFRESH {
        swallowed(HookWork::RefreshAndReport)
    } else if control == CONTROL_START_ICON_SHUTDOWN {
        swallowed(HookWork::ShutdownIcon)
    } else if control == CONTROL_TASKBAR_PIN {
        swallowed(HookWork::Pin(true))
    } else if control == CONTROL_TASKBAR_UNPIN {
        swallowed(HookWork::Pin(false))
    } else {
        HookOutcome { swallow: false, clear_background: false, work: HookWork::Nothing }
    }
}

/// The control code a bridge message carries in its low 32 bits.
pub open spec fn control_of(wparam: usize) -> usize {
    wparam & 0xFFFF_FFFF
}

/// Handles a message seen by the hook. A bridge message (`bridge_id`)
/// configures the hook or asks for work; the shell's Start command is
/// swallowed while Prism's observer is alive; a settings change repaints an
/// active custom icon. Everything else passes unchanged.
pub fn on_get_message(
    state: &mut HookState,
    bridge_id: u32,
    message: u32,
    wparam: usize,
    lparam: isize,
    observer_alive: bool,
    icon_active: bool,
) -> (r: HookOutcome)
    ensures
        message == bridge_id ==> {
            &&& *final(state) == after_control(*old(state), control_of(wparam), lparam as i32)
            &&& r == control_outcome(*final(state), control_of(wparam), icon_active)
        },
        message != bridge_id ==> {
            &&& *final(state) == *old(state)
            &&& r == if start_command(message, wparam) && observer_alive {
                HookOutcome { swallow: true, clear_background: false, work: HookWork::Nothing }
            } else if message == WM_SETTINGCHANGE && icon_active {
                HookOutcome { swallow: false, clear_background: false, work: HookWork::RefreshIcon }
            } else {
                HookOutcome { swallow: false, clear_background: false, work: HookWork::Nothing }
            }
        },
{
    let pass = HookOutcome { swallow: false, clear_background: false, work: HookWork::Nothing };
    if message != bridge_id {
        if is_start_command(message, wparam) && observer_alive {
            return HookOutcome { swallow: true, clear_background: false, work: HookWork::Nothing };
        }
        if message == WM_SETTINGCHANGE && icon_active {
            return HookOutcome { swallow: false, clear_background: false, work: HookWork::RefreshIcon };
        }
        return pass;
    }
    let control = wparam & 0xFFFF_FFFF;
    let value = lparam as i32;
    let swallow = |work: HookWork| -> (o: HookOutcome)
        ensures
            o == (HookOutcome { swallow: true, clear_background: false, work }),
        { HookOutcome { swallow: true, clear_background: false, work } };
    if control == CONTROL_DISABLE_WIN_HOTKEY {
        swallow(HookWork::DisableWinHotkey)
    } else if control == CONTROL_START_RECT_LEFT {
        state.start.ready = false;
        state.press_captured = false;
        state.start.left = value;
        HookOutcome { swallow: true, clear_background: true, work: HookWork::Nothing }
    } else if control == CONTROL_START_RECT_TOP {
        state.start.top = value;
        swallow(HookWork::Nothing)
    } else if control == CONTROL_START_RECT_RIGHT {
        state.start.right = value;
        swallow(HookWork::Nothing)
    } else if control == CONTROL_START_RECT_BOTTOM {
        state.start.bottom = value;
        let valid = state.start.right > state.start.left && state.start.bottom > state.start.top;
        state.start.ready = valid;
        swallow(
            HookWork::Report {
                event: EVENT_START_RECT_CONFIGURED,
                detail: if valid { 1 } else { 0 },
                refresh_icon: valid && icon_active,
            },
        )
    } else if control == CONTROL_START_ICON_REFRESH {
        swallow(HookWork::RefreshAndReport)
    } else if control == CONTROL_START_ICON_SHUTDOWN {
        swallow(HookWork::ShutdownIcon)
    } else if control == CONTROL_SEARCH_RECT_LEFT {
        state.search.ready = false;
        state.press_captured = false;
        state.search.left = value;
        swallow(HookWork::Nothing)
    } else if control == CONTROL_SEARCH_RECT_TOP {
        state.search.top = value;
        swallow(HookWork::Nothing)
    } else if control == CONTROL_SEARCH_RECT_RIGHT {
        state.search.right = value;
        swallow(HookWork::Nothing)
    } else if control == CONTROL_SEARCH_RECT_BOTTOM {
        state.search.bottom = value;
        let valid = state.search.right > state.search.left && state.search.bottom
            > state.search.top;
        state.search.ready = valid;
        swallow(
            HookWork::Report {
                event: EVENT_SEARCH_RECT_CONFIGURED,
                detail: if valid { 1 } else { 0 },
                refresh_icon: false,
            },
        )
    } else if control == CONTROL_TASKBAR_PIN {
        swallow(HookWork::Pin(true))
    } else if control == CONTROL_TASKBAR_UNPIN {
        swallow(HookWork::Pin(false))
    } else {
        pass
    }
}

/// Whether a configured, non-empty button contains the point (right and
/// bottom edges excluded).
pub open spec fn button_contains(r: ButtonRect, x: i32, y: i32) -> bool {
    r.ready && r.left <= x < r.right && r.top <= y < r.bottom
}

pub fn point_is_in_start_button(state: &HookState, x: i32, y: i32) -> (r: bool)
    ensures
        r == button_contains(state.start, x, y),
{
    state.start.ready && x >= state.start.left && x < state.start.right && y >= state.start.top
        && y < state.start.bottom
}

pub fn point_is_in_search_button(state: &HookState, x: i32, y: i32) -> (r: bool)
    ensures
        r == button_contains(state.search, x, y),
{
    state.search.ready && x >= state.search.left && x < state.search.right && y
        >= state.search.top && y < state.search.bottom
}

/// What the mouse hook does with a message.
#[derive(Clone, Copy, Debug, PartialEq, Eq, Structural)]
pub struct MouseOutcome {
    /// Keep the message from the taskbar.
    pub swallow: bool,
    /// Report a click at the point to Prism.
    pub report_click: bool,
}

/// The mouse hook's step: the state after a mouse message at `(x, y)` and
/// what to do with it. A press on the Start or Search button is swallowed
/// while Prism's observer is alive; the release that follows a swallowed
/// press is always swallowed too, and reported as a click when it is still
/// on a button.
pub open spec fn mouse_step(s: HookState, wparam: usize, x: i32, y: i32, observer_alive: bool) -> (
    HookState,
    MouseOutcome,
) {
    let in_target = button_contains(s.start, x, y) || button_contains(s.search, x, y);
    if wparam == WM_LBUTTONDOWN {
        (
            HookState { press_captured: in_target && observer_alive, ..s },
            MouseOutcome { swallow: in_target && observer_alive, report_click: false },
        )
    } else if wparam == WM_LBUTTONUP && s.press_captured {
        (
            HookState { press_captured: false, ..s },
            MouseOutcome { swallow: true, report_click: in_target },
        )
    } else {
        (s, MouseOutcome { swallow: false, report_click: false })
    }
}

pub fn on_mouse(state: &mut HookState, wparam: usize, x: i32, y: i32, observer_alive: bool) -> (r:
    MouseOutcome)
    ensures
        (*final(state), r) == mouse_step(*old(state), wparam, x, y, observer_alive),
{
    let in_target = point_is_in_start_button(state, x, y) || point_is_in_search_button(state, x, y);
    if wparam == WM_LBUTTONDOWN {
        let capture = in_target && observer_alive;
        state.press_captured = capture;
        MouseOutcome { swallow: capture, report_click: false }
    } else if wparam == WM_LBUTTONUP && state.press_captured {
        state.press_captured = false;
        MouseOutcome { swallow: true, report_click: in_target }
    } else {
        MouseOutcome { swallow: false, report_click: false }
    }
}

/// A press is never half-handled: when a press is swallowed, the next
/// release is swallowed as well, wherever the pointer went, and the hook is
/// then ready for a fresh press.
pub proof fn law_swallowed_press_swallows_its_release(
    s: HookState,
    x: i32,
    y: i32,
    x2: i32,
    y2: i32,
    alive: bool,
    alive2: bool,
)
    requires
        mouse_step(s, WM_LBUTTONDOWN, x, y, alive).1.swallow,
    ensures
        ({
            let pressed = mouse_step(s, WM_LBUTTONDOWN, x, y, alive).0;
            let (released, outcome) = mouse_step(pressed, WM_LBUTTONUP, x2, y2, alive2);
            &&& outcome.swallow
            &&& !released.press_captured
        }),
{
}

/// Sending a button's four edges, left first and bottom last, configures
/// exactly that rectangle; it is usable when it is not empty.
pub proof fn law_edges_configure_the_start_button(s: HookState, l: i32, t: i32, r: i32, b: i32)
    ensures
        ({
            let s1 = after_control(s, CONTROL_START_RECT_LEFT, l);
            let s2 = after_control(s1, CONTROL_START_RECT_TOP, t);
            let s3 = after_control(s2, CONTROL_START_RECT_RIGHT, r);
            let s4 = after_control(s3, CONTROL_START_RECT_BOTTOM, b);
            &&& !s1.start.ready && !s2.start.ready && !s3.start.ready
            &&& s4.start == ButtonRect { left: l, top: t, right: r, bottom: b, ready: r > l && b > t }
            &&& s4.search == s.search
        }),
{
}

} // verus!
