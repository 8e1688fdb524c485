//! Ranking of the visible top-level windows for the first query phase.
//!
//! Enumerating the windows is the desktop's business; this module decides
//! which of them are listed (the Alt+Tab rules) and ranks the list.

use vstd::prelude::*;
use crate::query::score::{score_text, text_score};
use crate::sorting::{sort_ranked, stable_sort, Ranked};
use crate::text::{chars_of, eq_ignore_case, eq_ignore_case_exec, lex_lt, str_lex_lt, to_lowercase, unicode_lowercase};
use crate::query::catalog::take_at_most;

verus! {

/// A switchable top-level window.
#[derive(Debug)]
pub struct OpenWindow {
    pub hwnd: i64,
    pub title: String,
    pub process_name: String,
}

impl OpenWindow {
    /// A field-by-field copy.
    pub fn duplicate(&self) -> (r: OpenWindow)
        ensures
            r == *self,
    {
        OpenWindow { hwnd: self.hwnd, title: self.title.clone(), process_name: self.process_name.clone() }
    }
}

/// A process-name match counts 40 less than the same match on the title, and
/// never below zero.
pub open spec fn process_adjust(score: i32) -> i32 {
    let lowered = score.wrapping_sub(40);
    if lowered > 0 {
        lowered
    } else {
        0
    }
}

/// Score of one window: the better of its title and process scores; a
/// process-only match counts when it stays above zero.
pub open spec fn window_score(query: Seq<char>, w: OpenWindow) -> Option<i32> {
    let title = text_score(query, w.title@);
    let process = match text_score(query, w.process_name@) {
        Some(s) => Some(process_adjust(s)),
        None => None,
    };
    match (title, process) {
        (Some(t), Some(p)) => Some(if t >= p { t } else { p }),
        (Some(t), None) => Some(t),
        (None, Some(p)) => if p > 0 {
            Some(p)
        } else {
            None
        },
        (None, None) => None,
    }
}

/// A window with its score, ordered best score first, then by the
/// lowercased title.
pub struct WindowRow {
    pub window: OpenWindow,
    pub score: i32,
}

impl Ranked for WindowRow {
    open spec fn spec_precedes(&self, other: &Self) -> bool {
        self.score > other.score || (self.score == other.score && lex_lt(
            unicode_lowercase(self.window.title@),
            unicode_lowercase(other.window.title@),
        ))
    }

    fn precedes(&self, other: &Self) -> (r: bool) {
        if self.score != other.score {
            return self.score > other.score;
        }
        let a = to_lowercase(self.window.title.as_str());
        let b = to_lowercase(other.window.title.as_str());
        str_lex_lt(a.as_str(), b.as_str())
    }
}

/// Matching windows with their scores, in list order.
pub open spec fn scored_windows(query: Seq<char>, ws: Seq<OpenWindow>) -> Seq<WindowRow>
    decreases ws.len(),
{
    if ws.len() == 0 {
        seq![]
    } else {
        let rest = scored_windows(query, ws.drop_last());
        match window_score(query, ws.last()) {
            Some(s) => rest.push(WindowRow { window: ws.last(), score: s }),
            None => rest,
        }
    }
}

/// The ranked windows for `query`, at most `limit`.
pub open spec fn window_results(query: Seq<char>, ws: Seq<OpenWindow>, limit: usize) -> Seq<
    WindowRow,
> {
    take_at_most(stable_sort(scored_windows(query, ws)), limit as int)
}

fn score_window(query: &str, w: &OpenWindow) -> (r: Option<i32>)
    ensures
        r == window_score(query@, *w),
{
    let title = score_text(query, w.title.as_str());
    let process = match score_text(query, w.process_name.as_str()) {
        Some(s) => {
            let lowered = s.wrapping_sub(40);
            Some(
                if lowered > 0 {
                    lowered
                } else {
                    0
                },
            )
        },
        None => None,
    };
    match (title, process) {
        (Some(t), Some(p)) => Some(
            if t >= p {
                t
            } else {
                p
            },
        ),
        (Some(t), None) => Some(t),
        (None, Some(p)) => if p > 0 {
            Some(p)
        } else {
            None
        },
        (None, None) => None,
    }
}

/// Windows matching `query`, best first (ties by lowercased title), at most
/// `limit`.
pub fn search(query: &str, windows: &[OpenWindow], limit: usize) -> (r: Vec<(OpenWindow, i32)>)
    ensures
        r@.len() == window_results(query@, windows@, limit).len(),
        forall|i: int|
            0 <= i < r@.len() ==> #[trigger] r@[i] == (
                window_results(query@, windows@, limit)[i].window,
                window_results(query@, windows@, limit)[i].score,
            ),
{
    let mut rows: Vec<WindowRow> = Vec::new();
    let mut i: usize = 0;
    assert(windows@.take(0) =~= seq![]);
    while i < windows.len()
        invariant
            i <= windows@.len(),
            rows@ == scored_windows(query@, windows@.take(i as int)),
        decreases windows@.len() - i,
    {
        proof {
            assert(windows@.take(i + 1).drop_last() =~= windows@.take(i as int));
            assert(windows@.take(i + 1).last() == windows@[i as int]);
        }
        match score_window(query, &windows[i]) {
            Some(s) => rows.push(WindowRow { window: windows[i].duplicate(), score: s }),
            None => {},
        }
        i += 1;
    }
    assert(windows@.take(windows@.len() as int) =~= windows@);
    let mut sorted = sort_ranked(rows);
    sorted.truncate(limit);
    let ghost expect = sorted@;
    let mut out: Vec<(OpenWindow, i32)> = Vec::new();
    let mut rest = sorted;
    let mut k: usize = 0;
    let n = rest.len();
    assert(expect.skip(0) =~= expect);
    while rest.len() > 0
        invariant
            k + rest@.len() == n,
            n == expect.len(),
            rest@ == expect.skip(k as int),
            out@.len() == k,
            forall|j: int| 0 <= j < k ==> #[trigger] out@[j] == (expect[j].window, expect[j].score),
        decreases rest@.len(),
    {
        let row = rest.remove(0);
        assert(row == expect[k as int]);
        out.push((row.window, row.score));
        k += 1;
        assert(rest@ =~= expect.skip(k as int));
    }
    out
}

/// Shell windows that are never offered, whatever their title.
pub open spec fn skip_classes() -> Seq<Seq<char>> {
    seq![
        "Shell_TrayWnd"@,
        "Shell_SecondaryTrayWnd"@,
        "Progman"@,
        "WorkerW"@,
        "Windows.Internal.Shell.TabProxyWindow"@,
        "IME"@,
        "MSCTFIME UI"@,
    ]
}

fn skip_class_list() -> (r: Vec<&'static str>)
    ensures
        r@.len() == skip_classes().len(),
        forall|i: int| 0 <= i < r@.len() ==> #[trigger] r@[i]@ == skip_classes()[i],
{
    vec!["Shell_TrayWnd", "Shell_SecondaryTrayWnd", "Progman", "WorkerW", "Windows.Internal.Shell.TabProxyWindow", "IME", "MSCTFIME UI"]
}

/// The window class is one of the skipped shell classes, ignoring ASCII case.
pub open spec fn skipped_class(class_name: Seq<char>) -> bool {
    exists|i: int| 0 <= i < skip_classes().len() && eq_ignore_case(class_name, #[trigger] skip_classes()[i])
}

pub fn is_skipped_class(class_name: &str) -> (r: bool)
    ensures
        r == skipped_class(class_name@),
{
    let list = skip_class_list();
    let cs = chars_of(class_name);
    let mut i: usize = 0;
    while i < list.len()
        invariant
            i <= list@.len(),
            list@.len() == skip_classes().len(),
            forall|j: int| 0 <= j < list@.len() ==> #[trigger] list@[j]@ == skip_classes()[j],
            cs@ == class_name@,
            forall|j: int| 0 <= j < i ==> !eq_ignore_case(class_name@, #[trigger] skip_classes()[j]),
        decreases list@.len() - i,
    {
        let other = chars_of(list[i]);
        if eq_ignore_case_exec(cs.as_slice(), other.as_slice()) {
            assert(eq_ignore_case(class_name@, skip_classes()[i as int]));
            return true;
        }
        i += 1;
    }
    false
}

pub const WS_EX_TOOLWINDOW: u32 = 0x0000_0080;

pub const WS_EX_APPWINDOW: u32 = 0x0004_0000;

/// A tool window is left out of the switcher unless it asks to be listed.
pub fn style_allows_switch(ex_style: u32) -> (r: bool)
    ensures
        r == (ex_style & WS_EX_TOOLWINDOW == 0 || ex_style & WS_EX_APPWINDOW != 0),
{
    ex_style & WS_EX_TOOLWINDOW == 0 || ex_style & WS_EX_APPWINDOW != 0
}

/// Most popups followed from a window's root owner.
pub const MAX_POPUP_STEPS: u32 = 8;

/// The walk from a window's root owner along its last active popups, which
/// decides whether the window is the one Alt+Tab would show for its owner.
pub struct PopupWalk {
    pub walk: i64,
    pub steps: u32,
    pub done: bool,
}

impl PopupWalk {
    /// Starts at the root owner, or at the window itself when it has none.
    pub fn new(hwnd: i64, root_owner: i64) -> (r: Self)
        ensures
            r.walk == (if root_owner == 0 { hwnd } else { root_owner }),
            r.steps == 0,
            !r.done,
    {
        PopupWalk { walk: if root_owner == 0 { hwnd } else { root_owner }, steps: 0, done: false }
    }

    /// Whether the walk wants the last active popup of `self.walk`.
    pub fn wants_popup(&self) -> (r: bool)
        ensures
            r == (!self.done && self.steps < MAX_POPUP_STEPS),
    {
        !self.done && self.steps < MAX_POPUP_STEPS
    }

    /// Takes the last active popup of the current window: the walk stops at
    /// no popup, at the window itself, or at a visible popup (which it moves
    /// to); an invisible popup is followed.
    pub fn follow(&mut self, popup: i64, popup_visible: bool)
        requires
            !old(self).done,
            old(self).steps < MAX_POPUP_STEPS,
        ensures
            popup == 0 || popup == old(self).walk || popup_visible ==> final(self).done && final(self).walk
                == (if popup != 0 { popup } else { old(self).walk }) && final(self).steps == old(self).steps,
            !(popup == 0 || popup == old(self).walk || popup_visible) ==> !final(self).done
                && final(self).walk == popup && final(self).steps == old(self).steps + 1,
    {
        if popup == 0 || popup == self.walk || popup_visible {
            if popup != 0 {
                self.walk = popup;
            }
            self.done = true;
        } else {
            self.walk = popup;
            self.steps = self.steps + 1;
        }
    }

    /// The window is a switch target when the walk ended on it and its style
    /// allows switching.
    pub fn is_switch_target(&self, hwnd: i64, ex_style: u32) -> (r: bool)
        ensures
            r == (self.walk == hwnd && (ex_style & WS_EX_TOOLWINDOW == 0 || ex_style & WS_EX_APPWINDOW != 0)),
    {
        self.walk == hwnd && style_allows_switch(ex_style)
    }
}

/// Whether a window is offered: a window at all, visible, a switch target,
/// not a shell class, titled, and owned by a known process other than the
/// launcher.
pub fn listed_window(
    hwnd: i64,
    visible: bool,
    switch_target: bool,
    class_name: &str,
    title: &str,
    process_id: u32,
    own_process_id: u32,
) -> (r: bool)
    ensures
        r == (hwnd != 0 && visible && switch_target && !skipped_class(class_name@) && title@.len() > 0 && process_id != 0
            && process_id != own_process_id),
{
    hwnd != 0 && visible && switch_target && !is_skipped_class(class_name) && !title.is_empty() && process_id != 0
        && process_id != own_process_id
}

} // verus!
