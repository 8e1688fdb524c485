//! Presenting the Windows taskbar while the palette is open, and leaving it
//! in the z-band it had before: the decisions, the crash marker's contents,
//! and the lease that ties them together.

use vstd::prelude::*;

verus! {

/// Slack, in pixels, that keeps a maximised window from counting as
/// fullscreen.
pub const FULLSCREEN_TOLERANCE: i32 = 4;

/// How the taskbar is shown while the palette is open.
#[derive(Clone, Copy, Debug, PartialEq, Eq, Structural)]
pub struct TaskbarPresentation {
    pub show: bool,
    pub topmost: bool,
}

/// The taskbar is always shown with the palette, and raised above other
/// windows only over a fullscreen app or when it auto-hides.
pub fn taskbar_presentation(fullscreen: bool, auto_hide: bool) -> (r: TaskbarPresentation)
    ensures
        r.show,
        r.topmost == (fullscreen || auto_hide),
{
    TaskbarPresentation { show: true, topmost: fullscreen || auto_hide }
}

/// A window rectangle.
#[derive(Clone, Copy, Debug, PartialEq, Eq, Structural)]
pub struct Rect {
    pub left: i32,
    pub top: i32,
    pub right: i32,
    pub bottom: i32,
}

/// Whether `window` covers `monitor` to within `tolerance` pixels on every
/// side.
pub open spec fn covers(window: Rect, monitor: Rect, tolerance: i32) -> bool {
    window.left <= monitor.left + tolerance && window.top <= monitor.top + tolerance && window.right
        >= monitor.right - tolerance && window.bottom >= monitor.bottom - tolerance
}

pub fn rect_covers_monitor(window: Rect, monitor: Rect, tolerance: i32) -> (r: bool)
    requires
        i32::MIN <= monitor.left + tolerance <= i32::MAX,
        i32::MIN <= monitor.top + tolerance <= i32::MAX,
        i32::MIN <= monitor.right - tolerance <= i32::MAX,
        i32::MIN <= monitor.bottom - tolerance <= i32::MAX,
    ensures
        r == covers(window, monitor, tolerance),
{
    window.left <= monitor.left + tolerance && window.top <= monitor.top + tolerance && window.right
        >= monitor.right - tolerance && window.bottom >= monitor.bottom - tolerance
}

/// The z-band the taskbar is left in when the palette closes.
#[derive(Clone, Copy, Debug, PartialEq, Eq, Structural)]
pub enum ReleaseBand {
    Topmost,
    Bottom,
    NotTopmost,
}

/// Exactly the band the taskbar had before: a recorded topmost taskbar goes
/// back to topmost; a recorded normal one stays demoted, below a fullscreen
/// app; with no record the safe plain demote.
pub open spec fn band_after(recorded_topmost: Option<bool>, fullscreen_foreground: bool) -> ReleaseBand {
    match recorded_topmost {
        Some(true) => ReleaseBand::Topmost,
        Some(false) => if fullscreen_foreground {
            ReleaseBand::Bottom
        } else {
            ReleaseBand::NotTopmost
        },
        None => ReleaseBand::NotTopmost,
    }
}

pub fn release_band(recorded_topmost: Option<bool>, fullscreen_foreground: bool) -> (r: ReleaseBand)
    ensures
        r == band_after(recorded_topmost, fullscreen_foreground),
{
    match recorded_topmost {
        Some(true) => ReleaseBand::Topmost,
        Some(false) => if fullscreen_foreground {
            ReleaseBand::Bottom
        } else {
            ReleaseBand::NotTopmost
        },
        None => ReleaseBand::NotTopmost,
    }
}

/// The crash marker's contents for the band the taskbar had.
pub open spec fn marker_bytes(topmost: bool) -> Seq<u8> {
    if topmost {
        seq![116u8, 111, 112, 109, 111, 115, 116]
    } else {
        seq![110u8, 111, 114, 109, 97, 108]
    }
}

pub fn marker_contents(topmost: bool) -> (r: Vec<u8>)
    ensures
        r@ == marker_bytes(topmost),
{
    let r = if topmost {
        vec![116u8, 111, 112, 109, 111, 115, 116]
    } else {
        vec![110u8, 111, 114, 109, 97, 108]
    };
    assert(r@ =~= marker_bytes(topmost));
    r
}

/// The band a marker records: topmost only for exactly `topmost`; anything
/// else (including an empty legacy marker) is the normal band.
pub fn marker_records_topmost(contents: &[u8]) -> (r: bool)
    ensures
        r == (contents@ == marker_bytes(true)),
{
    let expected = marker_contents(true);
    if contents.len() != expected.len() {
        return false;
    }
    let mut i: usize = 0;
    while i < contents.len()
        invariant
            i <= contents@.len(),
            contents@.len() == expected@.len(),
            expected@ == marker_bytes(true),
            forall|k: int| 0 <= k < i ==> contents@[k] == expected@[k],
        decreases contents@.len() - i,
    {
        if contents[i] != expected[i] {
            return false;
        }
        i += 1;
    }
    assert(contents@ =~= expected@);
    true
}

/// Reading back the marker written for a band gives that band.
pub proof fn lemma_marker_round_trip(topmost: bool)
    ensures
        (marker_bytes(topmost) == marker_bytes(true)) == topmost,
{
    if !topmost {
        assert(marker_bytes(false).len() != marker_bytes(true).len());
    }
}

/// The palette's temporary hold on the taskbar's z-order.
pub struct TaskbarLease {
    presented: bool,
    was_topmost: bool,
}

impl TaskbarLease {
    pub closed spec fn held(&self) -> bool {
        self.presented
    }

    pub closed spec fn recorded_topmost(&self) -> bool {
        self.was_topmost
    }

    pub fn new() -> (r: Self)
        ensures
            !r.held(),
    {
        TaskbarLease { presented: false, was_topmost: false }
    }

    /// Takes the lease, recording the band the taskbar had.
    pub fn present(&mut self, was_topmost: bool)
        ensures
            final(self).held(),
            final(self).recorded_topmost() == was_topmost,
    {
        self.was_topmost = was_topmost;
        self.presented = true;
    }

    /// Gives the lease back: the band to restore, if there is one to restore
    /// (this process presented the taskbar, or a crash left a marker).
    pub fn release(&mut self, marker_present: bool, marker_topmost: Option<bool>, fullscreen_foreground: bool) -> (r: Option<ReleaseBand>)
        ensures
            !final(self).held(),
            old(self).held() ==> r == Some(band_after(Some(old(self).recorded_topmost()), fullscreen_foreground)),
            !old(self).held() && marker_present ==> r == Some(band_after(marker_topmost, fullscreen_foreground)),
            !old(self).held() && !marker_present ==> r is None,
    {
        let owned = self.presented;
        self.presented = false;
        if owned || marker_present {
            let recorded = if owned {
                Some(self.was_topmost)
            } else {
                marker_topmost
            };
            Some(release_band(recorded, fullscreen_foreground))
        } else {
            None
        }
    }
}

/// Presenting and then releasing within one process leaves a taskbar that
/// was topmost topmost again, whatever is in the foreground.
pub proof fn lemma_present_release_restores_topmost(fullscreen_foreground: bool)
    ensures
        band_after(Some(true), fullscreen_foreground) == ReleaseBand::Topmost,
        band_after(Some(false), fullscreen_foreground) != ReleaseBand::Topmost,
{
}

/// Whether a window class (UTF-16, each unit read as its low byte, as the
/// Win32 class comparison here does) equals `expected` ignoring ASCII case.
pub open spec fn class_matches(actual: Seq<u16>, expected: Seq<u8>) -> bool {
    actual.len() == expected.len() && forall|i: int|
        0 <= i < actual.len() ==> fold_ascii((actual[i] % 256) as u8) == fold_ascii(#[trigger] expected[i])
}

pub open spec fn fold_ascii(b: u8) -> u8 {
    if 65 <= b <= 90 {
        (b + 32) as u8
    } else {
        b
    }
}

pub fn class_name_is(actual: &[u16], expected: &str) -> (r: bool)
    ensures
        r == class_matches(actual@, vstd::utf8::encode_utf8(expected@)),
{
    let e = expected.as_bytes();
    if actual.len() != e.len() {
        return false;
    }
    let mut i: usize = 0;
    while i < actual.len()
        invariant
            i <= actual@.len(),
            actual@.len() == e@.len(),
            e@ == vstd::utf8::encode_utf8(expected@),
            forall|k: int| 0 <= k < i ==> fold_ascii((actual@[k] % 256) as u8) == fold_ascii(#[trigger] e@[k]),
        decreases actual@.len() - i,
    {
        let low = (actual[i] % 256) as u8;
        let a = if 65 <= low && low <= 90 {
            low + 32
        } else {
            low
        };
        let b = if 65 <= e[i] && e[i] <= 90 {
            e[i] + 32
        } else {
            e[i]
        };
        if a != b {
            return false;
        }
        i += 1;
    }
    true
}

} // verus!
