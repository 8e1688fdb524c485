//! Where the palette window opens and how its open state flips: the
//! taskbar edge a monitor's work area reveals, the placement of the
//! palette inside that work area, and the presets its width moves between.

use vstd::prelude::*;
use crate::shell::taskbar_alignment::Alignment;

verus! {

/// A point in physical (device) pixels.
#[derive(Clone, Copy, Debug, PartialEq, Eq, Structural)]
pub struct PhysicalPoint {
    pub x: i32,
    pub y: i32,
}

/// A rectangle in physical pixels; `right` and `bottom` are exclusive.
#[derive(Clone, Copy, Debug, PartialEq, Eq, Structural)]
pub struct PhysicalRect {
    pub left: i32,
    pub top: i32,
    pub right: i32,
    pub bottom: i32,
}

/// The screen edge a taskbar is docked to.
#[derive(Clone, Copy, Debug, PartialEq, Eq, Structural)]
pub enum TaskbarEdge {
    Bottom,
    Top,
    Left,
    Right,
}

pub open spec fn fits_i32(v: int) -> bool {
    i32::MIN <= v <= i32::MAX
}

impl PhysicalRect {
    pub open spec fn span_x(self) -> int {
        self.right - self.left
    }

    pub open spec fn span_y(self) -> int {
        self.bottom - self.top
    }

    pub fn width(self) -> (r: i32)
        requires
            fits_i32(self.span_x()),
        ensures
            r == self.span_x(),
    {
        self.right - self.left
    }

    pub fn height(self) -> (r: i32)
        requires
            fits_i32(self.span_y()),
        ensures
            r == self.span_y(),
    {
        self.bottom - self.top
    }

    /// The middle of the rectangle, halves rounded toward the top left
    /// for even spans and toward zero for negative ones.
    pub fn center(self) -> (r: PhysicalPoint)
        requires
            fits_i32(self.span_x()),
            fits_i32(self.span_y()),
        ensures
            r.x == self.left + half(self.span_x()),
            r.y == self.top + half(self.span_y()),
    {
        let w = self.width();
        let h = self.height();
        PhysicalPoint { x: self.left + w / 2, y: self.top + h / 2 }
    }
}

/// Half of `v`, rounded toward zero as Rust's `/` does.
pub open spec fn half(v: int) -> int {
    if v >= 0 {
        v / 2
    } else {
        -((-v) / 2)
    }
}

// ---------------------------------------------------------------------------
// Which edge the taskbar is on
// ---------------------------------------------------------------------------

/// How far the work area stops short of the monitor on edge `e`.
pub open spec fn edge_inset(monitor: PhysicalRect, work: PhysicalRect, e: TaskbarEdge) -> int {
    match e {
        TaskbarEdge::Top => work.top - monitor.top,
        TaskbarEdge::Bottom => monitor.bottom - work.bottom,
        TaskbarEdge::Left => work.left - monitor.left,
        TaskbarEdge::Right => monitor.right - work.right,
    }
}

/// The order in which the edges are weighed: on a tie the later one wins.
pub open spec fn edge_rank(e: TaskbarEdge) -> int {
    match e {
        TaskbarEdge::Top => 0,
        TaskbarEdge::Bottom => 1,
        TaskbarEdge::Left => 2,
        TaskbarEdge::Right => 3,
    }
}

/// Weighs edge `e` after `best`: it takes over when its inset is positive
/// and at least the best one so far.
pub open spec fn weigh(monitor: PhysicalRect, work: PhysicalRect, best: Option<TaskbarEdge>, e: TaskbarEdge) -> Option<
    TaskbarEdge,
> {
    if edge_inset(monitor, work, e) > 0 && match best {
        Some(b) => edge_inset(monitor, work, e) >= edge_inset(monitor, work, b),
        None => true,
    } {
        Some(e)
    } else {
        best
    }
}

/// The edges weighed top, bottom, left, right.
pub open spec fn edge_choice(monitor: PhysicalRect, work: PhysicalRect) -> Option<TaskbarEdge> {
    let top = weigh(monitor, work, None, TaskbarEdge::Top);
    let bottom = weigh(monitor, work, top, TaskbarEdge::Bottom);
    let left = weigh(monitor, work, bottom, TaskbarEdge::Left);
    weigh(monitor, work, left, TaskbarEdge::Right)
}

/// `e` has the largest positive inset, and is the last such edge.
pub open spec fn is_taskbar_edge(monitor: PhysicalRect, work: PhysicalRect, e: TaskbarEdge) -> bool {
    &&& edge_inset(monitor, work, e) > 0
    &&& forall|o: TaskbarEdge| #[trigger]
        edge_inset(monitor, work, o) > edge_inset(monitor, work, e) ==> false
    &&& forall|o: TaskbarEdge|
        #[trigger] edge_inset(monitor, work, o) == edge_inset(monitor, work, e) ==> edge_rank(o)
            <= edge_rank(e)
}

/// The edge the taskbar takes from the monitor: the one with the largest
/// positive inset (the last of equal ones), or none when the work area
/// covers the whole monitor.
pub fn taskbar_edge(monitor: PhysicalRect, work: PhysicalRect) -> (r: Option<TaskbarEdge>)
    ensures
        r == edge_choice(monitor, work),
        match r {
            Some(e) => is_taskbar_edge(monitor, work, e),
            None => forall|o: TaskbarEdge| #[trigger] edge_inset(monitor, work, o) <= 0,
        },
{
    let insets: [(i64, TaskbarEdge); 4] = [
        (work.top as i64 - monitor.top as i64, TaskbarEdge::Top),
        (monitor.bottom as i64 - work.bottom as i64, TaskbarEdge::Bottom),
        (work.left as i64 - monitor.left as i64, TaskbarEdge::Left),
        (monitor.right as i64 - work.right as i64, TaskbarEdge::Right),
    ];
    let mut best: Option<(i64, TaskbarEdge)> = None;
    let mut i: usize = 0;
    while i < 4
        invariant
            i <= 4,
            insets@.len() == 4,
            forall|j: int|
                0 <= j < 4 ==> #[trigger] insets@[j].0 == edge_inset(monitor, work, insets@[j].1)
                    && edge_rank(insets@[j].1) == j,
            match best {
                Some((b, e)) => {
                    &&& b == edge_inset(monitor, work, e)
                    &&& b > 0
                    &&& edge_rank(e) < i
                    &&& forall|j: int| 0 <= j < i ==> #[trigger] insets@[j].0 <= b
                    &&& forall|j: int|
                        0 <= j < i && #[trigger] insets@[j].0 == b ==> j <= edge_rank(e)
                },
                None => forall|j: int| 0 <= j < i ==> #[trigger] insets@[j].0 <= 0,
            },
        decreases 4 - i,
    {
        let (inset, edge) = insets[i];
        if inset > 0 {
            let better = match best {
                Some((b, _)) => inset >= b,
                None => true,
            };
            if better {
                best = Some((inset, edge));
            }
        }
        i += 1;
    }
    proof {
        assert forall|o: TaskbarEdge| #[trigger] edge_inset(monitor, work, o) == insets@[edge_rank(o)].0 by {
            match o {
                TaskbarEdge::Top => assert(insets@[0].1 == TaskbarEdge::Top),
                TaskbarEdge::Bottom => assert(insets@[1].1 == TaskbarEdge::Bottom),
                TaskbarEdge::Left => assert(insets@[2].1 == TaskbarEdge::Left),
                TaskbarEdge::Right => assert(insets@[3].1 == TaskbarEdge::Right),
            }
        }
    }
    match best {
        Some((_, e)) => Some(e),
        None => None,
    }
}

// ---------------------------------------------------------------------------
// Where the palette opens
// ---------------------------------------------------------------------------

/// `v` held between `lo` and `hi`, as `Ord::clamp` does.
pub open spec fn clamp(v: int, lo: int, hi: int) -> int {
    if v < lo {
        lo
    } else if v > hi {
        hi
    } else {
        v
    }
}

/// The palette of `width` x `height` fits the work area, and no step of
/// the placement leaves `i32`.
pub open spec fn placement_fits(work: PhysicalRect, width: i32, height: i32) -> bool {
    &&& fits_i32(work.span_x())
    &&& fits_i32(work.span_y())
    &&& width <= work.span_x()
    &&& height <= work.span_y()
    &&& work.span_x() - width <= i32::MAX
    &&& work.span_y() - height <= i32::MAX
    &&& work.right - width <= i32::MAX
    &&& work.bottom - height <= i32::MAX
}

/// Position along the taskbar for the icon alignment: the start, the
/// middle or the end of the work area's span.
pub open spec fn aligned(alignment: Alignment, lo: int, hi: int, size: int) -> int {
    match alignment {
        Alignment::Left => lo,
        Alignment::Center => lo + (hi - lo - size) / 2,
        Alignment::Right => hi - size,
    }
}

/// The palette's top-left corner: against the taskbar's edge of the work
/// area, at the alignment's spot along it, then kept inside the work area.
pub open spec fn palette_spot(
    work: PhysicalRect,
    edge: TaskbarEdge,
    alignment: Alignment,
    width: int,
    height: int,
) -> (int, int) {
    let ax = aligned(alignment, work.left as int, work.right as int, width);
    let ay = aligned(alignment, work.top as int, work.bottom as int, height);
    let (x, y) = match edge {
        TaskbarEdge::Bottom => (ax, work.bottom - height),
        TaskbarEdge::Top => (ax, work.top as int),
        TaskbarEdge::Left => (work.left as int, ay),
        TaskbarEdge::Right => (work.right - width, ay),
    };
    (clamp(x, work.left as int, work.right - width), clamp(y, work.top as int, work.bottom - height))
}

fn aligned_exec(alignment: Alignment, lo: i32, hi: i32, size: i32) -> (r: i32)
    requires
        fits_i32(hi - lo),
        size <= hi - lo,
        hi - lo - size <= i32::MAX,
        hi - size <= i32::MAX,
    ensures
        r == aligned(alignment, lo as int, hi as int, size as int),
{
    match alignment {
        Alignment::Left => lo,
        Alignment::Center => lo + (hi - lo - size) / 2,
        Alignment::Right => hi - size,
    }
}

fn clamp_exec(v: i32, lo: i32, hi: i32) -> (r: i32)
    requires
        lo <= hi,
    ensures
        r == clamp(v as int, lo as int, hi as int),
{
    if v < lo {
        lo
    } else if v > hi {
        hi
    } else {
        v
    }
}

/// Places a `width` x `height` palette in the work area against the
/// taskbar edge, aligned like the taskbar icons and never outside the work
/// area.
pub fn palette_position(
    work: PhysicalRect,
    edge: TaskbarEdge,
    alignment: Alignment,
    width: i32,
    height: i32,
) -> (r: (i32, i32))
    requires
        placement_fits(work, width, height),
    ensures
        (r.0 as int, r.1 as int) == palette_spot(work, edge, alignment, width as int, height as int),
{
    let aligned_x = aligned_exec(alignment, work.left, work.right, width);
    let aligned_y = aligned_exec(alignment, work.top, work.bottom, height);
    let (x, y) = match edge {
        TaskbarEdge::Bottom => (aligned_x, work.bottom - height),
        TaskbarEdge::Top => (aligned_x, work.top),
        TaskbarEdge::Left => (work.left, aligned_y),
        TaskbarEdge::Right => (work.right - width, aligned_y),
    };
    (clamp_exec(x, work.left, work.right - width), clamp_exec(y, work.top, work.bottom - height))
}

/// Wherever the taskbar is and however the icons are aligned, a palette
/// that fits the work area opens entirely inside it.
pub proof fn law_palette_stays_in_work_area(
    work: PhysicalRect,
    edge: TaskbarEdge,
    alignment: Alignment,
    width: i32,
    height: i32,
)
    requires
        placement_fits(work, width, height),
    ensures
        ({
            let (x, y) = palette_spot(work, edge, alignment, width as int, height as int);
            &&& work.left <= x
            &&& x + width <= work.right
            &&& work.top <= y
            &&& y + height <= work.bottom
        }),
{
}

// ---------------------------------------------------------------------------
// Open state and width
// ---------------------------------------------------------------------------

/// The open flag after a toggle.
pub open spec fn toggled(open: bool) -> bool {
    !open
}

/// Flips the palette's open flag and reports whether it is now opening.
pub fn toggle_open_state(open: &mut bool) -> (r: bool)
    ensures
        *final(open) == toggled(*old(open)),
        r == *final(open),
{
    *open = !*open;
    *open
}

/// Repeated toggles alternate: each one reports the opposite of the one
/// before, and two in a row leave the palette as it was.
pub proof fn law_toggle_alternates(open: bool)
    ensures
        toggled(open) != open,
        toggled(toggled(open)) == open,
{
}

/// Prism renders one solid surface, so every style pass clears the native
/// window material first; the pass fails exactly when clearing fails.
pub fn apply_window_look_with<F: FnMut() -> Result<(), String>>(clear: F) -> (r: Result<(), String>)
    requires
        call_requires(clear, ()),
    ensures
        call_ensures(clear, (), r),
{
    let mut clear = clear;
    clear()
}

/// The width the frontend may animate the window through: anything between
/// the narrowest and the widest preset.
pub open spec fn animatable_width(width: u32) -> bool {
    560 <= width <= 720
}

pub fn is_animatable_window_width(width: u32) -> (r: bool)
    ensures
        r == animatable_width(width),
{
    560 <= width && width <= 720
}

// ---------------------------------------------------------------------------
// Presentation anchor and target
// ---------------------------------------------------------------------------

/// What a presentation was anchored to: the start button or click that
/// opened the palette, and the geometry of the monitor it happened on.
#[derive(Clone, Copy, Debug, PartialEq, Eq, Structural)]
pub struct PresentationAnchor {
    pub start_button: Option<PhysicalRect>,
    pub click_point: Option<PhysicalPoint>,
    pub taskbar_edge: Option<TaskbarEdge>,
    pub monitor: Option<PhysicalRect>,
    pub work_area: Option<PhysicalRect>,
}

/// A rectangle whose spans are non-negative and fit `i32`.
pub open spec fn sane_rect(r: PhysicalRect) -> bool {
    &&& r.left <= r.right
    &&& r.top <= r.bottom
    &&& r.span_x() <= i32::MAX
    &&& r.span_y() <= i32::MAX
}

/// The point whose monitor a presentation uses: the click, else the
/// middle of the start button.
pub open spec fn anchor_point(start_button: Option<PhysicalRect>, click_point: Option<PhysicalPoint>) -> Option<
    PhysicalPoint,
> {
    match click_point {
        Some(p) => Some(p),
        None => match start_button {
            Some(b) => Some(
                PhysicalPoint {
                    x: (b.left + half(b.span_x())) as i32,
                    y: (b.top + half(b.span_y())) as i32,
                },
            ),
            None => None,
        },
    }
}

pub fn monitor_point(start_button: Option<PhysicalRect>, click_point: Option<PhysicalPoint>) -> (r:
    Option<PhysicalPoint>)
    requires
        start_button matches Some(b) ==> fits_i32(b.span_x()) && fits_i32(b.span_y()),
    ensures
        r == anchor_point(start_button, click_point),
{
    match click_point {
        Some(p) => Some(p),
        None => match start_button {
            Some(b) => Some(b.center()),
            None => None,
        },
    }
}

/// The anchor of a presentation, given the geometry (monitor, work area)
/// of the monitor under `monitor_point`, when it could be read.
pub fn presentation_anchor(
    start_button: Option<PhysicalRect>,
    click_point: Option<PhysicalPoint>,
    geometry: Option<(PhysicalRect, PhysicalRect)>,
) -> (r: PresentationAnchor)
    ensures
        r.start_button == start_button,
        r.click_point == click_point,
        r.taskbar_edge == match geometry {
            Some((m, w)) => edge_choice(m, w),
            None => None,
        },
        r.monitor == match geometry {
            Some((m, _)) => Some(m),
            None => None,
        },
        r.work_area == match geometry {
            Some((_, w)) => Some(w),
            None => None,
        },
{
    match geometry {
        Some((monitor, work)) => PresentationAnchor {
            start_button,
            click_point,
            taskbar_edge: taskbar_edge(monitor, work),
            monitor: Some(monitor),
            work_area: Some(work),
        },
        None => PresentationAnchor {
            start_button,
            click_point,
            taskbar_edge: None,
            monitor: None,
            work_area: None,
        },
    }
}

/// The geometry a placement uses: the anchor's own monitor and work area
/// when it recorded both, else the fallback read for the window.
pub open spec fn chosen_geometry(
    anchor: Option<PresentationAnchor>,
    fallback: Option<(PhysicalRect, PhysicalRect)>,
) -> Option<(PhysicalRect, PhysicalRect)> {
    match anchor {
        Some(a) => match (a.monitor, a.work_area) {
            (Some(m), Some(w)) => Some((m, w)),
            _ => fallback,
        },
        None => fallback,
    }
}

/// The edge a placement uses: the anchor's, else the one the geometry
/// shows, else the bottom.
pub open spec fn chosen_edge(anchor: Option<PresentationAnchor>, monitor: PhysicalRect, work: PhysicalRect) -> TaskbarEdge {
    match anchor {
        Some(a) if a.taskbar_edge is Some => a.taskbar_edge->0,
        _ => match edge_choice(monitor, work) {
            Some(e) => e,
            None => TaskbarEdge::Bottom,
        },
    }
}

/// Where and how large the palette window goes.
#[derive(Clone, Copy, Debug, PartialEq, Eq, Structural)]
pub struct PaletteTarget {
    pub x: i32,
    pub y: i32,
    pub width: i32,
    pub height: i32,
}

/// The placement of a `width` x `height` window: shrunk to the work area
/// when larger, then placed by `palette_spot`.
pub open spec fn target_of(
    anchor: Option<PresentationAnchor>,
    fallback: Option<(PhysicalRect, PhysicalRect)>,
    alignment: Alignment,
    width: int,
    height: int,
) -> Option<(int, int, int, int)> {
    match chosen_geometry(anchor, fallback) {
        Some((m, w)) => {
            let cw = if width > w.span_x() { w.span_x() } else { width };
            let ch = if height > w.span_y() { w.span_y() } else { height };
            let (x, y) = palette_spot(w, chosen_edge(anchor, m, w), alignment, cw, ch);
            Some((x, y, cw, ch))
        },
        None => None,
    }
}

/// Where the palette goes for a presentation; `None` when no monitor
/// geometry is known. The window is shrunk to the work area when larger.
pub fn palette_target(
    anchor: Option<PresentationAnchor>,
    fallback: Option<(PhysicalRect, PhysicalRect)>,
    alignment: Alignment,
    width: u32,
    height: u32,
) -> (r: Option<PaletteTarget>)
    requires
        width <= i32::MAX,
        height <= i32::MAX,
        chosen_geometry(anchor, fallback) matches Some((_, w)) ==> sane_rect(w),
    ensures
        match target_of(anchor, fallback, alignment, width as int, height as int) {
            Some((x, y, w, h)) => r matches Some(t) && t.x == x && t.y == y && t.width == w
                && t.height == h,
            None => r is None,
        },
{
    let geometry = match anchor {
        Some(a) => match (a.monitor, a.work_area) {
            (Some(m), Some(w)) => Some((m, w)),
            _ => fallback,
        },
        None => fallback,
    };
    let (monitor, work) = match geometry {
        Some(g) => g,
        None => return None,
    };
    let mut w = width as i32;
    let mut h = height as i32;
    let work_w = work.width();
    let work_h = work.height();
    if w > work_w {
        w = work_w;
    }
    if h > work_h {
        h = work_h;
    }
    let edge = match anchor {
        Some(a) => match a.taskbar_edge {
            Some(e) => e,
            None => match taskbar_edge(monitor, work) {
                Some(e) => e,
                None => TaskbarEdge::Bottom,
            },
        },
        None => match taskbar_edge(monitor, work) {
            Some(e) => e,
            None => TaskbarEdge::Bottom,
        },
    };
    let (x, y) = palette_position(work, edge, alignment, w, h);
    Some(PaletteTarget { x, y, width: w, height: h })
}

/// The palette's presentation state: whether it is open, which open or
/// close was the latest (a counter), whether activation still waits for
/// focus, and what the current presentation is anchored to.
pub struct PaletteSession {
    pub open: bool,
    pub transition: u64,
    pub focus_pending: bool,
    pub anchor: Option<PresentationAnchor>,
}

impl PaletteSession {
    pub fn new() -> (r: Self)
        ensures
            !r.open,
            r.transition == 0,
            !r.focus_pending,
            r.anchor is None,
    {
        PaletteSession { open: false, transition: 0, focus_pending: false, anchor: None }
    }

    /// Opens a closed palette or closes an open one, and numbers the
    /// transition. Opening keeps the anchor it was opened with; closing drops
    /// the anchor and any pending focus. Returns whether it opens, and the
    /// transition's number.
    pub fn toggle(&mut self, anchor: Option<PresentationAnchor>) -> (r: (bool, u64))
        requires
            old(self).transition < u64::MAX,
        ensures
            final(self).open == toggled(old(self).open),
            r.0 == final(self).open,
            final(self).transition == old(self).transition + 1,
            r.1 == final(self).transition,
            r.0 ==> final(self).anchor == anchor && final(self).focus_pending == old(self).focus_pending,
            !r.0 ==> final(self).anchor is None && !final(self).focus_pending,
            !r.0 ==> hide_is_due(*final(self), r.1),
    {
        let opening = toggle_open_state(&mut self.open);
        self.transition = self.transition + 1;
        if opening {
            self.anchor = anchor;
        } else {
            self.focus_pending = false;
            self.anchor = None;
        }
        (opening, self.transition)
    }

    /// Whether the hide scheduled when transition `transition` closed the
    /// palette is still due: no other open or close came since.
    pub fn hide_due(&self, transition: u64) -> (r: bool)
        ensures
            r == hide_is_due(*self, transition),
    {
        self.transition == transition && !self.open
    }

    /// Whether the second raise scheduled when transition `transition`
    /// presented the palette is still due: it is still open, in the same
    /// presentation.
    pub fn raise_retry_due(&self, transition: u64) -> (r: bool)
        ensures
            r == (self.transition == transition && self.open),
    {
        self.transition == transition && self.open
    }

    /// The palette is hidden by request: closed, no focus pending, no
    /// anchor, and a new transition so that pending raises and hides lapse.
    pub fn close_by_request(&mut self)
        requires
            old(self).transition < u64::MAX,
        ensures
            !final(self).open,
            !final(self).focus_pending,
            final(self).anchor is None,
            final(self).transition == old(self).transition + 1,
    {
        self.open = false;
        self.focus_pending = false;
        self.transition = self.transition + 1;
        self.anchor = None;
    }
}

pub open spec fn hide_is_due(s: PaletteSession, transition: u64) -> bool {
    s.transition == transition && !s.open
}

/// A hide scheduled by a close is carried out only if nothing happened
/// since: once a later toggle has numbered a newer transition, the earlier
/// close's hide is no longer due, whether that toggle opened or closed.
pub proof fn law_later_toggle_cancels_pending_hide(session: PaletteSession, closed_at: u64)
    requires
        session.transition > closed_at,
    ensures
        !hide_is_due(session, closed_at),
{
}

} // verus!
