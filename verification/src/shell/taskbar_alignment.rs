//! Where the Start button and task list sit on the taskbar: the alignment
//! setting, its stored codes, and the geometry that moves the icon cluster.

use vstd::prelude::*;
use crate::text::{append_chars, chars_of, string_of};

verus! {

#[derive(Clone, Copy, Debug, PartialEq, Eq, Structural)]
pub enum Alignment {
    Left,
    Center,
    Right,
}

/// Why an alignment setting was refused.
#[derive(Debug)]
pub enum AlignmentError {
    /// Not one of `left`, `center`, `right`.
    Unsupported(String),
}

impl AlignmentError {
    pub fn message(&self) -> (r: String)
        ensures
            self matches AlignmentError::Unsupported(v) ==> r@ == "unsupported taskbar alignment '"@
                + v@ + "'"@,
    {
        match self {
            AlignmentError::Unsupported(v) => {
                let mut out = chars_of("unsupported taskbar alignment '");
                let vc = chars_of(v.as_str());
                append_chars(&mut out, vc.as_slice());
                out.push('\'');
                assert(out@ =~= "unsupported taskbar alignment '"@ + v@ + "'"@) by {
                    reveal_strlit("'");
                }
                string_of(out.as_slice())
            },
        }
    }
}

pub open spec fn marker_of(a: Alignment) -> Seq<char> {
    match a {
        Alignment::Left => "left"@,
        Alignment::Center => "center"@,
        Alignment::Right => "right"@,
    }
}

pub open spec fn parsed(value: Seq<char>) -> Option<Alignment> {
    if value == "left"@ {
        Some(Alignment::Left)
    } else if value == "center"@ {
        Some(Alignment::Center)
    } else if value == "right"@ {
        Some(Alignment::Right)
    } else {
        None
    }
}

pub open spec fn code_of(a: Alignment) -> u8 {
    match a {
        Alignment::Left => 0,
        Alignment::Center => 1,
        Alignment::Right => 2,
    }
}

pub open spec fn from_code_of(value: u8) -> Option<Alignment> {
    if value == 0 {
        Some(Alignment::Left)
    } else if value == 1 {
        Some(Alignment::Center)
    } else if value == 2 {
        Some(Alignment::Right)
    } else {
        None
    }
}

impl Alignment {
    /// `left`, `center` or `right`; anything else is refused.
    pub fn parse(value: &str) -> (r: Result<Alignment, AlignmentError>)
        ensures
            match parsed(value@) {
                Some(a) => r matches Ok(b) && b == a,
                None => r matches Err(AlignmentError::Unsupported(v)) && v@ == value@,
            },
    {
        if crate::text::str_eq(value, "left") {
            Ok(Alignment::Left)
        } else if crate::text::str_eq(value, "center") {
            Ok(Alignment::Center)
        } else if crate::text::str_eq(value, "right") {
            Ok(Alignment::Right)
        } else {
            Err(AlignmentError::Unsupported(value.to_owned()))
        }
    }

    /// The code kept in the shared process state.
    pub fn code(self) -> (r: u8)
        ensures
            r == code_of(self),
    {
        match self {
            Alignment::Left => 0,
            Alignment::Center => 1,
            Alignment::Right => 2,
        }
    }

    /// The word stored in the alignment marker file.
    pub fn marker(self) -> (r: &'static str)
        ensures
            r@ == marker_of(self),
    {
        match self {
            Alignment::Left => "left",
            Alignment::Center => "center",
            Alignment::Right => "right",
        }
    }

    pub fn from_code(value: u8) -> (r: Option<Alignment>)
        ensures
            r == from_code_of(value),
    {
        match value {
            0 => Some(Alignment::Left),
            1 => Some(Alignment::Center),
            2 => Some(Alignment::Right),
            _ => None,
        }
    }

    /// The `TaskbarAl` registry value: Windows knows only left (0) and
    /// centre (1); right is shown centred by Windows itself.
    pub fn windows_value(self) -> (r: u32)
        ensures
            r == (if self == Alignment::Left {
                0u32
            } else {
                1u32
            }),
    {
        match self {
            Alignment::Left => 0,
            Alignment::Center | Alignment::Right => 1,
        }
    }
}

/// Storing an alignment as its code or marker and reading it back gives the
/// same alignment.
pub proof fn lemma_alignment_round_trips(a: Alignment)
    ensures
        from_code_of(code_of(a)) == Some(a),
        parsed(marker_of(a)) == Some(a),
{
    reveal_strlit("left");
    reveal_strlit("center");
    reveal_strlit("right");
    assert("center"@.len() != "left"@.len());
    assert("right"@.len() != "left"@.len());
    assert("right"@.len() != "center"@.len());
}

pub open spec fn is_horizontal(b: Bounds) -> bool {
    b.right - b.left >= b.bottom - b.top
}

/// A window's bounds in screen coordinates.
#[derive(Clone, Copy, Debug, PartialEq, Eq, Structural)]
pub struct Bounds {
    pub left: i32,
    pub top: i32,
    pub right: i32,
    pub bottom: i32,
}

impl Bounds {
    pub fn width(self) -> (r: i32)
        requires
            i32::MIN <= self.right - self.left <= i32::MAX,
        ensures
            r == self.right - self.left,
    {
        self.right - self.left
    }

    pub fn height(self) -> (r: i32)
        requires
            i32::MIN <= self.bottom - self.top <= i32::MAX,
        ensures
            r == self.bottom - self.top,
    {
        self.bottom - self.top
    }
}

/// Whether `outer` covers `inner` to within two pixels on every side: a
/// taskbar-wide XAML host owns the taskbar's rendering.
pub open spec fn covers(outer: Bounds, inner: Bounds) -> bool {
    outer.left <= inner.left + 2 && outer.top <= inner.top + 2 && outer.right >= inner.right - 2
        && outer.bottom >= inner.bottom - 2
}

pub fn bounds_cover(outer: Bounds, inner: Bounds) -> (r: bool)
    requires
        inner.left <= i32::MAX - 2,
        inner.top <= i32::MAX - 2,
        inner.right >= i32::MIN + 2,
        inner.bottom >= i32::MIN + 2,
    ensures
        r == covers(outer, inner),
{
    outer.left <= inner.left + 2 && outer.top <= inner.top + 2 && outer.right >= inner.right - 2
        && outer.bottom >= inner.bottom - 2
}

pub open spec fn div2(v: int) -> int {
    if v >= 0 {
        v / 2
    } else {
        -((-v) / 2)
    }
}

pub open spec fn max_i(a: int, b: int) -> int {
    if a >= b {
        a
    } else {
        b
    }
}

pub open spec fn clamp_i(v: int, lo: int, hi: int) -> int {
    if v < lo {
        lo
    } else if v > hi {
        hi
    } else {
        v
    }
}

/// The first coordinate along a taskbar of length from `start` to `end`
/// where a cluster of size `size` may start, given where it may end.
pub open spec fn axis_target(start: int, end: int, size: int, limit: int, alignment: Alignment) -> int {
    let latest_start = max_i(limit - size, start);
    let target = match alignment {
        Alignment::Left => start,
        Alignment::Center => start + div2((end - start) - size),
        Alignment::Right => latest_start,
    };
    clamp_i(target, start, latest_start)
}

/// How far the icon cluster moves: along a horizontal taskbar, to its left
/// end, its centre, or as far right as the notification area allows; along a
/// vertical one, the same top to bottom. The cluster never starts before the
/// taskbar nor ends past the notification area (when there is room).
pub open spec fn delta_of(taskbar: Bounds, cluster: Bounds, notification: Option<Bounds>, alignment: Alignment) -> (int, int) {
    if taskbar.right - taskbar.left >= taskbar.bottom - taskbar.top {
        let limit = match notification {
            Some(n) if n.left > taskbar.left => n.left as int,
            _ => taskbar.right as int,
        };
        let target = axis_target(taskbar.left as int, taskbar.right as int, cluster.right - cluster.left, limit, alignment);
        (target - cluster.left, 0)
    } else {
        let limit = match notification {
            Some(n) if n.top > taskbar.top => n.top as int,
            _ => taskbar.bottom as int,
        };
        let target = axis_target(taskbar.top as int, taskbar.bottom as int, cluster.bottom - cluster.top, limit, alignment);
        (0, target - cluster.top)
    }
}

pub open spec fn in_i32(v: int) -> bool {
    i32::MIN <= v <= i32::MAX
}

/// The taskbar's far edge the cluster may reach along one axis.
pub open spec fn axis_limit(taskbar: Bounds, notification: Option<Bounds>, horizontal: bool) -> int {
    if horizontal {
        match notification {
            Some(n) if n.left > taskbar.left => n.left as int,
            _ => taskbar.right as int,
        }
    } else {
        match notification {
            Some(n) if n.top > taskbar.top => n.top as int,
            _ => taskbar.bottom as int,
        }
    }
}

/// The inputs for which every step of the delta stays within `i32`.
pub open spec fn geometry_fits(taskbar: Bounds, cluster: Bounds, notification: Option<Bounds>) -> bool {
    let horizontal = is_horizontal(taskbar);
    let (start, end, size, cstart) = if horizontal {
        (taskbar.left as int, taskbar.right as int, cluster.right - cluster.left, cluster.left as int)
    } else {
        (taskbar.top as int, taskbar.bottom as int, cluster.bottom - cluster.top, cluster.top as int)
    };
    let limit = axis_limit(taskbar, notification, horizontal);
    &&& in_i32(taskbar.right - taskbar.left)
    &&& in_i32(taskbar.bottom - taskbar.top)
    &&& in_i32(size)
    &&& in_i32(limit - size)
    &&& in_i32(end - start - size)
    &&& in_i32(start + div2(end - start - size))
    &&& in_i32(axis_target(start, end, size, limit, Alignment::Left) - cstart)
    &&& in_i32(axis_target(start, end, size, limit, Alignment::Center) - cstart)
    &&& in_i32(axis_target(start, end, size, limit, Alignment::Right) - cstart)
}

fn axis_target_exec(start: i32, end: i32, size: i32, limit: i32, alignment: Alignment) -> (r: i32)
    requires
        in_i32(limit - size),
        in_i32(end - start),
        in_i32(end - start - size),
        in_i32(start + div2(end - start - size)),
    ensures
        r == axis_target(start as int, end as int, size as int, limit as int, alignment),
{
    let room = limit - size;
    let latest_start = if room >= start {
        room
    } else {
        start
    };
    let target = match alignment {
        Alignment::Left => start,
        Alignment::Center => start + ((end - start) - size) / 2,
        Alignment::Right => latest_start,
    };
    if target < start {
        start
    } else if target > latest_start {
        latest_start
    } else {
        target
    }
}

/// The offset that moves the cluster to its aligned place (see `delta_of`).
pub fn alignment_delta(taskbar: Bounds, cluster: Bounds, notification_area: Option<Bounds>, alignment: Alignment) -> (r: (i32, i32))
    requires
        geometry_fits(taskbar, cluster, notification_area),
    ensures
        (r.0 as int, r.1 as int) == delta_of(taskbar, cluster, notification_area, alignment),
{
    if taskbar.right - taskbar.left >= taskbar.bottom - taskbar.top {
        let limit = match notification_area {
            Some(n) => if n.left > taskbar.left {
                n.left
            } else {
                taskbar.right
            },
            None => taskbar.right,
        };
        let target = axis_target_exec(taskbar.left, taskbar.right, cluster.right - cluster.left, limit, alignment);
        (target - cluster.left, 0)
    } else {
        let limit = match notification_area {
            Some(n) => if n.top > taskbar.top {
                n.top
            } else {
                taskbar.bottom
            },
            None => taskbar.bottom,
        };
        let target = axis_target_exec(taskbar.top, taskbar.bottom, cluster.bottom - cluster.top, limit, alignment);
        (0, target - cluster.top)
    }
}

/// The aligned cluster starts inside the taskbar and, when the cluster fits
/// before the notification area, ends before it.
pub proof fn lemma_aligned_cluster_stays_in_place(start: int, end: int, size: int, limit: int, alignment: Alignment)
    requires
        size >= 0,
    ensures
        start <= axis_target(start, end, size, limit, alignment),
        limit - size >= start ==> axis_target(start, end, size, limit, alignment) + size <= limit,
{
}

/// Which taskbar child a move is for.
#[derive(Clone, Copy, Debug, PartialEq, Eq, Structural)]
pub enum ClusterPart {
    StartButton,
    TaskList,
}

/// A child window's new position, relative to the taskbar.
#[derive(Clone, Copy, Debug, PartialEq, Eq, Structural)]
pub struct ChildMove {
    pub part: ClusterPart,
    pub x: i32,
    pub y: i32,
}

/// The compact cluster: the Start button and task list side by side from
/// the taskbar's start.
pub open spec fn compact_cluster(taskbar: Bounds, start: Bounds, task_list: Bounds) -> Bounds {
    if is_horizontal(taskbar) {
        Bounds {
            left: taskbar.left,
            top: taskbar.top,
            right: (taskbar.left + (start.right - start.left) + (task_list.right - task_list.left)) as i32,
            bottom: taskbar.bottom,
        }
    } else {
        Bounds {
            left: taskbar.left,
            top: taskbar.top,
            right: taskbar.right,
            bottom: (taskbar.top + (start.bottom - start.top) + (task_list.bottom - task_list.top)) as i32,
        }
    }
}

/// The moves that place the Start button and task list for `alignment` on a
/// classic (StartAllBack) taskbar; children already in place are not moved.
pub open spec fn cluster_moves(taskbar: Bounds, start: Bounds, task_list: Bounds, notification: Option<Bounds>, alignment: Alignment) -> Seq<ChildMove> {
    let cluster = compact_cluster(taskbar, start, task_list);
    let (dx, dy) = delta_of(taskbar, cluster, notification, alignment);
    let (sx, sy, tx, ty) = if is_horizontal(taskbar) {
        let left = taskbar.left + dx;
        (left, start.top as int, left + (start.right - start.left), task_list.top as int)
    } else {
        let top = taskbar.top + dy;
        (start.left as int, top, task_list.left as int, top + (start.bottom - start.top))
    };
    let first = if start.left != sx || start.top != sy {
        seq![ChildMove { part: ClusterPart::StartButton, x: (sx - taskbar.left) as i32, y: (sy - taskbar.top) as i32 }]
    } else {
        seq![]
    };
    let second = if task_list.left != tx || task_list.top != ty {
        seq![ChildMove { part: ClusterPart::TaskList, x: (tx - taskbar.left) as i32, y: (ty - taskbar.top) as i32 }]
    } else {
        seq![]
    };
    first + second
}

/// The inputs for which every step of the cluster placement stays within
/// `i32`.
pub open spec fn cluster_fits(taskbar: Bounds, start: Bounds, task_list: Bounds, notification: Option<Bounds>) -> bool {
    let cluster = compact_cluster(taskbar, start, task_list);
    &&& in_i32(taskbar.right - taskbar.left)
    &&& in_i32(taskbar.bottom - taskbar.top)
    &&& in_i32(start.right - start.left)
    &&& in_i32(start.bottom - start.top)
    &&& in_i32(task_list.right - task_list.left)
    &&& in_i32(task_list.bottom - task_list.top)
    &&& in_i32(taskbar.left + (start.right - start.left))
    &&& in_i32(taskbar.left + (start.right - start.left) + (task_list.right - task_list.left))
    &&& in_i32(taskbar.top + (start.bottom - start.top))
    &&& in_i32(taskbar.top + (start.bottom - start.top) + (task_list.bottom - task_list.top))
    &&& geometry_fits(taskbar, cluster, notification)
    &&& forall|a: Alignment| {
        let (dx, dy) = #[trigger] delta_of(taskbar, cluster, notification, a);
        &&& in_i32(taskbar.left + dx)
        &&& in_i32(taskbar.top + dy)
        &&& in_i32(taskbar.left + dx + (start.right - start.left))
        &&& in_i32(taskbar.top + dy + (start.bottom - start.top))
        &&& in_i32(taskbar.left + dx - taskbar.left)
        &&& in_i32(taskbar.top + dy - taskbar.top)
        &&& in_i32(taskbar.left + dx + (start.right - start.left) - taskbar.left)
        &&& in_i32(taskbar.top + dy + (start.bottom - start.top) - taskbar.top)
        &&& in_i32(start.top - taskbar.top)
        &&& in_i32(start.left - taskbar.left)
        &&& in_i32(task_list.top - taskbar.top)
        &&& in_i32(task_list.left - taskbar.left)
    }
}

pub fn classic_taskbar_moves(taskbar: Bounds, start: Bounds, task_list: Bounds, notification: Option<Bounds>, alignment: Alignment) -> (r: Vec<ChildMove>)
    requires
        cluster_fits(taskbar, start, task_list, notification),
    ensures
        r@ == cluster_moves(taskbar, start, task_list, notification, alignment),
{
    let horizontal = taskbar.right - taskbar.left >= taskbar.bottom - taskbar.top;
    let cluster = if horizontal {
        Bounds {
            left: taskbar.left,
            top: taskbar.top,
            right: taskbar.left + (start.right - start.left) + (task_list.right - task_list.left),
            bottom: taskbar.bottom,
        }
    } else {
        Bounds {
            left: taskbar.left,
            top: taskbar.top,
            right: taskbar.right,
            bottom: taskbar.top + (start.bottom - start.top) + (task_list.bottom - task_list.top),
        }
    };
    let (dx, dy) = alignment_delta(taskbar, cluster, notification, alignment);
    proof {
        // Brings in the overflow bounds for this alignment.
        let _ = delta_of(taskbar, cluster, notification, alignment);
    }
    let (sx, sy, tx, ty) = if horizontal {
        let left = taskbar.left + dx;
        (left, start.top, left + (start.right - start.left), task_list.top)
    } else {
        let top = taskbar.top + dy;
        (start.left, top, task_list.left, top + (start.bottom - start.top))
    };
    let mut out: Vec<ChildMove> = Vec::new();
    if start.left != sx || start.top != sy {
        out.push(ChildMove { part: ClusterPart::StartButton, x: sx - taskbar.left, y: sy - taskbar.top });
    }
    if task_list.left != tx || task_list.top != ty {
        out.push(ChildMove { part: ClusterPart::TaskList, x: tx - taskbar.left, y: ty - taskbar.top });
    }
    assert(out@ =~= cluster_moves(taskbar, start, task_list, notification, alignment));
    out
}

/// Win32 class comparison: each UTF-16 unit's low byte against `expected`,
/// ignoring ASCII case.
pub fn class_name_eq(actual: &[u16], expected: &str) -> (r: bool)
    ensures
        r == crate::shell::taskbar::class_matches(actual@, vstd::utf8::encode_utf8(expected@)),
{
    crate::shell::taskbar::class_name_is(actual, expected)
}

/// What setting an alignment does, given how many taskbars there are and
/// how many of them are StartAllBack classic taskbars (whose Start button
/// and task list Prism moves itself).
#[derive(Debug, PartialEq, Eq, Structural)]
pub struct AlignmentPlan {
    /// Move the classic taskbars' Start button and task list (with the
    /// companion window, when there is one).
    pub move_classic: bool,
    /// Without classic taskbars, move only the companion window.
    pub move_companion_only: bool,
    /// Write the Windows taskbar setting and tell the taskbars: for native
    /// taskbars, or when no taskbar exists yet (Explorer reads it at start).
    pub write_windows_setting: bool,
}

pub open spec fn right_needs_classic(alignment: Alignment, taskbars: nat, classic: nat) -> bool {
    alignment == Alignment::Right && (classic == 0 || taskbars > classic)
}

/// Right alignment exists only on classic taskbars: it is refused unless
/// every taskbar is one. Otherwise the plan follows the kinds present.
pub fn alignment_plan(alignment: Alignment, taskbars: usize, classic: usize) -> (r: Result<AlignmentPlan, String>)
    requires
        classic <= taskbars,
    ensures
        right_needs_classic(alignment, taskbars as nat, classic as nat) ==> (r matches Err(e) && e@
            == "Right alignment requires the StartAllBack classic taskbar; Windows supports Left and Center only"@),
        !right_needs_classic(alignment, taskbars as nat, classic as nat) ==> r == Ok::<AlignmentPlan, String>(
            AlignmentPlan {
                move_classic: classic > 0,
                move_companion_only: classic == 0,
                write_windows_setting: taskbars > classic || taskbars == 0,
            },
        ),
{
    let native = taskbars - classic;
    if alignment == Alignment::Right && (classic == 0 || native > 0) {
        return Err(
            "Right alignment requires the StartAllBack classic taskbar; Windows supports Left and Center only".to_string(),
        );
    }
    Ok(AlignmentPlan { move_classic: classic > 0, move_companion_only: classic == 0, write_windows_setting: native > 0 || taskbars == 0 })
}

} // verus!
