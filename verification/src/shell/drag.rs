//! Dragging files out of the palette into other applications: whether a
//! drag is running, which paths may be dragged, and how the drag source
//! answers the system while the mouse moves.

use vstd::prelude::*;
use crate::text::{byte_len, concat};

verus! {

/// Whether a drag out of the palette is running.
pub struct DragState {
    in_progress: bool,
}

impl DragState {
    pub closed spec fn active(&self) -> bool {
        self.in_progress
    }

    /// No drag at start.
    pub fn new() -> (r: Self)
        ensures
            !r.active(),
    {
        DragState { in_progress: false }
    }

    pub fn begin(&mut self)
        ensures
            final(self).active(),
    {
        self.in_progress = true;
    }

    /// Ends the drag, however it ended.
    pub fn end(&mut self)
        ensures
            !final(self).active(),
    {
        self.in_progress = false;
    }
}

pub fn is_dragging(state: &DragState) -> (r: bool)
    ensures
        r == state.active(),
{
    state.in_progress
}

/// How a finished drag ended.
#[derive(Clone, Copy, Debug, PartialEq, Eq, Structural)]
pub enum DragResult {
    Dropped,
    Cancelled,
}

/// The drag was dropped exactly when the system reported a drop.
pub fn drag_result(dropped: bool) -> (r: DragResult)
    ensures
        r == if dropped {
            DragResult::Dropped
        } else {
            DragResult::Cancelled
        },
{
    if dropped {
        DragResult::Dropped
    } else {
        DragResult::Cancelled
    }
}

/// The drag source's answer while the mouse moves.
#[derive(Clone, Copy, Debug, PartialEq, Eq, Structural)]
pub enum DragStep {
    Cancel,
    Drop,
    Continue,
}

/// Escape cancels; releasing the left button drops; otherwise the drag
/// goes on.
pub fn query_continue_drag(escape_pressed: bool, left_button_down: bool) -> (r: DragStep)
    ensures
        r == if escape_pressed {
            DragStep::Cancel
        } else if !left_button_down {
            DragStep::Drop
        } else {
            DragStep::Continue
        },
{
    if escape_pressed {
        DragStep::Cancel
    } else if !left_button_down {
        DragStep::Drop
    } else {
        DragStep::Continue
    }
}

/// Why a set of paths cannot be dragged: none given, or the first one
/// that does not exist (`exists[i]` tells for `paths[i]`).
pub open spec fn drag_paths_error(paths: Seq<String>, exists: Seq<bool>) -> Option<Seq<char>> {
    if paths.len() == 0 {
        Some("No file paths provided for drag"@)
    } else {
        missing_path_error(paths, exists, 0)
    }
}

pub open spec fn missing_path_error(paths: Seq<String>, exists: Seq<bool>, i: int) -> Option<Seq<char>>
    decreases paths.len() - i,
{
    if i < 0 || i >= paths.len() {
        None
    } else if !exists[i] {
        Some(paths[i]@ + " does not exist"@)
    } else {
        missing_path_error(paths, exists, i + 1)
    }
}

pub fn check_drag_paths(paths: &[String], exists: &[bool]) -> (r: Result<(), String>)
    requires
        exists@.len() == paths@.len(),
    ensures
        match drag_paths_error(paths@, exists@) {
            None => r is Ok,
            Some(m) => r matches Err(e) && e@ == m,
        },
{
    if paths.len() == 0 {
        return Err("No file paths provided for drag".to_owned());
    }
    let mut i: usize = 0;
    while i < paths.len()
        invariant
            i <= paths@.len(),
            exists@.len() == paths@.len(),
            paths@.len() > 0,
            drag_paths_error(paths@, exists@) == missing_path_error(paths@, exists@, i as int),
        decreases paths@.len() - i,
    {
        if !exists[i] {
            return Err(concat(paths[i].as_str(), " does not exist"));
        }
        i += 1;
    }
    Ok(())
}

/// At most this many paths are checked per request.
pub const MAX_CHECKED_PATHS: usize = 64;

/// Longest path, in bytes, that is checked.
pub const MAX_CHECKED_PATH_BYTES: usize = 4096;

/// The paths of `ps` no longer than `MAX_CHECKED_PATH_BYTES`, in order.
pub open spec fn short_paths(ps: Seq<Seq<char>>) -> Seq<Seq<char>>
    decreases ps.len(),
{
    if ps.len() == 0 {
        seq![]
    } else {
        let rest = short_paths(ps.drop_last());
        if byte_len(ps.last()) <= MAX_CHECKED_PATH_BYTES {
            rest.push(ps.last())
        } else {
            rest
        }
    }
}

pub open spec fn checked_count(n: nat) -> int {
    if n < MAX_CHECKED_PATHS {
        n as int
    } else {
        MAX_CHECKED_PATHS as int
    }
}

/// Which of the paths the frontend asks about are looked up on disk: the
/// first 64, without any longer than 4096 bytes. (Only absolute ones that
/// exist are then reported back.)
pub fn existing_path_candidates(paths: &Vec<String>) -> (r: Vec<String>)
    ensures
        r@.map_values(|p: String| p@) == short_paths(
            paths@.map_values(|p: String| p@).take(checked_count(paths@.len())),
        ),
{
    let ghost all = paths@.map_values(|p: String| p@);
    let n: usize = if paths.len() < MAX_CHECKED_PATHS {
        paths.len()
    } else {
        MAX_CHECKED_PATHS
    };
    let mut out: Vec<String> = Vec::new();
    let mut i: usize = 0;
    assert(all.take(0) =~= seq![]);
    while i < n
        invariant
            i <= n <= paths@.len(),
            all == paths@.map_values(|p: String| p@),
            out@.map_values(|p: String| p@) == short_paths(all.take(i as int)),
        decreases n - i,
    {
        let ghost before = out@;
        assert(all.take(i + 1).drop_last() =~= all.take(i as int));
        assert(all.take(i + 1).last() == paths@[i as int]@);
        if paths[i].as_str().as_bytes().len() <= MAX_CHECKED_PATH_BYTES {
            out.push(paths[i].clone());
            assert(out@.map_values(|p: String| p@) =~= before.map_values(|p: String| p@).push(
                paths@[i as int]@,
            ));
        }
        i += 1;
    }
    out
}

} // verus!
