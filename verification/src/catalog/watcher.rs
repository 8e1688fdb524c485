//! The change watcher's own decisions: reconnect pacing, when a new
//! canonical root needs a new watcher, and which top-level entries are never
//! indexed.

use vstd::prelude::*;
use crate::text::{
    ascii_lower, ascii_lowercase, chars_of, concat, eq_ignore_case, eq_ignore_case_exec, from_utf16_lossy,
    seq_eq, starts_with, starts_with_exec, str_eq, to_lowercase, unicode_lowercase, utf16_lossy,
};
use crate::catalog::usn::{le_u32, read_u32};

verus! {

/// First delay after a hard read error, in milliseconds.
pub const READ_ERROR_BACKOFF_MS: u64 = 250;

/// Longest delay between reconnect attempts, in milliseconds.
pub const MAX_RECONNECT_BACKOFF_MS: u64 = 30_000;

/// Doubling reconnect delay, capped, reset after a successful read.
pub struct ReconnectBackoff {
    next_ms: u64,
}

impl ReconnectBackoff {
    /// The delay the next failure waits.
    pub closed spec fn pending(&self) -> u64 {
        self.next_ms
    }

    pub fn new() -> (r: Self)
        ensures
            r.pending() == READ_ERROR_BACKOFF_MS,
    {
        ReconnectBackoff { next_ms: READ_ERROR_BACKOFF_MS }
    }

    /// Returns the delay to wait now, in milliseconds, and doubles the next
    /// one up to the cap.
    pub fn next_delay(&mut self) -> (r: u64)
        ensures
            r == old(self).pending(),
            final(self).pending() == if old(self).pending() * 2 < MAX_RECONNECT_BACKOFF_MS {
                (old(self).pending() * 2) as u64
            } else {
                MAX_RECONNECT_BACKOFF_MS
            },
    {
        let delay = self.next_ms;
        let doubled = if self.next_ms > u64::MAX / 2 {
            u64::MAX
        } else {
            self.next_ms * 2
        };
        self.next_ms = if doubled < MAX_RECONNECT_BACKOFF_MS {
            doubled
        } else {
            MAX_RECONNECT_BACKOFF_MS
        };
        delay
    }

    /// Back to the first delay, after a successful read.
    pub fn reset(&mut self)
        ensures
            final(self).pending() == READ_ERROR_BACKOFF_MS,
    {
        self.next_ms = READ_ERROR_BACKOFF_MS;
    }
}

/// Every delay a backoff that starts at the first delay hands out stays
/// between the first delay and the cap, however many failures come.
pub proof fn lemma_backoff_bounded(pending: u64)
    requires
        READ_ERROR_BACKOFF_MS <= pending <= MAX_RECONNECT_BACKOFF_MS,
    ensures
        ({
            let next = if pending * 2 < MAX_RECONNECT_BACKOFF_MS {
                pending * 2
            } else {
                MAX_RECONNECT_BACKOFF_MS as int
            };
            READ_ERROR_BACKOFF_MS <= next <= MAX_RECONNECT_BACKOFF_MS && next >= pending
        }),
{
}

/// Whether the watcher must be replaced: the canonical root changed other
/// than in ASCII case.
pub fn watcher_root_changed(current: &str, next: &str) -> (r: bool)
    ensures
        r == !eq_ignore_case(current@, next@),
{
    let a = chars_of(current);
    let b = chars_of(next);
    !eq_ignore_case_exec(a.as_slice(), b.as_slice())
}

/// The text before the first separator.
pub open spec fn first_segment(s: Seq<char>) -> Seq<char>
    decreases s.len(),
{
    if s.len() == 0 || s[0] == '\\' || s[0] == '/' {
        seq![]
    } else {
        seq![s[0]] + first_segment(s.drop_first())
    }
}

/// Top-level entries the catalog never indexes: the recycle bin and System
/// Volume Information (compared in ASCII lower case).
pub open spec fn unsearchable_top_level(relative_name: Seq<char>) -> bool {
    let first = ascii_lower(first_segment(relative_name));
    first == "$recycle.bin"@ || first == "system volume information"@
}

pub fn is_unsearchable_top_level(relative_name: &str) -> (r: bool)
    ensures
        r == unsearchable_top_level(relative_name@),
{
    let cs = chars_of(relative_name);
    let mut first: Vec<char> = Vec::new();
    let mut i: usize = 0;
    assert(cs@.skip(0) =~= cs@);
    assert(first@ + first_segment(cs@) =~= first_segment(cs@));
    while i < cs.len() && cs[i] != '\\' && cs[i] != '/'
        invariant
            i <= cs@.len(),
            first@ == cs@.take(i as int),
            first_segment(cs@) == first@ + first_segment(cs@.skip(i as int)),
        decreases cs@.len() - i,
    {
        proof {
            assert(cs@.skip(i as int)[0] == cs@[i as int]);
            assert(cs@.skip(i as int).drop_first() =~= cs@.skip(i + 1));
            assert(first@.push(cs@[i as int]) + first_segment(cs@.skip(i + 1)) =~= first@ + (seq![cs@[i as int]] + first_segment(cs@.skip(i + 1))));
        }
        first.push(cs[i]);
        i += 1;
        assert(first@ =~= cs@.take(i as int));
    }
    proof {
        assert(cs@.skip(0) =~= cs@);
        if i < cs@.len() {
            assert(cs@.skip(i as int)[0] == cs@[i as int]);
        }
        assert(first_segment(cs@.skip(i as int)) =~= seq![]);
        assert(first@ + seq![] =~= first@);
    }
    let lower = ascii_lowercase(first.as_slice());
    let bin = chars_of("$recycle.bin");
    let svi = chars_of("system volume information");
    seq_eq(lower.as_slice(), bin.as_slice()) || seq_eq(lower.as_slice(), svi.as_slice())
}

/// A directory the watcher reads changes of: the volume root itself (its
/// direct children only) or one top-level directory (recursively).
#[derive(Debug)]
pub struct WatchShard {
    pub root: String,
    pub recursive: bool,
}

/// A child of the volume root as the directory listing reports it.
#[derive(Debug)]
pub struct RootChild {
    pub name: String,
    pub path: String,
    pub is_dir: bool,
    pub is_symlink: bool,
}

/// The child gets a recursive shard of its own: a real directory (not a
/// link) that is not an unsearchable top-level entry.
pub open spec fn shard_worthy(c: RootChild) -> bool {
    c.is_dir && !c.is_symlink && !unsearchable_top_level(c.name@)
}

/// The recursive shards for `children`, in listing order.
pub open spec fn child_shard_roots(children: Seq<RootChild>) -> Seq<Seq<char>>
    decreases children.len(),
{
    if children.len() == 0 {
        seq![]
    } else {
        let rest = child_shard_roots(children.drop_last());
        if shard_worthy(children.last()) {
            rest.push(children.last().path@)
        } else {
            rest
        }
    }
}

/// The volume is watched as its root (non-recursively) and one recursive
/// shard per top-level directory, so a change deep in one tree never stalls
/// the others.
pub fn watch_shards(root: String, children: Vec<RootChild>) -> (r: Vec<WatchShard>)
    ensures
        r@.len() >= 1,
        r@[0].root == root && !r@[0].recursive,
        r@.skip(1).map_values(|s: WatchShard| s.root@) == child_shard_roots(children@),
        forall|i: int| 1 <= i < r@.len() ==> (#[trigger] r@[i]).recursive,
{
    let ghost all = children@;
    let mut shards: Vec<WatchShard> = Vec::new();
    shards.push(WatchShard { root, recursive: false });
    let mut rest = children;
    let mut k: usize = 0;
    let n = rest.len();
    assert(all.take(0) =~= seq![]);
    assert(rest@ =~= all.skip(0));
    assert(shards@.skip(1).map_values(|s: WatchShard| s.root@) =~= seq![]);
    while rest.len() > 0
        invariant
            k + rest@.len() == n,
            all.len() == n,
            rest@ == all.skip(k as int),
            shards@.len() >= 1,
            shards@[0].root == root && !shards@[0].recursive,
            shards@.skip(1).map_values(|s: WatchShard| s.root@) == child_shard_roots(all.take(k as int)),
            forall|i: int| 1 <= i < shards@.len() ==> (#[trigger] shards@[i]).recursive,
        decreases rest@.len(),
    {
        let ghost before = shards@;
        let child = rest.remove(0);
        proof {
            assert(all.take(k + 1).drop_last() =~= all.take(k as int));
            assert(all.take(k + 1).last() == all.skip(k as int)[0]);
            assert(rest@ =~= all.skip(k + 1));
        }
        if child.is_dir && !child.is_symlink && !is_unsearchable_top_level(child.name.as_str()) {
            let ghost p = child.path@;
            shards.push(WatchShard { root: child.path, recursive: true });
            assert(shards@.skip(1).map_values(|s: WatchShard| s.root@) =~= before.skip(1).map_values(
                |s: WatchShard| s.root@,
            ).push(p));
        }
        k += 1;
    }
    assert(all.take(k as int) =~= all);
    shards
}

/// The recursive shards that are not watched yet: a shard counts as watched
/// when a watched root equals it up to ASCII case.
pub open spec fn unwatched(discovered: Seq<WatchShard>, watched: Seq<Seq<char>>) -> Seq<Seq<char>>
    decreases discovered.len(),
{
    if discovered.len() == 0 {
        seq![]
    } else {
        let rest = unwatched(discovered.drop_last(), watched);
        let s = discovered.last();
        if s.recursive && !(exists|j: int| 0 <= j < watched.len() && eq_ignore_case(#[trigger] watched[j], s.root@)) {
            rest.push(s.root@)
        } else {
            rest
        }
    }
}

/// The shards to attach to a running watcher (new top-level directories).
pub fn shards_to_attach(discovered: &[WatchShard], watched: &[String]) -> (r: Vec<String>)
    ensures
        r@.map_values(|s: String| s@) == unwatched(discovered@, watched@.map_values(|s: String| s@)),
{
    let ghost w = watched@.map_values(|s: String| s@);
    let mut out: Vec<String> = Vec::new();
    let mut i: usize = 0;
    assert(discovered@.take(0) =~= seq![]);
    while i < discovered.len()
        invariant
            i <= discovered@.len(),
            w == watched@.map_values(|s: String| s@),
            out@.map_values(|s: String| s@) == unwatched(discovered@.take(i as int), w),
        decreases discovered@.len() - i,
    {
        let shard = &discovered[i];
        proof {
            assert(discovered@.take(i + 1).drop_last() =~= discovered@.take(i as int));
            assert(discovered@.take(i + 1).last() == discovered@[i as int]);
        }
        if shard.recursive {
            let mut seen = false;
            let mut j: usize = 0;
            while j < watched.len()
                invariant
                    j <= watched@.len(),
                    w == watched@.map_values(|s: String| s@),
                    seen == (exists|m: int| 0 <= m < j && eq_ignore_case(#[trigger] w[m], shard.root@)),
                decreases watched@.len() - j,
            {
                if !watcher_root_changed(watched[j].as_str(), shard.root.as_str()) {
                    assert(eq_ignore_case(w[j as int], shard.root@));
                    seen = true;
                }
                proof {
                    if !seen {
                        assert forall|m: int| 0 <= m < j + 1 implies !eq_ignore_case(#[trigger] w[m], shard.root@) by {
                            if m == j {
                                assert(w[m] == watched@[m]@);
                            }
                        }
                    } else {
                        assert(exists|m: int| 0 <= m < j + 1 && eq_ignore_case(#[trigger] w[m], shard.root@));
                    }
                }
                j += 1;
            }
            if !seen {
                let ghost before = out@;
                out.push(shard.root.clone());
                assert(out@.map_values(|s: String| s@) =~= before.map_values(|s: String| s@).push(shard.root@));
            }
        }
        i += 1;
    }
    assert(discovered@.take(i as int) =~= discovered@);
    out
}

/// A change the watcher reports under its root.
#[derive(Debug)]
pub enum WatcherEvent {
    Added(String),
    Removed(String),
    Renamed { from: String, to: String },
    /// Changes under this scope were lost; it must be rescanned.
    Overflow(String),
}

/// A watcher event with its paths as text.
pub enum EventView {
    Added(Seq<char>),
    Removed(Seq<char>),
    Renamed(Seq<char>, Seq<char>),
    Overflow(Seq<char>),
}

impl View for WatcherEvent {
    type V = EventView;

    open spec fn view(&self) -> EventView {
        match self {
            WatcherEvent::Added(p) => EventView::Added(p@),
            WatcherEvent::Removed(p) => EventView::Removed(p@),
            WatcherEvent::Renamed { from, to } => EventView::Renamed(from@, to@),
            WatcherEvent::Overflow(p) => EventView::Overflow(p@),
        }
    }
}

pub open spec fn events_view(events: Seq<WatcherEvent>) -> Seq<EventView> {
    events.map_values(|e: WatcherEvent| e@)
}

// ---------------------------------------------------------------------------
// Reading a batch of change notifications
// ---------------------------------------------------------------------------

pub const FILE_ACTION_ADDED: u32 = 1;
pub const FILE_ACTION_REMOVED: u32 = 2;
pub const FILE_ACTION_RENAMED_OLD_NAME: u32 = 4;
pub const FILE_ACTION_RENAMED_NEW_NAME: u32 = 5;

/// Size of a notification record's fixed part as the kernel lays it out.
pub const NOTIFY_RECORD_LEN: usize = 16;

/// `name` under `root`, as `Path::join` forms it for a relative name.
pub open spec fn joined(root: Seq<char>, name: Seq<char>) -> Seq<char> {
    if root.len() == 0 || root.last() == '\\' || root.last() == '/' {
        root + name
    } else {
        root + seq!['\\'] + name
    }
}

pub fn join_path(root: &str, name: &str) -> (r: String)
    ensures
        r@ == joined(root@, name@),
{
    let rc = chars_of(root);
    let n = rc.len();
    if n == 0 || rc[n - 1] == '\\' || rc[n - 1] == '/' {
        concat(root, name)
    } else {
        let with_sep = concat(root, "\\");
        proof {
            reveal_strlit("\\");
        }
        assert(with_sep@ == root@ + seq!['\\']);
        concat(with_sep.as_str(), name)
    }
}

/// One notification record at `off`: its next-entry offset, action and the
/// UTF-16 name, when the record and its name lie within the first `len`
/// bytes.
pub open spec fn notify_record(buf: Seq<u8>, len: int, off: int) -> Option<(u32, u32, Seq<u16>)> {
    if off < 0 || off + 16 > len || len > buf.len() {
        None
    } else {
        let name_units = le_u32(buf, off + 8) / 2;
        if off + 12 + 2 * name_units > len {
            None
        } else {
            Some(
                (
                    le_u32(buf, off),
                    le_u32(buf, off + 4),
                    Seq::new(
                        name_units as nat,
                        |k: int| (buf[off + 12 + 2 * k] + 256 * buf[off + 12 + 2 * k + 1]) as u16,
                    ),
                ),
            )
        }
    }
}

/// What a notification for `path` (named `name` below the root) becomes,
/// given the rename waiting for its new name.
pub open spec fn notify_event(action: u32, path: Seq<char>, pending: Option<Seq<char>>) -> (
    Option<EventView>,
    Option<Seq<char>>,
) {
    if action == FILE_ACTION_ADDED {
        (Some(EventView::Added(path)), pending)
    } else if action == FILE_ACTION_REMOVED {
        (Some(EventView::Removed(path)), pending)
    } else if action == FILE_ACTION_RENAMED_OLD_NAME {
        (None, Some(path))
    } else if action == FILE_ACTION_RENAMED_NEW_NAME {
        match pending {
            Some(from) => (Some(EventView::Renamed(from, path)), None),
            None => (Some(EventView::Added(path)), None),
        }
    } else {
        (None, pending)
    }
}

/// Whether a changed path is reported: not under the launcher's own data
/// directory (compared in lower case) and not in an unsearchable root.
pub open spec fn reported(root: Seq<char>, name: Seq<char>, app_data_lower: Seq<char>) -> bool {
    !starts_with(unicode_lowercase(joined(root, name)), app_data_lower)
        && !unsearchable_top_level(name)
}

/// The events of the records from `off` on, and the rename still waiting
/// for its new name afterwards. Records follow each other by their
/// next-entry offset; a zero offset ends the batch, and so does a record or
/// name that does not fit in the returned bytes.
pub open spec fn notify_events(
    buf: Seq<u8>,
    len: int,
    off: int,
    root: Seq<char>,
    app_data_lower: Seq<char>,
    pending: Option<Seq<char>>,
) -> (Seq<EventView>, Option<Seq<char>>)
    decreases len - off,
{
    match notify_record(buf, len, off) {
        None => (seq![], pending),
        Some((next, action, units)) => {
            let name = utf16_lossy(units);
            let (event, pending2) = if reported(root, name, app_data_lower) {
                notify_event(action, joined(root, name), pending)
            } else {
                (None, pending)
            };
            let (rest, last) = if next == 0 || off + next > len {
                (seq![], pending2)
            } else {
                notify_events(buf, len, off + next, root, app_data_lower, pending2)
            };
            (
                match event {
                    Some(e) => seq![e] + rest,
                    None => rest,
                },
                last,
            )
        },
    }
}

pub open spec fn pending_view(p: Option<String>) -> Option<Seq<char>> {
    match p {
        Some(s) => Some(s@),
        None => None,
    }
}

/// The UTF-16 name of `count` units starting at `at`.
fn read_units(buffer: &[u8], at: usize, count: usize) -> (r: Vec<u16>)
    requires
        at + 2 * count <= buffer@.len(),
    ensures
        r@ == Seq::new(
            count as nat,
            |k: int| (buffer@[at + 2 * k] + 256 * buffer@[at + 2 * k + 1]) as u16,
        ),
{
    let n = buffer.len();
    let mut r: Vec<u16> = Vec::new();
    let mut k: usize = 0;
    while k < count
        invariant
            k <= count,
            n == buffer@.len(),
            at + 2 * count <= buffer@.len(),
            r@ == Seq::new(
                k as nat,
                |j: int| (buffer@[at + 2 * j] + 256 * buffer@[at + 2 * j + 1]) as u16,
            ),
        decreases count - k,
    {
        let lo = buffer[at + 2 * k] as u16;
        let hi = buffer[at + 2 * k + 1] as u16;
        r.push(lo + 256 * hi);
        k += 1;
        assert(r@ =~= Seq::new(
            k as nat,
            |j: int| (buffer@[at + 2 * j] + 256 * buffer@[at + 2 * j + 1]) as u16,
        ));
    }
    r
}

fn notify_record_exec(buffer: &[u8], len: usize, off: usize) -> (r: Option<(u32, u32, Vec<u16>)>)
    requires
        len <= buffer@.len(),
        off <= len,
    ensures
        match notify_record(buffer@, len as int, off as int) {
            Some((next, action, units)) => r matches Some((n, a, u)) && n == next && a == action
                && u@ == units,
            None => r is None,
        },
{
    if len - off < NOTIFY_RECORD_LEN {
        return None;
    }
    let next = match read_u32(buffer, off) {
        Some(v) => v,
        None => return None,
    };
    let action = match read_u32(buffer, off + 4) {
        Some(v) => v,
        None => return None,
    };
    let name_bytes = match read_u32(buffer, off + 8) {
        Some(v) => v,
        None => return None,
    };
    let units = name_bytes / 2;
    let room = (len - off - 12) as u64;
    if room < 2 * (units as u64) {
        return None;
    }
    let name = read_units(buffer, off + 12, units as usize);
    Some((next, action, name))
}

/// The events of one batch of change notifications for the watch on
/// `root`, in order. `pending` carries a rename's old name to the record
/// with its new name, across batches. The records are read from the
/// returned bytes only; a record or name that would run past them ends the
/// batch.
pub fn parse_notify_batch(
    buffer: &[u8],
    bytes_returned: usize,
    root: &str,
    app_data_lower: &str,
    pending: &mut Option<String>,
) -> (r: Vec<WatcherEvent>)
    requires
        bytes_returned <= buffer@.len(),
    ensures
        ({
            let (events, last) = notify_events(
                buffer@,
                bytes_returned as int,
                0,
                root@,
                app_data_lower@,
                pending_view(*old(pending)),
            );
            &&& events_view(r@) == events
            &&& pending_view(*final(pending)) == last
        }),
{
    let ghost start = pending_view(*pending);
    let ghost total = notify_events(buffer@, bytes_returned as int, 0, root@, app_data_lower@, start);
    let ad = chars_of(app_data_lower);
    let mut out: Vec<WatcherEvent> = Vec::new();
    let mut off: usize = 0;
    let mut done = false;
    while !done
        invariant
            bytes_returned <= buffer@.len(),
            off <= bytes_returned,
            ad@ == app_data_lower@,
            total == notify_events(buffer@, bytes_returned as int, 0, root@, app_data_lower@, start),
            !done ==> ({
                let (rest, last) = notify_events(
                    buffer@,
                    bytes_returned as int,
                    off as int,
                    root@,
                    app_data_lower@,
                    pending_view(*pending),
                );
                total.0 == events_view(out@) + rest && total.1 == last
            }),
            done ==> total.0 == events_view(out@) && total.1 == pending_view(*pending),
        decreases bytes_returned - off, if done { 0int } else { 1int },
    {
        let record = notify_record_exec(buffer, bytes_returned, off);
        let (next, action, units) = match record {
            None => {
                assert(events_view(out@) + seq![] =~= events_view(out@));
                done = true;
                continue;
            },
            Some(rec) => rec,
        };
        let ghost before = pending_view(*pending);
        let name = from_utf16_lossy(units.as_slice());
        let path = join_path(root, name.as_str());
        let lower = to_lowercase(path.as_str());
        let lc = chars_of(lower.as_str());
        let keep = !starts_with_exec(lc.as_slice(), ad.as_slice()) && !is_unsearchable_top_level(
            name.as_str(),
        );
        let mut event: Option<WatcherEvent> = None;
        if keep {
            if action == FILE_ACTION_ADDED {
                event = Some(WatcherEvent::Added(path));
            } else if action == FILE_ACTION_REMOVED {
                event = Some(WatcherEvent::Removed(path));
            } else if action == FILE_ACTION_RENAMED_OLD_NAME {
                *pending = Some(path);
            } else if action == FILE_ACTION_RENAMED_NEW_NAME {
                let previous = pending.take();
                event = match previous {
                    Some(from) => Some(WatcherEvent::Renamed { from, to: path }),
                    None => Some(WatcherEvent::Added(path)),
                };
            }
        }
        let ghost step = if reported(root@, name@, app_data_lower@) {
            notify_event(action, joined(root@, name@), before)
        } else {
            (None, before)
        };
        assert(pending_view(*pending) == step.1);
        assert(match event {
            Some(e) => step.0 == Some(e@),
            None => step.0 is None,
        });
        let ghost out_before = out@;
        match event {
            Some(e) => {
                out.push(e);
            },
            None => {},
        }
        assert(events_view(out@) =~= events_view(out_before) + match step.0 {
            Some(e) => seq![e],
            None => seq![],
        });
        if next == 0 || next as usize > bytes_returned - off {
            done = true;
        } else {
            off = off + next as usize;
        }
    }
    out
}

// ---------------------------------------------------------------------------
// The bounded event queue
// ---------------------------------------------------------------------------

/// Most events kept before the queue collapses to rescan scopes.
pub const MAX_QUEUED_EVENTS: usize = 16384;

/// `s` without its leading separators.
pub open spec fn skip_seps(s: Seq<char>) -> Seq<char>
    decreases s.len(),
{
    if s.len() > 0 && (s[0] == '\\' || s[0] == '/') {
        skip_seps(s.drop_first())
    } else {
        s
    }
}

/// The path an event is about: the new name of a rename.
pub open spec fn event_path(e: EventView) -> Seq<char> {
    match e {
        EventView::Added(p) => p,
        EventView::Removed(p) => p,
        EventView::Renamed(_, to) => to,
        EventView::Overflow(s) => s,
    }
}

/// The first component of `path` below `root`, when the path lies under
/// the root (as a whole component) and goes below it.
pub open spec fn first_below(path: Seq<char>, root: Seq<char>) -> Option<Seq<char>> {
    if !starts_with(path, root) {
        None
    } else {
        let rest = path.skip(root.len() as int);
        if !(root.len() == 0 || root.last() == '\\' || root.last() == '/' || rest.len() == 0
            || rest[0] == '\\' || rest[0] == '/') {
            None
        } else {
            let first = first_segment(skip_seps(rest));
            if first.len() == 0 {
                None
            } else {
                Some(first)
            }
        }
    }
}

/// The top-level directory an event may be scoped to.
pub open spec fn top_level_of(e: EventView, root: Seq<char>) -> Option<Seq<char>> {
    match e {
        EventView::Overflow(_) => None,
        _ => match first_below(event_path(e), root) {
            Some(first) => Some(joined(root, first)),
            None => None,
        },
    }
}

/// `scope` is where a rescan for `e` starts: an overflow's own scope, else
/// the event's top-level entry below the root when that is a directory,
/// else the root.
#[verifier::opaque]
pub open spec fn is_scope_of(scope: Seq<char>, e: EventView, root: Seq<char>) -> bool {
    match e {
        EventView::Overflow(s) => scope == s,
        _ => scope == root || top_level_of(e, root) == Some(scope),
    }
}

pub fn probe_scope<F: Fn(&str) -> bool>(root: &str, event: &WatcherEvent, is_dir: &F) -> (r: String)
    requires
        forall|p: &str| #[trigger] is_dir.requires((p,)),
    ensures
        is_scope_of(r@, event@, root@),
        event@ matches EventView::Overflow(scope) ==> r@ == scope,
        !(event@ is Overflow) && top_level_of(event@, root@) is None ==> r@ == root@,
        top_level_of(event@, root@) matches Some(t) ==> ((r@ == t && exists|q: &str|
            q@ == t && #[trigger] is_dir.ensures((q,), true)) || (r@ == root@ && exists|q: &str|
            q@ == t && #[trigger] is_dir.ensures((q,), false))),
{
    reveal(is_scope_of);
    let path = match event {
        WatcherEvent::Added(p) => p,
        WatcherEvent::Removed(p) => p,
        WatcherEvent::Renamed { to, .. } => to,
        WatcherEvent::Overflow(scope) => return scope.clone(),
    };
    match first_below_exec(path.as_str(), root) {
        Some(first) => {
            let top = join_path(root, first.as_str());
            let top_str = top.as_str();
            let answer = is_dir(top_str);
            assert(is_dir.ensures((top_str,), answer));
            if answer {
                top
            } else {
                root.to_owned()
            }
        },
        None => root.to_owned(),
    }
}

/// The first component of `s` after its leading separators.
fn first_component(s: &[char]) -> (r: Vec<char>)
    ensures
        r@ == first_segment(skip_seps(s@)),
{
    let n = s.len();
    let mut k: usize = 0;
    assert(s@.skip(0) =~= s@);
    while k < n && (s[k] == '\\' || s[k] == '/')
        invariant
            k <= n,
            n == s@.len(),
            skip_seps(s@) == skip_seps(s@.skip(k as int)),
        decreases n - k,
    {
        assert(s@.skip(k as int).drop_first() =~= s@.skip(k + 1));
        k += 1;
    }
    proof {
        if k < n {
            assert(s@.skip(k as int)[0] == s@[k as int]);
        }
    }
    assert(skip_seps(s@) == s@.skip(k as int));
    let mut first: Vec<char> = Vec::new();
    let mut i: usize = k;
    assert(first@ + first_segment(s@.skip(i as int)) =~= first_segment(s@.skip(k as int)));
    while i < n && s[i] != '\\' && s[i] != '/'
        invariant
            k <= i <= n,
            n == s@.len(),
            first_segment(s@.skip(k as int)) == first@ + first_segment(s@.skip(i as int)),
        decreases n - i,
    {
        proof {
            assert(s@.skip(i as int)[0] == s@[i as int]);
            assert(s@.skip(i as int).drop_first() =~= s@.skip(i + 1));
            assert(first@.push(s@[i as int]) + first_segment(s@.skip(i + 1)) =~= first@ + (seq![s@[i as int]] + first_segment(s@.skip(i + 1))));
        }
        first.push(s[i]);
        i += 1;
    }
    proof {
        if i < n {
            assert(s@.skip(i as int)[0] == s@[i as int]);
        }
        assert(first_segment(s@.skip(i as int)) =~= seq![]);
        assert(first@ + seq![] =~= first@);
    }
    first
}

fn first_below_exec(path: &str, root: &str) -> (r: Option<String>)
    ensures
        match first_below(path@, root@) {
            Some(f) => r matches Some(s) && s@ == f,
            None => r is None,
        },
{
    let pc = chars_of(path);
    let rc = chars_of(root);
    if !starts_with_exec(pc.as_slice(), rc.as_slice()) {
        return None;
    }
    let rest = crate::text::slice_to_vec(pc.as_slice(), rc.len(), pc.len());
    assert(rest@ =~= path@.skip(root@.len() as int));
    let rn = rc.len();
    let boundary = rn == 0 || rc[rn - 1] == '\\' || rc[rn - 1] == '/' || rest.len() == 0
        || rest[0] == '\\' || rest[0] == '/';
    if !boundary {
        return None;
    }
    let first = first_component(rest.as_slice());
    if first.len() == 0 {
        None
    } else {
        Some(crate::text::string_of(first.as_slice()))
    }
}

/// Whether an overflow for `scope` is already queued.
pub open spec fn has_overflow(events: Seq<EventView>, scope: Seq<char>) -> bool {
    exists|j: int| 0 <= j < events.len() && #[trigger] events[j] == EventView::Overflow(scope)
}

/// The queue after marking `scope` dirty: unchanged when that overflow is
/// already queued.
pub open spec fn with_overflow(events: Seq<EventView>, scope: Seq<char>) -> Seq<EventView> {
    if has_overflow(events, scope) {
        events
    } else {
        events.push(EventView::Overflow(scope))
    }
}

/// No scope is queued for rescan twice.
pub open spec fn distinct_overflows(events: Seq<EventView>) -> bool {
    forall|i: int, j: int|
        0 <= i < events.len() && 0 <= j < events.len() && i != j && #[trigger] events[i] is Overflow
            && #[trigger] events[j] is Overflow ==> event_path(events[i]) != event_path(events[j])
}

pub open spec fn all_overflow(events: Seq<EventView>) -> bool {
    forall|i: int| 0 <= i < events.len() ==> #[trigger] events[i] is Overflow
}

/// Event `k` has its rescan scope among `scopes`.
pub open spec fn event_scoped(scopes: Seq<EventView>, events: Seq<EventView>, root: Seq<char>, k: int) -> bool {
    exists|j: int| 0 <= j < scopes.len() && #[trigger] is_scope_of(event_path(scopes[j]), events[k], root)
}

/// Scope `j` is the rescan scope of one of `events`.
pub open spec fn scope_used(scopes: Seq<EventView>, events: Seq<EventView>, root: Seq<char>, j: int) -> bool {
    exists|k: int| 0 <= k < events.len() && #[trigger] is_scope_of(event_path(scopes[j]), events[k], root)
}

/// Each of `events` has its rescan scope among `scopes`.
pub open spec fn events_scoped(scopes: Seq<EventView>, events: Seq<EventView>, root: Seq<char>) -> bool {
    forall|k: int| 0 <= k < events.len() ==> #[trigger] event_scoped(scopes, events, root, k)
}

/// Each of `scopes` is the rescan scope of one of `events`.
pub open spec fn scopes_used(scopes: Seq<EventView>, events: Seq<EventView>, root: Seq<char>) -> bool {
    forall|j: int| 0 <= j < scopes.len() ==> #[trigger] scope_used(scopes, events, root, j)
}

/// `scopes` are the rescan scopes of `events`: each event has its scope
/// among them, and each of them is the scope of some event.
pub open spec fn scopes_cover(scopes: Seq<EventView>, events: Seq<EventView>, root: Seq<char>) -> bool {
    events_scoped(scopes, events, root) && scopes_used(scopes, events, root)
}

/// Changes waiting to be applied to the catalog, bounded: once `limit`
/// ordinary events are queued, the queue collapses to one overflow per
/// rescan scope, and stays collapsed until it is drained.
pub struct WatcherEventQueue {
    events: Vec<WatcherEvent>,
    limit: usize,
    root: String,
    collapsed: bool,
}

impl WatcherEventQueue {
    #[verifier::type_invariant]
    spec fn well_formed(&self) -> bool {
        &&& self.limit > 0
        &&& distinct_overflows(events_view(self.events@))
        &&& self.collapsed ==> all_overflow(events_view(self.events@))
    }

    pub closed spec fn queued(&self) -> Seq<EventView> {
        events_view(self.events@)
    }

    pub closed spec fn capacity(&self) -> usize {
        self.limit
    }

    pub closed spec fn root_path(&self) -> Seq<char> {
        self.root@
    }

    pub closed spec fn is_collapsed(&self) -> bool {
        self.collapsed
    }

    pub fn new(root: String) -> (r: Self)
        ensures
            r.queued() == Seq::<EventView>::empty(),
            r.capacity() == MAX_QUEUED_EVENTS,
            r.root_path() == root@,
            !r.is_collapsed(),
    {
        Self::with_limit(MAX_QUEUED_EVENTS, root)
    }

    pub fn with_limit(limit: usize, root: String) -> (r: Self)
        requires
            limit > 0,
        ensures
            r.queued() == Seq::<EventView>::empty(),
            r.capacity() == limit,
            r.root_path() == root@,
            !r.is_collapsed(),
    {
        let r = WatcherEventQueue { events: Vec::new(), limit, root, collapsed: false };
        assert(events_view(r.events@) =~= Seq::<EventView>::empty());
        r
    }

    fn find_overflow(events: &Vec<WatcherEvent>, scope: &str) -> (r: bool)
        ensures
            r == has_overflow(events_view(events@), scope@),
    {
        let mut i: usize = 0;
        while i < events.len()
            invariant
                i <= events@.len(),
                forall|j: int|
                    0 <= j < i ==> #[trigger] events_view(events@)[j] != EventView::Overflow(scope@),
            decreases events@.len() - i,
        {
            if let WatcherEvent::Overflow(existing) = &events[i] {
                if str_eq(existing.as_str(), scope) {
                    assert(events_view(events@)[i as int] == EventView::Overflow(scope@));
                    return true;
                }
            }
            i += 1;
        }
        false
    }

    /// Marks `scope` for rescan, once.
    pub fn push_dirty_scope(&mut self, scope: String)
        ensures
            final(self).queued() == with_overflow(old(self).queued(), scope@),
            final(self).capacity() == old(self).capacity(),
            final(self).root_path() == old(self).root_path(),
            final(self).is_collapsed() == old(self).is_collapsed(),
    {
        proof {
            use_type_invariant(&*self);
        }
        if !Self::find_overflow(&self.events, scope.as_str()) {
            let ghost before = events_view(self.events@);
            let ghost sv = scope@;
            let mut events = Vec::new();
            std::mem::swap(&mut events, &mut self.events);
            events.push(WatcherEvent::Overflow(scope));
            proof {
                assert(events_view(events@) =~= before.push(EventView::Overflow(sv)));
            }
            self.events = events;
        }
    }

    /// Queues a change. An overflow marks its scope dirty; an ordinary
    /// change is queued while there is room, and once `limit` are queued
    /// the queue collapses to one overflow per rescan scope of what it held
    /// and of the new change. A collapsed queue only marks scopes dirty.
    /// `is_dir` tells whether a top-level path is a directory.
    pub fn push<F: Fn(&str) -> bool>(&mut self, event: WatcherEvent, is_dir: &F)
        requires
            forall|p: &str| #[trigger] is_dir.requires((p,)),
        ensures
            final(self).capacity() == old(self).capacity(),
            final(self).root_path() == old(self).root_path(),
            match event@ {
                EventView::Overflow(s) => final(self).queued() == with_overflow(old(self).queued(), s)
                    && final(self).is_collapsed() == old(self).is_collapsed(),
                _ => if old(self).is_collapsed() {
                    &&& final(self).is_collapsed()
                    &&& exists|sc: Seq<char>|
                        is_scope_of(sc, event@, old(self).root_path()) && #[trigger] with_overflow(
                            old(self).queued(),
                            sc,
                        ) == final(self).queued()
                } else if old(self).queued().len() >= old(self).capacity() {
                    &&& final(self).is_collapsed()
                    &&& all_overflow(final(self).queued())
                    &&& distinct_overflows(final(self).queued())
                    &&& scopes_cover(
                        final(self).queued(),
                        old(self).queued().push(event@),
                        old(self).root_path(),
                    )
                } else {
                    &&& !final(self).is_collapsed()
                    &&& final(self).queued() == old(self).queued().push(event@)
                },
            },
    {
        proof {
            use_type_invariant(&*self);
        }
        if let WatcherEvent::Overflow(scope) = event {
            self.push_dirty_scope(scope);
            return;
        }
        if self.collapsed {
            let scope = probe_scope(self.root.as_str(), &event, is_dir);
            self.push_dirty_scope(scope);
            return;
        }
        if self.events.len() >= self.limit {
            let ghost olds = events_view(self.events@);
            let ghost root = self.root@;
            let ghost all = olds.push(event@);
            let mut scopes: Vec<WatcherEvent> = Vec::new();
            let mut i: usize = 0;
            while i < self.events.len()
                invariant
                    i <= self.events@.len(),
                    olds == events_view(self.events@),
                    root == self.root@,
                    all == olds.push(event@),
                    forall|p: &str| #[trigger] is_dir.requires((p,)),
                    all_overflow(events_view(scopes@)),
                    distinct_overflows(events_view(scopes@)),
                    scopes_cover(events_view(scopes@), all.take(i as int), root),
                decreases self.events@.len() - i,
            {
                let sc = probe_scope(self.root.as_str(), &self.events[i], is_dir);
                let ghost before = events_view(scopes@);
                Self::add_scope(&mut scopes, sc);
                proof {
                    Self::lemma_cover_step(before, events_view(scopes@), all, i as int, sc@, root);
                }
                i += 1;
            }
            let sc = probe_scope(self.root.as_str(), &event, is_dir);
            let ghost before = events_view(scopes@);
            Self::add_scope(&mut scopes, sc);
            proof {
                Self::lemma_cover_step(before, events_view(scopes@), all, i as int, sc@, root);
                assert(all.take(all.len() as int) =~= all);
            }
            self.events = scopes;
            self.collapsed = true;
            return;
        }
        let ghost before = events_view(self.events@);
        let mut events = Vec::new();
        std::mem::swap(&mut events, &mut self.events);
        events.push(event);
        proof {
            assert(events_view(events@) =~= before.push(event@));
        }
        self.events = events;
    }

    fn add_scope(scopes: &mut Vec<WatcherEvent>, scope: String)
        requires
            all_overflow(events_view(old(scopes)@)),
            distinct_overflows(events_view(old(scopes)@)),
        ensures
            events_view(final(scopes)@) == with_overflow(events_view(old(scopes)@), scope@),
            all_overflow(events_view(final(scopes)@)),
            distinct_overflows(events_view(final(scopes)@)),
    {
        if !Self::find_overflow(scopes, scope.as_str()) {
            let ghost before = events_view(scopes@);
            let ghost sv = scope@;
            scopes.push(WatcherEvent::Overflow(scope));
            proof {
                assert(events_view(scopes@) =~= before.push(EventView::Overflow(sv)));
            }
        }
    }

    proof fn lemma_cover_step(
        before: Seq<EventView>,
        after: Seq<EventView>,
        all: Seq<EventView>,
        i: int,
        sc: Seq<char>,
        root: Seq<char>,
    )
        requires
            0 <= i < all.len(),
            scopes_cover(before, all.take(i), root),
            after == with_overflow(before, sc),
            is_scope_of(sc, all[i], root),
        ensures
            scopes_cover(after, all.take(i + 1), root),
    {
        assert(all.take(i + 1) =~= all.take(i).push(all[i]));
        let js: int = if has_overflow(before, sc) {
            choose|j: int| 0 <= j < before.len() && #[trigger] before[j] == EventView::Overflow(sc)
        } else {
            before.len() as int
        };
        Self::lemma_scoped_step(before, after, all.take(i), all[i], js, sc, root);
        Self::lemma_used_step(before, after, all.take(i), all[i], sc, root);
    }

    proof fn lemma_scoped_step(
        before: Seq<EventView>,
        after: Seq<EventView>,
        prev: Seq<EventView>,
        x: EventView,
        js: int,
        sc: Seq<char>,
        root: Seq<char>,
    )
        requires
            events_scoped(before, prev, root),
            before.len() <= after.len(),
            forall|j: int| 0 <= j < before.len() ==> #[trigger] after[j] == before[j],
            0 <= js < after.len(),
            event_path(after[js]) == sc,
            is_scope_of(sc, x, root),
        ensures
            events_scoped(after, prev.push(x), root),
    {
        let next = prev.push(x);
        assert forall|k: int| 0 <= k < next.len() implies #[trigger] event_scoped(after, next, root, k) by {
            if k < prev.len() {
                assert(next[k] == prev[k]);
                assert(event_scoped(before, prev, root, k));
                let j = choose|j: int|
                    0 <= j < before.len() && #[trigger] is_scope_of(
                        event_path(before[j]),
                        prev[k],
                        root,
                    );
                assert(after[j] == before[j]);
                assert(is_scope_of(event_path(after[j]), next[k], root));
            } else {
                assert(next[k] == x);
                assert(is_scope_of(event_path(after[js]), next[k], root));
            }
        }
    }

    proof fn lemma_used_step(
        before: Seq<EventView>,
        after: Seq<EventView>,
        prev: Seq<EventView>,
        x: EventView,
        sc: Seq<char>,
        root: Seq<char>,
    )
        requires
            scopes_used(before, prev, root),
            after == with_overflow(before, sc),
            is_scope_of(sc, x, root),
        ensures
            scopes_used(after, prev.push(x), root),
    {
        let next = prev.push(x);
        assert forall|j: int| 0 <= j < after.len() implies #[trigger] scope_used(after, next, root, j) by {
            if j < before.len() {
                assert(after[j] == before[j]);
                assert(scope_used(before, prev, root, j));
                let k = choose|k: int|
                    0 <= k < prev.len() && #[trigger] is_scope_of(
                        event_path(before[j]),
                        prev[k],
                        root,
                    );
                assert(next[k] == prev[k]);
                assert(is_scope_of(event_path(after[j]), next[k], root));
            } else {
                assert(after[j] == EventView::Overflow(sc));
                assert(next[prev.len() as int] == x);
                assert(is_scope_of(event_path(after[j]), next[prev.len() as int], root));
            }
        }
    }

    /// Drains the queue and reopens it.
    pub fn take_all(&mut self) -> (r: Vec<WatcherEvent>)
        ensures
            events_view(r@) == old(self).queued(),
            final(self).queued() == Seq::<EventView>::empty(),
            !final(self).is_collapsed(),
            final(self).capacity() == old(self).capacity(),
            final(self).root_path() == old(self).root_path(),
    {
        proof {
            use_type_invariant(&*self);
        }
        self.collapsed = false;
        let mut events = Vec::new();
        assert(events_view(events@) =~= Seq::<EventView>::empty());
        assert(all_overflow(events_view(events@)));
        assert(distinct_overflows(events_view(events@)));
        std::mem::swap(&mut events, &mut self.events);
        proof {
            assert(events_view(self.events@) =~= Seq::<EventView>::empty());
        }
        events
    }

    pub fn clear(&mut self)
        ensures
            final(self).queued() == Seq::<EventView>::empty(),
            !final(self).is_collapsed(),
            final(self).capacity() == old(self).capacity(),
            final(self).root_path() == old(self).root_path(),
    {
        let _ = self.take_all();
    }

    pub fn len(&self) -> (r: usize)
        ensures
            r == self.queued().len(),
    {
        self.events.len()
    }

    /// The queued events, oldest first.
    pub fn iter(&self) -> (r: &[WatcherEvent])
        ensures
            events_view(r@) == self.queued(),
    {
        self.events.as_slice()
    }
}

// ---------------------------------------------------------------------------
// Folding a drained batch to its final state
// ---------------------------------------------------------------------------

/// Whether `p` was last added (`Some(true)`) or removed (`Some(false)`) in
/// `events`.
pub open spec fn last_change(events: Seq<EventView>, p: Seq<char>) -> Option<bool>
    decreases events.len(),
{
    if events.len() == 0 {
        None
    } else {
        match events.last() {
            EventView::Added(q) if q == p => Some(true),
            EventView::Removed(q) if q == p => Some(false),
            _ => last_change(events.drop_last(), p),
        }
    }
}

/// The renames of `events`, in order.
pub open spec fn renames_of(events: Seq<EventView>) -> Seq<(Seq<char>, Seq<char>)>
    decreases events.len(),
{
    if events.len() == 0 {
        seq![]
    } else {
        renames_of(events.drop_last()) + match events.last() {
            EventView::Renamed(from, to) => seq![(from, to)],
            _ => seq![],
        }
    }
}

pub open spec fn texts(v: Seq<String>) -> Seq<Seq<char>> {
    v.map_values(|s: String| s@)
}

pub open spec fn pair_texts(v: Seq<(String, String)>) -> Seq<(Seq<char>, Seq<char>)> {
    v.map_values(|p: (String, String)| (p.0@, p.1@))
}

pub open spec fn no_repeats(v: Seq<Seq<char>>) -> bool {
    forall|i: int, j: int| 0 <= i < v.len() && 0 <= j < v.len() && i != j ==> v[i] != v[j]
}

/// A drained batch reduced to what the catalog must do: the scopes to
/// rescan, the renames in order, and the paths whose last change was an
/// addition or a removal.
#[derive(Debug)]
pub struct EventFold {
    pub dirty_scopes: Vec<String>,
    pub renames: Vec<(String, String)>,
    pub touched: Vec<String>,
    pub removed: Vec<String>,
}

fn position_of(v: &Vec<String>, s: &str) -> (r: Option<usize>)
    ensures
        match r {
            Some(i) => i < v@.len() && texts(v@)[i as int] == s@,
            None => !texts(v@).contains(s@),
        },
{
    let mut i: usize = 0;
    while i < v.len()
        invariant
            i <= v@.len(),
            forall|j: int| 0 <= j < i ==> texts(v@)[j] != s@,
        decreases v@.len() - i,
    {
        if str_eq(v[i].as_str(), s) {
            return Some(i);
        }
        i += 1;
    }
    None
}

fn add_text(v: &mut Vec<String>, s: &String)
    requires
        no_repeats(texts(old(v)@)),
    ensures
        no_repeats(texts(final(v)@)),
        forall|t: Seq<char>| texts(final(v)@).contains(t) <==> (texts(old(v)@).contains(t) || t == s@),
{
    match position_of(v, s.as_str()) {
        Some(i) => {
            assert(texts(v@).contains(s@)) by {
                assert(texts(v@)[i as int] == s@);
            }
        },
        None => {
            let ghost before = texts(v@);
            v.push(s.clone());
            proof {
                assert(texts(v@) =~= before.push(s@));
                assert forall|t: Seq<char>| texts(v@).contains(t) <==> (before.contains(t) || t == s@) by {
                    if texts(v@).contains(t) {
                        let k = choose|k: int| 0 <= k < texts(v@).len() && texts(v@)[k] == t;
                        if k < before.len() {
                            assert(before[k] == t);
                        }
                    }
                    if before.contains(t) {
                        let k = choose|k: int| 0 <= k < before.len() && before[k] == t;
                        assert(texts(v@)[k] == t);
                    }
                    if t == s@ {
                        assert(texts(v@)[before.len() as int] == t);
                    }
                }
            }
        },
    }
}

fn drop_text(v: &mut Vec<String>, s: &String)
    requires
        no_repeats(texts(old(v)@)),
    ensures
        no_repeats(texts(final(v)@)),
        forall|t: Seq<char>| texts(final(v)@).contains(t) <==> (texts(old(v)@).contains(t) && t != s@),
{
    match position_of(v, s.as_str()) {
        Some(i) => {
            let ghost before = texts(v@);
            v.remove(i);
            proof {
                assert(texts(v@) =~= before.remove(i as int));
                assert forall|t: Seq<char>| texts(v@).contains(t) <==> (before.contains(t) && t != s@) by {
                    if texts(v@).contains(t) {
                        let k = choose|k: int| 0 <= k < texts(v@).len() && texts(v@)[k] == t;
                        if k < i {
                            assert(before[k] == t);
                        } else {
                            assert(before[k + 1] == t);
                        }
                    }
                    if before.contains(t) && t != s@ {
                        let k = choose|k: int| 0 <= k < before.len() && before[k] == t;
                        if k < i {
                            assert(texts(v@)[k] == t);
                        } else if k > i {
                            assert(texts(v@)[k - 1] == t);
                        }
                    }
                }
            }
        },
        None => {},
    }
}

/// Folds a drained batch: every overflow marks its scope, renames keep
/// their order, and each added or removed path lands in the set of its last
/// change.
pub fn fold_events(events: &[WatcherEvent]) -> (r: EventFold)
    ensures
        no_repeats(texts(r.dirty_scopes@)),
        no_repeats(texts(r.touched@)),
        no_repeats(texts(r.removed@)),
        forall|s: Seq<char>|
            texts(r.dirty_scopes@).contains(s) <==> events_view(events@).contains(EventView::Overflow(s)),
        forall|p: Seq<char>|
            texts(r.touched@).contains(p) <==> last_change(events_view(events@), p) == Some(true),
        forall|p: Seq<char>|
            texts(r.removed@).contains(p) <==> last_change(events_view(events@), p) == Some(false),
        pair_texts(r.renames@) == renames_of(events_view(events@)),
{
    let mut fold = EventFold {
        dirty_scopes: Vec::new(),
        renames: Vec::new(),
        touched: Vec::new(),
        removed: Vec::new(),
    };
    let ghost all = events_view(events@);
    let mut i: usize = 0;
    proof {
        assert(texts(fold.dirty_scopes@) =~= Seq::<Seq<char>>::empty());
        assert(texts(fold.touched@) =~= Seq::<Seq<char>>::empty());
        assert(texts(fold.removed@) =~= Seq::<Seq<char>>::empty());
        assert(pair_texts(fold.renames@) =~= Seq::<(Seq<char>, Seq<char>)>::empty());
        assert(all.take(0) =~= Seq::<EventView>::empty());
    }
    while i < events.len()
        invariant
            i <= events@.len(),
            all == events_view(events@),
            no_repeats(texts(fold.dirty_scopes@)),
            no_repeats(texts(fold.touched@)),
            no_repeats(texts(fold.removed@)),
            forall|s: Seq<char>|
                texts(fold.dirty_scopes@).contains(s) <==> all.take(i as int).contains(
                    EventView::Overflow(s),
                ),
            forall|p: Seq<char>|
                texts(fold.touched@).contains(p) <==> last_change(all.take(i as int), p) == Some(true),
            forall|p: Seq<char>|
                texts(fold.removed@).contains(p) <==> last_change(all.take(i as int), p) == Some(false),
            pair_texts(fold.renames@) == renames_of(all.take(i as int)),
        decreases events@.len() - i,
    {
        let ghost prefix = all.take(i as int);
        let ghost next = all.take(i + 1);
        proof {
            assert(next =~= prefix.push(all[i as int]));
            assert(next.drop_last() =~= prefix);
        }
        match &events[i] {
            WatcherEvent::Overflow(scope) => {
                add_text(&mut fold.dirty_scopes, scope);
            },
            WatcherEvent::Renamed { from, to } => {
                let ghost before = fold.renames@;
                fold.renames.push((from.clone(), to.clone()));
                proof {
                    assert(pair_texts(fold.renames@) =~= pair_texts(before).push((from@, to@)));
                }
            },
            WatcherEvent::Removed(path) => {
                drop_text(&mut fold.touched, path);
                add_text(&mut fold.removed, path);
            },
            WatcherEvent::Added(path) => {
                drop_text(&mut fold.removed, path);
                add_text(&mut fold.touched, path);
            },
        }
        proof {
            assert forall|s: Seq<char>| next.contains(EventView::Overflow(s)) <==> (prefix.contains(
                EventView::Overflow(s),
            ) || all[i as int] == EventView::Overflow(s)) by {
                if next.contains(EventView::Overflow(s)) {
                    let k = choose|k: int| 0 <= k < next.len() && next[k] == EventView::Overflow(s);
                    if k < prefix.len() {
                        assert(prefix[k] == next[k]);
                    }
                }
                if prefix.contains(EventView::Overflow(s)) {
                    let k = choose|k: int| 0 <= k < prefix.len() && prefix[k] == EventView::Overflow(s);
                    assert(next[k] == prefix[k]);
                }
                if all[i as int] == EventView::Overflow(s) {
                    assert(next[i as int] == all[i as int]);
                }
            }
        }
        i += 1;
    }
    proof {
        assert(all.take(events@.len() as int) =~= all);
    }
    fold
}

/// The delay a backoff waits after `pending`: doubled, up to the cap.
pub open spec fn doubled_delay(pending: u64) -> u64 {
    if pending * 2 < MAX_RECONNECT_BACKOFF_MS {
        (pending * 2) as u64
    } else {
        MAX_RECONNECT_BACKOFF_MS
    }
}

/// What the directory reader has: whether its handle is open, its
/// reconnect pacing, and the old name of a rename whose new name has not
/// come yet.
pub struct ReaderState {
    pub open: bool,
    pub backoff: ReconnectBackoff,
    pub pending_rename: Option<String>,
}

/// What the reader learns from the system.
#[derive(Debug, Clone, Copy, PartialEq, Eq, Structural)]
pub enum ReaderEvent {
    /// The stop flag is set.
    Stop,
    /// Opening the watched root succeeded or failed.
    Opened(bool),
    /// A read of change notifications returned: whether it succeeded, and
    /// how many bytes it filled.
    Read { success: bool, bytes: u32 },
}

/// What the reader does next, after the action's other parts.
#[derive(Debug, Clone, Copy, PartialEq, Eq, Structural)]
pub enum ReaderNext {
    /// Open the watched root.
    Open,
    /// Read the next notifications from the open handle.
    Read,
    /// Stop watching.
    Exit,
}

/// The reader's response to one event, done in field order: report a gap
/// (an overflow for the whole root), parse the filled bytes, close the
/// handle, wait, then go on.
#[derive(Debug, Clone, Copy, PartialEq, Eq, Structural)]
pub struct ReaderAction {
    pub report_overflow: bool,
    pub parse_batch: bool,
    pub close_handle: bool,
    pub wait_ms: Option<u64>,
    pub next: ReaderNext,
}

impl ReaderState {
    /// A reader before its first open.
    pub fn new() -> (r: Self)
        ensures
            !r.open,
            r.backoff.pending() == READ_ERROR_BACKOFF_MS,
            r.pending_rename is None,
    {
        ReaderState { open: false, backoff: ReconnectBackoff::new(), pending_rename: None }
    }
}

/// One decision of the directory reader. A failed open, or a failed read,
/// reports a gap and waits the backoff's delay before opening again (a
/// failed read closing the handle first); an empty read reports a gap and
/// reads on; a filled read is parsed and reads on; either read that
/// succeeded resets the backoff. Stopping closes an open handle and exits.
/// A new handle starts without a pending rename.
pub fn reader_step(state: ReaderState, event: ReaderEvent) -> (r: (ReaderState, ReaderAction))
    ensures
        match event {
            ReaderEvent::Stop => {
                &&& r.1 == ReaderAction {
                    report_overflow: false,
                    parse_batch: false,
                    close_handle: state.open,
                    wait_ms: None,
                    next: ReaderNext::Exit,
                }
                &&& !r.0.open
                &&& r.0.backoff.pending() == state.backoff.pending()
                &&& r.0.pending_rename == state.pending_rename
            },
            ReaderEvent::Opened(true) => {
                &&& r.1 == ReaderAction {
                    report_overflow: false,
                    parse_batch: false,
                    close_handle: false,
                    wait_ms: None,
                    next: ReaderNext::Read,
                }
                &&& r.0.open
                &&& r.0.backoff.pending() == state.backoff.pending()
                &&& r.0.pending_rename is None
            },
            ReaderEvent::Opened(false) => {
                &&& r.1 == ReaderAction {
                    report_overflow: true,
                    parse_batch: false,
                    close_handle: false,
                    wait_ms: Some(state.backoff.pending()),
                    next: ReaderNext::Open,
                }
                &&& !r.0.open
                &&& r.0.backoff.pending() == doubled_delay(state.backoff.pending())
                &&& r.0.pending_rename == state.pending_rename
            },
            ReaderEvent::Read { success: false, .. } => {
                &&& r.1 == ReaderAction {
                    report_overflow: true,
                    parse_batch: false,
                    close_handle: true,
                    wait_ms: Some(state.backoff.pending()),
                    next: ReaderNext::Open,
                }
                &&& !r.0.open
                &&& r.0.backoff.pending() == doubled_delay(state.backoff.pending())
                &&& r.0.pending_rename == state.pending_rename
            },
            ReaderEvent::Read { success: true, bytes } => {
                &&& r.1 == ReaderAction {
                    report_overflow: bytes == 0,
                    parse_batch: bytes > 0,
                    close_handle: false,
                    wait_ms: None,
                    next: ReaderNext::Read,
                }
                &&& r.0.open == state.open
                &&& r.0.backoff.pending() == READ_ERROR_BACKOFF_MS
                &&& r.0.pending_rename == state.pending_rename
            },
        },
{
    let mut state = state;
    match event {
        ReaderEvent::Stop => {
            let close_handle = state.open;
            state.open = false;
            (
                state,
                ReaderAction {
                    report_overflow: false,
                    parse_batch: false,
                    close_handle,
                    wait_ms: None,
                    next: ReaderNext::Exit,
                },
            )
        },
        ReaderEvent::Opened(true) => {
            state.open = true;
            state.pending_rename = None;
            (
                state,
                ReaderAction {
                    report_overflow: false,
                    parse_batch: false,
                    close_handle: false,
                    wait_ms: None,
                    next: ReaderNext::Read,
                },
            )
        },
        ReaderEvent::Opened(false) => {
            let delay = state.backoff.next_delay();
            state.open = false;
            (
                state,
                ReaderAction {
                    report_overflow: true,
                    parse_batch: false,
                    close_handle: false,
                    wait_ms: Some(delay),
                    next: ReaderNext::Open,
                },
            )
        },
        ReaderEvent::Read { success, bytes } => {
            if !success {
                let delay = state.backoff.next_delay();
                state.open = false;
                (
                    state,
                    ReaderAction {
                        report_overflow: true,
                        parse_batch: false,
                        close_handle: true,
                        wait_ms: Some(delay),
                        next: ReaderNext::Open,
                    },
                )
            } else {
                state.backoff.reset();
                (
                    state,
                    ReaderAction {
                        report_overflow: bytes == 0,
                        parse_batch: bytes > 0,
                        close_handle: false,
                        wait_ms: None,
                        next: ReaderNext::Read,
                    },
                )
            }
        },
    }
}

} // verus!
