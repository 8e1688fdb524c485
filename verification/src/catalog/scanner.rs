//! Directory-walk rules: which roots are never indexed, which reparse points
//! are descended, the `FindFirstFileExW` pattern for a directory, and when a
//! directory's enumeration has stalled.

use vstd::prelude::*;
use crate::catalog::search::trim_separators;
use crate::text::{to_lowercase, unicode_lowercase, append_chars, chars_of, seq_eq, starts_with, starts_with_exec, str_eq, string_of};

verus! {

/// How far the walk of a volume has come.
#[derive(Debug)]
pub struct VolumeScanProgress {
    pub indexed_count: u64,
}

pub const IO_REPARSE_TAG_CLOUD: u32 = 0x9000_001A;

pub const IO_REPARSE_TAG_CLOUD_MASK: u32 = 0x0000_F000;

/// Roots the walk never enters: the recycle bin and System Volume
/// Information. Everything else is indexed and merely ranked lower.
pub open spec fn excluded_dir(name_lower: Seq<char>) -> bool {
    name_lower == "$recycle.bin"@ || name_lower == "system volume information"@
}

pub fn is_excluded_dir(name_lower: &str) -> (r: bool)
    ensures
        r == excluded_dir(name_lower@),
{
    let cs = chars_of(name_lower);
    let bin = chars_of("$recycle.bin");
    let svi = chars_of("system volume information");
    seq_eq(cs.as_slice(), bin.as_slice()) || seq_eq(cs.as_slice(), svi.as_slice())
}

/// Cloud-sync placeholders (OneDrive and the like, any of the sixteen cloud
/// tags) are descended; every other reparse point stays a leaf.
pub fn is_cloud_reparse_tag(tag: u32) -> (r: bool)
    ensures
        r == (tag & !IO_REPARSE_TAG_CLOUD_MASK == IO_REPARSE_TAG_CLOUD),
{
    tag & !IO_REPARSE_TAG_CLOUD_MASK == IO_REPARSE_TAG_CLOUD
}

/// The wildcard pattern that lists `dir` through the long-path namespace:
/// `\\?\` paths keep their prefix, UNC paths become `\\?\UNC\...`.
pub open spec fn search_pattern(dir: Seq<char>) -> Seq<char> {
    let t = trim_separators(dir);
    if starts_with(t, "\\\\?\\"@) {
        t + "\\*"@
    } else if starts_with(t, "\\\\"@) {
        "\\\\?\\UNC\\"@ + t.skip(2) + "\\*"@
    } else {
        "\\\\?\\"@ + t + "\\*"@
    }
}

fn trimmed_separators(s: &[char]) -> (r: Vec<char>)
    ensures
        r@ == trim_separators(s@),
{
    let mut end = s.len();
    assert(s@.take(end as int) =~= s@);
    while end > 0 && (s[end - 1] == '\\' || s[end - 1] == '/')
        invariant
            end <= s@.len(),
            trim_separators(s@.take(end as int)) == trim_separators(s@),
        decreases end,
    {
        assert(s@.take(end as int).drop_last() =~= s@.take(end - 1));
        end -= 1;
    }
    let mut out: Vec<char> = Vec::new();
    let mut i: usize = 0;
    while i < end
        invariant
            i <= end <= s@.len(),
            out@ == s@.take(i as int),
        decreases end - i,
    {
        out.push(s[i]);
        i += 1;
        assert(out@ =~= s@.take(i as int));
    }
    out
}

pub fn format_win32_search_pattern(dir: &str) -> (r: String)
    ensures
        r@ == search_pattern(dir@),
{
    let cs = chars_of(dir);
    let t = trimmed_separators(cs.as_slice());
    let verbatim = chars_of("\\\\?\\");
    let unc = chars_of("\\\\");
    let star = chars_of("\\*");
    if starts_with_exec(t.as_slice(), verbatim.as_slice()) {
        let mut out = t;
        append_chars(&mut out, star.as_slice());
        string_of(out.as_slice())
    } else if starts_with_exec(t.as_slice(), unc.as_slice()) {
        let mut out = chars_of("\\\\?\\UNC\\");
        let mut i: usize = 2;
        let ghost head = out@;
        proof {
            reveal_strlit("\\\\");
            assert(unc@.len() == 2);
            assert(head + t@.subrange(2, 2) =~= head);
        }
        while i < t.len()
            invariant
                2 <= i <= t@.len(),
                out@ == head + t@.subrange(2, i as int),
            decreases t@.len() - i,
        {
            out.push(t[i]);
            i += 1;
            assert(out@ =~= head + t@.subrange(2, i as int));
        }
        assert(t@.subrange(2, t@.len() as int) =~= t@.skip(2));
        append_chars(&mut out, star.as_slice());
        string_of(out.as_slice())
    } else {
        let mut out = chars_of("\\\\?\\");
        append_chars(&mut out, t.as_slice());
        append_chars(&mut out, star.as_slice());
        string_of(out.as_slice())
    }
}

/// Whether the walk enters a child directory: a reparse point only when it
/// is a cloud placeholder, any other directory unless it is an excluded
/// root; and only when the scan descends at all.
pub fn should_descend(is_reparse: bool, reparse_tag: u32, name_lower: &str, descend_directories: bool) -> (r: bool)
    ensures
        r == (descend_directories && if is_reparse {
            reparse_tag & !IO_REPARSE_TAG_CLOUD_MASK == IO_REPARSE_TAG_CLOUD
        } else {
            !excluded_dir(name_lower@)
        }),
{
    let descend = if is_reparse {
        is_cloud_reparse_tag(reparse_tag)
    } else {
        !is_excluded_dir(name_lower)
    };
    descend && descend_directories
}

/// A directory whose enumeration returns the same name this many times in a
/// row is given up on.
pub const STALL_REPEATS: u32 = 4;

/// What to do with one name a directory enumeration returned.
#[derive(Debug, PartialEq, Eq, Structural)]
pub enum EntryStep {
    /// `.`, `..` or an empty name: not an entry.
    Ignore,
    /// A new entry: record it.
    Record,
    /// The entry just recorded, returned again: skip it.
    Repeat,
    /// Returned again too often: stop enumerating this directory; it is
    /// incomplete.
    Stall,
}

/// Watches one directory's enumeration for the same entry coming back
/// (directories modified during the walk can do that).
pub struct EnumerationGuard {
    pub last_name: String,
    pub repeats: u32,
}

pub open spec fn is_placeholder_name(name: Seq<char>) -> bool {
    name.len() == 0 || name == seq!['.'] || name == seq!['.', '.']
}

impl EnumerationGuard {
    pub fn new() -> (r: Self)
        ensures
            r.last_name@ == Seq::<char>::empty(),
            r.repeats == 0,
    {
        EnumerationGuard { last_name: String::new(), repeats: 0 }
    }

    /// Classifies the next name returned.
    pub fn step(&mut self, name: &str) -> (r: EntryStep)
        requires
            old(self).repeats < STALL_REPEATS,
        ensures
            is_placeholder_name(name@) ==> r == EntryStep::Ignore && *final(self) == *old(self),
            !is_placeholder_name(name@) && name@ == old(self).last_name@ ==> final(self).last_name
                == old(self).last_name && final(self).repeats == old(self).repeats + 1 && r == (if old(
                self,
            ).repeats + 1 >= STALL_REPEATS {
                EntryStep::Stall
            } else {
                EntryStep::Repeat
            }),
            !is_placeholder_name(name@) && name@ != old(self).last_name@ ==> r == EntryStep::Record
                && final(self).last_name@ == name@ && final(self).repeats == 0,
            r != EntryStep::Stall ==> final(self).repeats < STALL_REPEATS,
    {
        let cs = chars_of(name);
        let dot: Vec<char> = vec!['.'];
        let dots: Vec<char> = vec!['.', '.'];
        if cs.len() == 0 || seq_eq(cs.as_slice(), dot.as_slice()) || seq_eq(cs.as_slice(), dots.as_slice()) {
            assert(dot@ =~= seq!['.']);
            assert(dots@ =~= seq!['.', '.']);
            return EntryStep::Ignore;
        }
        proof {
            assert(dot@ =~= seq!['.']);
            assert(dots@ =~= seq!['.', '.']);
        }
        if str_eq(name, self.last_name.as_str()) {
            self.repeats = self.repeats + 1;
            if self.repeats >= STALL_REPEATS {
                return EntryStep::Stall;
            }
            return EntryStep::Repeat;
        }
        self.repeats = 0;
        self.last_name = name.to_owned();
        EntryStep::Record
    }
}

impl EnumerationGuard {
    /// Whether the listing that this guard watched ran to its end without
    /// stalling: only then may entries missing from it be removed from the
    /// catalog.
    pub fn listing_complete(&self) -> (r: bool)
        ensures
            r == (self.repeats < STALL_REPEATS),
    {
        self.repeats < STALL_REPEATS
    }
}

/// The walk skips the launcher's own data directory (and everything below
/// it), compared in lowercase with the data directory's trailing
/// separators trimmed.
pub fn is_own_data_dir(dir_lower: &str, app_data_dir: &str) -> (r: bool)
    ensures
        r == starts_with(dir_lower@, unicode_lowercase(trim_separators(app_data_dir@))),
{
    let cs = chars_of(app_data_dir);
    let trimmed = trimmed_separators(cs.as_slice());
    let trimmed_text = string_of(trimmed.as_slice());
    let lower = to_lowercase(trimmed_text.as_str());
    let dc = chars_of(dir_lower);
    let lc = chars_of(lower.as_str());
    starts_with_exec(dc.as_slice(), lc.as_slice())
}

/// 100-nanosecond intervals from 1601-01-01 to the Unix epoch.
pub const UNIX_EPOCH_FILETIME: u64 = 116_444_736_000_000_000;

/// Largest number of seconds after the Unix epoch whose FILETIME fits `u64`.
pub const MAX_FILETIME_SECS: u64 = 1_833_029_933_769;

/// A modification time given as seconds and nanoseconds after the Unix
/// epoch, in FILETIME ticks (100 ns since 1601), as the catalog stores it.
pub fn filetime_from_unix(secs: u64, subsec_nanos: u32) -> (r: u64)
    requires
        secs <= MAX_FILETIME_SECS,
        subsec_nanos < 1_000_000_000,
    ensures
        r == secs * 10_000_000 + subsec_nanos / 100 + UNIX_EPOCH_FILETIME,
{
    assert(secs * 10_000_000 + subsec_nanos / 100 + UNIX_EPOCH_FILETIME <= u64::MAX) by (nonlinear_arith)
        requires
            secs <= MAX_FILETIME_SECS,
            subsec_nanos < 1_000_000_000,
    ;
    secs * 10_000_000 + (subsec_nanos / 100) as u64 + UNIX_EPOCH_FILETIME
}

/// The 64-bit value a directory listing reports as two 32-bit halves (a
/// FILETIME, or a file size).
pub fn u64_from_halves(high: u32, low: u32) -> (r: u64)
    ensures
        r == high as int * 0x1_0000_0000 + low as int,
{
    let r = ((high as u64) << 32u64) | (low as u64);
    assert(((high as u64) << 32u64) | (low as u64) == high as u64 * 0x1_0000_0000u64 + low as u64) by (bit_vector);
    r
}

/// The catalog rows under a listed directory that its complete listing no
/// longer holds, in their order: each a path and whether it is a directory.
pub open spec fn missing_of(existing: Seq<(Seq<char>, bool)>, seen: Seq<Seq<char>>) -> Seq<(Seq<char>, bool)>
    decreases existing.len(),
{
    if existing.len() == 0 {
        seq![]
    } else {
        let rest = missing_of(existing.drop_last(), seen);
        if seen.contains(existing.last().0) {
            rest
        } else {
            rest.push(existing.last())
        }
    }
}

pub open spec fn row_views(rows: Seq<(String, bool)>) -> Seq<(Seq<char>, bool)> {
    rows.map_values(|p: (String, bool)| (p.0@, p.1))
}

pub open spec fn name_views(names: Seq<String>) -> Seq<Seq<char>> {
    names.map_values(|s: String| s@)
}

fn seen_contains(seen: &[String], path: &str) -> (r: bool)
    ensures
        r == name_views(seen@).contains(path@),
{
    let mut i: usize = 0;
    while i < seen.len()
        invariant
            i <= seen@.len(),
            forall|j: int| 0 <= j < i ==> seen@[j]@ != path@,
        decreases seen@.len() - i,
    {
        if str_eq(seen[i].as_str(), path) {
            assert(name_views(seen@)[i as int] == path@);
            return true;
        }
        i += 1;
    }
    proof {
        if name_views(seen@).contains(path@) {
            let j = choose|j: int| 0 <= j < name_views(seen@).len() && name_views(seen@)[j] == path@;
            assert(seen@[j]@ == path@);
        }
    }
    false
}

/// The rows stored under a directory whose listing ran to its end that the
/// listing did not return: these are removed from the catalog.
pub fn missing_children(existing: &[(String, bool)], seen: &[String]) -> (r: Vec<(String, bool)>)
    ensures
        row_views(r@) == missing_of(row_views(existing@), name_views(seen@)),
{
    let mut out: Vec<(String, bool)> = Vec::new();
    let mut i: usize = 0;
    assert(row_views(existing@).take(0) =~= seq![]);
    assert(row_views(out@) =~= seq![]);
    while i < existing.len()
        invariant
            i <= existing@.len(),
            row_views(out@) == missing_of(row_views(existing@).take(i as int), name_views(seen@)),
        decreases existing@.len() - i,
    {
        let path = &existing[i].0;
        let is_dir = existing[i].1;
        proof {
            assert(row_views(existing@).take(i + 1).drop_last() =~= row_views(existing@).take(i as int));
            assert(row_views(existing@).take(i + 1).last() == (path@, is_dir));
        }
        if !seen_contains(seen, path.as_str()) {
            let copy = string_of(chars_of(path.as_str()).as_slice());
            out.push((copy, is_dir));
            assert(row_views(out@) =~= missing_of(row_views(existing@).take(i + 1), name_views(seen@)));
        }
        i += 1;
    }
    assert(row_views(existing@).take(existing@.len() as int) =~= row_views(existing@));
    out
}

} // verus!
