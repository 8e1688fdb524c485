//! Mount-path bookkeeping for volumes: normalising the paths a volume is
//! reachable at, choosing the canonical one, and its drive letter.

use vstd::prelude::*;
use crate::catalog::types::VolumeInfo;
use crate::sorting::{insert_by, sort_by, sort_ranked, stable_sort, Ranked};
use crate::text::{
    ascii_upper_char, chars_of, is_ascii_lower, is_ascii_upper, lex_lt, split_char, split_on,
    str_eq, str_lex_lt, string_of, to_lowercase, unicode_lowercase, upper_char,
    lemma_lex_lt_irreflexive, lemma_lex_lt_transitive, lemma_lex_lt_total,
};

verus! {

pub open spec fn is_ascii_letter(c: char) -> bool {
    is_ascii_upper(c) || is_ascii_lower(c)
}

pub open spec fn is_sep(c: char) -> bool {
    c == '\\' || c == '/'
}

/// `X:` for a path that is exactly a drive root (`x:\` or `x:/`).
pub open spec fn drive_letter_of(path: Seq<char>) -> Option<Seq<char>> {
    if path.len() == 3 && is_ascii_letter(path[0]) && path[1] == ':' && is_sep(path[2]) {
        Some(seq![upper_char(path[0]), ':'])
    } else {
        None
    }
}

fn is_letter(c: char) -> (r: bool)
    ensures
        r == is_ascii_letter(c),
{
    ('A' <= c && c <= 'Z') || ('a' <= c && c <= 'z')
}

/// The drive letter of a drive-root mount path, upper case with its colon.
pub fn drive_letter_from_mount_path(path: &str) -> (r: Option<String>)
    ensures
        match r {
            Some(s) => drive_letter_of(path@) == Some(s@),
            None => drive_letter_of(path@) is None,
        },
{
    let cs = chars_of(path);
    if cs.len() == 3 && is_letter(cs[0]) && cs[1] == ':' && (cs[2] == '\\' || cs[2] == '/') {
        let mut out: Vec<char> = Vec::new();
        out.push(ascii_upper_char(cs[0]));
        out.push(':');
        assert(out@ =~= seq![upper_char(path@[0]), ':']);
        Some(string_of(out.as_slice()))
    } else {
        None
    }
}

/// `s` with every `/` turned into `\`.
pub open spec fn backslashed(s: Seq<char>) -> Seq<char> {
    Seq::new(s.len(), |i: int| if s[i] == '/' { '\\' } else { s[i] })
}

/// `s` without trailing backslashes.
pub open spec fn trim_backslashes(s: Seq<char>) -> Seq<char>
    decreases s.len(),
{
    if s.len() > 0 && s.last() == '\\' {
        trim_backslashes(s.drop_last())
    } else {
        s
    }
}

/// A mount path in one spelling: backslashes only, an upper-case drive
/// letter, a drive root as `X:\`, and no trailing backslash otherwise.
pub open spec fn normalized_mount(path: Seq<char>) -> Seq<char> {
    let v = backslashed(path);
    if v.len() >= 2 && is_ascii_letter(v[0]) && v[1] == ':' {
        let suffix = trim_backslashes(v.skip(2));
        if suffix.len() == 0 {
            seq![upper_char(v[0]), ':', '\\']
        } else {
            seq![upper_char(v[0]), ':'] + suffix
        }
    } else {
        trim_backslashes(v)
    }
}

fn trim_backslashes_exec(s: &[char], from: usize) -> (r: Vec<char>)
    requires
        from <= s@.len(),
    ensures
        r@ == trim_backslashes(s@.skip(from as int)),
{
    let mut end = s.len();
    assert(s@.skip(from as int) =~= s@.subrange(from as int, end as int));
    while end > from && s[end - 1] == '\\'
        invariant
            from <= end <= s@.len(),
            trim_backslashes(s@.skip(from as int)) == trim_backslashes(s@.subrange(from as int, end as int)),
        decreases end,
    {
        assert(s@.subrange(from as int, end as int).drop_last() =~= s@.subrange(from as int, end - 1));
        end -= 1;
    }
    let mut out: Vec<char> = Vec::new();
    let mut i = from;
    while i < end
        invariant
            from <= i <= end <= s@.len(),
            out@ == s@.subrange(from as int, i as int),
        decreases end - i,
    {
        out.push(s[i]);
        i += 1;
        assert(out@ =~= s@.subrange(from as int, i as int));
    }
    out
}

/// Normalises one mount path (see `normalized_mount`).
pub fn normalize_mount_path(path: &str) -> (r: String)
    ensures
        r@ == normalized_mount(path@),
{
    let cs = chars_of(path);
    let mut v: Vec<char> = Vec::new();
    let mut i: usize = 0;
    while i < cs.len()
        invariant
            i <= cs@.len(),
            v@ == backslashed(cs@).take(i as int),
        decreases cs@.len() - i,
    {
        v.push(if cs[i] == '/' { '\\' } else { cs[i] });
        i += 1;
        assert(v@ =~= backslashed(cs@).take(i as int));
    }
    assert(v@ =~= backslashed(path@));
    if v.len() >= 2 && is_letter(v[0]) && v[1] == ':' {
        let suffix = trim_backslashes_exec(v.as_slice(), 2);
        let mut out: Vec<char> = Vec::new();
        out.push(ascii_upper_char(v[0]));
        out.push(':');
        if suffix.len() == 0 {
            out.push('\\');
            assert(out@ =~= seq![upper_char(v@[0]), ':', '\\']);
        } else {
            let mut k: usize = 0;
            while k < suffix.len()
                invariant
                    k <= suffix@.len(),
                    out@ == seq![upper_char(v@[0]), ':'] + suffix@.take(k as int),
                decreases suffix@.len() - k,
            {
                out.push(suffix[k]);
                k += 1;
                assert(out@ =~= seq![upper_char(v@[0]), ':'] + suffix@.take(k as int));
            }
            assert(suffix@.take(k as int) =~= suffix@);
        }
        string_of(out.as_slice())
    } else {
        let t = trim_backslashes_exec(v.as_slice(), 0);
        assert(v@.skip(0) =~= v@);
        string_of(t.as_slice())
    }
}

/// The key two mount paths are the same under: their lowercase form.
pub open spec fn mount_key(path: Seq<char>) -> Seq<char> {
    unicode_lowercase(path)
}

/// A mount path ordered by its key.
pub struct MountRow {
    pub path: String,
}

impl Ranked for MountRow {
    open spec fn spec_precedes(&self, other: &Self) -> bool {
        lex_lt(mount_key(self.path@), mount_key(other.path@))
    }

    fn precedes(&self, other: &Self) -> (r: bool) {
        let a = to_lowercase(self.path.as_str());
        let b = to_lowercase(other.path.as_str());
        str_lex_lt(a.as_str(), b.as_str())
    }
}

/// The normalised paths, keeping the first of each key, in list order.
pub open spec fn unique_mounts(paths: Seq<Seq<char>>) -> Seq<Seq<char>>
    decreases paths.len(),
{
    if paths.len() == 0 {
        seq![]
    } else {
        let kept = unique_mounts(paths.drop_last());
        let p = normalized_mount(paths.last());
        if exists|i: int| 0 <= i < kept.len() && #[trigger] mount_key(kept[i]) == mount_key(p) {
            kept
        } else {
            kept.push(p)
        }
    }
}

pub open spec fn rows_view(rows: Seq<MountRow>) -> Seq<Seq<char>> {
    rows.map_values(|r: MountRow| r.path@)
}

pub open spec fn key_lt(a: Seq<char>, b: Seq<char>) -> bool {
    lex_lt(mount_key(a), mount_key(b))
}

/// The normalised mount paths: one per key (the first), ordered by key.
pub open spec fn normalized_mounts(paths: Seq<Seq<char>>) -> Seq<Seq<char>> {
    sort_by(unique_mounts(paths), |a: Seq<char>, b: Seq<char>| key_lt(a, b))
}

pub open spec fn strings_view(v: Seq<String>) -> Seq<Seq<char>> {
    v.map_values(|s: String| s@)
}

fn key_taken(rows: &Vec<MountRow>, key: &str) -> (r: bool)
    ensures
        r == exists|i: int| 0 <= i < rows@.len() && #[trigger] mount_key(rows@[i].path@) == key@,
{
    let mut i: usize = 0;
    while i < rows.len()
        invariant
            i <= rows@.len(),
            forall|k: int| 0 <= k < i ==> #[trigger] mount_key(rows@[k].path@) != key@,
        decreases rows@.len() - i,
    {
        let k = to_lowercase(rows[i].path.as_str());
        if str_eq(k.as_str(), key) {
            assert(mount_key(rows@[i as int].path@) == key@);
            return true;
        }
        i += 1;
    }
    false
}

/// Normalises, deduplicates (by key, first wins) and orders mount paths.
pub fn normalize_mount_paths(paths: &[String]) -> (r: Vec<String>)
    ensures
        strings_view(r@) == normalized_mounts(strings_view(paths@)),
{
    let ghost pv = strings_view(paths@);
    let mut rows: Vec<MountRow> = Vec::new();
    let mut i: usize = 0;
    assert(pv.take(0) =~= seq![]);
    assert(rows_view(rows@) =~= seq![]);
    while i < paths.len()
        invariant
            i <= paths@.len(),
            pv == strings_view(paths@),
            rows_view(rows@) == unique_mounts(pv.take(i as int)),
        decreases paths@.len() - i,
    {
        proof {
            assert(pv.take(i + 1).drop_last() =~= pv.take(i as int));
            assert(pv.take(i + 1).last() == paths@[i as int]@);
        }
        let p = normalize_mount_path(paths[i].as_str());
        let key = to_lowercase(p.as_str());
        let ghost kept = rows_view(rows@);
        if !key_taken(&rows, key.as_str()) {
            proof {
                assert forall|j: int| 0 <= j < kept.len() implies #[trigger] mount_key(kept[j]) != mount_key(p@) by {
                    assert(kept[j] == rows@[j].path@);
                }
            }
            rows.push(MountRow { path: p });
            assert(rows_view(rows@) =~= kept.push(p@));
        } else {
            proof {
                let j = choose|j: int| 0 <= j < rows@.len() && #[trigger] mount_key(rows@[j].path@) == key@;
                assert(kept[j] == rows@[j].path@);
                assert(mount_key(kept[j]) == mount_key(p@));
            }
        }
        i += 1;
    }
    assert(pv.take(i as int) =~= pv);
    let ghost unsorted = rows@;
    let sorted = sort_ranked(rows);
    proof {
        let f = |r: MountRow| r.path@;
        let lt = |a: Seq<char>, b: Seq<char>| key_lt(a, b);
        assert forall|a: MountRow, b: MountRow| #[trigger] a.spec_precedes(&b) == lt(f(a), f(b)) by {}
        crate::sorting::lemma_sort_view(unsorted, f, lt);
        assert(unsorted.map_values(f) =~= rows_view(unsorted));
    }
    let ghost sv = sorted@;
    let mut out: Vec<String> = Vec::new();
    let mut rest = sorted;
    let n = rest.len();
    let mut k: usize = 0;
    while rest.len() > 0
        invariant
            k + rest@.len() == n,
            n == sv.len(),
            rest@ == sv.skip(k as int),
            out@.len() == k,
            forall|j: int| 0 <= j < k ==> (#[trigger] out@[j])@ == sv[j].path@,
        decreases rest@.len(),
    {
        let row = rest.remove(0);
        assert(row == sv[k as int]);
        out.push(row.path);
        k += 1;
        assert(rest@ =~= sv.skip(k as int));
    }
    assert(strings_view(out@) =~= rows_view(sv));
    out
}

// ---------------------------------------------------------------------------
// The canonical mount path
// ---------------------------------------------------------------------------

/// Segments that name something: neither empty nor `.`.
pub open spec fn named_segments(parts: Seq<Seq<char>>) -> nat
    decreases parts.len(),
{
    if parts.len() == 0 {
        0
    } else {
        named_segments(parts.drop_last()) + if parts.last().len() > 0 && parts.last() != seq!['.'] {
            1nat
        } else {
            0nat
        }
    }
}

/// Components of a normalised (backslash-separated) mount path: a drive
/// prefix, a root backslash, then each named segment.
pub open spec fn component_count(p: Seq<char>) -> nat {
    let drive = p.len() >= 2 && is_ascii_letter(p[0]) && p[1] == ':';
    let rest = if drive {
        p.skip(2)
    } else {
        p
    };
    (if drive {
        1nat
    } else {
        0nat
    }) + (if rest.len() > 0 && rest[0] == '\\' {
        1nat
    } else {
        0nat
    }) + named_segments(split_char(rest, '\\'))
}

fn count_components(path: &str) -> (r: u128)
    ensures
        r == component_count(path@),
{
    let cs = chars_of(path);
    let drive = cs.len() >= 2 && is_letter(cs[0]) && cs[1] == ':';
    let mut rest: Vec<char> = Vec::new();
    let mut i: usize = if drive {
        2
    } else {
        0
    };
    let start = i;
    while i < cs.len()
        invariant
            start <= i <= cs@.len(),
            rest@ == cs@.subrange(start as int, i as int),
        decreases cs@.len() - i,
    {
        rest.push(cs[i]);
        i += 1;
        assert(rest@ =~= cs@.subrange(start as int, i as int));
    }
    assert(rest@ =~= cs@.skip(start as int));
    assert(cs@.skip(0) =~= cs@);
    let parts = split_on(rest.as_slice(), '\\');
    let ghost sp = split_char(rest@, '\\');
    let mut n: usize = 0;
    let mut k: usize = 0;
    assert(sp.take(0) =~= seq![]);
    while k < parts.len()
        invariant
            k <= parts@.len(),
            parts@.len() == sp.len(),
            forall|j: int| 0 <= j < parts@.len() ==> #[trigger] parts@[j]@ == sp[j],
            n == named_segments(sp.take(k as int)),
            n <= k,
        decreases parts@.len() - k,
    {
        proof {
            assert(sp.take(k + 1).drop_last() =~= sp.take(k as int));
            assert(sp.take(k + 1).last() == parts@[k as int]@);
        }
        let part = &parts[k];
        let named = part.len() > 0 && !(part.len() == 1 && part[0] == '.');
        proof {
            if part@.len() == 1 {
                if part@[0] == '.' {
                    assert(part@ =~= seq!['.']);
                } else {
                    assert(seq!['.'][0] == '.');
                    assert(part@ != seq!['.']);
                }
            } else {
                assert(seq!['.'].len() == 1);
            }
        }
        if named {
            n += 1;
        }
        k += 1;
    }
    assert(sp.take(k as int) =~= sp);
    let lead: u128 = if rest.len() > 0 && rest[0] == '\\' {
        1
    } else {
        0
    };
    let prefix: u128 = if drive {
        1
    } else {
        0
    };
    prefix + lead + n as u128
}

/// Whether mount path `a` (reachable or not per `acc_a`) is a better choice
/// than `b`: reachable first, then drive roots, then fewer components, then
/// by key.
pub open spec fn mount_before(a: Seq<char>, acc_a: bool, b: Seq<char>, acc_b: bool) -> bool {
    let (da, db) = (drive_letter_of(a) is Some, drive_letter_of(b) is Some);
    if acc_a != acc_b {
        acc_a
    } else if da != db {
        da
    } else if component_count(a) != component_count(b) {
        component_count(a) < component_count(b)
    } else {
        key_lt(a, b)
    }
}

/// Index of the earliest best path among the first `n`.
pub open spec fn best_mount(paths: Seq<Seq<char>>, acc: Seq<bool>, n: int) -> int
    decreases n,
{
    if n <= 1 {
        0
    } else {
        let b = best_mount(paths, acc, n - 1);
        if mount_before(paths[n - 1], acc[n - 1], paths[b], acc[b]) {
            n - 1
        } else {
            b
        }
    }
}

pub proof fn lemma_best_mount_range(paths: Seq<Seq<char>>, acc: Seq<bool>, n: int)
    requires
        n >= 1,
    ensures
        0 <= best_mount(paths, acc, n) < n,
    decreases n,
{
    if n > 1 {
        lemma_best_mount_range(paths, acc, n - 1);
    }
}

/// The index, among normalised mount paths with their reachability, of the
/// canonical one (see `mount_before`); `None` for no paths.
pub fn canonical_mount_index(normalized: &[String], accessible: &[bool]) -> (r: Option<usize>)
    requires
        accessible@.len() == normalized@.len(),
    ensures
        normalized@.len() == 0 ==> r is None,
        normalized@.len() > 0 ==> r == Some(
            best_mount(strings_view(normalized@), accessible@, normalized@.len() as int) as usize,
        ),
{
    if normalized.len() == 0 {
        return None;
    }
    let ghost ps = strings_view(normalized@);
    let mut best: usize = 0;
    let mut i: usize = 1;
    while i < normalized.len()
        invariant
            1 <= i <= normalized@.len(),
            accessible@.len() == normalized@.len(),
            ps == strings_view(normalized@),
            best as int == best_mount(ps, accessible@, i as int),
            best < i,
        decreases normalized@.len() - i,
    {
        let a = normalized[i].as_str();
        let b = normalized[best].as_str();
        let (da, db) = (drive_letter_from_mount_path(a).is_some(), drive_letter_from_mount_path(b).is_some());
        let before = if accessible[i] != accessible[best] {
            accessible[i]
        } else if da != db {
            da
        } else {
            let (ca, cb) = (count_components(a), count_components(b));
            if ca != cb {
                ca < cb
            } else {
                let ka = to_lowercase(a);
                let kb = to_lowercase(b);
                str_lex_lt(ka.as_str(), kb.as_str())
            }
        };
        assert(ps[i as int] == a@ && ps[best as int] == b@);
        if before {
            best = i;
        }
        i += 1;
    }
    Some(best)
}

impl VolumeInfo {
    /// The volume's mount paths, normalised, one per key, ordered by key.
    pub fn normalized_mount_paths(&self) -> (r: Vec<String>)
        ensures
            strings_view(r@) == normalized_mounts(strings_view(self.mount_paths@)),
    {
        normalize_mount_paths(self.mount_paths.as_slice())
    }

    /// The canonical mount path, given whether each normalised mount path is
    /// reachable.
    pub fn canonical_mount_path(&self, accessible: &[bool]) -> (r: Option<String>)
        requires
            accessible@.len() == normalized_mounts(strings_view(self.mount_paths@)).len(),
        ensures
            ({
                let ps = normalized_mounts(strings_view(self.mount_paths@));
                match r {
                    None => ps.len() == 0,
                    Some(p) => ps.len() > 0 && p@ == ps[best_mount(ps, accessible@, ps.len() as int)],
                }
            }),
    {
        let paths = self.normalized_mount_paths();
        match canonical_mount_index(paths.as_slice(), accessible) {
            None => None,
            Some(i) => {
                proof {
                    lemma_best_mount_range(strings_view(paths@), accessible@, paths@.len() as int);
                }
                Some(paths[i].clone())
            },
        }
    }

    /// Normalises the mount paths, then takes the drive letter from the
    /// canonical path (else from the first drive-root path) and reachability
    /// from the canonical path. `accessible` tells, for each normalised
    /// path, whether it exists.
    pub fn recompute_mount_metadata(&mut self, accessible: &[bool])
        requires
            accessible@.len() == normalized_mounts(strings_view(old(self).mount_paths@)).len(),
        ensures
            strings_view(final(self).mount_paths@) == normalized_mounts(
                strings_view(old(self).mount_paths@),
            ),
            ({
                let ps = normalized_mounts(strings_view(old(self).mount_paths@));
                let canonical = if ps.len() == 0 {
                    None
                } else {
                    Some(best_mount(ps, accessible@, ps.len() as int))
                };
                &&& final(self).accessible == match canonical {
                    Some(c) => accessible@[c],
                    None => false,
                }
                &&& match final(self).drive_letter {
                    Some(d) => match canonical {
                        Some(c) if drive_letter_of(ps[c]) is Some => drive_letter_of(ps[c]) == Some(d@),
                        _ => first_drive_letter(ps) == Some(d@),
                    },
                    None => (match canonical {
                        Some(c) => drive_letter_of(ps[c]) is None,
                        None => true,
                    }) && first_drive_letter(ps) is None,
                }
            }),
            final(self).volume_id == old(self).volume_id,
            final(self).label == old(self).label,
            final(self).fs_type == old(self).fs_type,
            final(self).drive_type == old(self).drive_type,
            final(self).volume_guid_path == old(self).volume_guid_path,
            final(self).discovery_sources == old(self).discovery_sources,
    {
        let paths = self.normalized_mount_paths();
        let ghost ps = strings_view(paths@);
        let canonical = canonical_mount_index(paths.as_slice(), accessible);
        proof {
            if paths@.len() > 0 {
                lemma_best_mount_range(ps, accessible@, paths@.len() as int);
            }
        }
        let from_canonical = match canonical {
            Some(i) => drive_letter_from_mount_path(paths[i].as_str()),
            None => None,
        };
        let letter = match from_canonical {
            Some(d) => Some(d),
            None => first_drive_letter_exec(&paths),
        };
        self.accessible = match canonical {
            Some(i) => accessible[i],
            None => false,
        };
        self.drive_letter = letter;
        self.mount_paths = paths;
    }
}

/// The drive letter of the first drive-root path.
pub open spec fn first_drive_letter(ps: Seq<Seq<char>>) -> Option<Seq<char>>
    decreases ps.len(),
{
    if ps.len() == 0 {
        None
    } else {
        match drive_letter_of(ps[0]) {
            Some(d) => Some(d),
            None => first_drive_letter(ps.drop_first()),
        }
    }
}

fn first_drive_letter_exec(paths: &Vec<String>) -> (r: Option<String>)
    ensures
        match r {
            Some(d) => first_drive_letter(strings_view(paths@)) == Some(d@),
            None => first_drive_letter(strings_view(paths@)) is None,
        },
{
    let ghost ps = strings_view(paths@);
    let mut i: usize = 0;
    assert(ps.skip(0) =~= ps);
    while i < paths.len()
        invariant
            i <= paths@.len(),
            ps == strings_view(paths@),
            first_drive_letter(ps) == first_drive_letter(ps.skip(i as int)),
        decreases paths@.len() - i,
    {
        assert(ps.skip(i as int)[0] == paths@[i as int]@);
        match drive_letter_from_mount_path(paths[i].as_str()) {
            Some(d) => {
                return Some(d);
            },
            None => {},
        }
        assert(ps.skip(i as int).drop_first() =~= ps.skip(i + 1));
        i += 1;
    }
    None
}

/// No `/` in the path.
pub open spec fn backslash_only(p: Seq<char>) -> bool {
    forall|k: int| 0 <= k < p.len() ==> #[trigger] p[k] != '/'
}

/// Each path's key is greater than the one before: ordered, and no two
/// equal ignoring case.
pub open spec fn strictly_key_ordered(s: Seq<Seq<char>>) -> bool {
    forall|i: int, j: int| 0 <= i < j < s.len() ==> key_lt(#[trigger] s[i], #[trigger] s[j])
}

proof fn lemma_trim_backslashes_prefix(s: Seq<char>)
    ensures
        backslash_only(s) ==> backslash_only(trim_backslashes(s)),
    decreases s.len(),
{
    if s.len() > 0 && s.last() == '\\' {
        lemma_trim_backslashes_prefix(s.drop_last());
        if backslash_only(s) {
            assert forall|k: int| 0 <= k < s.drop_last().len() implies #[trigger] s.drop_last()[k] != '/' by {
                assert(s.drop_last()[k] == s[k]);
            }
        }
    }
}

proof fn lemma_normalized_mount_backslashed(path: Seq<char>)
    ensures
        backslash_only(normalized_mount(path)),
{
    let v = backslashed(path);
    assert(backslash_only(v));
    if v.len() >= 2 && is_ascii_letter(v[0]) && v[1] == ':' {
        let rest = v.skip(2);
        assert forall|k: int| 0 <= k < rest.len() implies #[trigger] rest[k] != '/' by {
            assert(rest[k] == v[k + 2]);
        }
        lemma_trim_backslashes_prefix(rest);
        let suffix = trim_backslashes(rest);
        let c = upper_char(v[0]);
        assert(c != '/');
        if suffix.len() == 0 {
            assert(normalized_mount(path) == seq![c, ':', '\\']);
        } else {
            let r = seq![c, ':'] + suffix;
            assert forall|k: int| 0 <= k < r.len() implies #[trigger] r[k] != '/' by {
                if k >= 2 {
                    assert(r[k] == suffix[k - 2]);
                }
            }
        }
    } else {
        lemma_trim_backslashes_prefix(v);
    }
}

proof fn lemma_key_lt_order(a: Seq<char>, b: Seq<char>, c: Seq<char>)
    ensures
        !key_lt(a, a),
        key_lt(a, b) && key_lt(b, c) ==> key_lt(a, c),
        mount_key(a) != mount_key(b) ==> key_lt(a, b) || key_lt(b, a),
{
    lemma_lex_lt_irreflexive(mount_key(a));
    if key_lt(a, b) && key_lt(b, c) {
        lemma_lex_lt_transitive(mount_key(a), mount_key(b), mount_key(c));
    }
    if mount_key(a) != mount_key(b) {
        lemma_lex_lt_total(mount_key(a), mount_key(b));
    }
}

proof fn lemma_insert_mount(s: Seq<Seq<char>>, x: Seq<char>, lt: spec_fn(Seq<char>, Seq<char>) -> bool)
    requires
        forall|a: Seq<char>, b: Seq<char>| #[trigger] lt(a, b) == key_lt(a, b),
        strictly_key_ordered(s),
        forall|i: int| 0 <= i < s.len() ==> mount_key(#[trigger] s[i]) != mount_key(x),
    ensures
        strictly_key_ordered(insert_by(s, x, lt)),
        insert_by(s, x, lt).len() == s.len() + 1,
        forall|y: Seq<char>| #[trigger] insert_by(s, x, lt).contains(y) <==> (s.contains(y) || y == x),
    decreases s.len(),
{
    let r = insert_by(s, x, lt);
    if s.len() == 0 {
        assert(r == seq![x]);
        assert forall|y: Seq<char>| #[trigger] r.contains(y) <==> (s.contains(y) || y == x) by {
            if y == x {
                assert(r[0] == x);
            }
        }
    } else if lt(x, s[0]) {
        assert(r == seq![x] + s);
        assert forall|i: int, j: int| 0 <= i < j < r.len() implies key_lt(#[trigger] r[i], #[trigger] r[j]) by {
            if i == 0 {
                if j > 1 {
                    lemma_key_lt_order(x, s[0], s[j - 1]);
                }
                assert(r[j] == s[j - 1]);
            } else {
                assert(r[i] == s[i - 1]);
                assert(r[j] == s[j - 1]);
            }
        }
        assert forall|y: Seq<char>| #[trigger] r.contains(y) <==> (s.contains(y) || y == x) by {
            if s.contains(y) {
                let w = choose|w: int| 0 <= w < s.len() && s[w] == y;
                assert(r[w + 1] == y);
            }
            if y == x {
                assert(r[0] == x);
            }
            if r.contains(y) {
                let w = choose|w: int| 0 <= w < r.len() && r[w] == y;
                if w > 0 {
                    assert(s[w - 1] == y);
                }
            }
        }
    } else {
        let t = s.drop_first();
        lemma_key_lt_order(s[0], x, x);
        assert(mount_key(s[0]) != mount_key(x));
        lemma_key_lt_order(x, s[0], s[0]);
        assert(key_lt(s[0], x));
        assert forall|i: int, j: int| 0 <= i < j < t.len() implies key_lt(#[trigger] t[i], #[trigger] t[j]) by {
            assert(t[i] == s[i + 1] && t[j] == s[j + 1]);
        }
        assert forall|i: int| 0 <= i < t.len() implies mount_key(#[trigger] t[i]) != mount_key(x) by {
            assert(t[i] == s[i + 1]);
        }
        lemma_insert_mount(t, x, lt);
        let rt = insert_by(t, x, lt);
        assert(r == seq![s[0]] + rt);
        assert forall|i: int, j: int| 0 <= i < j < r.len() implies key_lt(#[trigger] r[i], #[trigger] r[j]) by {
            assert(r[j] == rt[j - 1]);
            if i == 0 {
                assert(rt.contains(rt[j - 1]));
                if t.contains(rt[j - 1]) {
                    let w = choose|w: int| 0 <= w < t.len() && t[w] == rt[j - 1];
                    assert(t[w] == s[w + 1]);
                }
            } else {
                assert(r[i] == rt[i - 1]);
            }
        }
        assert forall|y: Seq<char>| #[trigger] r.contains(y) <==> (s.contains(y) || y == x) by {
            if s.contains(y) {
                let w = choose|w: int| 0 <= w < s.len() && s[w] == y;
                if w == 0 {
                    assert(r[0] == y);
                } else {
                    assert(t[w - 1] == y);
                    assert(rt.contains(y));
                    let v = choose|v: int| 0 <= v < rt.len() && rt[v] == y;
                    assert(r[v + 1] == y);
                }
            }
            if y == x {
                assert(rt.contains(x));
                let v = choose|v: int| 0 <= v < rt.len() && rt[v] == x;
                assert(r[v + 1] == x);
            }
            if r.contains(y) {
                let w = choose|w: int| 0 <= w < r.len() && r[w] == y;
                if w == 0 {
                    assert(s[0] == y);
                } else {
                    assert(rt[w - 1] == y);
                    assert(rt.contains(y));
                    if t.contains(y) {
                        let v = choose|v: int| 0 <= v < t.len() && t[v] == y;
                        assert(s[v + 1] == y);
                    }
                }
            }
        }
    }
}

proof fn lemma_sort_mounts(s: Seq<Seq<char>>, lt: spec_fn(Seq<char>, Seq<char>) -> bool)
    requires
        forall|a: Seq<char>, b: Seq<char>| #[trigger] lt(a, b) == key_lt(a, b),
        forall|i: int, j: int| 0 <= i < j < s.len() ==> mount_key(#[trigger] s[i]) != mount_key(#[trigger] s[j]),
    ensures
        strictly_key_ordered(sort_by(s, lt)),
        sort_by(s, lt).len() == s.len(),
        forall|y: Seq<char>| #[trigger] sort_by(s, lt).contains(y) <==> s.contains(y),
    decreases s.len(),
{
    if s.len() > 0 {
        let d = s.drop_last();
        assert forall|i: int, j: int| 0 <= i < j < d.len() implies mount_key(#[trigger] d[i]) != mount_key(#[trigger] d[j]) by {
            assert(d[i] == s[i] && d[j] == s[j]);
        }
        lemma_sort_mounts(d, lt);
        let sd = sort_by(d, lt);
        assert forall|i: int| 0 <= i < sd.len() implies mount_key(#[trigger] sd[i]) != mount_key(s.last()) by {
            assert(sd.contains(sd[i]));
            let w = choose|w: int| 0 <= w < d.len() && d[w] == sd[i];
            assert(s[w] == d[w]);
        }
        lemma_insert_mount(sd, s.last(), lt);
        assert forall|y: Seq<char>| #[trigger] sort_by(s, lt).contains(y) <==> s.contains(y) by {
            if s.contains(y) {
                let w = choose|w: int| 0 <= w < s.len() && s[w] == y;
                if w < s.len() - 1 {
                    assert(d[w] == y);
                }
            }
            if d.contains(y) {
                let w = choose|w: int| 0 <= w < d.len() && d[w] == y;
                assert(s[w] == y);
            }
        }
    }
}

proof fn lemma_unique_mounts(paths: Seq<Seq<char>>)
    ensures
        forall|i: int, j: int|
            0 <= i < j < unique_mounts(paths).len() ==> mount_key(#[trigger] unique_mounts(paths)[i])
                != mount_key(#[trigger] unique_mounts(paths)[j]),
        forall|i: int| 0 <= i < unique_mounts(paths).len() ==> backslash_only(#[trigger] unique_mounts(paths)[i]),
    decreases paths.len(),
{
    if paths.len() > 0 {
        lemma_unique_mounts(paths.drop_last());
        lemma_normalized_mount_backslashed(paths.last());
        let kept = unique_mounts(paths.drop_last());
        let p = normalized_mount(paths.last());
        let u = unique_mounts(paths);
        if !(exists|i: int| 0 <= i < kept.len() && #[trigger] mount_key(kept[i]) == mount_key(p)) {
            assert(u == kept.push(p));
            assert forall|i: int, j: int| 0 <= i < j < u.len() implies mount_key(#[trigger] u[i])
                != mount_key(#[trigger] u[j]) by {
                assert(u[i] == kept[i]);
                if j < kept.len() {
                    assert(u[j] == kept[j]);
                } else {
                    assert(u[j] == p);
                }
            }
            assert forall|i: int| 0 <= i < u.len() implies backslash_only(#[trigger] u[i]) by {
                if i < kept.len() {
                    assert(u[i] == kept[i]);
                }
            }
        }
    }
}

/// Normalised mount paths are ordered by key with no two equal ignoring
/// case, and use backslashes only.
pub proof fn law_normalized_mounts_are_ordered_and_backslashed(paths: Seq<Seq<char>>)
    ensures
        strictly_key_ordered(normalized_mounts(paths)),
        forall|i: int| 0 <= i < normalized_mounts(paths).len() ==> backslash_only(#[trigger] normalized_mounts(paths)[i]),
        forall|i: int, j: int|
            0 <= i < j < normalized_mounts(paths).len() ==> mount_key(#[trigger] normalized_mounts(paths)[i])
                != mount_key(#[trigger] normalized_mounts(paths)[j]),
{
    let lt = |a: Seq<char>, b: Seq<char>| key_lt(a, b);
    let u = unique_mounts(paths);
    lemma_unique_mounts(paths);
    lemma_sort_mounts(u, lt);
    let r = normalized_mounts(paths);
    assert(r == sort_by(u, lt));
    assert forall|i: int| 0 <= i < r.len() implies backslash_only(#[trigger] r[i]) by {
        assert(r.contains(r[i]));
        let w = choose|w: int| 0 <= w < u.len() && u[w] == r[i];
    }
    assert forall|i: int, j: int| 0 <= i < j < r.len() implies mount_key(#[trigger] r[i]) != mount_key(#[trigger] r[j]) by {
        assert(key_lt(r[i], r[j]));
        lemma_key_lt_order(r[i], r[j], r[j]);
        if mount_key(r[i]) == mount_key(r[j]) {
            lemma_lex_lt_irreflexive(mount_key(r[i]));
        }
    }
}

proof fn lemma_trim_backslashes_facts(s: Seq<char>)
    ensures
        trim_backslashes(s).len() <= s.len(),
        forall|k: int| 0 <= k < trim_backslashes(s).len() ==> #[trigger] trim_backslashes(s)[k] == s[k],
        trim_backslashes(s).len() == 0 || trim_backslashes(s).last() != '\\',
    decreases s.len(),
{
    if s.len() > 0 && s.last() == '\\' {
        lemma_trim_backslashes_facts(s.drop_last());
        assert forall|k: int| 0 <= k < trim_backslashes(s).len() implies #[trigger] trim_backslashes(s)[k] == s[k] by {
            assert(trim_backslashes(s)[k] == s.drop_last()[k]);
        }
    }
}

proof fn lemma_upper_letter(c: char)
    requires
        is_ascii_letter(c),
    ensures
        is_ascii_letter(upper_char(c)),
        upper_char(upper_char(c)) == upper_char(c),
{
    if is_ascii_lower(c) {
        let u = c as u32;
        assert(97 <= u <= 122);
        assert(65 <= u - 32 <= 90);
        assert(upper_char(c) == ((u - 32) as char));
        assert(is_ascii_upper(upper_char(c)));
    }
}

/// Normalising a normalised mount path changes nothing.
proof fn lemma_normalized_mount_idempotent(path: Seq<char>)
    ensures
        normalized_mount(normalized_mount(path)) == normalized_mount(path),
{
    let v = backslashed(path);
    let n = normalized_mount(path);
    lemma_normalized_mount_backslashed(path);
    assert(backslashed(n) =~= n) by {
        assert forall|k: int| 0 <= k < n.len() implies backslashed(n)[k] == n[k] by {
            assert(n[k] != '/');
        }
    }
    if v.len() >= 2 && is_ascii_letter(v[0]) && v[1] == ':' {
        lemma_upper_letter(v[0]);
        let suffix = trim_backslashes(v.skip(2));
        lemma_trim_backslashes_facts(v.skip(2));
        if suffix.len() == 0 {
            let tail = n.skip(2);
            assert(tail =~= seq!['\\']);
            assert(tail.drop_last() =~= seq![]);
            assert(trim_backslashes(tail) == trim_backslashes(tail.drop_last()));
            assert(trim_backslashes(n.skip(2)).len() == 0);
        } else {
            assert(n.skip(2) =~= suffix);
            assert(trim_backslashes(suffix) == suffix);
            assert(seq![upper_char(n[0]), ':'] + suffix =~= n);
        }
    } else {
        lemma_trim_backslashes_facts(v);
        assert(trim_backslashes(n) == n);
        if n.len() >= 2 {
            assert(n[0] == v[0]);
            assert(n[1] == v[1]);
        }
    }
}

/// Every path `unique_mounts` keeps is already normalised.
proof fn lemma_unique_mounts_normalized(paths: Seq<Seq<char>>)
    ensures
        forall|i: int| 0 <= i < unique_mounts(paths).len() ==> normalized_mount(#[trigger] unique_mounts(paths)[i])
            == unique_mounts(paths)[i],
    decreases paths.len(),
{
    if paths.len() > 0 {
        lemma_unique_mounts_normalized(paths.drop_last());
        lemma_normalized_mount_idempotent(paths.last());
        let kept = unique_mounts(paths.drop_last());
        let u = unique_mounts(paths);
        assert forall|i: int| 0 <= i < u.len() implies normalized_mount(#[trigger] u[i]) == u[i] by {
            if i < kept.len() {
                assert(u[i] == kept[i]);
            }
        }
    }
}

/// Paths already normalised, with no two keys equal, are kept as they are.
proof fn lemma_unique_mounts_of_normalized(q: Seq<Seq<char>>)
    requires
        forall|i: int| 0 <= i < q.len() ==> normalized_mount(#[trigger] q[i]) == q[i],
        forall|i: int, j: int| 0 <= i < j < q.len() ==> mount_key(#[trigger] q[i]) != mount_key(#[trigger] q[j]),
    ensures
        unique_mounts(q) == q,
    decreases q.len(),
{
    if q.len() > 0 {
        let d = q.drop_last();
        assert forall|i: int| 0 <= i < d.len() implies normalized_mount(#[trigger] d[i]) == d[i] by {
            assert(d[i] == q[i]);
        }
        assert forall|i: int, j: int| 0 <= i < j < d.len() implies mount_key(#[trigger] d[i]) != mount_key(
            #[trigger] d[j],
        ) by {
            assert(d[i] == q[i]);
            assert(d[j] == q[j]);
        }
        lemma_unique_mounts_of_normalized(d);
        assert(normalized_mount(q[q.len() - 1]) == q.last());
        if exists|i: int| 0 <= i < d.len() && #[trigger] mount_key(d[i]) == mount_key(q.last()) {
            let i = choose|i: int| 0 <= i < d.len() && #[trigger] mount_key(d[i]) == mount_key(q.last());
            assert(d[i] == q[i]);
            assert(mount_key(q[i]) != mount_key(q[q.len() - 1]));
        }
        assert(d.push(q.last()) =~= q);
    }
}

proof fn lemma_insert_after_all(s: Seq<Seq<char>>, x: Seq<char>, lt: spec_fn(Seq<char>, Seq<char>) -> bool)
    requires
        forall|i: int| 0 <= i < s.len() ==> !lt(x, #[trigger] s[i]),
    ensures
        insert_by(s, x, lt) == s.push(x),
    decreases s.len(),
{
    if s.len() > 0 {
        assert(!lt(x, s[0]));
        let t = s.drop_first();
        assert forall|i: int| 0 <= i < t.len() implies !lt(x, #[trigger] t[i]) by {
            assert(t[i] == s[i + 1]);
        }
        lemma_insert_after_all(t, x, lt);
        assert(seq![s[0]] + t.push(x) =~= s.push(x));
    }
}

proof fn lemma_sort_of_ordered(s: Seq<Seq<char>>, lt: spec_fn(Seq<char>, Seq<char>) -> bool)
    requires
        forall|a: Seq<char>, b: Seq<char>| #[trigger] lt(a, b) == key_lt(a, b),
        strictly_key_ordered(s),
    ensures
        sort_by(s, lt) == s,
    decreases s.len(),
{
    if s.len() > 0 {
        let d = s.drop_last();
        assert forall|i: int, j: int| 0 <= i < j < d.len() implies key_lt(#[trigger] d[i], #[trigger] d[j]) by {
            assert(d[i] == s[i]);
            assert(d[j] == s[j]);
        }
        lemma_sort_of_ordered(d, lt);
        let x = s.last();
        assert forall|i: int| 0 <= i < d.len() implies !lt(x, #[trigger] d[i]) by {
            assert(d[i] == s[i]);
            assert(key_lt(s[i], s[s.len() - 1]));
            lemma_key_lt_order(d[i], x, d[i]);
        }
        lemma_insert_after_all(d, x, lt);
        assert(d.push(x) =~= s);
    }
}

/// Normalising an already normalised list of mount paths gives it back.
pub proof fn law_normalized_mounts_are_idempotent(paths: Seq<Seq<char>>)
    ensures
        normalized_mounts(normalized_mounts(paths)) == normalized_mounts(paths),
{
    let lt = |a: Seq<char>, b: Seq<char>| key_lt(a, b);
    let u = unique_mounts(paths);
    let r = normalized_mounts(paths);
    law_normalized_mounts_are_ordered_and_backslashed(paths);
    lemma_unique_mounts(paths);
    lemma_unique_mounts_normalized(paths);
    lemma_sort_mounts(u, lt);
    assert(r == sort_by(u, lt));
    assert forall|i: int| 0 <= i < r.len() implies normalized_mount(#[trigger] r[i]) == r[i] by {
        assert(r.contains(r[i]));
        let w = choose|w: int| 0 <= w < u.len() && u[w] == r[i];
    }
    lemma_unique_mounts_of_normalized(r);
    lemma_sort_of_ordered(r, lt);
}

/// A normalised mount path uses backslashes only; one that starts with a
/// drive letter has it in upper case; and it ends in a backslash only when
/// it is a drive root `X:\`.
pub proof fn law_normalized_mount_spelling(path: Seq<char>)
    ensures
        backslash_only(normalized_mount(path)),
        ({
            let n = normalized_mount(path);
            &&& n.len() >= 2 && is_ascii_letter(n[0]) && n[1] == ':' ==> is_ascii_upper(n[0])
            &&& n.len() > 0 && n.last() == '\\' ==> n.len() == 3 && is_ascii_upper(n[0]) && n[1] == ':'
        }),
{
    lemma_normalized_mount_backslashed(path);
    let v = backslashed(path);
    let n = normalized_mount(path);
    if v.len() >= 2 && is_ascii_letter(v[0]) && v[1] == ':' {
        lemma_upper_letter(v[0]);
        let c = upper_char(v[0]);
        assert(is_ascii_upper(c)) by {
            if is_ascii_lower(c) {
                assert(upper_char(c) != c);
            }
        }
        lemma_trim_backslashes_facts(v.skip(2));
        let suffix = trim_backslashes(v.skip(2));
        if suffix.len() > 0 {
            assert(n.last() == suffix.last());
        }
    } else {
        lemma_trim_backslashes_facts(v);
        if n.len() >= 2 {
            assert(n[0] == v[0]);
            assert(n[1] == v[1]);
        }
    }
}

} // verus!
