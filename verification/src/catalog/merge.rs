//! Volume records: the ids a discovered volume gets, and merging the records
//! that discovery reports. A volume found once by
//! its GUID and again through a drive letter is one volume. Records merge when
//! their ids or GUID paths agree (ignoring ASCII case), or when they share a
//! mount path on the same drive type with compatible file systems; the merged
//! list is ordered by each volume's canonical mount path.
//!
//! Which mount paths exist is the caller's knowledge: it hands over the
//! normalised mount paths it found reachable.

use vstd::prelude::*;
use crate::catalog::types::VolumeInfo;
use crate::catalog::volume::{
    best_mount, drive_letter_of, first_drive_letter, lemma_best_mount_range, mount_key,
    normalized_mounts, strings_view,
};
use crate::shell::customization::{hex_digits, hex_padded};
use crate::text::{
    ascii_lower, ascii_lowercase, ends_with, slice_to_vec, starts_with, starts_with_exec, string_of,
    chars_of, eq_ignore_case, eq_ignore_case_exec, lemma_lex_lt_irreflexive, lemma_lex_lt_total,
    lemma_lex_lt_transitive, lex_lt, str_eq, str_lex_lt, to_lowercase, unicode_lowercase,
};

verus! {

/// A volume record as plain values.
pub struct VolumeView {
    pub id: Seq<char>,
    pub guid: Option<Seq<char>>,
    pub sources: Seq<Seq<char>>,
    pub letter: Option<Seq<char>>,
    pub mounts: Seq<Seq<char>>,
    pub drive_type: u32,
    pub label: Seq<char>,
    pub fs_type: Seq<char>,
    pub accessible: bool,
}

pub open spec fn opt_view(o: Option<String>) -> Option<Seq<char>> {
    match o {
        Some(s) => Some(s@),
        None => None,
    }
}

impl View for VolumeInfo {
    type V = VolumeView;

    open spec fn view(&self) -> VolumeView {
        VolumeView {
            id: self.volume_id@,
            guid: opt_view(self.volume_guid_path),
            sources: strings_view(self.discovery_sources@),
            letter: opt_view(self.drive_letter),
            mounts: strings_view(self.mount_paths@),
            drive_type: self.drive_type,
            label: self.label@,
            fs_type: self.fs_type@,
            accessible: self.accessible,
        }
    }
}

pub open spec fn volumes_view(vs: Seq<VolumeInfo>) -> Seq<VolumeView> {
    vs.map_values(|v: VolumeInfo| v@)
}

/// For each path, whether it is among the reachable ones.
pub open spec fn reach_flags(ps: Seq<Seq<char>>, reachable: Seq<Seq<char>>) -> Seq<bool> {
    Seq::new(ps.len(), |i: int| reachable.contains(ps[i]))
}

/// Index of the canonical path among normalised paths, if there is one.
pub open spec fn canonical_of(ps: Seq<Seq<char>>, acc: Seq<bool>) -> Option<int> {
    if ps.len() == 0 {
        None
    } else {
        Some(best_mount(ps, acc, ps.len() as int))
    }
}

/// The drive letter of the canonical path, else of the first drive root.
pub open spec fn letter_of(ps: Seq<Seq<char>>, canonical: Option<int>) -> Option<Seq<char>> {
    match canonical {
        Some(c) => match drive_letter_of(ps[c]) {
            Some(d) => Some(d),
            None => first_drive_letter(ps),
        },
        None => first_drive_letter(ps),
    }
}

/// A record after its mount metadata is recomputed: mount paths normalised,
/// the drive letter and reachability taken from the canonical path.
pub open spec fn recompute_view(v: VolumeView, reachable: Seq<Seq<char>>) -> VolumeView {
    let ps = normalized_mounts(v.mounts);
    let acc = reach_flags(ps, reachable);
    let canonical = canonical_of(ps, acc);
    VolumeView {
        id: v.id,
        guid: v.guid,
        sources: v.sources,
        letter: letter_of(ps, canonical),
        mounts: ps,
        drive_type: v.drive_type,
        label: v.label,
        fs_type: v.fs_type,
        accessible: match canonical {
            Some(c) => acc[c],
            None => false,
        },
    }
}

pub open spec fn fs_compatible(a: Seq<char>, b: Seq<char>) -> bool {
    a.len() == 0 || b.len() == 0 || eq_ignore_case(a, b)
}

pub open spec fn mount_keys(v: VolumeView) -> Seq<Seq<char>> {
    v.mounts.map_values(|p: Seq<char>| mount_key(p))
}

/// Some mount path of `b` has the key of a mount path of `a`.
pub open spec fn shares_mount(a: VolumeView, b: VolumeView) -> bool {
    exists|j: int| 0 <= j < b.mounts.len() && mount_keys(a).contains(#[trigger] mount_key(b.mounts[j]))
}

pub open spec fn same_guid(a: Option<Seq<char>>, b: Option<Seq<char>>) -> bool {
    match (a, b) {
        (Some(x), Some(y)) => eq_ignore_case(x, y),
        _ => false,
    }
}

/// Two records describe one volume.
pub open spec fn same_volume(a: VolumeView, b: VolumeView) -> bool {
    ||| eq_ignore_case(a.id, b.id)
    ||| same_guid(a.guid, b.guid)
    ||| shares_mount(a, b) && a.drive_type == b.drive_type && fs_compatible(a.fs_type, b.fs_type)
}

/// `s` with `x` put at its place in increasing order, unless it is there.
pub open spec fn insert_unique(s: Seq<Seq<char>>, x: Seq<char>) -> Seq<Seq<char>>
    decreases s.len(),
{
    if s.len() == 0 {
        seq![x]
    } else if s[0] == x {
        s
    } else if lex_lt(x, s[0]) {
        seq![x] + s
    } else {
        seq![s[0]] + insert_unique(s.drop_first(), x)
    }
}

/// The distinct texts of `s`, in increasing order.
pub open spec fn sorted_unique(s: Seq<Seq<char>>) -> Seq<Seq<char>>
    decreases s.len(),
{
    if s.len() == 0 {
        seq![]
    } else {
        insert_unique(sorted_unique(s.drop_last()), s.last())
    }
}

/// `incoming` folded into `existing`, before the mount metadata is
/// recomputed: mount paths and discovery sources pooled, and each empty
/// field of `existing` filled from `incoming` (the GUID path and id
/// together).
pub open spec fn combined(e: VolumeView, inc: VolumeView) -> VolumeView {
    VolumeView {
        id: if e.guid is None {
            inc.id
        } else {
            e.id
        },
        guid: if e.guid is None {
            inc.guid
        } else {
            e.guid
        },
        sources: sorted_unique(e.sources + inc.sources),
        letter: e.letter,
        mounts: e.mounts + inc.mounts,
        drive_type: if e.drive_type == 0 {
            inc.drive_type
        } else {
            e.drive_type
        },
        label: if e.label.len() == 0 {
            inc.label
        } else {
            e.label
        },
        fs_type: if e.fs_type.len() == 0 {
            inc.fs_type
        } else {
            e.fs_type
        },
        accessible: e.accessible || inc.accessible,
    }
}

pub open spec fn merged_view(e: VolumeView, inc: VolumeView, reachable: Seq<Seq<char>>) -> VolumeView {
    recompute_view(combined(e, inc), reachable)
}

/// Index of the first record from `k` on that describes the same volume as `v`.
pub open spec fn first_same_from(m: Seq<VolumeView>, v: VolumeView, k: int) -> Option<int>
    decreases m.len() - k,
{
    if k < 0 || k >= m.len() {
        None
    } else if same_volume(m[k], v) {
        Some(k)
    } else {
        first_same_from(m, v, k + 1)
    }
}

/// The records folded in order: each, recomputed, merges into the first
/// earlier volume it describes, or is added.
pub open spec fn merge_fold(records: Seq<VolumeView>, reachable: Seq<Seq<char>>) -> Seq<VolumeView>
    decreases records.len(),
{
    if records.len() == 0 {
        seq![]
    } else {
        let m = merge_fold(records.drop_last(), reachable);
        let inc = recompute_view(records.last(), reachable);
        match first_same_from(m, inc, 0) {
            Some(p) => m.update(p, merged_view(m[p], inc, reachable)),
            None => m.push(inc),
        }
    }
}

/// A volume's place in the merged list: its canonical mount path's key, or
/// its lowercase id when it has no mount path.
pub open spec fn volume_key(v: VolumeView, reachable: Seq<Seq<char>>) -> Seq<char> {
    let ps = normalized_mounts(v.mounts);
    match canonical_of(ps, reach_flags(ps, reachable)) {
        Some(c) => mount_key(ps[c]),
        None => unicode_lowercase(v.id),
    }
}

/// `x` placed after every element whose key is not greater than its key.
pub open spec fn insert_by_key(s: Seq<VolumeView>, x: VolumeView, reachable: Seq<Seq<char>>) -> Seq<
    VolumeView,
>
    decreases s.len(),
{
    if s.len() == 0 {
        seq![x]
    } else if lex_lt(volume_key(x, reachable), volume_key(s[0], reachable)) {
        seq![x] + s
    } else {
        seq![s[0]] + insert_by_key(s.drop_first(), x, reachable)
    }
}

/// The stable sort of `s` by key.
pub open spec fn sort_by_key(s: Seq<VolumeView>, reachable: Seq<Seq<char>>) -> Seq<VolumeView>
    decreases s.len(),
{
    if s.len() == 0 {
        seq![]
    } else {
        insert_by_key(sort_by_key(s.drop_last(), reachable), s.last(), reachable)
    }
}

/// The merged volume list: the fold, each volume recomputed once more, in
/// key order.
pub open spec fn merged_volumes(records: Seq<VolumeView>, reachable: Seq<Seq<char>>) -> Seq<
    VolumeView,
> {
    sort_by_key(
        merge_fold(records, reachable).map_values(|v: VolumeView| recompute_view(v, reachable)),
        reachable,
    )
}

fn listed(path: &str, reachable: &[String]) -> (r: bool)
    ensures
        r == strings_view(reachable@).contains(path@),
{
    let ghost rs = strings_view(reachable@);
    let mut i: usize = 0;
    while i < reachable.len()
        invariant
            i <= reachable@.len(),
            rs == strings_view(reachable@),
            forall|j: int| 0 <= j < i ==> rs[j] != path@,
        decreases reachable@.len() - i,
    {
        if str_eq(reachable[i].as_str(), path) {
            assert(rs[i as int] == path@);
            return true;
        }
        i += 1;
    }
    false
}

fn reachability(paths: &Vec<String>, reachable: &[String]) -> (r: Vec<bool>)
    ensures
        r@ == reach_flags(strings_view(paths@), strings_view(reachable@)),
{
    let mut r: Vec<bool> = Vec::new();
    let mut i: usize = 0;
    while i < paths.len()
        invariant
            i <= paths@.len(),
            r@.len() == i,
            forall|j: int| 0 <= j < i ==> r@[j] == strings_view(reachable@).contains(#[trigger] paths@[j]@),
        decreases paths@.len() - i,
    {
        r.push(listed(paths[i].as_str(), reachable));
        i += 1;
    }
    assert(r@ =~= reach_flags(strings_view(paths@), strings_view(reachable@)));
    r
}

impl VolumeInfo {
    /// Recomputes the mount metadata (see `recompute_mount_metadata`), with a
    /// path reachable exactly when it is one of `reachable`.
    pub fn recompute_with_reachable(&mut self, reachable: &[String])
        ensures
            final(self)@ == recompute_view(old(self)@, strings_view(reachable@)),
    {
        let paths = self.normalized_mount_paths();
        let accessible = reachability(&paths, reachable);
        let ghost ps = strings_view(paths@);
        let ghost before = self@;
        self.recompute_mount_metadata(accessible.as_slice());
        proof {
            if ps.len() > 0 {
                lemma_best_mount_range(ps, accessible@, ps.len() as int);
            }
            assert(self@.letter == letter_of(ps, canonical_of(ps, accessible@)));
            assert(self@ =~= recompute_view(before, strings_view(reachable@)));
        }
    }
}

fn str_eq_ignore_case(a: &str, b: &str) -> (r: bool)
    ensures
        r == eq_ignore_case(a@, b@),
{
    let ac = chars_of(a);
    let bc = chars_of(b);
    eq_ignore_case_exec(ac.as_slice(), bc.as_slice())
}

fn guids_agree(a: &Option<String>, b: &Option<String>) -> (r: bool)
    ensures
        r == same_guid(opt_view(*a), opt_view(*b)),
{
    match (a, b) {
        (Some(x), Some(y)) => str_eq_ignore_case(x.as_str(), y.as_str()),
        _ => false,
    }
}

/// The lowercase keys of `paths`.
fn keys_of(paths: &Vec<String>) -> (r: Vec<String>)
    ensures
        strings_view(r@) == strings_view(paths@).map_values(|p: Seq<char>| mount_key(p)),
{
    let mut r: Vec<String> = Vec::new();
    let mut i: usize = 0;
    while i < paths.len()
        invariant
            i <= paths@.len(),
            r@.len() == i,
            forall|j: int| 0 <= j < i ==> (#[trigger] r@[j])@ == mount_key(paths@[j]@),
        decreases paths@.len() - i,
    {
        r.push(to_lowercase(paths[i].as_str()));
        i += 1;
    }
    assert(strings_view(r@) =~= strings_view(paths@).map_values(|p: Seq<char>| mount_key(p)));
    r
}

/// Whether two discovery records describe the same volume (see
/// `same_volume`).
pub fn records_represent_same_volume(left: &VolumeInfo, right: &VolumeInfo) -> (r: bool)
    ensures
        r == same_volume(left@, right@),
{
    if str_eq_ignore_case(left.volume_id.as_str(), right.volume_id.as_str()) {
        return true;
    }
    if guids_agree(&left.volume_guid_path, &right.volume_guid_path) {
        return true;
    }
    let compatible = left.fs_type.as_str().is_empty() || right.fs_type.as_str().is_empty()
        || str_eq_ignore_case(left.fs_type.as_str(), right.fs_type.as_str());
    if left.drive_type != right.drive_type || !compatible {
        return false;
    }
    let left_keys = keys_of(&left.mount_paths);
    let ghost lk = mount_keys(left@);
    assert(strings_view(left_keys@) == lk);
    let mut j: usize = 0;
    while j < right.mount_paths.len()
        invariant
            j <= right.mount_paths@.len(),
            strings_view(left_keys@) == lk,
            lk == mount_keys(left@),
            fs_compatible(left@.fs_type, right@.fs_type),
            left.drive_type == right.drive_type,
            !eq_ignore_case(left@.id, right@.id),
            !same_guid(left@.guid, right@.guid),
            forall|k: int|
                0 <= k < j ==> !lk.contains(#[trigger] mount_key(right@.mounts[k])),
        decreases right.mount_paths@.len() - j,
    {
        let key = to_lowercase(right.mount_paths[j].as_str());
        assert(right@.mounts[j as int] == right.mount_paths@[j as int]@);
        if listed(key.as_str(), left_keys.as_slice()) {
            assert(lk.contains(mount_key(right@.mounts[j as int])));
            return true;
        }
        j += 1;
    }
    false
}

proof fn lemma_insert_unique_split(s: Seq<Seq<char>>, x: Seq<char>, i: int)
    requires
        0 <= i <= s.len(),
        forall|j: int| 0 <= j < i ==> lex_lt(#[trigger] s[j], x),
    ensures
        insert_unique(s, x) == s.take(i) + insert_unique(s.skip(i), x),
    decreases i,
{
    if i == 0 {
        assert(s.skip(0) =~= s);
        assert(s.take(0) + insert_unique(s, x) =~= insert_unique(s, x));
    } else {
        lemma_lex_lt_irreflexive(x);
        if lex_lt(x, s[0]) {
            lemma_lex_lt_transitive(x, s[0], x);
        }
        let t = s.drop_first();
        assert forall|j: int| 0 <= j < i - 1 implies lex_lt(#[trigger] t[j], x) by {
            assert(t[j] == s[j + 1]);
        }
        lemma_insert_unique_split(t, x, i - 1);
        assert(t.skip(i - 1) =~= s.skip(i));
        assert(seq![s[0]] + (t.take(i - 1) + insert_unique(s.skip(i), x)) =~= s.take(i)
            + insert_unique(s.skip(i), x));
    }
}

fn insert_unique_exec(v: &mut Vec<String>, x: String)
    ensures
        strings_view(final(v)@) == insert_unique(strings_view(old(v)@), x@),
{
    let ghost s = strings_view(v@);
    let mut i: usize = 0;
    while i < v.len() && str_lex_lt(v[i].as_str(), x.as_str())
        invariant
            i <= v@.len(),
            s == strings_view(v@),
            forall|j: int| 0 <= j < i ==> lex_lt(#[trigger] s[j], x@),
        decreases v@.len() - i,
    {
        i += 1;
    }
    proof {
        lemma_insert_unique_split(s, x@, i as int);
        if i < s.len() {
            assert(s.skip(i as int)[0] == s[i as int]);
        }
    }
    if i < v.len() && str_eq(v[i].as_str(), x.as_str()) {
        assert(s.take(i as int) + s.skip(i as int) =~= s);
        return;
    }
    proof {
        if i < s.len() {
            lemma_lex_lt_total(x@, s[i as int]);
        }
    }
    v.insert(i, x);
    assert(strings_view(v@) =~= s.take(i as int) + insert_unique(s.skip(i as int), x@));
}

/// The distinct texts of `items`, in increasing order (a sort, then a dedup).
fn sorted_unique_exec(items: Vec<String>) -> (r: Vec<String>)
    ensures
        strings_view(r@) == sorted_unique(strings_view(items@)),
{
    let ghost all = strings_view(items@);
    let mut out: Vec<String> = Vec::new();
    let mut i: usize = 0;
    assert(all.take(0) =~= seq![]);
    while i < items.len()
        invariant
            i <= items@.len(),
            all == strings_view(items@),
            strings_view(out@) == sorted_unique(all.take(i as int)),
        decreases items@.len() - i,
    {
        let x = items[i].clone();
        assert(all.take(i + 1).drop_last() =~= all.take(i as int));
        assert(all.take(i + 1).last() == x@);
        insert_unique_exec(&mut out, x);
        i += 1;
    }
    assert(all.take(i as int) =~= all);
    out
}

/// `a` followed by `b`.
fn concat_strings(a: &Vec<String>, b: &Vec<String>) -> (r: Vec<String>)
    ensures
        strings_view(r@) == strings_view(a@) + strings_view(b@),
{
    let mut r: Vec<String> = Vec::new();
    let mut i: usize = 0;
    while i < a.len()
        invariant
            i <= a@.len(),
            r@.len() == i,
            forall|k: int| 0 <= k < i ==> (#[trigger] r@[k])@ == a@[k]@,
        decreases a@.len() - i,
    {
        r.push(a[i].clone());
        i += 1;
    }
    let mut j: usize = 0;
    while j < b.len()
        invariant
            j <= b@.len(),
            r@.len() == a@.len() + j,
            forall|k: int| 0 <= k < a@.len() ==> (#[trigger] r@[k])@ == a@[k]@,
            forall|k: int| 0 <= k < j ==> (#[trigger] r@[a@.len() + k])@ == b@[k]@,
        decreases b@.len() - j,
    {
        r.push(b[j].clone());
        j += 1;
    }
    let ghost t = strings_view(a@) + strings_view(b@);
    assert forall|k: int| 0 <= k < t.len() implies strings_view(r@)[k] == t[k] by {
        if k >= a@.len() {
            assert(r@[a@.len() + (k - a@.len())]@ == b@[k - a@.len()]@);
        }
    }
    assert(strings_view(r@) =~= t);
    r
}

/// Folds `incoming` into `existing`, a record of the same volume (see
/// `combined`), then recomputes the mount metadata.
pub fn merge_into(existing: &mut VolumeInfo, incoming: VolumeInfo, reachable: &[String])
    ensures
        final(existing)@ == merged_view(old(existing)@, incoming@, strings_view(reachable@)),
{
    let ghost e = existing@;
    let ghost inc = incoming@;
    let mounts = concat_strings(&existing.mount_paths, &incoming.mount_paths);
    let pooled = concat_strings(&existing.discovery_sources, &incoming.discovery_sources);
    let sources = sorted_unique_exec(pooled);
    existing.mount_paths = mounts;
    existing.discovery_sources = sources;
    let VolumeInfo {
        volume_id,
        volume_guid_path,
        discovery_sources: _,
        drive_letter: _,
        mount_paths: _,
        drive_type,
        label,
        fs_type,
        accessible,
    } = incoming;
    if existing.volume_guid_path.is_none() {
        existing.volume_guid_path = volume_guid_path;
        existing.volume_id = volume_id;
    }
    if existing.label.as_str().is_empty() {
        existing.label = label;
    }
    if existing.fs_type.as_str().is_empty() {
        existing.fs_type = fs_type;
    }
    if existing.drive_type == 0 {
        existing.drive_type = drive_type;
    }
    existing.accessible = existing.accessible || accessible;
    assert(existing@ =~= combined(e, inc));
    existing.recompute_with_reachable(reachable);
}

/// The first record of `merged` that describes the same volume as `v`.
fn first_same(merged: &Vec<VolumeInfo>, v: &VolumeInfo) -> (r: Option<usize>)
    ensures
        match r {
            Some(p) => p < merged@.len() && first_same_from(volumes_view(merged@), v@, 0) == Some(
                p as int,
            ),
            None => first_same_from(volumes_view(merged@), v@, 0) is None,
        },
{
    let ghost m = volumes_view(merged@);
    let mut i: usize = 0;
    while i < merged.len()
        invariant
            i <= merged@.len(),
            m == volumes_view(merged@),
            first_same_from(m, v@, 0) == first_same_from(m, v@, i as int),
        decreases merged@.len() - i,
    {
        assert(m[i as int] == merged@[i as int]@);
        if records_represent_same_volume(&merged[i], v) {
            return Some(i);
        }
        i += 1;
    }
    None
}

/// A volume's sort key (see `volume_key`).
fn volume_key_exec(v: &VolumeInfo, reachable: &[String]) -> (r: String)
    ensures
        r@ == volume_key(v@, strings_view(reachable@)),
{
    let paths = v.normalized_mount_paths();
    let accessible = reachability(&paths, reachable);
    match v.canonical_mount_path(accessible.as_slice()) {
        Some(p) => to_lowercase(p.as_str()),
        None => to_lowercase(v.volume_id.as_str()),
    }
}

proof fn lemma_insert_by_key_split(s: Seq<VolumeView>, x: VolumeView, reachable: Seq<Seq<char>>, i: int)
    requires
        0 <= i <= s.len(),
        forall|j: int|
            0 <= j < i ==> !lex_lt(volume_key(x, reachable), volume_key(#[trigger] s[j], reachable)),
    ensures
        insert_by_key(s, x, reachable) == s.take(i) + insert_by_key(s.skip(i), x, reachable),
    decreases i,
{
    if i == 0 {
        assert(s.skip(0) =~= s);
        assert(s.take(0) + insert_by_key(s, x, reachable) =~= insert_by_key(s, x, reachable));
    } else {
        let t = s.drop_first();
        assert forall|j: int|
            0 <= j < i - 1 implies !lex_lt(volume_key(x, reachable), volume_key(#[trigger] t[j], reachable)) by {
            assert(t[j] == s[j + 1]);
        }
        lemma_insert_by_key_split(t, x, reachable, i - 1);
        assert(t.skip(i - 1) =~= s.skip(i));
        assert(seq![s[0]] + (t.take(i - 1) + insert_by_key(s.skip(i), x, reachable)) =~= s.take(i)
            + insert_by_key(s.skip(i), x, reachable));
    }
}

/// Puts `x` into the key-ordered `out` after every volume whose key is not
/// greater; `keys` holds the keys of `out`.
fn insert_keyed(out: &mut Vec<VolumeInfo>, keys: &mut Vec<String>, x: VolumeInfo, key: String, reachable: &[String])
    requires
        old(keys)@.len() == old(out)@.len(),
        forall|i: int| 0 <= i < old(out)@.len() ==> (#[trigger] old(keys)@[i])@ == volume_key(old(out)@[i]@, strings_view(reachable@)),
        key@ == volume_key(x@, strings_view(reachable@)),
    ensures
        final(keys)@.len() == final(out)@.len(),
        forall|i: int| 0 <= i < final(out)@.len() ==> (#[trigger] final(keys)@[i])@ == volume_key(final(out)@[i]@, strings_view(reachable@)),
        volumes_view(final(out)@) == insert_by_key(volumes_view(old(out)@), x@, strings_view(reachable@)),
{
    let ghost reach = strings_view(reachable@);
    let ghost s = volumes_view(out@);
    let mut i: usize = 0;
    while i < out.len() && !str_lex_lt(key.as_str(), keys[i].as_str())
        invariant
            i <= out@.len(),
            keys@.len() == out@.len(),
            s == volumes_view(out@),
            forall|j: int| 0 <= j < out@.len() ==> (#[trigger] keys@[j])@ == volume_key(out@[j]@, reach),
            key@ == volume_key(x@, reach),
            forall|j: int| 0 <= j < i ==> !lex_lt(volume_key(x@, reach), volume_key(#[trigger] s[j], reach)),
        decreases out@.len() - i,
    {
        assert(s[i as int] == out@[i as int]@);
        i += 1;
    }
    proof {
        lemma_insert_by_key_split(s, x@, reach, i as int);
        if i < s.len() {
            assert(s.skip(i as int)[0] == s[i as int]);
            assert(s[i as int] == out@[i as int]@);
        }
    }
    let ghost xv = x@;
    out.insert(i, x);
    keys.insert(i, key);
    assert(volumes_view(out@) =~= s.take(i as int) + insert_by_key(s.skip(i as int), xv, reach));
}

/// Merges the records of one discovery pass: each record, recomputed, is
/// folded into the first earlier volume it describes (or added); every
/// volume is recomputed once more, and the list is ordered by key, stably.
pub fn merge_volume_records(records: Vec<VolumeInfo>, reachable: &[String]) -> (r: Vec<VolumeInfo>)
    ensures
        volumes_view(r@) == merged_volumes(volumes_view(records@), strings_view(reachable@)),
{
    let ghost reach = strings_view(reachable@);
    let ghost recs = volumes_view(records@);
    let n = records.len();
    let mut rest = records;
    let mut merged: Vec<VolumeInfo> = Vec::new();
    let mut k: usize = 0;
    assert(recs.take(0) =~= seq![]);
    assert(volumes_view(rest@) =~= recs.skip(0));
    while rest.len() > 0
        invariant
            k + rest@.len() == n,
            recs.len() == n,
            reach == strings_view(reachable@),
            volumes_view(rest@) == recs.skip(k as int),
            volumes_view(merged@) == merge_fold(recs.take(k as int), reach),
        decreases rest@.len(),
    {
        let ghost rest_before = rest@;
        let mut incoming = rest.remove(0);
        proof {
            assert(volumes_view(rest_before)[0] == incoming@);
            assert(recs.take(k + 1).drop_last() =~= recs.take(k as int));
            assert(recs.take(k + 1).last() == recs.skip(k as int)[0]);
            assert forall|i: int| 0 <= i < rest@.len() implies volumes_view(rest@)[i] == recs.skip(
                k + 1,
            )[i] by {
                assert(rest@[i] == rest_before[i + 1]);
                assert(volumes_view(rest_before)[i + 1] == recs.skip(k as int)[i + 1]);
            }
            assert(volumes_view(rest@) =~= recs.skip(k + 1));
        }
        incoming.recompute_with_reachable(reachable);
        let ghost m = volumes_view(merged@);
        match first_same(&merged, &incoming) {
            Some(p) => {
                let mut existing = merged.remove(p);
                let ghost inc = incoming@;
                assert(existing@ == m[p as int]);
                merge_into(&mut existing, incoming, reachable);
                merged.insert(p, existing);
                assert(volumes_view(merged@) =~= m.update(p as int, merged_view(m[p as int], inc, reach)));
            },
            None => {
                merged.push(incoming);
                assert(volumes_view(merged@) =~= m.push(merged@.last()@));
            },
        }
        k += 1;
    }
    assert(recs.take(k as int) =~= recs);
    let ghost folded = volumes_view(merged@);
    let ghost again = folded.map_values(|v: VolumeView| recompute_view(v, reach));
    let total = merged.len();
    let mut pending = merged;
    let mut out: Vec<VolumeInfo> = Vec::new();
    let mut keys: Vec<String> = Vec::new();
    let mut j: usize = 0;
    assert(again.take(0) =~= seq![]);
    assert(volumes_view(pending@) =~= folded.skip(0));
    while pending.len() > 0
        invariant
            j + pending@.len() == total,
            folded.len() == total,
            again == folded.map_values(|v: VolumeView| recompute_view(v, reach)),
            reach == strings_view(reachable@),
            volumes_view(pending@) == folded.skip(j as int),
            keys@.len() == out@.len(),
            forall|i: int| 0 <= i < out@.len() ==> (#[trigger] keys@[i])@ == volume_key(out@[i]@, reach),
            volumes_view(out@) == sort_by_key(again.take(j as int), reach),
        decreases pending@.len(),
    {
        let ghost pending_before = pending@;
        let mut v = pending.remove(0);
        proof {
            assert(volumes_view(pending_before)[0] == v@);
            assert forall|i: int| 0 <= i < pending@.len() implies volumes_view(pending@)[i]
                == folded.skip(j + 1)[i] by {
                assert(pending@[i] == pending_before[i + 1]);
                assert(volumes_view(pending_before)[i + 1] == folded.skip(j as int)[i + 1]);
            }
            assert(volumes_view(pending@) =~= folded.skip(j + 1));
        }
        v.recompute_with_reachable(reachable);
        proof {
            assert(v@ == again[j as int]);
            assert(again.take(j + 1).drop_last() =~= again.take(j as int));
        }
        let key = volume_key_exec(&v, reachable);
        insert_keyed(&mut out, &mut keys, v, key, reachable);
        j += 1;
    }
    assert(again.take(j as int) =~= again);
    out
}

pub open spec fn guid_prefix() -> Seq<char> {
    seq!['\\', '\\', '?', '\\', 'v', 'o', 'l', 'u', 'm', 'e', '{']
}

/// The id of a volume named by its GUID path `\\?\Volume{…}\`: what stands
/// between the braces, ASCII-lowercased; `None` for any other shape or an
/// empty GUID.
pub open spec fn stable_guid_of(path: Seq<char>) -> Option<Seq<char>> {
    let l = ascii_lower(path);
    if l.len() >= 14 && starts_with(l, guid_prefix()) && ends_with(l, seq!['}', '\\']) {
        Some(l.subrange(11, l.len() - 2))
    } else {
        None
    }
}

pub fn stable_guid_id(volume_guid_path: &str) -> (r: Option<String>)
    ensures
        match r {
            Some(id) => stable_guid_of(volume_guid_path@) == Some(id@),
            None => stable_guid_of(volume_guid_path@) is None,
        },
{
    let chars = chars_of(volume_guid_path);
    let lower = ascii_lowercase(chars.as_slice());
    let prefix: Vec<char> = vec!['\\', '\\', '?', '\\', 'v', 'o', 'l', 'u', 'm', 'e', '{'];
    assert(prefix@ =~= guid_prefix());
    let n = lower.len();
    if n < 14 || !starts_with_exec(lower.as_slice(), prefix.as_slice()) || lower[n - 2] != '}'
        || lower[n - 1] != '\\' {
        proof {
            if n >= 14 && lower@[n - 2] == '}' && lower@[n - 1] == '\\' {
                assert(lower@.subrange(n - 2, n as int) =~= seq!['}', '\\']);
            }
            if n >= 14 && ends_with(lower@, seq!['}', '\\']) {
                assert(lower@.subrange(n - 2, n as int)[0] == lower@[n - 2]);
                assert(lower@.subrange(n - 2, n as int)[1] == lower@[n - 1]);
            }
        }
        return None;
    }
    assert(lower@.subrange(n - 2, n as int) =~= seq!['}', '\\']);
    let id = slice_to_vec(lower.as_slice(), 11, n - 2);
    Some(string_of(id.as_slice()))
}

pub open spec fn path_id_char(c: char) -> char {
    if c == '\\' || c == '/' || c == ':' || c == '?' {
        '_'
    } else {
        c
    }
}

/// The id of a volume reached only through a drive root: its serial number
/// as `vol_` and eight hex digits, else its drive letter as `drive_d:`, else
/// its lowercase root with separators, colons and question marks turned into
/// underscores after `path_`.
pub open spec fn fallback_id(serial: u32, letter: Option<Seq<char>>, root: Seq<char>) -> Seq<char> {
    if serial != 0 {
        seq!['v', 'o', 'l', '_'] + hex_padded(serial as nat, 8)
    } else {
        match letter {
            Some(l) => seq!['d', 'r', 'i', 'v', 'e', '_'] + ascii_lower(l),
            None => seq!['p', 'a', 't', 'h', '_'] + mount_key(root).map_values(|c: char| path_id_char(c)),
        }
    }
}

pub fn fallback_volume_id(serial: u32, drive_letter: Option<&str>, root: &str) -> (r: String)
    ensures
        r@ == fallback_id(serial, match drive_letter {
            Some(l) => Some(l@),
            None => None,
        }, root@),
{
    if serial != 0 {
        let mut out: Vec<char> = vec!['v', 'o', 'l', '_'];
        let digits = hex_digits(serial as u128, 8);
        let mut i: usize = 0;
        while i < digits.len()
            invariant
                i <= digits@.len(),
                out@ == seq!['v', 'o', 'l', '_'] + digits@.take(i as int),
            decreases digits@.len() - i,
        {
            out.push(digits[i]);
            i += 1;
            assert(out@ =~= seq!['v', 'o', 'l', '_'] + digits@.take(i as int));
        }
        assert(digits@.take(i as int) =~= digits@);
        return string_of(out.as_slice());
    }
    match drive_letter {
        Some(letter) => {
            let lc = chars_of(letter);
            let lower = ascii_lowercase(lc.as_slice());
            let mut out: Vec<char> = vec!['d', 'r', 'i', 'v', 'e', '_'];
            let mut i: usize = 0;
            while i < lower.len()
                invariant
                    i <= lower@.len(),
                    out@ == seq!['d', 'r', 'i', 'v', 'e', '_'] + lower@.take(i as int),
                decreases lower@.len() - i,
            {
                out.push(lower[i]);
                i += 1;
                assert(out@ =~= seq!['d', 'r', 'i', 'v', 'e', '_'] + lower@.take(i as int));
            }
            assert(lower@.take(i as int) =~= lower@);
            string_of(out.as_slice())
        },
        None => {
            let key = to_lowercase(root);
            let kc = chars_of(key.as_str());
            let mut out: Vec<char> = vec!['p', 'a', 't', 'h', '_'];
            let mut i: usize = 0;
            while i < kc.len()
                invariant
                    i <= kc@.len(),
                    out@ == seq!['p', 'a', 't', 'h', '_'] + kc@.take(i as int).map_values(
                        |c: char| path_id_char(c),
                    ),
                decreases kc@.len() - i,
            {
                let c = kc[i];
                let mapped = if c == '\\' || c == '/' || c == ':' || c == '?' {
                    '_'
                } else {
                    c
                };
                out.push(mapped);
                i += 1;
                assert(out@ =~= seq!['p', 'a', 't', 'h', '_'] + kc@.take(i as int).map_values(
                    |c: char| path_id_char(c),
                ));
            }
            assert(kc@.take(i as int) =~= kc@);
            string_of(out.as_slice())
        },
    }
}

} // verus!
