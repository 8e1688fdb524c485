//! Browsing a directory typed as a path: its children are ranked (score,
//! then folders, then name, then path) and only the best few are kept while
//! the directory is read, so a huge directory is never held whole.

use vstd::prelude::*;
use crate::catalog::types::{FileEntry, QuickAccessEntry};
use vstd::utf8::encode_utf8;
use crate::catalog::search::{match_score, target_score, MAX_QUERY_BYTES};
use crate::text::{
    chars_of, lex_lt, lemma_lex_lt_irreflexive, lemma_lex_lt_total, lemma_lex_lt_transitive, str_eq,
    str_lex_lt, string_of, to_lowercase, trim, trim_exec, unicode_lowercase,
};
use crate::text::{concat, lemma_run_until, run_until, slice_to_vec};

verus! {

/// A child of the browsed directory with its match score.
#[derive(Debug)]
pub struct BrowseCandidate {
    pub score: i32,
    pub lower_name: String,
    pub entry: FileEntry,
}

/// `a` is listed before `b`: a higher score, then a folder before a file,
/// then the smaller lower-case name, then the smaller path.
pub open spec fn browse_before(a: BrowseCandidate, b: BrowseCandidate) -> bool {
    ||| a.score > b.score
    ||| a.score == b.score && a.entry.is_directory && !b.entry.is_directory
    ||| a.score == b.score && a.entry.is_directory == b.entry.is_directory && lex_lt(
        a.lower_name@,
        b.lower_name@,
    )
    ||| a.score == b.score && a.entry.is_directory == b.entry.is_directory && a.lower_name@
        == b.lower_name@ && lex_lt(a.entry.path@, b.entry.path@)
}

pub fn browse_precedes(left: &BrowseCandidate, right: &BrowseCandidate) -> (r: bool)
    ensures
        r == browse_before(*left, *right),
{
    if left.score != right.score {
        return left.score > right.score;
    }
    if left.entry.is_directory != right.entry.is_directory {
        return left.entry.is_directory;
    }
    if !str_eq(left.lower_name.as_str(), right.lower_name.as_str()) {
        return str_lex_lt(left.lower_name.as_str(), right.lower_name.as_str());
    }
    proof {
        lemma_lex_lt_irreflexive(left.lower_name@);
    }
    str_lex_lt(left.entry.path.as_str(), right.entry.path.as_str())
}

/// The browse order as a three-way comparison.
pub fn browse_cmp(left: &BrowseCandidate, right: &BrowseCandidate) -> (r: std::cmp::Ordering)
    ensures
        (r == std::cmp::Ordering::Less) == browse_before(*left, *right),
        (r == std::cmp::Ordering::Greater) == browse_before(*right, *left),
{
    proof {
        lemma_browse_asymmetric(*left, *right);
    }
    if browse_precedes(left, right) {
        std::cmp::Ordering::Less
    } else if browse_precedes(right, left) {
        std::cmp::Ordering::Greater
    } else {
        std::cmp::Ordering::Equal
    }
}

proof fn lemma_browse_asymmetric(a: BrowseCandidate, b: BrowseCandidate)
    ensures
        !(browse_before(a, b) && browse_before(b, a)),
{
    lemma_lex_lt_irreflexive(a.lower_name@);
    lemma_lex_lt_irreflexive(a.entry.path@);
    if lex_lt(a.lower_name@, b.lower_name@) && lex_lt(b.lower_name@, a.lower_name@) {
        lemma_lex_lt_transitive(a.lower_name@, b.lower_name@, a.lower_name@);
    }
    if lex_lt(a.entry.path@, b.entry.path@) && lex_lt(b.entry.path@, a.entry.path@) {
        lemma_lex_lt_transitive(a.entry.path@, b.entry.path@, a.entry.path@);
    }
}

/// Not being listed before is transitive: the browse order is a strict
/// weak order.
proof fn lemma_browse_not_before_transitive(a: BrowseCandidate, b: BrowseCandidate, c: BrowseCandidate)
    requires
        !browse_before(a, b),
        !browse_before(b, c),
    ensures
        !browse_before(a, c),
{
    lemma_lex_lt_irreflexive(a.lower_name@);
    lemma_lex_lt_irreflexive(a.entry.path@);
    if a.lower_name@ != b.lower_name@ {
        lemma_lex_lt_total(a.lower_name@, b.lower_name@);
    }
    if b.lower_name@ != c.lower_name@ {
        lemma_lex_lt_total(b.lower_name@, c.lower_name@);
    }
    if a.entry.path@ != b.entry.path@ {
        lemma_lex_lt_total(a.entry.path@, b.entry.path@);
    }
    if b.entry.path@ != c.entry.path@ {
        lemma_lex_lt_total(b.entry.path@, c.entry.path@);
    }
    if lex_lt(b.lower_name@, a.lower_name@) && lex_lt(c.lower_name@, b.lower_name@) {
        lemma_lex_lt_transitive(c.lower_name@, b.lower_name@, a.lower_name@);
    }
    if lex_lt(b.entry.path@, a.entry.path@) && lex_lt(c.entry.path@, b.entry.path@) {
        lemma_lex_lt_transitive(c.entry.path@, b.entry.path@, a.entry.path@);
    }
    if lex_lt(a.lower_name@, c.lower_name@) && a.lower_name@ != b.lower_name@ && b.lower_name@
        != c.lower_name@ {
        if lex_lt(b.lower_name@, a.lower_name@) && lex_lt(c.lower_name@, b.lower_name@) {
            lemma_lex_lt_transitive(a.lower_name@, c.lower_name@, b.lower_name@);
            lemma_lex_lt_transitive(a.lower_name@, b.lower_name@, a.lower_name@);
        }
    }
    if lex_lt(a.lower_name@, c.lower_name@) {
        if a.lower_name@ == b.lower_name@ && lex_lt(c.lower_name@, b.lower_name@) {
            lemma_lex_lt_transitive(a.lower_name@, c.lower_name@, b.lower_name@);
        }
        if b.lower_name@ == c.lower_name@ && lex_lt(b.lower_name@, a.lower_name@) {
            lemma_lex_lt_transitive(a.lower_name@, b.lower_name@, a.lower_name@);
        }
    }
    if lex_lt(a.entry.path@, c.entry.path@) {
        if a.entry.path@ == b.entry.path@ && lex_lt(c.entry.path@, b.entry.path@) {
            lemma_lex_lt_transitive(a.entry.path@, c.entry.path@, b.entry.path@);
        }
        if b.entry.path@ == c.entry.path@ && lex_lt(b.entry.path@, a.entry.path@) {
            lemma_lex_lt_transitive(a.entry.path@, b.entry.path@, a.entry.path@);
        }
        if lex_lt(b.entry.path@, a.entry.path@) && lex_lt(c.entry.path@, b.entry.path@) {
            lemma_lex_lt_transitive(a.entry.path@, c.entry.path@, b.entry.path@);
            lemma_lex_lt_transitive(a.entry.path@, b.entry.path@, a.entry.path@);
        }
    }
}

/// The score a child named `lower` gets while browsing: 0 with no needle
/// (or an empty one), else the needle's match score against the name.
pub open spec fn browse_score(needle: Option<Seq<char>>, lower: Seq<char>) -> Option<i32> {
    match needle {
        Some(n) => if n.len() > 0 {
            match_score(encode_utf8(n), encode_utf8(lower))
        } else {
            Some(0i32)
        },
        None => Some(0i32),
    }
}

pub open spec fn needle_view(needle: Option<&str>) -> Option<Seq<char>> {
    match needle {
        Some(n) => Some(n@),
        None => None,
    }
}

pub open spec fn needle_fits(needle: Option<&str>) -> bool {
    match needle {
        Some(n) => encode_utf8(n@).len() <= MAX_QUERY_BYTES,
        None => true,
    }
}

/// The candidate for a child whose trimmed name is `name` and lowercase name
/// `lower_name`; `None` when a needle is given and does not match it.
pub fn scored_candidate(
    name: String,
    lower_name: String,
    path: String,
    parent: String,
    is_directory: bool,
    needle: Option<&str>,
) -> (r: Option<BrowseCandidate>)
    requires
        needle_fits(needle),
        encode_utf8(lower_name@).len() < i32::MAX,
    ensures
        r == (match browse_score(needle_view(needle), lower_name@) {
            Some(score) => Some(
                BrowseCandidate {
                    score,
                    lower_name,
                    entry: FileEntry { name, path, parent, is_directory, thumbnail: None },
                },
            ),
            None => None,
        }),
{
    let score: i32 = match needle {
        Some(value) => {
            if !value.is_empty() {
                match target_score(value, lower_name.as_str()) {
                    Some(s) => s,
                    None => {
                        return None;
                    },
                }
            } else {
                0
            }
        },
        None => 0,
    };
    Some(
        BrowseCandidate {
            score,
            lower_name,
            entry: FileEntry { name, path, parent, is_directory, thumbnail: None },
        },
    )
}

/// `c` is the candidate for a child whose file name trims to `name`.
pub open spec fn describes_child(
    c: BrowseCandidate,
    name: Seq<char>,
    path: String,
    parent: String,
    is_directory: bool,
    needle: Option<Seq<char>>,
) -> bool {
    &&& c.entry.name@ == name
    &&& c.lower_name@ == unicode_lowercase(name)
    &&& c.entry.path == path
    &&& c.entry.parent == parent
    &&& c.entry.is_directory == is_directory
    &&& c.entry.thumbnail is None
    &&& browse_score(needle, c.lower_name@) == Some(c.score)
}

/// The candidate for one child of the browsed directory, from its file name
/// as read: the name is trimmed, and a child whose trimmed name is empty, or
/// that the needle does not match, is left out. A name whose lowercase form
/// does not fit the scorer's `i32` arithmetic is left out too.
pub fn browse_candidate(
    file_name: &str,
    path: String,
    parent: String,
    is_directory: bool,
    needle: Option<&str>,
) -> (r: Option<BrowseCandidate>)
    requires
        needle_fits(needle),
    ensures
        trim(file_name@).len() == 0 ==> r is None,
        trim(file_name@).len() > 0 && encode_utf8(unicode_lowercase(trim(file_name@))).len()
            < i32::MAX ==> match r {
            Some(c) => describes_child(c, trim(file_name@), path, parent, is_directory, needle_view(needle)),
            None => browse_score(needle_view(needle), unicode_lowercase(trim(file_name@))) is None,
        },
        encode_utf8(unicode_lowercase(trim(file_name@))).len() >= i32::MAX ==> r is None,
{
    let chars = chars_of(file_name);
    let trimmed = trim_exec(chars.as_slice());
    if trimmed.len() == 0 {
        return None;
    }
    let name = string_of(trimmed.as_slice());
    let lower_name = to_lowercase(name.as_str());
    if lower_name.as_str().as_bytes().len() >= 2147483647 {
        return None;
    }
    scored_candidate(name, lower_name, path, parent, is_directory, needle)
}

/// The entry for a path that names a file, from its file name as read;
/// `None` when the name trims to nothing.
pub fn path_entry(file_name: &str, path: String, parent: String, is_directory: bool) -> (r: Option<
    FileEntry,
>)
    ensures
        r is None <==> trim(file_name@).len() == 0,
        r matches Some(e) ==> e.name@ == trim(file_name@) && e.path == path && e.parent == parent
            && e.is_directory == is_directory && e.thumbnail is None,
{
    let chars = chars_of(file_name);
    let trimmed = trim_exec(chars.as_slice());
    if trimmed.len() == 0 {
        return None;
    }
    let name = string_of(trimmed.as_slice());
    Some(FileEntry { name, path, parent, is_directory, thumbnail: None })
}

/// `kept` is in browse order: nothing is listed before an earlier entry.
pub open spec fn in_browse_order(kept: Seq<BrowseCandidate>) -> bool {
    forall|i: int, j: int|
        0 <= i < j < kept.len() ==> !browse_before(#[trigger] kept[j], #[trigger] kept[i])
}

/// No entry of `kept` is listed after `c`.
pub open spec fn outranked(c: BrowseCandidate, kept: Seq<BrowseCandidate>) -> bool {
    forall|k: int| 0 <= k < kept.len() ==> !browse_before(c, #[trigger] kept[k])
}

pub open spec fn kept_or_outranked(c: BrowseCandidate, kept: Seq<BrowseCandidate>) -> bool {
    kept.contains(c) || outranked(c, kept)
}

/// `kept` are the best `limit` of `offered`, in browse order: as many as the
/// limit allows, each of them offered, and every offered candidate left out
/// is no better than any kept one.
pub open spec fn best_of(kept: Seq<BrowseCandidate>, offered: Seq<BrowseCandidate>, limit: nat) -> bool {
    &&& kept.len() == if offered.len() < limit {
        offered.len()
    } else {
        limit
    }
    &&& in_browse_order(kept)
    &&& forall|k: int| 0 <= k < kept.len() ==> offered.contains(#[trigger] kept[k])
    &&& forall|o: int| 0 <= o < offered.len() ==> kept_or_outranked(#[trigger] offered[o], kept)
}

/// The best children seen so far while a directory is read.
pub struct BrowseList {
    entries: Vec<BrowseCandidate>,
    limit: usize,
    offered: Ghost<Seq<BrowseCandidate>>,
}

impl View for BrowseList {
    type V = Seq<BrowseCandidate>;

    closed spec fn view(&self) -> Seq<BrowseCandidate> {
        self.entries@
    }
}

impl BrowseList {
    /// Every candidate offered so far, in order.
    pub closed spec fn offered(&self) -> Seq<BrowseCandidate> {
        self.offered@
    }

    pub closed spec fn limit(&self) -> nat {
        self.limit as nat
    }

    pub closed spec fn wf(&self) -> bool {
        &&& self.limit >= 1
        &&& best_of(self.entries@, self.offered@, self.limit as nat)
        &&& self.offered@.len() < self.limit ==> all_kept(self.entries@, self.offered@)
    }

    /// An empty list that keeps at most `limit` children.
    pub fn new(limit: usize) -> (r: Self)
        requires
            limit >= 1,
        ensures
            r.wf(),
            r@ == Seq::<BrowseCandidate>::empty(),
            r.offered() == Seq::<BrowseCandidate>::empty(),
            r.limit() == limit,
    {
        BrowseList { entries: Vec::new(), limit, offered: Ghost(Seq::empty()) }
    }

    pub fn len(&self) -> (r: usize)
        ensures
            r == self@.len(),
    {
        self.entries.len()
    }

    /// Offers one more child: the list stays the best `limit` of all offered.
    pub fn offer(&mut self, candidate: BrowseCandidate)
        requires
            old(self).wf(),
        ensures
            final(self).wf(),
            final(self).limit() == old(self).limit(),
            final(self).offered() == old(self).offered().push(candidate),
            best_of(final(self)@, final(self).offered(), final(self).limit()),
    {
        let ghost old_kept = self.entries@;
        let ghost old_offered = self.offered@;
        let ghost new_offered = old_offered.push(candidate);
        let ins = insertion_point(&self.entries, &candidate);
        let len = self.entries.len();
        if ins < len || len < self.limit {
            let ghost c = candidate;
            self.entries.insert(ins, candidate);
            proof {
                lemma_insert_in_order(old_kept, c, ins as int);
            }
            if self.entries.len() > self.limit {
                self.entries.pop();
                proof {
                    lemma_pop_keeps_best(old_kept, old_offered, c, ins as int, self.limit as nat);
                }
            } else {
                proof {
                    lemma_grow_keeps_best(old_kept, old_offered, c, ins as int, self.limit as nat);
                }
            }
        } else {
            proof {
                lemma_reject_keeps_best(old_kept, old_offered, candidate, self.limit as nat);
            }
        }
        self.offered = Ghost(new_offered);
    }

    /// The kept children's entries, best first.
    pub fn into_entries(self) -> (r: Vec<FileEntry>)
        ensures
            r@ == self@.map_values(|c: BrowseCandidate| c.entry),
    {
        let mut out: Vec<FileEntry> = Vec::new();
        let mut rest = self.entries;
        let ghost all = rest@;
        let total = rest.len();
        let mut k: usize = 0;
        while rest.len() > 0
            invariant
                k + rest@.len() == all.len(),
                all.len() == total,
                rest@ == all.skip(k as int),
                out@ == all.take(k as int).map_values(|c: BrowseCandidate| c.entry),
            decreases rest@.len(),
        {
            let c = rest.remove(0);
            proof {
                assert(all.take(k + 1) =~= all.take(k as int).push(c));
                assert(all.skip(k + 1) =~= all.skip(k as int).drop_first());
            }
            out.push(c.entry);
            k += 1;
            proof {
                assert(out@ =~= all.take(k as int).map_values(|c: BrowseCandidate| c.entry));
            }
        }
        proof {
            assert(all.take(k as int) =~= all);
        }
        out
    }
}

/// Where `candidate` goes in `kept`: after every entry listed before it, and
/// before every other one.
fn insertion_point(kept: &Vec<BrowseCandidate>, candidate: &BrowseCandidate) -> (r: usize)
    requires
        in_browse_order(kept@),
    ensures
        r <= kept@.len(),
        forall|i: int| 0 <= i < r ==> browse_before(#[trigger] kept@[i], *candidate),
        forall|j: int| r <= j < kept@.len() ==> !browse_before(#[trigger] kept@[j], *candidate),
{
    let mut lo: usize = 0;
    let mut hi: usize = kept.len();
    while lo < hi
        invariant
            lo <= hi <= kept@.len(),
            in_browse_order(kept@),
            forall|i: int| 0 <= i < lo ==> browse_before(#[trigger] kept@[i], *candidate),
            forall|j: int| hi <= j < kept@.len() ==> !browse_before(#[trigger] kept@[j], *candidate),
        decreases hi - lo,
    {
        let mid = lo + (hi - lo) / 2;
        if browse_precedes(&kept[mid], candidate) {
            proof {
                assert forall|i: int| 0 <= i < mid + 1 implies browse_before(
                    #[trigger] kept@[i],
                    *candidate,
                ) by {
                    if i < mid {
                        if !browse_before(kept@[i], *candidate) {
                            lemma_browse_not_before_transitive(kept@[mid as int], kept@[i], *candidate);
                        }
                    }
                }
            }
            lo = mid + 1;
        } else {
            proof {
                assert forall|j: int| mid <= j < kept@.len() implies !browse_before(
                    #[trigger] kept@[j],
                    *candidate,
                ) by {
                    if j > mid {
                        lemma_browse_not_before_transitive(kept@[j], kept@[mid as int], *candidate);
                    }
                }
            }
            hi = mid;
        }
    }
    lo
}

/// Every offered candidate is among the kept ones.
pub open spec fn all_kept(kept: Seq<BrowseCandidate>, offered: Seq<BrowseCandidate>) -> bool {
    forall|o: int| 0 <= o < offered.len() ==> kept.contains(#[trigger] offered[o])
}

/// The facts `insertion_point` gives about where `c` goes.
pub open spec fn splits_at(kept: Seq<BrowseCandidate>, c: BrowseCandidate, ins: int) -> bool {
    &&& 0 <= ins <= kept.len()
    &&& forall|i: int| 0 <= i < ins ==> browse_before(#[trigger] kept[i], c)
    &&& forall|j: int| ins <= j < kept.len() ==> !browse_before(#[trigger] kept[j], c)
}

proof fn lemma_insert_in_order(kept: Seq<BrowseCandidate>, c: BrowseCandidate, ins: int)
    requires
        in_browse_order(kept),
        splits_at(kept, c, ins),
    ensures
        in_browse_order(kept.insert(ins, c)),
{
    let n = kept.insert(ins, c);
    assert forall|i: int, j: int| 0 <= i < j < n.len() implies !browse_before(
        #[trigger] n[j],
        #[trigger] n[i],
    ) by {
        if j == ins {
            lemma_browse_asymmetric(n[i], c);
            assert(n[i] == kept[i]);
        } else if i == ins {
            assert(n[j] == kept[j - 1]);
        } else {
            let a = if i < ins {
                i
            } else {
                i - 1
            };
            let b = if j < ins {
                j
            } else {
                j - 1
            };
            assert(n[i] == kept[a]);
            assert(n[j] == kept[b]);
        }
    }
}

proof fn lemma_contains_after_insert(kept: Seq<BrowseCandidate>, c: BrowseCandidate, ins: int, x: BrowseCandidate)
    requires
        0 <= ins <= kept.len(),
        kept.contains(x) || x == c,
    ensures
        kept.insert(ins, c).contains(x),
{
    let n = kept.insert(ins, c);
    if x == c {
        assert(n[ins] == c);
    } else {
        let w = choose|w: int| 0 <= w < kept.len() && kept[w] == x;
        if w < ins {
            assert(n[w] == x);
        } else {
            assert(n[w + 1] == x);
        }
    }
}

proof fn lemma_grow_keeps_best(
    kept: Seq<BrowseCandidate>,
    offered: Seq<BrowseCandidate>,
    c: BrowseCandidate,
    ins: int,
    limit: nat,
)
    requires
        best_of(kept, offered, limit),
        offered.len() < limit ==> all_kept(kept, offered),
        kept.len() < limit,
        splits_at(kept, c, ins),
    ensures
        best_of(kept.insert(ins, c), offered.push(c), limit),
        offered.push(c).len() < limit ==> all_kept(kept.insert(ins, c), offered.push(c)),
{
    let n = kept.insert(ins, c);
    let o2 = offered.push(c);
    lemma_insert_in_order(kept, c, ins);
    assert forall|k: int| 0 <= k < n.len() implies o2.contains(#[trigger] n[k]) by {
        if k == ins {
            assert(o2[offered.len() as int] == c);
        } else {
            let a = if k < ins {
                k
            } else {
                k - 1
            };
            assert(n[k] == kept[a]);
            assert(offered.contains(kept[a]));
            let w = choose|w: int| 0 <= w < offered.len() && offered[w] == kept[a];
            assert(o2[w] == kept[a]);
        }
    }
    assert forall|o: int| 0 <= o < o2.len() implies n.contains(#[trigger] o2[o]) by {
        if o < offered.len() {
            assert(o2[o] == offered[o]);
            assert(kept.contains(offered[o]));
        }
        lemma_contains_after_insert(kept, c, ins, o2[o]);
    }
    assert forall|o: int| 0 <= o < o2.len() implies kept_or_outranked(#[trigger] o2[o], n) by {
        assert(n.contains(o2[o]));
    }
}

proof fn lemma_pop_keeps_best(
    kept: Seq<BrowseCandidate>,
    offered: Seq<BrowseCandidate>,
    c: BrowseCandidate,
    ins: int,
    limit: nat,
)
    requires
        best_of(kept, offered, limit),
        kept.len() == limit,
        limit >= 1,
        ins < kept.len(),
        splits_at(kept, c, ins),
    ensures
        best_of(kept.insert(ins, c).drop_last(), offered.push(c), limit),
{
    let n = kept.insert(ins, c);
    let m = n.drop_last();
    let o2 = offered.push(c);
    let last = kept.len() - 1;
    let p = kept[last];
    lemma_insert_in_order(kept, c, ins);
    assert(in_browse_order(m)) by {
        assert forall|i: int, j: int| 0 <= i < j < m.len() implies !browse_before(
            #[trigger] m[j],
            #[trigger] m[i],
        ) by {
            assert(m[i] == n[i]);
            assert(m[j] == n[j]);
        }
    }
    assert forall|k: int| 0 <= k < m.len() implies o2.contains(#[trigger] m[k]) by {
        assert(m[k] == n[k]);
        if k == ins {
            assert(o2[offered.len() as int] == c);
        } else {
            let a = if k < ins {
                k
            } else {
                k - 1
            };
            assert(n[k] == kept[a]);
            assert(offered.contains(kept[a]));
            let w = choose|w: int| 0 <= w < offered.len() && offered[w] == kept[a];
            assert(o2[w] == kept[a]);
        }
    }
    // The popped entry is outranked by every entry that stays.
    assert(outranked(p, m)) by {
        assert forall|k: int| 0 <= k < m.len() implies !browse_before(p, #[trigger] m[k]) by {
            assert(m[k] == n[k]);
            if k < ins {
                assert(n[k] == kept[k]);
            } else if k > ins {
                assert(n[k] == kept[k - 1]);
            }
        }
    }
    assert forall|o: int| 0 <= o < o2.len() implies kept_or_outranked(#[trigger] o2[o], m) by {
        if o == offered.len() {
            assert(o2[o] == c);
            assert(m[ins] == c);
        } else {
            let x = o2[o];
            assert(x == offered[o]);
            assert(kept_or_outranked(offered[o], kept));
            if kept.contains(x) {
                let w = choose|w: int| 0 <= w < kept.len() && kept[w] == x;
                if w == last {
                    assert(x == p);
                } else if w < ins {
                    assert(m[w] == x);
                } else {
                    assert(m[w + 1] == n[w + 1]);
                    assert(m[w + 1] == x);
                }
            } else {
                assert forall|k: int| 0 <= k < m.len() implies !browse_before(x, #[trigger] m[k]) by {
                    assert(m[k] == n[k]);
                    if k < ins {
                        assert(n[k] == kept[k]);
                    } else if k > ins {
                        assert(n[k] == kept[k - 1]);
                    } else {
                        assert(!browse_before(x, kept[last]));
                        lemma_browse_not_before_transitive(x, kept[last], c);
                    }
                }
            }
        }
    }
}

proof fn lemma_reject_keeps_best(
    kept: Seq<BrowseCandidate>,
    offered: Seq<BrowseCandidate>,
    c: BrowseCandidate,
    limit: nat,
)
    requires
        best_of(kept, offered, limit),
        kept.len() >= limit,
        splits_at(kept, c, kept.len() as int),
    ensures
        best_of(kept, offered.push(c), limit),
        offered.push(c).len() > limit,
{
    let o2 = offered.push(c);
    assert forall|k: int| 0 <= k < kept.len() implies o2.contains(#[trigger] kept[k]) by {
        assert(offered.contains(kept[k]));
        let w = choose|w: int| 0 <= w < offered.len() && offered[w] == kept[k];
        assert(o2[w] == kept[k]);
    }
    assert forall|o: int| 0 <= o < o2.len() implies kept_or_outranked(#[trigger] o2[o], kept) by {
        if o == offered.len() {
            assert forall|k: int| 0 <= k < kept.len() implies !browse_before(c, #[trigger] kept[k]) by {
                lemma_browse_asymmetric(kept[k], c);
            }
        } else {
            assert(o2[o] == offered[o]);
        }
    }
}

/// The well-known folders offered before anything is typed: name and kind,
/// in the order they are shown.
pub open spec fn known_locations() -> Seq<(&'static str, &'static str)> {
    seq![
        ("Home", "home"),
        ("Desktop", "desktop"),
        ("Downloads", "downloads"),
        ("Documents", "documents"),
        ("Pictures", "pictures"),
        ("Music", "music"),
        ("Videos", "videos"),
    ]
}

fn known_location_table() -> (r: Vec<(&'static str, &'static str)>)
    ensures
        r@ == known_locations(),
{
    let r = vec![
        ("Home", "home"),
        ("Desktop", "desktop"),
        ("Downloads", "downloads"),
        ("Documents", "documents"),
        ("Pictures", "pictures"),
        ("Music", "music"),
        ("Videos", "videos"),
    ];
    assert(r@ =~= known_locations());
    r
}

/// The quick-access entries among the first `k` known locations, as
/// (name, path, kind): those whose folder was found and is a directory.
pub open spec fn quick_access_of(folders: Seq<Option<String>>, is_dir: Seq<bool>, k: int) -> Seq<
    (Seq<char>, Seq<char>, Seq<char>),
>
    decreases k,
{
    if k <= 0 {
        seq![]
    } else {
        let rest = quick_access_of(folders, is_dir, k - 1);
        match folders[k - 1] {
            Some(p) => if is_dir[k - 1] {
                rest.push((known_locations()[k - 1].0@, p@, known_locations()[k - 1].1@))
            } else {
                rest
            },
            None => rest,
        }
    }
}

pub open spec fn quick_access_view(e: QuickAccessEntry) -> (Seq<char>, Seq<char>, Seq<char>) {
    (e.name@, e.path@, e.kind@)
}

/// The quick-access list, given for each known location (in table order)
/// the folder the system reports, if any, and whether it is a directory.
pub fn quick_access_entries(folders: &[Option<String>], is_dir: &[bool]) -> (r: Vec<QuickAccessEntry>)
    requires
        folders@.len() == 7,
        is_dir@.len() == 7,
    ensures
        r@.map_values(|e: QuickAccessEntry| quick_access_view(e)) == quick_access_of(folders@, is_dir@, 7),
{
    let table = known_location_table();
    let mut out: Vec<QuickAccessEntry> = Vec::new();
    let mut i: usize = 0;
    while i < 7
        invariant
            i <= 7,
            folders@.len() == 7,
            is_dir@.len() == 7,
            table@ == known_locations(),
            out@.map_values(|e: QuickAccessEntry| quick_access_view(e)) == quick_access_of(
                folders@,
                is_dir@,
                i as int,
            ),
        decreases 7 - i,
    {
        let ghost before = out@.map_values(|e: QuickAccessEntry| quick_access_view(e));
        match &folders[i] {
            Some(path) => {
                if is_dir[i] {
                    let entry = QuickAccessEntry {
                        name: table[i].0.to_owned(),
                        path: path.clone(),
                        kind: table[i].1.to_owned(),
                    };
                    out.push(entry);
                    assert(out@.map_values(|e: QuickAccessEntry| quick_access_view(e)) =~= before.push(
                        (table@[i as int].0@, path@, table@[i as int].1@),
                    ));
                }
            },
            None => {},
        }
        i += 1;
    }
    out
}

// ---------------------------------------------------------------------------
// Paths typed as a query
// ---------------------------------------------------------------------------

/// A path typed as a query, read before the environment is consulted.
#[derive(Debug, PartialEq, Eq)]
pub enum PathInput {
    /// `%NAME%rest`: the variable's value followed by `rest`; `text` itself
    /// when the variable is unset.
    Variable { name: String, rest: String, text: String },
    /// `~`, `~\rest` or `~/rest`: the profile directory followed by `rest`
    /// (its separator kept); `text` itself when there is no profile.
    Home { rest: String, text: String },
    /// Anything else, as typed less surrounding whitespace.
    Plain(String),
}

/// `t` names the profile directory: `~` alone or followed by a separator.
pub open spec fn is_home_path(t: Seq<char>) -> bool {
    t =~= seq!['~'] || (t.len() >= 2 && t[0] == '~' && (t[1] == '\\' || t[1] == '/'))
}

/// `t` is `%NAME%rest`: a percent sign that another one closes.
pub open spec fn has_variable(t: Seq<char>) -> bool {
    t.len() > 0 && t[0] == '%' && run_until(t.drop_first(), '%') < t.len() - 1
}

/// Reads a typed path: `None` when it is empty or holds NUL after trimming.
pub fn path_input(query: &str) -> (r: Option<PathInput>)
    ensures
        ({
            let t = trim(query@);
            match r {
                None => t.len() == 0 || t.contains('\0'),
                Some(input) => {
                    &&& t.len() > 0
                    &&& !t.contains('\0')
                    &&& match input {
                        PathInput::Variable { name, rest, text } => {
                            let n = run_until(t.drop_first(), '%') as int;
                            &&& has_variable(t)
                            &&& name@ == t.drop_first().take(n)
                            &&& rest@ == t.drop_first().skip(n + 1)
                            &&& text@ == t
                        },
                        PathInput::Home { rest, text } => {
                            &&& !has_variable(t)
                            &&& !(t[0] == '%')
                            &&& is_home_path(t)
                            &&& rest@ == t.drop_first()
                            &&& text@ == t
                        },
                        PathInput::Plain(p) => {
                            &&& !has_variable(t)
                            &&& (t[0] == '%' || !is_home_path(t))
                            &&& p@ == t
                        },
                    }
                },
            }
        }),
{
    let cs = chars_of(query);
    let t = trim_exec(cs.as_slice());
    if t.len() == 0 {
        return None;
    }
    let mut i: usize = 0;
    while i < t.len()
        invariant
            i <= t@.len(),
            t@ == trim(query@),
            forall|k: int| 0 <= k < i ==> t@[k] != '\0',
        decreases t@.len() - i,
    {
        if t[i] == '\0' {
            assert(t@.contains('\0')) by {
                assert(t@[i as int] == '\0');
            }
            return None;
        }
        i += 1;
    }
    let text = string_of(t.as_slice());
    if t[0] == '%' {
        let mut j: usize = 1;
        while j < t.len() && t[j] != '%'
            invariant
                1 <= j <= t@.len(),
                forall|k: int| 1 <= k < j ==> t@[k] != '%',
            decreases t@.len() - j,
        {
            j += 1;
        }
        proof {
            lemma_run_until(t@.drop_first(), '%');
            let n = run_until(t@.drop_first(), '%') as int;
            if n < j - 1 {
                assert(t@.drop_first()[n] == '%');
                assert(t@[n + 1] == '%');
            }
            if n > j - 1 {
                assert(t@.drop_first()[j - 1] != '%');
                assert(t@[j as int] == '%');
            }
        }
        if j < t.len() {
            let name = slice_to_vec(t.as_slice(), 1, j);
            let rest = slice_to_vec(t.as_slice(), j + 1, t.len());
            assert(name@ =~= t@.drop_first().take(j - 1));
            assert(rest@ =~= t@.drop_first().skip(j as int));
            return Some(
                PathInput::Variable { name: string_of(name.as_slice()), rest: string_of(rest.as_slice()), text },
            );
        }
        return Some(PathInput::Plain(text));
    }
    if t[0] == '~' && (t.len() == 1 || t[1] == '\\' || t[1] == '/') {
        let rest = slice_to_vec(t.as_slice(), 1, t.len());
        assert(rest@ =~= t@.drop_first());
        return Some(PathInput::Home { rest: string_of(rest.as_slice()), text });
    }
    Some(PathInput::Plain(text))
}

/// The path a typed input stands for, given the value it asks the
/// environment for (the variable, or the profile directory).
pub fn expand_path_input(input: &PathInput, value: Option<&str>) -> (r: String)
    ensures
        r@ == match input {
            PathInput::Variable { rest, text, .. } | PathInput::Home { rest, text } => match value {
                Some(v) => v@ + rest@,
                None => text@,
            },
            PathInput::Plain(p) => p@,
        },
{
    match input {
        PathInput::Variable { rest, text, .. } | PathInput::Home { rest, text } => match value {
            Some(v) => concat(v, rest.as_str()),
            None => text.clone(),
        },
        PathInput::Plain(p) => p.clone(),
    }
}

/// What browsing a typed path shows, once its kind on disk is known.
#[derive(Debug, Clone, Copy, PartialEq, Eq, Structural)]
pub enum BrowseAction {
    /// Not an absolute path (or one without a parent): not browsed.
    NotAPath,
    /// A directory: its best children.
    ListDirectory,
    /// A file: the file itself.
    ShowFile,
    /// Neither, in an existing directory: that directory's children that
    /// match the last component.
    ListParentMatching,
    /// Neither, and its parent is no directory: nothing.
    Nothing,
}

/// Decides what a typed path shows: `parent_is_dir` is `None` when the
/// path has no parent.
pub fn browse_action(is_absolute: bool, is_dir: bool, is_file: bool, parent_is_dir: Option<bool>) -> (r: BrowseAction)
    ensures
        r == (if !is_absolute {
            BrowseAction::NotAPath
        } else if is_dir {
            BrowseAction::ListDirectory
        } else if is_file {
            BrowseAction::ShowFile
        } else {
            match parent_is_dir {
                None => BrowseAction::NotAPath,
                Some(true) => BrowseAction::ListParentMatching,
                Some(false) => BrowseAction::Nothing,
            }
        }),
{
    if !is_absolute {
        BrowseAction::NotAPath
    } else if is_dir {
        BrowseAction::ListDirectory
    } else if is_file {
        BrowseAction::ShowFile
    } else {
        match parent_is_dir {
            None => BrowseAction::NotAPath,
            Some(true) => BrowseAction::ListParentMatching,
            Some(false) => BrowseAction::Nothing,
        }
    }
}

} // verus!
