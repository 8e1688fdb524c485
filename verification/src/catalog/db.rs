//! Pure pieces of the index database: LIKE escaping, the FTS5 trigram query
//! text, how file reference numbers are stored as blobs, which candidate
//! queries a search runs, and the upgrades an older catalog goes through.

use vstd::prelude::*;
use crate::catalog::usn::le_u64;
use crate::catalog::types::CandidateEntry;
use crate::shell::provider::{parse_i64, parsed_i64};
use crate::text::{decimal_nat, format_u64, str_eq};
use crate::text::{concat, ends_with, ends_with_exec, push_char, starts_with, starts_with_exec, trim, trim_exec};
use crate::text::{
    append_chars, chars_of, join, join_exec, replace, replace_exec, split_whitespace, string_of,
    views, words,
};

verus! {

/// `value` with `!`, `%` and `_` escaped by `!` for a `LIKE ... ESCAPE '!'`.
pub open spec fn like_escaped(value: Seq<char>) -> Seq<char> {
    replace(replace(replace(value, seq!['!'], seq!['!', '!']), seq!['%'], seq!['!', '%']), seq!['_'], seq!['!', '_'])
}

pub fn escape_like_pattern(value: &str) -> (r: String)
    ensures
        r@ == like_escaped(value@),
{
    let cs = chars_of(value);
    let bang = vec!['!'];
    let bang2 = vec!['!', '!'];
    let pct = vec!['%'];
    let bang_pct = vec!['!', '%'];
    let under = vec!['_'];
    let bang_under = vec!['!', '_'];
    assert(bang@ =~= seq!['!'] && bang2@ =~= seq!['!', '!'] && pct@ =~= seq!['%']);
    assert(bang_pct@ =~= seq!['!', '%'] && under@ =~= seq!['_'] && bang_under@ =~= seq!['!', '_']);
    let a = replace_exec(cs.as_slice(), bang.as_slice(), bang2.as_slice());
    let b = replace_exec(a.as_slice(), pct.as_slice(), bang_pct.as_slice());
    let c = replace_exec(b.as_slice(), under.as_slice(), bang_under.as_slice());
    string_of(c.as_slice())
}

/// The eight little-endian bytes of a file reference number.
pub open spec fn frn_bytes(frn: u64) -> Seq<u8> {
    seq![
        (frn % 256) as u8,
        ((frn >> 8) % 256) as u8,
        ((frn >> 16) % 256) as u8,
        ((frn >> 24) % 256) as u8,
        ((frn >> 32) % 256) as u8,
        ((frn >> 40) % 256) as u8,
        ((frn >> 48) % 256) as u8,
        ((frn >> 56) % 256) as u8,
    ]
}

/// Storing a reference number as its blob and reading the blob back gives
/// the number unchanged.
pub proof fn lemma_frn_round_trip(frn: u64)
    ensures
        frn_bytes(frn).len() == 8,
        le_u64(frn_bytes(frn), 0) == frn,
{
    assert(frn == frn % 256 + 256 * ((frn >> 8) % 256 + 256 * ((frn >> 16) % 256 + 256 * ((frn
        >> 24) % 256 + 256 * ((frn >> 32) % 256 + 256 * ((frn >> 40) % 256 + 256 * ((frn >> 48) % 256
        + 256 * ((frn >> 56) % 256)))))))) by (bit_vector);
}

/// The blob a file reference number is stored as.
pub fn frn_blob(frn: u64) -> (r: [u8; 8])
    ensures
        r@ == frn_bytes(frn),
{
    let r = [
        (frn % 256) as u8,
        ((frn >> 8) % 256) as u8,
        ((frn >> 16) % 256) as u8,
        ((frn >> 24) % 256) as u8,
        ((frn >> 32) % 256) as u8,
        ((frn >> 40) % 256) as u8,
        ((frn >> 48) % 256) as u8,
        ((frn >> 56) % 256) as u8,
    ];
    assert(r@ =~= frn_bytes(frn));
    r
}

/// The file reference number in an 8-byte blob; `None` for any other length.
pub fn blob_frn(blob: &[u8]) -> (r: Option<u64>)
    ensures
        blob@.len() == 8 ==> r == Some(le_u64(blob@, 0)),
        blob@.len() != 8 ==> r is None,
{
    if blob.len() != 8 {
        return None;
    }
    crate::catalog::usn::read_u64(blob, 0)
}

/// A query word as an FTS5 string: inner quotes doubled, then quoted.
pub open spec fn fts_term(word: Seq<char>) -> Seq<char> {
    seq!['"'] + replace(word, seq!['"'], seq!['"', '"']) + seq!['"']
}

/// The quoted terms for the words of at least three characters (shorter ones
/// cannot match a trigram index).
pub open spec fn fts_terms(ws: Seq<Seq<char>>) -> Seq<Seq<char>>
    decreases ws.len(),
{
    if ws.len() == 0 {
        seq![]
    } else {
        let rest = fts_terms(ws.drop_last());
        if ws.last().len() >= 3 {
            rest.push(fts_term(ws.last()))
        } else {
            rest
        }
    }
}

/// The trigram MATCH expression for a query: its terms joined by ` AND `.
pub open spec fn fts5_query(query: Seq<char>) -> Seq<char> {
    join(fts_terms(words(query)), " AND "@)
}

pub fn sanitize_fts5_trigram_query(query: &str) -> (r: String)
    ensures
        r@ == fts5_query(query@),
{
    let cs = chars_of(query);
    let parts = split_whitespace(cs.as_slice());
    let ghost ws = views(parts@);
    let quote = vec!['"'];
    let quote2 = vec!['"', '"'];
    assert(quote@ =~= seq!['"'] && quote2@ =~= seq!['"', '"']);
    let mut terms: Vec<Vec<char>> = Vec::new();
    let mut i: usize = 0;
    assert(ws.take(0) =~= seq![]);
    assert(terms@.map_values(|t: Vec<char>| t@) =~= seq![]);
    while i < parts.len()
        invariant
            i <= parts@.len(),
            ws == views(parts@),
            quote@ == seq!['"'],
            quote2@ == seq!['"', '"'],
            terms@.map_values(|t: Vec<char>| t@) == fts_terms(ws.take(i as int)),
        decreases parts@.len() - i,
    {
        proof {
            assert(ws.take(i + 1).drop_last() =~= ws.take(i as int));
            assert(ws.take(i + 1).last() == parts@[i as int]@);
        }
        let word = &parts[i];
        if word.len() >= 3 {
            let escaped = replace_exec(word.as_slice(), quote.as_slice(), quote2.as_slice());
            let mut term: Vec<char> = Vec::new();
            term.push('"');
            append_chars(&mut term, escaped.as_slice());
            term.push('"');
            assert(term@ =~= fts_term(word@));
            let ghost before = terms@.map_values(|t: Vec<char>| t@);
            terms.push(term);
            assert(terms@.map_values(|t: Vec<char>| t@) =~= before.push(fts_term(word@)));
        }
        i += 1;
    }
    assert(ws.take(i as int) =~= ws);
    let sep = chars_of(" AND ");
    let joined = join_exec(&terms, sep.as_slice());
    string_of(joined.as_slice())
}

// ---------------------------------------------------------------------------
// Gathering search candidates
// ---------------------------------------------------------------------------

/// Most rows taken from the exact-name query.
pub const EXACT_CANDIDATE_LIMIT: i64 = 40;

/// The upper end of a prefix range: the prefix followed by U+FFFF, so that
/// every name starting with the prefix sorts between the two.
pub open spec fn prefix_range_end(lower: Seq<char>) -> Seq<char> {
    lower.push('\u{FFFF}')
}

pub fn prefix_upper_bound(lower: &str) -> (r: String)
    ensures
        r@ == prefix_range_end(lower@),
{
    let mut r = lower.to_owned();
    push_char(&mut r, '\u{FFFF}');
    r
}

/// Which candidate queries a search runs and how many rows each may give.
#[derive(Debug)]
pub struct CandidatePlan {
    pub exact_limit: i64,
    /// Rows of the prefix range query.
    pub prefix_limit: i64,
    /// The trigram query text and its row limit, for three or more
    /// characters when the sanitised text is not empty.
    pub fts: Option<(String, i64)>,
    /// For exactly two characters, a second prefix range query.
    pub short_prefix: bool,
}

/// Three times the limit, and at least thirty.
pub open spec fn pool_limit(limit: usize) -> int {
    (if limit < 10 { 10 } else { limit as int }) * 3
}

/// The pool size as the query's `i64` parameter (a plain conversion, which
/// keeps the value whenever it fits).
pub open spec fn pool_param(limit: usize) -> i64 {
    pool_limit(limit) as i64
}

pub fn candidate_plan(lower: &str, query_len: usize, limit: usize) -> (r: CandidatePlan)
    requires
        limit <= usize::MAX / 3,
    ensures
        r.exact_limit == EXACT_CANDIDATE_LIMIT,
        r.prefix_limit == pool_param(limit),
        pool_limit(limit) <= i64::MAX ==> r.prefix_limit == pool_limit(limit),
        query_len >= 3 && fts5_query(lower@).len() > 0 ==> (r.fts matches Some((q, n)) && q@
            == fts5_query(lower@) && n == pool_param(limit)),
        !(query_len >= 3 && fts5_query(lower@).len() > 0) ==> r.fts is None,
        r.short_prefix == (query_len == 2),
{
    let pooled: usize = if limit < 10 { 10 } else { limit } * 3;
    let pool = pooled as i64;
    assert(pool == pool_param(limit));
    let fts = if query_len >= 3 {
        let q = sanitize_fts5_trigram_query(lower);
        if q.as_str().is_empty() {
            None
        } else {
            Some((q, pool))
        }
    } else {
        None
    };
    CandidatePlan { exact_limit: EXACT_CANDIDATE_LIMIT, prefix_limit: pool, fts, short_prefix: query_len == 2 }
}

pub open spec fn ids_of(rows: Seq<CandidateEntry>) -> Seq<i64> {
    rows.map_values(|c: CandidateEntry| c.id)
}

/// `rows` kept in order when their id is not in `seen` and not repeated
/// among the rows before them.
pub open spec fn fresh_rows(seen: Seq<i64>, rows: Seq<CandidateEntry>) -> Seq<CandidateEntry>
    decreases rows.len(),
{
    if rows.len() == 0 {
        seq![]
    } else {
        let rest = fresh_rows(seen, rows.drop_last());
        let last = rows.last();
        if seen.contains(last.id) || ids_of(rows.drop_last()).contains(last.id) {
            rest
        } else {
            rest.push(last)
        }
    }
}

/// Adds the rows of one candidate query: a row whose id was already taken
/// is skipped, so each file is proposed once.
pub fn append_unique(candidates: &mut Vec<CandidateEntry>, seen: &mut Vec<i64>, rows: Vec<CandidateEntry>)
    ensures
        final(candidates)@ == old(candidates)@ + fresh_rows(old(seen)@, rows@),
        final(seen)@ == old(seen)@ + ids_of(fresh_rows(old(seen)@, rows@)),
{
    let ghost seen0 = seen@;
    let ghost cands0 = candidates@;
    let mut i: usize = 0;
    let mut rows = rows;
    let ghost all = rows@;
    assert(all.take(0) =~= Seq::<CandidateEntry>::empty());
    assert(fresh_rows(seen0, all.take(0)) =~= Seq::<CandidateEntry>::empty());
    while i < rows.len()
        invariant
            i <= rows@.len(),
            rows@ == all,
            candidates@ == cands0 + fresh_rows(seen0, all.take(i as int)),
            seen@ == seen0 + ids_of(fresh_rows(seen0, all.take(i as int))),
            forall|x: i64|
                #[trigger] seen@.contains(x) <==> (seen0.contains(x) || ids_of(all.take(i as int)).contains(x)),
        decreases rows@.len() - i,
    {
        let row = rows[i].duplicate();
        let id = row.id;
        let mut taken = false;
        let mut k: usize = 0;
        while k < seen.len()
            invariant
                k <= seen@.len(),
                !taken ==> forall|j: int| 0 <= j < k ==> seen@[j] != id,
                taken ==> seen@.contains(id),
            decreases seen@.len() - k,
        {
            if seen[k] == id {
                taken = true;
            }
            k += 1;
        }
        let ghost prev = all.take(i as int);
        let ghost next = all.take(i + 1);
        let ghost seen_before = seen@;
        proof {
            assert(next.drop_last() =~= prev);
            assert(next.last() == all[i as int]);
            assert(ids_of(next) =~= ids_of(prev).push(id));
            assert(taken == seen_before.contains(id));
            assert(taken == (seen0.contains(id) || ids_of(prev).contains(id)));
        }
        if !taken {
            let ghost before = fresh_rows(seen0, prev);
            candidates.push(row);
            seen.push(id);
            proof {
                assert(ids_of(before.push(all[i as int])) =~= ids_of(before).push(id));
            }
        }
        proof {
            assert forall|x: i64| ids_of(next).contains(x) <==> (ids_of(prev).contains(x) || x == id) by {
                if ids_of(next).contains(x) && x != id {
                    let j = choose|j: int| 0 <= j < ids_of(next).len() && ids_of(next)[j] == x;
                    assert(ids_of(prev)[j] == x);
                }
                if ids_of(prev).contains(x) {
                    let j = choose|j: int| 0 <= j < ids_of(prev).len() && ids_of(prev)[j] == x;
                    assert(ids_of(next)[j] == x);
                }
                if x == id {
                    assert(ids_of(next)[i as int] == id);
                }
            }
            assert forall|x: i64| seen@.contains(x) <==> (seen_before.contains(x) || x == id) by {
                if !taken {
                    assert(seen@ =~= seen_before.push(id));
                    if seen@.contains(x) && x != id {
                        let j = choose|j: int| 0 <= j < seen@.len() && seen@[j] == x;
                        assert(seen_before[j] == x);
                    }
                    if seen_before.contains(x) {
                        let j = choose|j: int| 0 <= j < seen_before.len() && seen_before[j] == x;
                        assert(seen@[j] == x);
                    }
                    if x == id {
                        assert(seen@[seen_before.len() as int] == id);
                    }
                }
            }
            assert forall|x: i64| #[trigger] seen@.contains(x) <==> (seen0.contains(x) || ids_of(next).contains(x)) by {
                assert(seen_before.contains(x) <==> (seen0.contains(x) || ids_of(prev).contains(x)));
            }
            assert(next == all.take(i + 1));
        }
        i += 1;
    }
    assert(all.take(rows@.len() as int) =~= all);
}

// ---------------------------------------------------------------------------
// Schema versions
// ---------------------------------------------------------------------------

/// The catalog schema this build writes.
pub const SCHEMA_VERSION: i64 = 6;

/// One upgrade of an older catalog.
#[derive(Debug, PartialEq, Eq, Structural)]
pub enum MigrationStep {
    /// From versions 1 to 3: drop the rows of directories the scanner no
    /// longer indexes and rebuild the full-text index (to version 4).
    PurgeExcludedRows,
    /// Before version 5: add the journal columns to volumes (to version 5).
    AddJournalColumns,
    /// Before version 6: rescan the directory-walked volumes once (to 6).
    ResweepFallbackVolumes,
}

/// The stored version: the `meta` text, trimmed and parsed; 0 when it is
/// missing or not a number.
pub open spec fn stored_version(text: Option<Seq<char>>) -> int {
    match text {
        Some(t) => match parsed_i64(trim(t)) {
            Some(v) => v,
            None => 0,
        },
        None => 0,
    }
}

/// The upgrades a catalog at `version` goes through, in order.
pub open spec fn migration_plan(version: int) -> Seq<MigrationStep> {
    if version >= SCHEMA_VERSION {
        seq![]
    } else {
        let purge = if 1 <= version <= 3 {
            seq![MigrationStep::PurgeExcludedRows]
        } else {
            seq![]
        };
        let after_purge = if 1 <= version <= 3 {
            4
        } else {
            version
        };
        let journal = if after_purge < 5 {
            seq![MigrationStep::AddJournalColumns]
        } else {
            seq![]
        };
        purge + journal + seq![MigrationStep::ResweepFallbackVolumes]
    }
}

pub fn migration_steps(version_text: Option<&str>) -> (r: Vec<MigrationStep>)
    ensures
        r@ == migration_plan(stored_version(match version_text {
            Some(t) => Some(t@),
            None => None,
        })),
{
    let version: i64 = match version_text {
        Some(t) => {
            let cs = chars_of(t);
            let trimmed = trim_exec(cs.as_slice());
            let text = string_of(trimmed.as_slice());
            match parse_i64(text.as_str()) {
                Some(v) => v,
                None => 0,
            }
        },
        None => 0,
    };
    let mut steps: Vec<MigrationStep> = Vec::new();
    if version >= SCHEMA_VERSION {
        return steps;
    }
    let mut current = version;
    if 1 <= version && version <= 3 {
        steps.push(MigrationStep::PurgeExcludedRows);
        current = 4;
    }
    if current < 5 {
        steps.push(MigrationStep::AddJournalColumns);
    }
    steps.push(MigrationStep::ResweepFallbackVolumes);
    assert(steps@ =~= migration_plan(version as int));
    steps
}

/// Recovery copies of a broken catalog older than a week are deleted.
pub const RECOVERY_COPY_MAX_AGE_SECS: u64 = 604_800;

/// A recovery copy is `catalog.recovery-…` with a database, WAL or shared
/// memory suffix; nothing else in the data directory is touched.
pub open spec fn recovery_copy_name(name: Seq<char>) -> bool {
    &&& starts_with(name, "catalog.recovery-"@)
    &&& (ends_with(name, ".db"@) || ends_with(name, ".db-wal"@) || ends_with(name, ".db-shm"@))
}

/// Whether the file `name`, last modified `age_secs` seconds and
/// `age_nanos` nanoseconds ago, is a recovery copy past its retention.
pub fn is_stale_recovery_copy(name: &str, age_secs: u64, age_nanos: u32) -> (r: bool)
    ensures
        r == (recovery_copy_name(name@) && (age_secs > RECOVERY_COPY_MAX_AGE_SECS || (age_secs
            == RECOVERY_COPY_MAX_AGE_SECS && age_nanos > 0))),
{
    let cs = chars_of(name);
    let prefix = chars_of("catalog.recovery-");
    let db = chars_of(".db");
    let wal = chars_of(".db-wal");
    let shm = chars_of(".db-shm");
    let named = starts_with_exec(cs.as_slice(), prefix.as_slice()) && (ends_with_exec(cs.as_slice(), db.as_slice())
        || ends_with_exec(cs.as_slice(), wal.as_slice()) || ends_with_exec(cs.as_slice(), shm.as_slice()));
    named && (age_secs > RECOVERY_COPY_MAX_AGE_SECS || (age_secs == RECOVERY_COPY_MAX_AGE_SECS && age_nanos > 0))
}

// ---------------------------------------------------------------------------
// Applying a batch of NTFS journal changes
// ---------------------------------------------------------------------------

/// Why a batch of journal changes cannot be applied.
#[derive(Debug, Clone, Copy, PartialEq, Eq, Structural)]
pub enum ApplyError {
    /// The volume has no saved journal ID and cursor.
    NoActiveGeneration,
    /// The saved journal ID is not the batch's.
    JournalChanged,
}

impl ApplyError {
    pub fn message(&self) -> (r: String)
        ensures
            r@ == apply_error_message(*self),
    {
        match self {
            ApplyError::NoActiveGeneration => String::from_str(
                "cannot apply journal changes without an active NTFS generation",
            ),
            ApplyError::JournalChanged => String::from_str("journal ID changed while applying a batch"),
        }
    }
}

pub open spec fn apply_error_message(e: ApplyError) -> Seq<char> {
    match e {
        ApplyError::NoActiveGeneration => "cannot apply journal changes without an active NTFS generation"@,
        ApplyError::JournalChanged => "journal ID changed while applying a batch"@,
    }
}

/// What to do with a batch once the saved checkpoint has been read.
#[derive(Debug, Clone, Copy, PartialEq, Eq, Structural)]
pub enum ApplyGate {
    /// The batch ends at or before the saved cursor: it was applied already.
    AlreadyApplied,
    /// The batch moves the cursor forward: apply it.
    Apply,
}

pub open spec fn apply_gate_of(saved_journal: Option<Seq<char>>, saved_usn: Option<i64>, journal_id: u64, next_usn: i64) -> Result<
    ApplyGate,
    ApplyError,
> {
    match (saved_journal, saved_usn) {
        (Some(id), Some(usn)) => if id != decimal_nat(journal_id as nat) {
            Err(ApplyError::JournalChanged)
        } else if next_usn <= usn {
            Ok(ApplyGate::AlreadyApplied)
        } else {
            Ok(ApplyGate::Apply)
        },
        _ => Err(ApplyError::NoActiveGeneration),
    }
}

/// Decides a batch against the volume's saved journal ID (as stored, in
/// decimal) and cursor; a missing row reads as both absent.
pub fn apply_gate(saved_journal: Option<&str>, saved_usn: Option<i64>, journal_id: u64, next_usn: i64) -> (r: Result<
    ApplyGate,
    ApplyError,
>)
    ensures
        r == apply_gate_of(
            match saved_journal {
                Some(s) => Some(s@),
                None => None,
            },
            saved_usn,
            journal_id,
            next_usn,
        ),
{
    match (saved_journal, saved_usn) {
        (Some(id), Some(usn)) => {
            let expected = format_u64(journal_id);
            if !str_eq(id, expected.as_str()) {
                Err(ApplyError::JournalChanged)
            } else if next_usn <= usn {
                Ok(ApplyGate::AlreadyApplied)
            } else {
                Ok(ApplyGate::Apply)
            }
        },
        _ => Err(ApplyError::NoActiveGeneration),
    }
}

/// The walk that collects a deleted node and everything stored below it.
/// Each node is asked for its children at most once, in the order the nodes
/// were collected; a node met again (a cycle in stored parents) is skipped.
pub struct SubtreeWalk {
    doomed: Vec<u64>,
    cursor: usize,
    seen: Vec<u64>,
}

impl SubtreeWalk {
    /// The nodes collected so far: the root, then each answer in turn.
    pub closed spec fn doomed(&self) -> Seq<u64> {
        self.doomed@
    }

    /// The nodes whose children have been asked for, in order.
    pub closed spec fn asked(&self) -> Seq<u64> {
        self.seen@
    }

    /// How many collected nodes have been taken up.
    pub closed spec fn taken(&self) -> nat {
        self.cursor as nat
    }

    pub closed spec fn wf(&self) -> bool {
        &&& self.cursor <= self.doomed@.len()
        &&& self.doomed@.len() >= 1
        &&& forall|i: int, j: int| 0 <= i < j < self.seen@.len() ==> self.seen@[i] != self.seen@[j]
        &&& forall|i: int| 0 <= i < self.seen@.len() ==> among(self.doomed@, self.cursor as int, #[trigger] self.seen@[i])
        &&& forall|k: int| 0 <= k < self.cursor ==> self.seen@.contains(#[trigger] self.doomed@[k])
    }

    pub fn new(root: u64) -> (r: SubtreeWalk)
        ensures
            r.wf(),
            r.doomed() == seq![root],
            r.asked() == Seq::<u64>::empty(),
            r.taken() == 0,
    {
        SubtreeWalk { doomed: vec![root], cursor: 0, seen: Vec::new() }
    }

    /// The next node to ask for its children, skipping nodes asked before;
    /// `None` once every collected node has been taken up.
    pub fn next_node(&mut self) -> (r: Option<u64>)
        requires
            old(self).wf(),
        ensures
            final(self).wf(),
            final(self).doomed() == old(self).doomed(),
            old(self).taken() <= final(self).taken(),
            forall|k: int| old(self).taken() <= k < final(self).taken() - (if r is Some { 1int } else { 0int })
                ==> old(self).asked().contains(#[trigger] old(self).doomed()[k]),
            match r {
                Some(x) => {
                    &&& final(self).taken() >= 1
                    &&& x == old(self).doomed()[final(self).taken() - 1]
                    &&& !old(self).asked().contains(x)
                    &&& final(self).asked() == old(self).asked().push(x)
                },
                None => {
                    &&& final(self).taken() == old(self).doomed().len()
                    &&& final(self).asked() == old(self).asked()
                },
            },
    {
        while self.cursor < self.doomed.len()
            invariant
                self.wf(),
                self.doomed@ == old(self).doomed@,
                self.seen@ == old(self).seen@,
                old(self).cursor <= self.cursor,
                forall|k: int| old(self).cursor <= k < self.cursor ==> old(self).seen@.contains(#[trigger] self.doomed@[k]),
            decreases self.doomed@.len() - self.cursor,
        {
            let current = self.doomed[self.cursor];
            self.cursor += 1;
            if !contains_u64(&self.seen, current) {
                proof {
                    assert forall|i: int| 0 <= i < self.seen@.push(current).len() implies among(
                        self.doomed@,
                        self.cursor as int,
                        #[trigger] self.seen@.push(current)[i],
                    ) by {
                        if i < self.seen@.len() {
                            assert(among(self.doomed@, self.cursor - 1, self.seen@[i]));
                        } else {
                            assert(self.doomed@[self.cursor - 1] == current);
                        }
                    }
                    assert forall|k: int| 0 <= k < self.cursor implies self.seen@.push(current).contains(
                        #[trigger] self.doomed@[k],
                    ) by {
                        if k < self.cursor - 1 {
                            let w = choose|w: int| 0 <= w < self.seen@.len() && self.seen@[w] == self.doomed@[k];
                            assert(self.seen@.push(current)[w] == self.doomed@[k]);
                        } else {
                            assert(self.seen@.push(current)[self.seen@.len() as int] == current);
                        }
                    }
                }
                self.seen.push(current);
                return Some(current);
            }
            proof {
                assert forall|i: int| 0 <= i < self.seen@.len() implies among(
                    self.doomed@,
                    self.cursor as int,
                    #[trigger] self.seen@[i],
                ) by {
                    assert(among(self.doomed@, self.cursor - 1, self.seen@[i]));
                }
            }
        }
        None
    }

    /// Records the children stored under the node `next_node` returned.
    pub fn add_children(&mut self, children: &[u64])
        requires
            old(self).wf(),
        ensures
            final(self).wf(),
            final(self).doomed() == old(self).doomed() + children@,
            final(self).asked() == old(self).asked(),
            final(self).taken() == old(self).taken(),
    {
        let mut i: usize = 0;
        while i < children.len()
            invariant
                i <= children@.len(),
                self.wf(),
                self.doomed@ == old(self).doomed@ + children@.take(i as int),
                self.seen@ == old(self).seen@,
                self.cursor == old(self).cursor,
            decreases children@.len() - i,
        {
            proof {
                let d = self.doomed@;
                let e = d.push(children@[i as int]);
                assert forall|x: u64| among(d, self.cursor as int, x) implies among(e, self.cursor as int, x) by {
                    let w = choose|w: int| 0 <= w < self.cursor && #[trigger] d[w] == x;
                    assert(e[w] == x);
                }
            }
            self.doomed.push(children[i]);
            i += 1;
            assert(self.doomed@ =~= old(self).doomed@ + children@.take(i as int));
        }
        assert(children@.take(children@.len() as int) =~= children@);
    }

    /// Every collected node, root first, in the order collected (a node
    /// may occur more than once; deleting it again removes nothing).
    pub fn into_doomed(self) -> (r: Vec<u64>)
        ensures
            r@ == self.doomed(),
    {
        self.doomed
    }
}

/// A finished walk whose every question was answered with all the stored
/// children of the node asked about has collected a set closed under
/// children: with the root, every node stored below it, however deep.
pub proof fn law_finished_walk_collects_every_descendant(w: SubtreeWalk, rows: Seq<(u64, u64)>)
    requires
        w.wf(),
        w.taken() == w.doomed().len(),
        forall|i: int|
            0 <= i < rows.len() && w.asked().contains((#[trigger] rows[i]).1) ==> w.doomed().contains(rows[i].0),
    ensures
        forall|i: int| 0 <= i < rows.len() && w.doomed().contains((#[trigger] rows[i]).1) ==> w.doomed().contains(
            rows[i].0,
        ),
{
    assert forall|i: int| 0 <= i < rows.len() && w.doomed().contains((#[trigger] rows[i]).1) implies w.doomed().contains(
        rows[i].0,
    ) by {
        let k = choose|k: int| 0 <= k < w.doomed().len() && w.doomed()[k] == rows[i].1;
        assert(w.asked().contains(w.doomed()[k]));
    }
}

/// `x` occurs among the first `n` items of `s`.
pub open spec fn among(s: Seq<u64>, n: int, x: u64) -> bool {
    exists|w: int| 0 <= w < n && #[trigger] s[w] == x
}

fn contains_u64(v: &Vec<u64>, x: u64) -> (r: bool)
    ensures
        r == v@.contains(x),
{
    let mut i: usize = 0;
    while i < v.len()
        invariant
            i <= v@.len(),
            forall|k: int| 0 <= k < i ==> v@[k] != x,
        decreases v@.len() - i,
    {
        if v[i] == x {
            return true;
        }
        i += 1;
    }
    false
}

} // verus!
