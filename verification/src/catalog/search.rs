//! Ranking of the file index's candidates for a query.
//!
//! Names are matched on their UTF-8 bytes, as the index stores them; the
//! quality tiers are exact name 10 000, exact stem 9 500, and per token exact
//! 5 000, prefix 4 000, substring about 3 000, subsequence about 1 000, with a
//! penalty for noisy locations that stays below the gaps between tiers.

use vstd::prelude::*;
use vstd::utf8::encode_utf8;
use crate::catalog::types::CandidateEntry;
use crate::sorting::{sort_ranked, stable_sort, Ranked};
use crate::text::{
    chars_of, lex_lt, seq_eq, split_whitespace, str_eq, str_lex_lt, string_of, to_lowercase,
    trim, trim_exec, unicode_lowercase, views, words, byte_len, starts_with, starts_with_exec,
    rfind_char,
};

verus! {

pub const DEFAULT_LIMIT: usize = 10;

pub const MAX_LIMIT: usize = 20;

/// The most query bytes the subsequence tier scores without overflowing:
/// the largest length `n` with `1000 + 8 * n` within `i32`.
pub const MAX_QUERY_BYTES: usize = 268_435_330;

/// Requested result count, defaulted and held to `1..=20`.
pub open spec fn clamped_limit(limit: Option<usize>) -> usize {
    let l = match limit {
        Some(v) => v,
        None => DEFAULT_LIMIT,
    };
    if l < 1 {
        1
    } else if l > MAX_LIMIT {
        MAX_LIMIT
    } else {
        l
    }
}

pub fn clamp_limit(limit: Option<usize>) -> (r: usize)
    ensures
        r == clamped_limit(limit),
        1 <= r <= MAX_LIMIT,
{
    let l = match limit {
        Some(v) => v,
        None => DEFAULT_LIMIT,
    };
    if l < 1 {
        1
    } else if l > MAX_LIMIT {
        MAX_LIMIT
    } else {
        l
    }
}

pub open spec fn is_separator(c: char) -> bool {
    c == '\\' || c == '/'
}

/// Number of path separators in `s`.
pub open spec fn separator_count(s: Seq<char>) -> nat
    decreases s.len(),
{
    if s.len() == 0 {
        0
    } else {
        separator_count(s.drop_last()) + if is_separator(s.last()) {
            1nat
        } else {
            0nat
        }
    }
}

/// How deep a path is: its number of separators.
pub fn path_depth(path: &str) -> (r: usize)
    ensures
        r == separator_count(path@),
{
    let cs = chars_of(path);
    let mut n: usize = 0;
    let mut i: usize = 0;
    while i < cs.len()
        invariant
            i <= cs@.len(),
            n == separator_count(cs@.take(i as int)),
            n <= i,
        decreases cs@.len() - i,
    {
        proof {
            assert(cs@.take(i + 1).drop_last() =~= cs@.take(i as int));
        }
        if cs[i] == '\\' || cs[i] == '/' {
            n += 1;
        }
        i += 1;
    }
    assert(cs@.take(cs@.len() as int) =~= cs@);
    n
}

// ---------------------------------------------------------------------------
// File stems
// ---------------------------------------------------------------------------

/// `s` without trailing separators.
pub open spec fn trim_separators(s: Seq<char>) -> Seq<char>
    decreases s.len(),
{
    if s.len() > 0 && is_separator(s.last()) {
        trim_separators(s.drop_last())
    } else {
        s
    }
}

/// The text after the last separator of `s`.
pub open spec fn last_segment(s: Seq<char>) -> Seq<char>
    decreases s.len(),
{
    if s.len() == 0 || is_separator(s.last()) {
        seq![]
    } else {
        last_segment(s.drop_last()).push(s.last())
    }
}

/// The stem of a Windows path's final component: the component without its
/// last extension (a leading dot alone is no extension). An empty path, `.`
/// and `..` have none. Trailing separators are ignored.
pub open spec fn file_stem(path: Seq<char>) -> Option<Seq<char>> {
    let name = last_segment(trim_separators(path));
    if name.len() == 0 || name == seq!['.'] || name == seq!['.', '.'] {
        None
    } else {
        let dot = rfind_char(name, '.');
        if dot <= 0 {
            Some(name)
        } else {
            Some(name.take(dot))
        }
    }
}

fn trim_separators_len(s: &[char]) -> (r: usize)
    ensures
        r <= s@.len(),
        s@.take(r as int) == trim_separators(s@),
{
    let mut end = s.len();
    assert(s@.take(end as int) =~= s@);
    while end > 0 && (s[end - 1] == '\\' || s[end - 1] == '/')
        invariant
            end <= s@.len(),
            trim_separators(s@.take(end as int)) == trim_separators(s@),
        decreases end,
    {
        assert(s@.take(end as int).drop_last() =~= s@.take(end - 1));
        end -= 1;
    }
    end
}

fn last_segment_start(s: &[char], end: usize) -> (r: usize)
    requires
        end <= s@.len(),
    ensures
        r <= end,
        s@.subrange(r as int, end as int) == last_segment(s@.take(end as int)),
{
    let mut start = end;
    assert(s@.subrange(end as int, end as int) =~= seq![]);
    while start > 0 && !(s[start - 1] == '\\' || s[start - 1] == '/')
        invariant
            start <= end <= s@.len(),
            last_segment(s@.take(end as int)) == last_segment(s@.take(start as int)) + s@.subrange(
                start as int,
                end as int,
            ),
        decreases start,
    {
        proof {
            let t = s@.take(start as int);
            assert(t.drop_last() =~= s@.take(start - 1));
            assert(s@.subrange(start - 1, end as int) =~= seq![s@[start - 1]] + s@.subrange(
                start as int,
                end as int,
            ));
            assert(last_segment(t) == last_segment(t.drop_last()).push(t.last()));
            assert(last_segment(t.drop_last()).push(t.last()) + s@.subrange(start as int, end as int)
                =~= last_segment(t.drop_last()) + s@.subrange(start - 1, end as int));
        }
        start -= 1;
    }
    proof {
        assert(last_segment(s@.take(start as int)) =~= seq![]);
        assert(seq![] + s@.subrange(start as int, end as int) =~= s@.subrange(
            start as int,
            end as int,
        ));
    }
    start
}

fn rfind_dot(s: &[char]) -> (r: Option<usize>)
    ensures
        match r {
            Some(i) => i < s@.len() && rfind_char(s@, '.') == i,
            None => rfind_char(s@, '.') == -1,
        },
{
    let mut i = s.len();
    assert(s@.take(i as int) =~= s@);
    while i > 0 && s[i - 1] != '.'
        invariant
            i <= s@.len(),
            rfind_char(s@, '.') == rfind_char(s@.take(i as int), '.'),
        decreases i,
    {
        assert(s@.take(i as int).drop_last() =~= s@.take(i - 1));
        i -= 1;
    }
    if i == 0 {
        None
    } else {
        Some(i - 1)
    }
}

/// The stem of a path's final component (see `file_stem`).
pub fn file_stem_of(path: &str) -> (r: Option<String>)
    ensures
        match r {
            Some(s) => file_stem(path@) == Some(s@),
            None => file_stem(path@) is None,
        },
{
    let cs = chars_of(path);
    let end = trim_separators_len(cs.as_slice());
    let start = last_segment_start(cs.as_slice(), end);
    let mut name: Vec<char> = Vec::new();
    let mut i = start;
    while i < end
        invariant
            start <= i <= end <= cs@.len(),
            name@ == cs@.subrange(start as int, i as int),
        decreases end - i,
    {
        name.push(cs[i]);
        i += 1;
        assert(name@ =~= cs@.subrange(start as int, i as int));
    }
    assert(name@ == last_segment(trim_separators(path@)));
    if name.len() == 0 || (name.len() == 1 && name[0] == '.') || (name.len() == 2 && name[0] == '.'
        && name[1] == '.') {
        proof {
            if name@.len() == 1 {
                assert(name@ =~= seq!['.']);
            }
            if name@.len() == 2 {
                assert(name@ =~= seq!['.', '.']);
            }
        }
        return None;
    }
    assert(name@ != seq!['.']);
    assert(name@ != seq!['.', '.']);
    match rfind_dot(name.as_slice()) {
        None => Some(string_of(name.as_slice())),
        Some(0) => Some(string_of(name.as_slice())),
        Some(dot) => {
            let mut stem: Vec<char> = Vec::new();
            let mut k: usize = 0;
            while k < dot
                invariant
                    k <= dot,
                    dot < name@.len(),
                    stem@ == name@.take(k as int),
                decreases dot - k,
            {
                stem.push(name[k]);
                k += 1;
                assert(stem@ =~= name@.take(k as int));
            }
            Some(string_of(stem.as_slice()))
        },
    }
}

/// The extension of a Windows path's final component: the text after its
/// last dot, when that dot is not the component's first character.
pub open spec fn file_extension(path: Seq<char>) -> Option<Seq<char>> {
    let name = last_segment(trim_separators(path));
    if name.len() == 0 || name == seq!['.'] || name == seq!['.', '.'] {
        None
    } else {
        let dot = rfind_char(name, '.');
        if dot <= 0 {
            None
        } else {
            Some(name.skip(dot + 1))
        }
    }
}

fn final_component(cs: &[char]) -> (r: Vec<char>)
    ensures
        r@ == last_segment(trim_separators(cs@)),
{
    let end = trim_separators_len(cs);
    let start = last_segment_start(cs, end);
    let mut name: Vec<char> = Vec::new();
    let mut i = start;
    while i < end
        invariant
            start <= i <= end <= cs@.len(),
            name@ == cs@.subrange(start as int, i as int),
        decreases end - i,
    {
        name.push(cs[i]);
        i += 1;
        assert(name@ =~= cs@.subrange(start as int, i as int));
    }
    name
}

/// The extension of a path's final component (see `file_extension`).
pub fn file_extension_of(path: &str) -> (r: Option<String>)
    ensures
        match r {
            Some(s) => file_extension(path@) == Some(s@),
            None => file_extension(path@) is None,
        },
{
    let cs = chars_of(path);
    let name = final_component(cs.as_slice());
    if name.len() == 0 || (name.len() == 1 && name[0] == '.') || (name.len() == 2 && name[0] == '.'
        && name[1] == '.') {
        proof {
            if name@.len() == 1 {
                assert(name@ =~= seq!['.']);
            }
            if name@.len() == 2 {
                assert(name@ =~= seq!['.', '.']);
            }
        }
        return None;
    }
    assert(name@ != seq!['.']);
    assert(name@ != seq!['.', '.']);
    match rfind_dot(name.as_slice()) {
        None => None,
        Some(0) => None,
        Some(dot) => {
            let mut ext: Vec<char> = Vec::new();
            let mut k: usize = dot + 1;
            while k < name.len()
                invariant
                    dot < k <= name@.len(),
                    ext@ == name@.subrange(dot + 1, k as int),
                decreases name@.len() - k,
            {
                ext.push(name[k]);
                k += 1;
                assert(ext@ =~= name@.subrange(dot + 1, k as int));
            }
            assert(ext@ =~= name@.skip(dot + 1));
            Some(string_of(ext.as_slice()))
        },
    }
}

// ---------------------------------------------------------------------------
// Noise penalties
// ---------------------------------------------------------------------------

/// ASCII case folding of one byte.
pub open spec fn fold_byte(b: u8) -> u8 {
    if 65 <= b <= 90 {
        (b + 32) as u8
    } else {
        b
    }
}

pub open spec fn window_matches_ci(h: Seq<u8>, n: Seq<u8>, i: int) -> bool {
    forall|j: int| 0 <= j < n.len() ==> fold_byte(#[trigger] h[i + j]) == fold_byte(n[j])
}

/// Whether `n` occurs in `h`, ASCII case-insensitively, byte for byte.
pub open spec fn contains_ci(h: Seq<u8>, n: Seq<u8>) -> bool {
    &&& n.len() > 0
    &&& n.len() <= h.len()
    &&& exists|i: int| 0 <= i <= h.len() - n.len() && #[trigger] window_matches_ci(h, n, i)
}

fn fold(b: u8) -> (r: u8)
    ensures
        r == fold_byte(b),
{
    if 65 <= b && b <= 90 {
        b + 32
    } else {
        b
    }
}

fn window_eq_ci(h: &[u8], n: &[u8], i: usize) -> (r: bool)
    requires
        i + n@.len() <= h@.len(),
    ensures
        r == window_matches_ci(h@, n@, i as int),
{
    let hl = h.len();
    let mut j: usize = 0;
    while j < n.len()
        invariant
            hl == h@.len(),
            i + n@.len() <= h@.len(),
            j <= n@.len(),
            forall|m: int| 0 <= m < j ==> fold_byte(#[trigger] h@[i + m]) == fold_byte(n@[m]),
        decreases n@.len() - j,
    {
        if fold(h[i + j]) != fold(n[j]) {
            assert(fold_byte(h@[i + j]) != fold_byte(n@[j as int]));
            return false;
        }
        j += 1;
    }
    true
}

fn contains_ascii_ci(haystack: &str, needle: &str) -> (r: bool)
    ensures
        r == contains_ci(encode_utf8(haystack@), encode_utf8(needle@)),
{
    let h = haystack.as_bytes();
    let n = needle.as_bytes();
    if n.len() == 0 || h.len() < n.len() {
        return false;
    }
    let mut i: usize = 0;
    while i <= h.len() - n.len()
        invariant
            h@ == encode_utf8(haystack@),
            n@ == encode_utf8(needle@),
            0 < n@.len() <= h@.len(),
            i <= h@.len() - n@.len() + 1,
            forall|k: int| 0 <= k < i ==> !#[trigger] window_matches_ci(h@, n@, k),
        decreases h@.len() - i,
    {
        if window_eq_ci(h, n, i) {
            return true;
        }
        i += 1;
    }
    false
}

/// Noisy locations and the penalty a match inside each carries.
pub open spec fn location_penalties() -> Seq<(&'static str, i32)> {
    seq![
        ("\\$recycle.bin\\", 700),
        ("\\system volume information\\", 700),
        ("\\program files\\windowsapps\\", 600),
        ("\\windows\\", 600),
        ("\\windows.old\\", 500),
        ("\\$windows.~bt\\", 500),
        ("\\$windows.~ws\\", 500),
        ("\\node_modules\\", 500),
        ("\\.git\\", 400),
        ("\\.svn\\", 400),
        ("\\.hg\\", 400),
        ("\\appdata\\local\\temp\\", 300),
        ("\\recovery\\", 250),
        ("\\perflogs\\", 250),
        ("\\postgres_data\\", 200),
        ("\\pgdata\\", 200),
    ]
}

fn location_penalty_table() -> (r: Vec<(&'static str, i32)>)
    ensures
        r@ == location_penalties(),
{
    let r = vec![
        ("\\$recycle.bin\\", 700),
        ("\\system volume information\\", 700),
        ("\\program files\\windowsapps\\", 600),
        ("\\windows\\", 600),
        ("\\windows.old\\", 500),
        ("\\$windows.~bt\\", 500),
        ("\\$windows.~ws\\", 500),
        ("\\node_modules\\", 500),
        ("\\.git\\", 400),
        ("\\.svn\\", 400),
        ("\\.hg\\", 400),
        ("\\appdata\\local\\temp\\", 300),
        ("\\recovery\\", 250),
        ("\\perflogs\\", 250),
        ("\\postgres_data\\", 200),
        ("\\pgdata\\", 200),
    ];
    assert(r@ =~= location_penalties());
    r
}

/// File names that are system noise wherever they are.
pub open spec fn noise_file_names() -> Seq<&'static str> {
    seq!["desktop.ini", "thumbs.db", "pagefile.sys", "hiberfil.sys", "swapfile.sys"]
}

/// The largest penalty among the table's locations that `path` contains.
pub open spec fn location_penalty(path: Seq<u8>, table: Seq<(&'static str, i32)>) -> i32
    decreases table.len(),
{
    if table.len() == 0 {
        0
    } else {
        let rest = location_penalty(path, table.drop_last());
        let e = table.last();
        if contains_ci(path, encode_utf8(e.0@)) && e.1 > rest {
            e.1
        } else {
            rest
        }
    }
}

pub open spec fn is_noise_name(name: Seq<char>) -> bool {
    (exists|i: int| 0 <= i < noise_file_names().len() && #[trigger] noise_file_names()[i]@ == name)
        || starts_with(name, "ntuser.dat"@)
}

/// Noise penalty of a candidate: its noisiest location, or 800 for a noise
/// file name.
pub open spec fn path_penalty_of(display_path: Seq<char>, lower_name: Seq<char>) -> i32 {
    let p = location_penalty(encode_utf8(display_path), location_penalties());
    if is_noise_name(lower_name) && 800 > p {
        800
    } else {
        p
    }
}

fn is_noise(lower_name: &str) -> (r: bool)
    ensures
        r == is_noise_name(lower_name@),
{
    let names: Vec<&'static str> = vec![
        "desktop.ini",
        "thumbs.db",
        "pagefile.sys",
        "hiberfil.sys",
        "swapfile.sys",
    ];
    assert(names@ =~= noise_file_names());
    let mut i: usize = 0;
    while i < names.len()
        invariant
            names@ == noise_file_names(),
            i <= names@.len(),
            forall|k: int| 0 <= k < i ==> #[trigger] names@[k]@ != lower_name@,
        decreases names@.len() - i,
    {
        if str_eq(names[i], lower_name) {
            assert(noise_file_names()[i as int]@ == lower_name@);
            return true;
        }
        i += 1;
    }
    let name_chars = chars_of(lower_name);
    let prefix = chars_of("ntuser.dat");
    starts_with_exec(name_chars.as_slice(), prefix.as_slice())
}

fn path_penalty(display_path: &str, lower_name: &str) -> (r: i32)
    ensures
        r == path_penalty_of(display_path@, lower_name@),
        0 <= r <= 800,
{
    let table = location_penalty_table();
    let mut penalty: i32 = 0;
    let mut i: usize = 0;
    assert(table@.take(0) =~= seq![]);
    while i < table.len()
        invariant
            table@ == location_penalties(),
            i <= table@.len(),
            penalty == location_penalty(encode_utf8(display_path@), table@.take(i as int)),
            0 <= penalty <= 700,
        decreases table@.len() - i,
    {
        proof {
            assert(table@.take(i + 1).drop_last() =~= table@.take(i as int));
            assert(table@.take(i + 1).last() == table@[i as int]);
        }
        let (needle, value) = table[i];
        if contains_ascii_ci(display_path, needle) && value > penalty {
            penalty = value;
        }
        i += 1;
    }
    assert(table@.take(table@.len() as int) =~= table@);
    if is_noise(lower_name) && 800 > penalty {
        penalty = 800;
    }
    penalty
}

// ---------------------------------------------------------------------------
// Target scores
// ---------------------------------------------------------------------------

pub open spec fn bytes_match_at(t: Seq<u8>, q: Seq<u8>, i: int) -> bool {
    0 <= i && i + q.len() <= t.len() && t.subrange(i, i + q.len()) == q
}

/// First byte offset at or after `i` where `q` occurs in `t`.
pub open spec fn bytes_find_from(t: Seq<u8>, q: Seq<u8>, i: int) -> Option<int>
    decreases t.len() + 1 - i,
{
    if i < 0 || i + q.len() > t.len() {
        None
    } else if bytes_match_at(t, q, i) {
        Some(i)
    } else {
        bytes_find_from(t, q, i + 1)
    }
}

/// Bytes after which a match starts a word.
pub open spec fn is_boundary_byte(b: u8) -> bool {
    b == 32 || b == 45 || b == 95 || b == 46 || b == 92 || b == 47
}

/// The byte subsequence walk: `q[matched]` is sought from `t[i]`; gaps count
/// unmatched bytes after the first match. A complete match scores
/// `1000 + 8 * |q| - min(gaps, 120)`, unless a query of three or more bytes
/// was spread over more than `max(2 |q|, 6)` gaps.
pub open spec fn subsequence_walk(q: Seq<u8>, t: Seq<u8>, i: int, matched: int, gaps: int) -> Option<
    i32,
>
    decreases t.len() - i,
{
    if i >= t.len() || i < 0 || matched < 0 || matched >= q.len() {
        None
    } else if t[i] == q[matched] {
        if matched + 1 < q.len() {
            subsequence_walk(q, t, i + 1, matched + 1, gaps)
        } else {
            let ql = q.len() as int;
            let limit = if ql * 2 > 6 {
                ql * 2
            } else {
                6
            };
            if ql >= 3 && gaps > limit {
                None
            } else {
                Some(
                    (1000 + (matched + 1) * 8 - (if gaps < 120 {
                        gaps
                    } else {
                        120
                    })) as i32,
                )
            }
        }
    } else if matched > 0 {
        subsequence_walk(q, t, i + 1, matched, gaps + 1)
    } else {
        subsequence_walk(q, t, i + 1, matched, gaps)
    }
}

/// Score of one query token against a lowercased name: exact 5000, prefix
/// 4000, substring `3000 - 2 min(pos, 100)` plus 500 at a word start, else
/// the subsequence tier; `None` when the token is not in the name at all.
pub open spec fn match_score(q: Seq<u8>, t: Seq<u8>) -> Option<i32> {
    if t == q {
        Some(5000)
    } else if q.len() <= t.len() && t.take(q.len() as int) == q {
        Some(4000)
    } else {
        match bytes_find_from(t, q, 0) {
            Some(p) => Some(
                (3000 - (if p < 100 {
                    p
                } else {
                    100
                }) * 2 + if p == 0 || is_boundary_byte(t[p - 1]) {
                    500int
                } else {
                    0int
                }) as i32,
            ),
            None => if q.len() == 0 {
                None
            } else {
                subsequence_walk(q, t, 0, 0, 0)
            },
        }
    }
}

fn bytes_equal(a: &[u8], b: &[u8]) -> (r: bool)
    ensures
        r == (a@ == b@),
{
    if a.len() != b.len() {
        return false;
    }
    let mut i: usize = 0;
    while i < a.len()
        invariant
            a@.len() == b@.len(),
            i <= a@.len(),
            forall|k: int| 0 <= k < i ==> a@[k] == b@[k],
        decreases a@.len() - i,
    {
        if a[i] != b[i] {
            return false;
        }
        i += 1;
    }
    assert(a@ =~= b@);
    true
}

fn bytes_match(t: &[u8], q: &[u8], at: usize) -> (r: bool)
    requires
        at + q@.len() <= t@.len(),
    ensures
        r == bytes_match_at(t@, q@, at as int),
{
    let tl = t.len();
    let mut j: usize = 0;
    while j < q.len()
        invariant
            tl == t@.len(),
            at + q@.len() <= t@.len(),
            j <= q@.len(),
            forall|k: int| 0 <= k < j ==> t@[at + k] == q@[k],
        decreases q@.len() - j,
    {
        assert(at + j < t@.len());
        if t[at + j] != q[j] {
            assert(t@.subrange(at as int, at + q@.len())[j as int] != q@[j as int]);
            return false;
        }
        j += 1;
    }
    assert(t@.subrange(at as int, at + q@.len()) =~= q@);
    true
}

proof fn lemma_find_from_matches(t: Seq<u8>, q: Seq<u8>, i: int)
    ensures
        bytes_find_from(t, q, i) matches Some(p) ==> p >= i && bytes_match_at(t, q, p),
    decreases t.len() + 1 - i,
{
    if !(i < 0 || i + q.len() > t.len()) && !bytes_match_at(t, q, i) {
        lemma_find_from_matches(t, q, i + 1);
    }
}

fn bytes_find(t: &[u8], q: &[u8]) -> (r: Option<usize>)
    ensures
        match r {
            Some(p) => bytes_find_from(t@, q@, 0) == Some(p as int) && p + q@.len() <= t@.len(),
            None => bytes_find_from(t@, q@, 0) is None,
        },
{
    if q.len() > t.len() {
        return None;
    }
    if q.len() == 0 {
        assert(t@.subrange(0, 0) =~= q@);
        return Some(0);
    }
    let mut i: usize = 0;
    while i <= t.len() - q.len()
        invariant
            0 < q@.len() <= t@.len(),
            i <= t@.len() - q@.len() + 1,
            bytes_find_from(t@, q@, 0) == bytes_find_from(t@, q@, i as int),
        decreases t@.len() + 1 - i,
    {
        if bytes_match(t, q, i) {
            return Some(i);
        }
        i += 1;
    }
    None
}

/// Scores `query` against `target` (see `match_score`).
pub fn target_score(query: &str, target: &str) -> (r: Option<i32>)
    requires
        encode_utf8(query@).len() <= MAX_QUERY_BYTES,
        encode_utf8(target@).len() < i32::MAX,
    ensures
        r == match_score(encode_utf8(query@), encode_utf8(target@)),
{
    let q = query.as_bytes();
    let t = target.as_bytes();
    if bytes_equal(t, q) {
        return Some(5000);
    }
    if q.len() <= t.len() && bytes_match(t, q, 0) {
        assert(t@.subrange(0, q@.len() as int) =~= t@.take(q@.len() as int));
        return Some(4000);
    }
    proof {
        if q@.len() <= t@.len() {
            assert(t@.subrange(0, q@.len() as int) =~= t@.take(q@.len() as int));
        }
    }
    match bytes_find(t, q) {
        Some(p) => {
            let capped: i32 = if p < 100 {
                p as i32
            } else {
                100
            };
            let boundary = p == 0 || {
                let b = t[p - 1];
                b == 32 || b == 45 || b == 95 || b == 46 || b == 92 || b == 47
            };
            return Some(
                3000 - capped * 2 + if boundary {
                    500
                } else {
                    0
                },
            );
        },
        None => {},
    }
    if q.len() == 0 {
        return None;
    }
    let query_length = q.len() as i32;
    let mut current = q[0];
    let mut matched: i32 = 0;
    let mut gaps: i32 = 0;
    let mut i: usize = 0;
    while i < t.len()
        invariant
            q@ == encode_utf8(query@),
            t@ == encode_utf8(target@),
            0 < q@.len() <= MAX_QUERY_BYTES,
            t@.len() < i32::MAX,
            query_length == q@.len(),
            i <= t@.len(),
            0 <= matched < q@.len(),
            0 <= gaps <= i,
            current == q@[matched as int],
            match_score(q@, t@) == subsequence_walk(q@, t@, i as int, matched as int, gaps as int),
        decreases t@.len() - i,
    {
        if t[i] == current {
            matched += 1;
            if (matched as usize) < q.len() {
                current = q[matched as usize];
            } else {
                let limit = if query_length * 2 > 6 {
                    query_length * 2
                } else {
                    6
                };
                if query_length >= 3 && gaps > limit {
                    return None;
                }
                let capped = if gaps < 120 {
                    gaps
                } else {
                    120
                };
                return Some(1000 + matched * 8 - capped);
            }
        } else if matched > 0 {
            gaps += 1;
        }
        i += 1;
    }
    None
}

// ---------------------------------------------------------------------------
// Entry scores
// ---------------------------------------------------------------------------

pub open spec fn token_bytes(tokens: Seq<&str>) -> Seq<Seq<u8>> {
    tokens.map_values(|t: &str| encode_utf8(t@))
}

/// Sum of every token's score, starting from `start`; `None` as soon as one
/// token does not match.
pub open spec fn token_total(tokens: Seq<Seq<u8>>, name: Seq<u8>, start: int) -> Option<int>
    decreases tokens.len(),
{
    if tokens.len() == 0 {
        Some(start)
    } else {
        match token_total(tokens.drop_last(), name, start) {
            None => None,
            Some(total) => match match_score(tokens.last(), name) {
                None => None,
                Some(s) => Some(total + s),
            },
        }
    }
}

/// Score of one candidate for a query: the exact name, then the exact stem,
/// then the sum over the tokens less the name length (at most 80) — each
/// less the noise penalty, directories 20 higher.
pub open spec fn entry_score_of(entry: CandidateEntry, tokens: Seq<Seq<u8>>, full_query: Seq<char>) -> Option<
    i32,
> {
    let penalty = path_penalty_of(entry.display_path@, entry.lower_name@);
    let bonus: int = if entry.is_directory {
        20
    } else {
        0
    };
    if entry.lower_name@ == full_query {
        Some((10000 - penalty + bonus) as i32)
    } else if file_stem(entry.lower_name@) == Some(full_query) {
        Some((9500 - penalty + bonus) as i32)
    } else {
        let len = byte_len(entry.lower_name@);
        match token_total(tokens, encode_utf8(entry.lower_name@), bonus) {
            None => None,
            Some(total) => Some(
                (total - (if len < 80 {
                    len as int
                } else {
                    80
                }) - penalty) as i32,
            ),
        }
    }
}

/// Sum over the tokens of `5000 + 8 * length`, a bound on their scores.
pub open spec fn token_weight(tokens: Seq<Seq<u8>>) -> int
    decreases tokens.len(),
{
    if tokens.len() == 0 {
        0
    } else {
        token_weight(tokens.drop_last()) + 5000 + 8 * tokens.last().len()
    }
}

proof fn lemma_token_weight_prefix(tokens: Seq<Seq<u8>>, i: int)
    requires
        0 <= i <= tokens.len(),
    ensures
        token_weight(tokens.take(i)) <= token_weight(tokens),
        token_weight(tokens.take(i)) >= 0,
    decreases tokens.len() - i,
{
    if i < tokens.len() {
        lemma_token_weight_prefix(tokens, i + 1);
        assert(tokens.take(i + 1).drop_last() =~= tokens.take(i));
    } else {
        assert(tokens.take(i) =~= tokens);
    }
    lemma_token_weight_nonneg(tokens.take(i));
}

proof fn lemma_token_weight_nonneg(tokens: Seq<Seq<u8>>)
    ensures
        token_weight(tokens) >= 0,
    decreases tokens.len(),
{
    if tokens.len() > 0 {
        lemma_token_weight_nonneg(tokens.drop_last());
    }
}

proof fn lemma_match_score_bounds(q: Seq<u8>, t: Seq<u8>)
    requires
        q.len() <= MAX_QUERY_BYTES,
    ensures
        match_score(q, t) matches Some(s) ==> 0 <= s <= 5000 + 8 * q.len(),
{
    if !(t == q) && !(q.len() <= t.len() && t.take(q.len() as int) == q) {
        lemma_find_from_matches(t, q, 0);
        if bytes_find_from(t, q, 0) is None && q.len() > 0 {
            lemma_walk_bounds(q, t, 0, 0, 0);
        }
    }
}

proof fn lemma_walk_bounds(q: Seq<u8>, t: Seq<u8>, i: int, matched: int, gaps: int)
    requires
        q.len() <= MAX_QUERY_BYTES,
        gaps >= 0,
    ensures
        subsequence_walk(q, t, i, matched, gaps) matches Some(s) ==> 0 <= s <= 1000 + 8 * q.len(),
    decreases t.len() - i,
{
    if i < t.len() && i >= 0 && matched >= 0 && matched < q.len() {
        if t[i] == q[matched] {
            if matched + 1 < q.len() {
                lemma_walk_bounds(q, t, i + 1, matched + 1, gaps);
            }
        } else if matched > 0 {
            lemma_walk_bounds(q, t, i + 1, matched, gaps + 1);
        } else {
            lemma_walk_bounds(q, t, i + 1, matched, gaps);
        }
    }
}

/// Scores one index candidate for a query already split into lowercase
/// tokens (see `entry_score_of`). The tokens' scores must add up within
/// `i32`, as the scorer's arithmetic is `i32`.
pub fn entry_score(entry: &CandidateEntry, tokens: &[&str], full_query: &str) -> (r: Option<i32>)
    requires
        token_weight(token_bytes(tokens@)) + 20 <= i32::MAX,
        encode_utf8(entry.lower_name@).len() < i32::MAX,
    ensures
        r == entry_score_of(*entry, token_bytes(tokens@), full_query@),
{
    let lower_name = entry.lower_name.as_str();
    let penalty = path_penalty(entry.display_path.as_str(), lower_name);
    let bonus: i32 = if entry.is_directory {
        20
    } else {
        0
    };
    if str_eq(lower_name, full_query) {
        return Some(10000 - penalty + bonus);
    }
    match file_stem_of(lower_name) {
        Some(stem) => {
            if str_eq(stem.as_str(), full_query) {
                return Some(9500 - penalty + bonus);
            }
        },
        None => {},
    }
    let ghost toks = token_bytes(tokens@);
    let mut total: i32 = bonus;
    let mut i: usize = 0;
    assert(toks.take(0) =~= seq![]);
    while i < tokens.len()
        invariant
            toks == token_bytes(tokens@),
            toks.len() == tokens@.len(),
            token_weight(toks) + 20 <= i32::MAX,
            encode_utf8(lower_name@).len() < i32::MAX,
            lower_name@ == entry.lower_name@,
            entry.lower_name@ != full_query@,
            bonus == (if entry.is_directory {
                20i32
            } else {
                0i32
            }),
            file_stem(entry.lower_name@) != Some(full_query@),
            i <= tokens@.len(),
            0 <= total <= 20 + token_weight(toks.take(i as int)),
            token_total(toks.take(i as int), encode_utf8(lower_name@), bonus as int) == Some(total as int),
        decreases tokens@.len() - i,
    {
        proof {
            assert(toks.take(i + 1).drop_last() =~= toks.take(i as int));
            assert(toks.take(i + 1).last() == encode_utf8(tokens@[i as int]@));
            lemma_token_weight_prefix(toks, i + 1);
            assert(token_weight(toks.take(i + 1)) == token_weight(toks.take(i as int)) + 5000 + 8
                * toks[i as int].len());
            lemma_token_weight_nonneg(toks.take(i as int));
            assert(toks[i as int] == encode_utf8(tokens@[i as int]@));
            lemma_match_score_bounds(encode_utf8(tokens@[i as int]@), encode_utf8(lower_name@));
        }
        match target_score(tokens[i], lower_name) {
            None => {
                proof {
                    lemma_token_total_none(toks, encode_utf8(lower_name@), bonus as int, i as int);
                    assert(token_total(token_bytes(tokens@), encode_utf8(entry.lower_name@), bonus as int) is None);
                }
                return None;
            },
            Some(s) => {
                total = total + s;
            },
        }
        i += 1;
    }
    assert(toks.take(i as int) =~= toks);
    let len = lower_name.len();
    let capped: i32 = if len < 80 {
        len as i32
    } else {
        80
    };
    Some(total - capped - penalty)
}

proof fn lemma_token_total_none(toks: Seq<Seq<u8>>, name: Seq<u8>, start: int, i: int)
    requires
        0 <= i < toks.len(),
        token_total(toks.take(i + 1), name, start) is None,
    ensures
        token_total(toks, name, start) is None,
    decreases toks.len() - i,
{
    if i + 1 < toks.len() {
        assert(toks.take(i + 2).drop_last() =~= toks.take(i + 1));
        lemma_token_total_none(toks, name, start, i + 1);
    } else {
        assert(toks.take(i + 1) =~= toks);
    }
}

// ---------------------------------------------------------------------------
// Ranking and picking
// ---------------------------------------------------------------------------

/// How many index candidates to fetch for `limit` results.
pub open spec fn candidate_count(limit: usize) -> usize {
    if limit * 15 > 150 {
        (limit * 15) as usize
    } else {
        150
    }
}

pub fn candidate_limit(limit: usize) -> (r: usize)
    requires
        limit <= MAX_LIMIT,
    ensures
        r == candidate_count(limit),
{
    if limit * 15 > 150 {
        limit * 15
    } else {
        150
    }
}

/// Whether a trimmed query is long enough (two characters) to search the
/// index at all.
pub fn long_enough(query_trimmed: &str) -> (r: bool)
    ensures
        r == (query_trimmed@.len() >= 2),
{
    let cs = chars_of(query_trimmed);
    cs.len() >= 2
}

/// The whitespace-separated tokens of a lowercased query.
pub fn query_tokens(query_lower: &str) -> (r: Vec<String>)
    ensures
        r@.map_values(|t: String| t@) == words(query_lower@),
{
    let cs = chars_of(query_lower);
    let parts = split_whitespace(cs.as_slice());
    let mut out: Vec<String> = Vec::new();
    let mut i: usize = 0;
    while i < parts.len()
        invariant
            i <= parts@.len(),
            views(parts@) == words(query_lower@),
            out@.len() == i,
            forall|k: int| 0 <= k < i ==> (#[trigger] out@[k])@ == parts@[k]@,
        decreases parts@.len() - i,
    {
        out.push(string_of(parts[i].as_slice()));
        i += 1;
    }
    assert(out@.map_values(|t: String| t@) =~= views(parts@));
    out
}

/// A candidate with its score, in result order: best score, then shorter
/// name, then name, then shallower path, then shorter path, then path
/// ignoring case.
pub struct ScoredCandidate {
    pub score: i32,
    pub entry: CandidateEntry,
}

impl Ranked for ScoredCandidate {
    open spec fn spec_precedes(&self, other: &Self) -> bool {
        let (a, b) = (self.entry, other.entry);
        let (la, lb) = (byte_len(a.lower_name@), byte_len(b.lower_name@));
        let (da, db) = (separator_count(a.display_path@), separator_count(b.display_path@));
        let (pa, pb) = (byte_len(a.display_path@), byte_len(b.display_path@));
        if self.score != other.score {
            self.score > other.score
        } else if la != lb {
            la < lb
        } else if a.lower_name@ != b.lower_name@ {
            lex_lt(a.lower_name@, b.lower_name@)
        } else if da != db {
            da < db
        } else if pa != pb {
            pa < pb
        } else {
            lex_lt(unicode_lowercase(a.display_path@), unicode_lowercase(b.display_path@))
        }
    }

    fn precedes(&self, other: &Self) -> (r: bool) {
        if self.score != other.score {
            return self.score > other.score;
        }
        let (a, b) = (&self.entry, &other.entry);
        let (la, lb) = (a.lower_name.as_str().as_bytes().len(), b.lower_name.as_str().as_bytes().len());
        if la != lb {
            return la < lb;
        }
        if !str_eq(a.lower_name.as_str(), b.lower_name.as_str()) {
            return str_lex_lt(a.lower_name.as_str(), b.lower_name.as_str());
        }
        let (da, db) = (path_depth(a.display_path.as_str()), path_depth(b.display_path.as_str()));
        if da != db {
            return da < db;
        }
        let (pa, pb) = (
            a.display_path.as_str().as_bytes().len(),
            b.display_path.as_str().as_bytes().len(),
        );
        if pa != pb {
            return pa < pb;
        }
        let al = to_lowercase(a.display_path.as_str());
        let bl = to_lowercase(b.display_path.as_str());
        str_lex_lt(al.as_str(), bl.as_str())
    }
}

/// The candidates that score, in fetch order.
pub open spec fn scored_candidates(
    tokens: Seq<Seq<u8>>,
    full_query: Seq<char>,
    cs: Seq<CandidateEntry>,
) -> Seq<ScoredCandidate>
    decreases cs.len(),
{
    if cs.len() == 0 {
        seq![]
    } else {
        let rest = scored_candidates(tokens, full_query, cs.drop_last());
        match entry_score_of(cs.last(), tokens, full_query) {
            Some(s) => rest.push(ScoredCandidate { score: s, entry: cs.last() }),
            None => rest,
        }
    }
}

/// Scores the candidates and puts them in result order.
pub fn rank_candidates(query_lower: &str, tokens: &[&str], candidates: Vec<CandidateEntry>) -> (r:
    Vec<ScoredCandidate>)
    requires
        token_weight(token_bytes(tokens@)) + 20 <= i32::MAX,
        forall|i: int|
            0 <= i < candidates@.len() ==> encode_utf8((#[trigger] candidates@[i]).lower_name@).len()
                < i32::MAX,
    ensures
        r@ == stable_sort(scored_candidates(token_bytes(tokens@), query_lower@, candidates@)),
{
    let ghost orig = candidates@;
    let n = candidates.len();
    let mut rest = candidates;
    let mut scored: Vec<ScoredCandidate> = Vec::new();
    let mut k: usize = 0;
    assert(orig.take(0) =~= seq![]);
    assert(orig.skip(0) =~= orig);
    while rest.len() > 0
        invariant
            k + rest@.len() == n,
            n == orig.len(),
            rest@ == orig.skip(k as int),
            token_weight(token_bytes(tokens@)) + 20 <= i32::MAX,
            forall|i: int|
                0 <= i < orig.len() ==> encode_utf8((#[trigger] orig[i]).lower_name@).len() < i32::MAX,
            scored@ == scored_candidates(token_bytes(tokens@), query_lower@, orig.take(k as int)),
        decreases rest@.len(),
    {
        let c = rest.remove(0);
        proof {
            assert(orig.take(k + 1).drop_last() =~= orig.take(k as int));
            assert(orig.take(k + 1).last() == c);
            assert(orig[k as int] == c);
        }
        match entry_score(&c, tokens, query_lower) {
            Some(s) => scored.push(ScoredCandidate { score: s, entry: c }),
            None => {},
        }
        k += 1;
        assert(rest@ =~= orig.skip(k as int));
    }
    assert(orig.take(k as int) =~= orig);
    sort_ranked(scored)
}

/// Indices of the ranked candidates that become results, from position `i`
/// with `seen` the lowercased paths already taken: a candidate whose file no
/// longer exists, or whose path was taken, is skipped; picking stops at
/// `limit` results.
pub open spec fn picks_from(
    paths: Seq<Seq<char>>,
    exists: Seq<bool>,
    limit: int,
    i: int,
    seen: Seq<Seq<char>>,
) -> Seq<int>
    decreases paths.len() - i,
{
    if i < 0 || i >= paths.len() || seen.len() >= limit {
        seq![]
    } else if !exists[i] {
        picks_from(paths, exists, limit, i + 1, seen)
    } else {
        let key = unicode_lowercase(paths[i]);
        if seen.contains(key) {
            picks_from(paths, exists, limit, i + 1, seen)
        } else {
            seq![i].add(picks_from(paths, exists, limit, i + 1, seen.push(key)))
        }
    }
}

pub open spec fn display_paths(s: Seq<ScoredCandidate>) -> Seq<Seq<char>> {
    s.map_values(|c: ScoredCandidate| c.entry.display_path@)
}

fn seen_contains(seen: &Vec<String>, key: &str) -> (r: bool)
    ensures
        r == seen@.map_values(|s: String| s@).contains(key@),
{
    let mut i: usize = 0;
    while i < seen.len()
        invariant
            i <= seen@.len(),
            forall|k: int| 0 <= k < i ==> (#[trigger] seen@[k])@ != key@,
        decreases seen@.len() - i,
    {
        if str_eq(seen[i].as_str(), key) {
            assert(seen@.map_values(|s: String| s@)[i as int] == key@);
            return true;
        }
        i += 1;
    }
    proof {
        let v = seen@.map_values(|s: String| s@);
        assert forall|k: int| 0 <= k < v.len() implies v[k] != key@ by {
            assert(v[k] == seen@[k]@);
        }
    }
    false
}

/// Picks the results among the ranked candidates, given whether each one's
/// file still exists (see `picks_from`).
pub fn pick_results(ranked: &[ScoredCandidate], exists: &[bool], limit: usize) -> (r: Vec<usize>)
    requires
        exists@.len() == ranked@.len(),
    ensures
        r@.map_values(|i: usize| i as int) == picks_from(
            display_paths(ranked@),
            exists@,
            limit as int,
            0,
            seq![],
        ),
{
    let ghost paths = display_paths(ranked@);
    let mut out: Vec<usize> = Vec::new();
    let mut seen: Vec<String> = Vec::new();
    let mut i: usize = 0;
    assert(out@.map_values(|i: usize| i as int) =~= seq![]);
    assert(seen@.map_values(|s: String| s@) =~= seq![]);
    assert(seq![] + picks_from(paths, exists@, limit as int, 0, seq![]) =~= picks_from(
        paths,
        exists@,
        limit as int,
        0,
        seq![],
    ));
    while i < ranked.len() && out.len() < limit
        invariant
            paths == display_paths(ranked@),
            exists@.len() == ranked@.len(),
            i <= ranked@.len(),
            seen@.len() == out@.len(),
            picks_from(paths, exists@, limit as int, 0, seq![]) == out@.map_values(
                |i: usize| i as int,
            ) + picks_from(paths, exists@, limit as int, i as int, seen@.map_values(|s: String| s@)),
        decreases ranked@.len() - i,
    {
        let ghost sv = seen@.map_values(|s: String| s@);
        if exists[i] {
            let key = to_lowercase(ranked[i].entry.display_path.as_str());
            assert(paths[i as int] == ranked@[i as int].entry.display_path@);
            if !seen_contains(&seen, key.as_str()) {
                let ghost before = out@.map_values(|i: usize| i as int);
                out.push(i);
                seen.push(key);
                proof {
                    assert(seen@.map_values(|s: String| s@) =~= sv.push(unicode_lowercase(paths[i as int])));
                    assert(out@.map_values(|i: usize| i as int) =~= before.push(i as int));
                    assert(before.push(i as int) + picks_from(paths, exists@, limit as int, i + 1, sv.push(unicode_lowercase(paths[i as int])))
                        =~= before + (seq![i as int] + picks_from(paths, exists@, limit as int, i + 1, sv.push(unicode_lowercase(paths[i as int])))));
                }
            }
        }
        i += 1;
    }
    proof {
        let sv = seen@.map_values(|s: String| s@);
        assert(picks_from(paths, exists@, limit as int, i as int, sv) =~= seq![]);
    }
    assert(out@.map_values(|i: usize| i as int) =~= out@.map_values(|i: usize| i as int) + seq![]);
    out
}

/// Search picks at most `limit` results, every one existing, no two with
/// paths equal ignoring case (and none equal to a path already taken in
/// `seen`); picks come in ranking order.
pub proof fn law_picks_are_bounded_existing_distinct(
    paths: Seq<Seq<char>>,
    exists: Seq<bool>,
    limit: int,
    i: int,
    seen: Seq<Seq<char>>,
)
    requires
        exists.len() == paths.len(),
        0 <= i,
    ensures
        ({
            let p = picks_from(paths, exists, limit, i, seen);
            &&& seen.len() + p.len() <= if seen.len() < limit { limit } else { seen.len() as int }
            &&& forall|k: int| 0 <= k < p.len() ==> i <= #[trigger] p[k] < paths.len() && exists[p[k]]
                && !seen.contains(unicode_lowercase(paths[p[k]]))
            &&& forall|k: int, l: int| 0 <= k < l < p.len() ==> p[k] < p[l] && unicode_lowercase(
                paths[#[trigger] p[k]],
            ) != unicode_lowercase(paths[#[trigger] p[l]])
        }),
    decreases paths.len() - i,
{
    if i >= paths.len() || seen.len() >= limit {
    } else if !exists[i] {
        law_picks_are_bounded_existing_distinct(paths, exists, limit, i + 1, seen);
    } else {
        let key = unicode_lowercase(paths[i]);
        if seen.contains(key) {
            law_picks_are_bounded_existing_distinct(paths, exists, limit, i + 1, seen);
        } else {
            let s2 = seen.push(key);
            law_picks_are_bounded_existing_distinct(paths, exists, limit, i + 1, s2);
            let rest = picks_from(paths, exists, limit, i + 1, s2);
            let p = picks_from(paths, exists, limit, i, seen);
            assert(p == seq![i].add(rest));
            assert forall|k: int| 0 <= k < p.len() implies i <= #[trigger] p[k] < paths.len() && exists[p[k]]
                && !seen.contains(unicode_lowercase(paths[p[k]])) by {
                if k > 0 {
                    assert(p[k] == rest[k - 1]);
                    assert(!s2.contains(unicode_lowercase(paths[rest[k - 1]])));
                    if seen.contains(unicode_lowercase(paths[p[k]])) {
                        let w = choose|w: int| 0 <= w < seen.len() && seen[w] == unicode_lowercase(paths[p[k]]);
                        assert(s2[w] == seen[w]);
                    }
                }
            }
            assert forall|k: int, l: int| 0 <= k < l < p.len() implies p[k] < p[l] && unicode_lowercase(
                paths[#[trigger] p[k]],
            ) != unicode_lowercase(paths[#[trigger] p[l]]) by {
                assert(p[l] == rest[l - 1]);
                if k == 0 {
                    assert(!s2.contains(unicode_lowercase(paths[rest[l - 1]])));
                    assert(s2[seen.len() as int] == key);
                } else {
                    assert(p[k] == rest[k - 1]);
                }
            }
        }
    }
}

/// Picks results one ranked candidate at a time, so that the caller checks
/// on disk only the candidates it reaches (see `picks_from`).
pub struct ResultPicker {
    seen: Vec<String>,
    limit: usize,
}

impl ResultPicker {
    /// The lowercase paths taken so far.
    pub closed spec fn taken(&self) -> Seq<Seq<char>> {
        self.seen@.map_values(|s: String| s@)
    }

    pub closed spec fn limit(&self) -> usize {
        self.limit
    }

    pub fn new(limit: usize) -> (r: Self)
        ensures
            r.taken() == Seq::<Seq<char>>::empty(),
            r.limit() == limit,
    {
        let r = ResultPicker { seen: Vec::new(), limit };
        assert(r.taken() =~= Seq::<Seq<char>>::empty());
        r
    }

    /// Whether more results are wanted.
    pub fn wants_more(&self) -> (r: bool)
        ensures
            r == (self.taken().len() < self.limit()),
    {
        self.seen.len() < self.limit
    }

    /// Offers the next candidate in ranking order, with whether its file
    /// exists: it is taken when it exists and its path, ignoring case, was
    /// not taken before.
    pub fn offer(&mut self, path: &str, exists: bool) -> (r: bool)
        ensures
            final(self).limit() == old(self).limit(),
            r == (exists && !old(self).taken().contains(unicode_lowercase(path@))),
            r ==> final(self).taken() == old(self).taken().push(unicode_lowercase(path@)),
            !r ==> final(self).taken() == old(self).taken(),
    {
        if !exists {
            return false;
        }
        let key = to_lowercase(path);
        if seen_contains(&self.seen, key.as_str()) {
            return false;
        }
        let ghost before = self.taken();
        self.seen.push(key);
        assert(self.taken() =~= before.push(unicode_lowercase(path@)));
        true
    }
}

/// Driving the picker over the ranked candidates in order, while it wants
/// more, takes exactly the candidates `pick_results` picks: one step of the
/// picker is one step of `picks_from`.
pub proof fn law_picker_follows_picks(
    paths: Seq<Seq<char>>,
    exists: Seq<bool>,
    limit: int,
    i: int,
    seen: Seq<Seq<char>>,
)
    requires
        0 <= i < paths.len(),
        exists.len() == paths.len(),
        seen.len() < limit,
    ensures
        (exists[i] && !seen.contains(unicode_lowercase(paths[i]))) ==> picks_from(paths, exists, limit, i, seen)
            == seq![i].add(picks_from(paths, exists, limit, i + 1, seen.push(unicode_lowercase(paths[i])))),
        !(exists[i] && !seen.contains(unicode_lowercase(paths[i]))) ==> picks_from(
            paths,
            exists,
            limit,
            i,
            seen,
        ) == picks_from(paths, exists, limit, i + 1, seen),
{
}

proof fn lemma_location_penalty_bounds(path: Seq<u8>, table: Seq<(&'static str, i32)>)
    requires
        forall|i: int| 0 <= i < table.len() ==> 0 <= (#[trigger] table[i]).1 <= 1000,
    ensures
        0 <= location_penalty(path, table) <= 1000,
    decreases table.len(),
{
    if table.len() > 0 {
        assert(table.last() == table[table.len() - 1]);
        lemma_location_penalty_bounds(path, table.drop_last());
    }
}

proof fn lemma_path_penalty_bounds(display_path: Seq<char>, lower_name: Seq<char>)
    ensures
        0 <= path_penalty_of(display_path, lower_name) <= 1000,
{
    let t = location_penalties();
    assert forall|i: int| 0 <= i < t.len() implies 0 <= (#[trigger] t[i]).1 <= 1000 by {
    }
    lemma_location_penalty_bounds(encode_utf8(display_path), t);
}

proof fn lemma_token_total_bounds(tokens: Seq<Seq<u8>>, name: Seq<u8>, start: int)
    requires
        token_weight(tokens) + 20 <= i32::MAX,
    ensures
        token_total(tokens, name, start) matches Some(total) ==> start <= total <= start + token_weight(tokens),
    decreases tokens.len(),
{
    if tokens.len() > 0 {
        lemma_token_weight_nonneg(tokens.drop_last());
        lemma_token_total_bounds(tokens.drop_last(), name, start);
        lemma_match_score_bounds(tokens.last(), name);
    }
}

/// A same-quality match in a noisier location never wins: two candidates
/// that differ only in their path score alike (both or neither), and the
/// one with the smaller noise penalty scores higher.
pub proof fn law_noisier_location_ranks_lower(
    a: CandidateEntry,
    b: CandidateEntry,
    tokens: Seq<Seq<u8>>,
    full_query: Seq<char>,
)
    requires
        a.lower_name@ == b.lower_name@,
        a.is_directory == b.is_directory,
        path_penalty_of(a.display_path@, a.lower_name@) < path_penalty_of(b.display_path@, b.lower_name@),
        token_weight(tokens) + 20 <= i32::MAX,
    ensures
        entry_score_of(a, tokens, full_query) is Some == entry_score_of(b, tokens, full_query) is Some,
        entry_score_of(a, tokens, full_query) matches Some(sa) ==> (entry_score_of(b, tokens, full_query) matches Some(
            sb,
        ) && sa > sb),
{
    lemma_path_penalty_bounds(a.display_path@, a.lower_name@);
    lemma_path_penalty_bounds(b.display_path@, b.lower_name@);
    let bonus: int = if a.is_directory {
        20
    } else {
        0
    };
    lemma_token_total_bounds(tokens, encode_utf8(a.lower_name@), bonus);
    lemma_token_weight_nonneg(tokens);
}

} // verus!
