//! In-process scorer for the first query phase.
//!
//! Arithmetic follows the two's-complement `i32` semantics of the scorer
//! exactly (wrapping), so the score of any input is defined.

use vstd::prelude::*;
use crate::text::{
    byte_len, chars_of, contains, contains_exec, is_ascii_alnum, is_ascii_alphanumeric, seq_eq,
    starts_with, starts_with_exec, to_lowercase, unicode_lowercase,
};

verus! {

pub open spec fn is_word_sep(c: char) -> bool {
    c == ' ' || c == '\t' || c == '-' || c == '_' || c == '.' || c == '/' || c == '\\'
}

pub open spec fn min_i32(a: i32, b: i32) -> i32 {
    if a <= b {
        a
    } else {
        b
    }
}

/// `i32` division by 12, rounding toward zero.
pub open spec fn div12(x: i32) -> i32 {
    if x >= 0 {
        (x / 12) as i32
    } else {
        (-((-x) / 12)) as i32
    }
}

/// One pass of the subsequence walk over the target, from index `ti`, with
/// `qi` query characters matched so far. Returns the final `(qi, score)`.
pub open spec fn fuzzy_walk(
    q: Seq<char>,
    t: Seq<char>,
    ti: int,
    qi: int,
    score: i32,
    prev: Option<int>,
    consecutive: i32,
) -> (int, i32)
    decreases t.len() - ti,
{
    if ti < 0 || ti >= t.len() || qi < 0 || qi >= q.len() {
        (qi, score)
    } else if t[ti] != q[qi] {
        fuzzy_walk(q, t, ti + 1, qi, score, prev, consecutive)
    } else {
        let run = prev == Some(ti - 1);
        let cons = if run {
            consecutive.wrapping_add(1)
        } else {
            0i32
        };
        let base: i32 = if run {
            1i32.wrapping_add(cons.wrapping_mul(3))
        } else {
            match prev {
                Some(p) => 1i32.wrapping_sub(min_i32((ti - p - 1) as i32, 8)),
                None => 1i32,
            }
        };
        let s: i32 = if ti == 0 {
            base.wrapping_add(12)
        } else if is_word_sep(t[ti - 1]) {
            base.wrapping_add(6)
        } else {
            base
        };
        fuzzy_walk(q, t, ti + 1, qi + 1, score.wrapping_add(s), Some(ti), cons)
    }
}

pub open spec fn count_ascii_alnum(s: Seq<char>) -> nat
    decreases s.len(),
{
    if s.len() == 0 {
        0
    } else {
        (if is_ascii_alnum(s[0]) {
            1nat
        } else {
            0nat
        }) + count_ascii_alnum(s.drop_first())
    }
}

/// Fuzzy subsequence score of already-lowercased `q` in `t`.
pub open spec fn fuzzy_score(q: Seq<char>, t: Seq<char>) -> Option<i32> {
    if byte_len(q) as usize > byte_len(t) as usize {
        None
    } else {
        let (qi, score) = fuzzy_walk(q, t, 0, 0, 0, None, 0);
        if qi < q.len() {
            None
        } else {
            let significant = count_ascii_alnum(q);
            let minimum: i32 = if significant >= 3 {
                min_i32((significant as i32).wrapping_mul(3), 24)
            } else {
                i32::MIN
            };
            let total = score.wrapping_sub(div12(t.len() as i32));
            if total < minimum {
                None
            } else {
                Some(total)
            }
        }
    }
}

/// Score of a query against one title: exact, prefix, substring, then the
/// fuzzy subsequence tier, all on the Unicode-lowercased texts.
pub open spec fn text_score(query: Seq<char>, target: Seq<char>) -> Option<i32> {
    if query.len() == 0 || target.len() == 0 {
        None
    } else {
        let q = unicode_lowercase(query);
        let t = unicode_lowercase(target);
        if t == q {
            Some(1000)
        } else if starts_with(t, q) {
            Some(900i32.wrapping_add(byte_len(q) as usize as i32))
        } else if contains(t, q) {
            Some(800i32.wrapping_add(byte_len(q) as usize as i32))
        } else {
            fuzzy_score(q, t)
        }
    }
}

/// Best of the title score and the keyword scores, each keyword score 50
/// below the same match on the title and never negative.
pub open spec fn keyword_fold(query: Seq<char>, best: Option<i32>, keywords: Seq<Seq<char>>) -> Option<
    i32,
>
    decreases keywords.len(),
{
    if keywords.len() == 0 {
        best
    } else {
        let next = match text_score(query, keywords[0]) {
            None => best,
            Some(score) => {
                let ks = keyword_adjust(score);
                match best {
                    None => Some(ks),
                    Some(current) => if ks > current {
                        Some(ks)
                    } else {
                        best
                    },
                }
            },
        };
        keyword_fold(query, next, keywords.drop_first())
    }
}

pub open spec fn keyword_adjust(score: i32) -> i32 {
    let lowered = score.wrapping_sub(50);
    if lowered > 0 {
        lowered
    } else {
        0
    }
}

pub open spec fn keywords_score(query: Seq<char>, title: Seq<char>, keywords: Seq<Seq<char>>) -> Option<
    i32,
> {
    keyword_fold(query, text_score(query, title), keywords)
}

pub open spec fn str_views(v: Seq<&str>) -> Seq<Seq<char>> {
    v.map_values(|k: &str| k@)
}

pub open spec fn opt_int(p: Option<usize>) -> Option<int> {
    match p {
        Some(v) => Some(v as int),
        None => None,
    }
}

pub fn is_word_separator(ch: char) -> (r: bool)
    ensures
        r == is_word_sep(ch),
{
    ch == ' ' || ch == '\t' || ch == '-' || ch == '_' || ch == '.' || ch == '/' || ch == '\\'
}

fn count_significant(q: &[char]) -> (r: usize)
    ensures
        r == count_ascii_alnum(q@),
{
    let mut n: usize = 0;
    let mut i: usize = q.len();
    assert(q@.skip(q@.len() as int) =~= seq![]);
    while i > 0
        invariant
            i <= q@.len(),
            n == count_ascii_alnum(q@.skip(i as int)),
            n <= q@.len() - i,
        decreases i,
    {
        i -= 1;
        assert(q@.skip(i as int).drop_first() =~= q@.skip(i + 1));
        if is_ascii_alphanumeric(q[i]) {
            n += 1;
        }
    }
    assert(q@.skip(0) =~= q@);
    n
}

/// Fuzzy subsequence tier; `q_bytes`/`t_bytes` are the UTF-8 lengths.
fn fuzzy_subsequence(q: &[char], t: &[char], q_bytes: usize, t_bytes: usize) -> (r: Option<i32>)
    requires
        q_bytes == byte_len(q@) as usize,
        t_bytes == byte_len(t@) as usize,
    ensures
        r == fuzzy_score(q@, t@),
{
    if q_bytes > t_bytes {
        return None;
    }
    let mut qi: usize = 0;
    let mut score: i32 = 0;
    let mut prev: Option<usize> = None;
    let mut consecutive: i32 = 0;
    let mut ti: usize = 0;
    while ti < t.len()
        invariant
            ti <= t@.len(),
            qi <= q@.len(),
            match prev {
                Some(p) => p < ti,
                None => true,
            },
            fuzzy_walk(q@, t@, 0, 0, 0, None, 0) == fuzzy_walk(
                q@,
                t@,
                ti as int,
                qi as int,
                score,
                opt_int(prev),
                consecutive,
            ),
        ensures
            ti >= t@.len() || qi >= q@.len(),
            ti <= t@.len(),
            qi <= q@.len(),
            fuzzy_walk(q@, t@, 0, 0, 0, None, 0) == fuzzy_walk(
                q@,
                t@,
                ti as int,
                qi as int,
                score,
                opt_int(prev),
                consecutive,
            ),
        decreases t@.len() - ti,
    {
        if qi >= q.len() {
            break;
        }
        let ch = t[ti];
        if ch != q[qi] {
            ti += 1;
            continue;
        }
        let run = match prev {
            Some(p) => ti >= 1 && p == ti - 1,
            None => false,
        };
        let mut s: i32;
        if run {
            consecutive = consecutive.wrapping_add(1);
            s = 1i32.wrapping_add(consecutive.wrapping_mul(3));
        } else {
            consecutive = 0;
            s = 1;
            match prev {
                Some(p) => {
                    let gap = (ti - p - 1) as i32;
                    let capped = if gap <= 8 {
                        gap
                    } else {
                        8
                    };
                    s = s.wrapping_sub(capped);
                },
                None => {},
            }
        }
        if ti == 0 {
            s = s.wrapping_add(12);
        } else if is_word_separator(t[ti - 1]) {
            s = s.wrapping_add(6);
        }
        score = score.wrapping_add(s);
        prev = Some(ti);
        qi += 1;
        ti += 1;
    }
    assert(fuzzy_walk(q@, t@, ti as int, qi as int, score, opt_int(prev), consecutive) == (
    qi as int, score));
    if qi < q.len() {
        return None;
    }
    let significant = count_significant(q);
    let minimum: i32 = if significant >= 3 {
        let m = (significant as i32).wrapping_mul(3);
        if m <= 24 {
            m
        } else {
            24
        }
    } else {
        i32::MIN
    };
    let tl = t.len() as i32;
    let penalty: i32 = if tl >= 0 {
        tl / 12
    } else {
        -((-(tl as i64)) / 12) as i32
    };
    let total = score.wrapping_sub(penalty);
    if total < minimum {
        None
    } else {
        Some(total)
    }
}

/// Scores `target` for `query`: exact 1000, prefix 900+len, substring
/// 800+len, else the fuzzy subsequence score; `None` when unrelated.
pub fn score_text(query: &str, target: &str) -> (r: Option<i32>)
    ensures
        r == text_score(query@, target@),
{
    if query.is_empty() || target.is_empty() {
        return None;
    }
    let q_low = to_lowercase(query);
    let t_low = to_lowercase(target);
    let qb = q_low.as_str().len();
    let tb = t_low.as_str().len();
    let q = chars_of(q_low.as_str());
    let t = chars_of(t_low.as_str());
    if seq_eq(t.as_slice(), q.as_slice()) {
        return Some(1000);
    }
    if starts_with_exec(t.as_slice(), q.as_slice()) {
        return Some(900i32.wrapping_add(qb as i32));
    }
    if contains_exec(t.as_slice(), q.as_slice()) {
        return Some(800i32.wrapping_add(qb as i32));
    }
    fuzzy_subsequence(q.as_slice(), t.as_slice(), qb, tb)
}

/// Best score over the title and its keywords; a keyword match counts 50
/// less than the same match on the title.
pub fn score_with_keywords(query: &str, title: &str, keywords: &[&str]) -> (r: Option<i32>)
    ensures
        r == keywords_score(query@, title@, str_views(keywords@)),
{
    let mut best = score_text(query, title);
    let ghost kws = str_views(keywords@);
    let mut i: usize = 0;
    assert(kws.skip(0) =~= kws);
    while i < keywords.len()
        invariant
            i <= keywords@.len(),
            kws == str_views(keywords@),
            keywords_score(query@, title@, kws) == keyword_fold(query@, best, kws.skip(i as int)),
        decreases keywords@.len() - i,
    {
        proof {
            assert(kws.skip(i as int).drop_first() =~= kws.skip(i + 1));
            assert(kws.skip(i as int)[0] == keywords@[i as int]@);
        }
        match score_text(query, keywords[i]) {
            None => {},
            Some(score) => {
                let lowered = score.wrapping_sub(50);
                let ks = if lowered > 0 {
                    lowered
                } else {
                    0
                };
                match best {
                    None => {
                        best = Some(ks);
                    },
                    Some(current) => {
                        if ks > current {
                            best = Some(ks);
                        }
                    },
                }
            },
        }
        i += 1;
    }
    assert(kws.skip(i as int).len() == 0);
    best
}

/// A keyword's score: the same match on the title less 50, never negative.
proof fn lemma_keyword_fold_is_best(query: Seq<char>, best: Option<i32>, keywords: Seq<Seq<char>>)
    ensures
        best matches Some(b) ==> (keyword_fold(query, best, keywords) matches Some(s) && s >= b),
        forall|k: int|
            0 <= k < keywords.len() ==> (#[trigger] text_score(query, keywords[k]) matches Some(x) ==> (
            keyword_fold(query, best, keywords) matches Some(s) && s >= (if x.wrapping_sub(50) > 0 {
                x.wrapping_sub(50)
            } else {
                0
            }))),
        keyword_fold(query, best, keywords) matches Some(s) ==> (best == Some(s) || exists|k: int|
            0 <= k < keywords.len() && (#[trigger] text_score(query, keywords[k]) matches Some(x) && s == (
            if x.wrapping_sub(50) > 0 {
                x.wrapping_sub(50)
            } else {
                0
            }))),
        keyword_fold(query, best, keywords) is None ==> best is None && forall|k: int|
            0 <= k < keywords.len() ==> #[trigger] text_score(query, keywords[k]) is None,
    decreases keywords.len(),
{
    if keywords.len() > 0 {
        let first = text_score(query, keywords[0]);
        let next = if first is None {
            best
        } else if best is None || keyword_adjust(first->0) > best->0 {
            Some(keyword_adjust(first->0))
        } else {
            best
        };
        let rest = keywords.drop_first();
        assert(keyword_fold(query, best, keywords) == keyword_fold(query, next, rest));
        lemma_keyword_fold_is_best(query, next, rest);
        assert forall|k: int| 0 <= k < keywords.len() implies (#[trigger] text_score(query, keywords[k]) matches Some(x)
            ==> (keyword_fold(query, best, keywords) matches Some(s) && s >= (if x.wrapping_sub(50) > 0 {
            x.wrapping_sub(50)
        } else {
            0
        }))) by {
            if k > 0 {
                assert(rest[k - 1] == keywords[k]);
                assert(text_score(query, rest[k - 1]) == text_score(query, keywords[k]));
            }
        }
        let r = keyword_fold(query, best, keywords);
        if r is Some {
            let s = r->0;
            if !(best == Some(s)) && next != Some(s) {
                let k = choose|k: int|
                    0 <= k < rest.len() && (#[trigger] text_score(query, rest[k]) matches Some(x) && s == (
                    if x.wrapping_sub(50) > 0 {
                        x.wrapping_sub(50)
                    } else {
                        0
                    }));
                assert(keywords[k + 1] == rest[k]);
                assert(text_score(query, keywords[k + 1]) == text_score(query, rest[k]));
            }
            if next == Some(s) && !(best == Some(s)) {
                assert(text_score(query, keywords[0]) is Some);
            }
        }
        if r is None {
            assert forall|k: int| 0 <= k < keywords.len() implies #[trigger] text_score(query, keywords[k]) is None by {
                if k > 0 {
                    assert(rest[k - 1] == keywords[k]);
                }
            }
        }
    }
}

/// The score of a title with keywords is the best of the title's score and
/// every matching keyword's score less 50 (never below 0): it is at least
/// each of them, it is one of them, and there is none only when nothing
/// matches.
pub proof fn law_keywords_score_is_the_best_match(query: Seq<char>, title: Seq<char>, keywords: Seq<Seq<char>>)
    ensures
        text_score(query, title) matches Some(t) ==> (keywords_score(query, title, keywords) matches Some(s) && s
            >= t),
        forall|k: int|
            0 <= k < keywords.len() ==> (#[trigger] text_score(query, keywords[k]) matches Some(x) ==> (
            keywords_score(query, title, keywords) matches Some(s) && s >= (if x.wrapping_sub(50) > 0 {
                x.wrapping_sub(50)
            } else {
                0
            }))),
        keywords_score(query, title, keywords) matches Some(s) ==> (text_score(query, title) == Some(s) || exists|
            k: int,
        |
            0 <= k < keywords.len() && (#[trigger] text_score(query, keywords[k]) matches Some(x) && s == (
            if x.wrapping_sub(50) > 0 {
                x.wrapping_sub(50)
            } else {
                0
            }))),
        keywords_score(query, title, keywords) is None <==> (text_score(query, title) is None && forall|k: int|
            0 <= k < keywords.len() ==> #[trigger] text_score(query, keywords[k]) is None),
{
    lemma_keyword_fold_is_best(query, text_score(query, title), keywords);
    if text_score(query, title) is None && forall|k: int|
        0 <= k < keywords.len() ==> #[trigger] text_score(query, keywords[k]) is None {
        if keywords_score(query, title, keywords) is Some {
            let s = keywords_score(query, title, keywords)->0;
            let k = choose|k: int|
                0 <= k < keywords.len() && (#[trigger] text_score(query, keywords[k]) matches Some(x) && s == (
                if x.wrapping_sub(50) > 0 {
                    x.wrapping_sub(50)
                } else {
                    0
                }));
        }
    }
}

} // verus!
