//! Offline intent distillation: a static phrase table plus the accepted
//! (phrase, action) pairs the user has confirmed.

use vstd::prelude::*;
use crate::query::catalog::{get, lookup_action};
use crate::text::{
    char_alphanumeric, char_lowercase, chars_of, is_alphanumeric, join, join_exec, lowercase_of_char,
    seq_eq, split_whitespace, str_eq, string_of, views, words, append_chars, all_ascii,
    is_ascii_alnum, is_ascii_char, is_ascii_digit, is_ascii_lower, is_ascii_upper, is_ws,
    lower_char, lemma_words_of_join,
};

verus! {

/// Distilled natural-language phrases and the catalog action each names.
pub open spec fn phrase_table() -> Seq<(&'static str, &'static str)> {
    seq![
        ("my eyes hurt", "settings.nightlight"),
        ("eyes hurt", "settings.nightlight"),
        ("too bright", "settings.nightlight"),
        ("screen is too bright", "settings.nightlight"),
        ("blue light", "settings.nightlight"),
        ("reduce blue light", "settings.nightlight"),
        ("night mode", "settings.nightlight"),
        ("warm the screen", "settings.nightlight"),
        ("kill audio", "audio.mute"),
        ("kill the audio", "audio.mute"),
        ("shut up", "audio.mute"),
        ("silence", "audio.mute"),
        ("no sound", "audio.mute"),
        ("stop the sound", "audio.mute"),
        ("restore audio", "audio.unmute"),
        ("bring the sound back", "audio.unmute"),
        ("sound on", "audio.unmute"),
        ("clean space", "settings.storagepolicies"),
        ("free space", "settings.storagepolicies"),
        ("free up space", "settings.storagepolicies"),
        ("disk is full", "settings.storagepolicies"),
        ("disk full", "settings.storagepolicies"),
        ("clean up disk", "settings.storagepolicies"),
        ("go to sleep", "power.sleep"),
        ("put to sleep", "power.sleep"),
        ("sleep now", "power.sleep"),
        ("lock the pc", "power.lock"),
        ("lock pc", "power.lock"),
        ("lock computer", "power.lock"),
        ("turn off the computer", "power.shutdown"),
        ("reboot", "power.restart"),
        ("check for updates", "settings.windowsupdate"),
        ("high dynamic range", "settings.hdr"),
        ("pair a device", "settings.bluetooth"),
        ("connect bluetooth", "settings.bluetooth"),
    ]
}

pub fn phrases() -> (r: Vec<(&'static str, &'static str)>)
    ensures
        r@ == phrase_table(),
{
    vec![
        ("my eyes hurt", "settings.nightlight"),
        ("eyes hurt", "settings.nightlight"),
        ("too bright", "settings.nightlight"),
        ("screen is too bright", "settings.nightlight"),
        ("blue light", "settings.nightlight"),
        ("reduce blue light", "settings.nightlight"),
        ("night mode", "settings.nightlight"),
        ("warm the screen", "settings.nightlight"),
        ("kill audio", "audio.mute"),
        ("kill the audio", "audio.mute"),
        ("shut up", "audio.mute"),
        ("silence", "audio.mute"),
        ("no sound", "audio.mute"),
        ("stop the sound", "audio.mute"),
        ("restore audio", "audio.unmute"),
        ("bring the sound back", "audio.unmute"),
        ("sound on", "audio.unmute"),
        ("clean space", "settings.storagepolicies"),
        ("free space", "settings.storagepolicies"),
        ("free up space", "settings.storagepolicies"),
        ("disk is full", "settings.storagepolicies"),
        ("disk full", "settings.storagepolicies"),
        ("clean up disk", "settings.storagepolicies"),
        ("go to sleep", "power.sleep"),
        ("put to sleep", "power.sleep"),
        ("sleep now", "power.sleep"),
        ("lock the pc", "power.lock"),
        ("lock pc", "power.lock"),
        ("lock computer", "power.lock"),
        ("turn off the computer", "power.shutdown"),
        ("reboot", "power.restart"),
        ("check for updates", "settings.windowsupdate"),
        ("high dynamic range", "settings.hdr"),
        ("pair a device", "settings.bluetooth"),
        ("connect bluetooth", "settings.bluetooth"),
    ]
}

// ---------------------------------------------------------------------------
// Normalisation
// ---------------------------------------------------------------------------

/// What one character of a token becomes: nothing unless it is
/// alphanumeric, else its lowercase mapping. For ASCII that is an ASCII
/// letter or digit, lowercased.
pub open spec fn norm_char(c: char) -> Seq<char> {
    if is_ascii_char(c) {
        if is_ascii_alnum(c) {
            seq![lower_char(c)]
        } else {
            seq![]
        }
    } else if char_alphanumeric(c) {
        char_lowercase(c)
    } else {
        seq![]
    }
}

/// A token with non-alphanumeric characters dropped and the rest lowercased.
pub open spec fn norm_token(t: Seq<char>) -> Seq<char>
    decreases t.len(),
{
    if t.len() == 0 {
        seq![]
    } else {
        norm_token(t.drop_last()) + norm_char(t.last())
    }
}

/// The normalised tokens of `ws` that are not empty, in order.
pub open spec fn norm_tokens(ws: Seq<Seq<char>>) -> Seq<Seq<char>>
    decreases ws.len(),
{
    if ws.len() == 0 {
        seq![]
    } else {
        let rest = norm_tokens(ws.drop_last());
        let t = norm_token(ws.last());
        if t.len() == 0 {
            rest
        } else {
            rest.push(t)
        }
    }
}

/// Whitespace tokens, stripped of punctuation, lowercased, joined by one space.
pub open spec fn normalized(value: Seq<char>) -> Seq<char> {
    join(norm_tokens(words(value)), seq![' '])
}

fn normalize_token(t: &[char]) -> (r: Vec<char>)
    ensures
        r@ == norm_token(t@),
{
    let mut out: Vec<char> = Vec::new();
    let mut i: usize = 0;
    assert(t@.take(0) =~= seq![]);
    while i < t.len()
        invariant
            i <= t@.len(),
            out@ == norm_token(t@.take(i as int)),
        decreases t@.len() - i,
    {
        let c = t[i];
        proof {
            assert(t@.take(i + 1).drop_last() =~= t@.take(i as int));
            assert(t@.take(i + 1).last() == c);
        }
        if is_alphanumeric(c) {
            let low = lowercase_of_char(c);
            append_chars(&mut out, low.as_slice());
        } else {
            assert(out@ + seq![] =~= out@);
        }
        i += 1;
    }
    assert(t@.take(t@.len() as int) =~= t@);
    out
}

/// Normalises a phrase: whitespace tokens stripped of punctuation,
/// lowercased, empty tokens dropped, joined by single spaces.
pub fn normalize_phrase(value: &str) -> (r: String)
    ensures
        r@ == normalized(value@),
{
    let chars = chars_of(value);
    let ws = split_whitespace(chars.as_slice());
    let mut toks: Vec<Vec<char>> = Vec::new();
    let mut i: usize = 0;
    assert(views(ws@).take(0) =~= seq![]);
    assert(views(toks@) =~= seq![]);
    while i < ws.len()
        invariant
            i <= ws@.len(),
            views(ws@) == words(value@),
            views(toks@) == norm_tokens(views(ws@).take(i as int)),
        decreases ws@.len() - i,
    {
        let t = normalize_token(ws[i].as_slice());
        proof {
            assert(views(ws@).take(i + 1).drop_last() =~= views(ws@).take(i as int));
            assert(views(ws@).take(i + 1).last() == ws@[i as int]@);
        }
        if t.len() > 0 {
            toks.push(t);
            assert(views(toks@) =~= norm_tokens(views(ws@).take(i + 1)));
        }
        i += 1;
    }
    assert(views(ws@).take(ws@.len() as int) =~= views(ws@));
    let sep: Vec<char> = vec![' '];
    let joined = join_exec(&toks, sep.as_slice());
    assert(toks@.map_values(|p: Vec<char>| p@) == views(toks@));
    assert(sep@ =~= seq![' ']);
    string_of(joined.as_slice())
}

/// A character that normalisation keeps as it is: no whitespace, and its
/// own normalised form.
pub open spec fn fixed_char(d: char) -> bool {
    !is_ws(d) && norm_char(d) == seq![d]
}

/// Normalising `c` gives characters that normalisation keeps as they are:
/// true of every ASCII character, and of a character whose lowercase
/// mapping is alphanumeric and already lowercase.
pub open spec fn settles(c: char) -> bool {
    forall|k: int| 0 <= k < norm_char(c).len() ==> fixed_char(#[trigger] norm_char(c)[k])
}

pub open spec fn all_settle(s: Seq<char>) -> bool {
    forall|i: int| 0 <= i < s.len() ==> settles(#[trigger] s[i])
}

pub open spec fn fixed_token(t: Seq<char>) -> bool {
    t.len() > 0 && forall|i: int| 0 <= i < t.len() ==> fixed_char(#[trigger] t[i])
}

/// Every ASCII character settles.
pub proof fn lemma_ascii_settles(c: char)
    requires
        is_ascii_char(c),
    ensures
        settles(c),
{
    if is_ascii_alnum(c) {
        let d = lower_char(c);
        if is_ascii_upper(c) {
            let u = c as u32;
            assert(65 <= u <= 90);
            assert(97 <= u + 32 <= 122);
            assert(d == ((u + 32) as char));
        }
        assert(is_ascii_lower(d) || is_ascii_digit(d));
        assert(lower_char(d) == d);
        assert(norm_char(c) == seq![d]);
        assert(fixed_char(d));
    }
}

proof fn lemma_norm_token_settles(t: Seq<char>)
    requires
        all_settle(t),
    ensures
        forall|i: int| 0 <= i < norm_token(t).len() ==> fixed_char(#[trigger] norm_token(t)[i]),
        (forall|i: int| 0 <= i < t.len() ==> fixed_char(#[trigger] t[i])) ==> norm_token(t) == t,
    decreases t.len(),
{
    if t.len() > 0 {
        let init = t.drop_last();
        assert(all_settle(init)) by {
            assert forall|i: int| 0 <= i < init.len() implies settles(#[trigger] init[i]) by {
                assert(init[i] == t[i]);
            }
        }
        lemma_norm_token_settles(init);
        assert(settles(t[t.len() - 1]));
        let a = norm_token(init);
        let b = norm_char(t.last());
        assert forall|i: int| 0 <= i < norm_token(t).len() implies fixed_char(#[trigger] norm_token(t)[i]) by {
            if i < a.len() {
                assert(norm_token(t)[i] == a[i]);
            } else {
                assert(norm_token(t)[i] == b[i - a.len()]);
            }
        }
        if forall|i: int| 0 <= i < t.len() ==> fixed_char(#[trigger] t[i]) {
            assert(forall|i: int| 0 <= i < init.len() ==> fixed_char(#[trigger] init[i])) by {
                assert forall|i: int| 0 <= i < init.len() implies fixed_char(#[trigger] init[i]) by {
                    assert(init[i] == t[i]);
                }
            }
            assert(fixed_char(t[t.len() - 1]));
            assert(init + seq![t.last()] =~= t);
        }
    }
}

proof fn lemma_words_settle(s: Seq<char>)
    requires
        all_settle(s),
    ensures
        forall|k: int| 0 <= k < words(s).len() ==> all_settle(#[trigger] words(s)[k]),
    decreases s.len(),
{
    if s.len() > 0 {
        let rest = s.drop_first();
        assert(all_settle(rest)) by {
            assert forall|i: int| 0 <= i < rest.len() implies settles(#[trigger] rest[i]) by {
                assert(rest[i] == s[i + 1]);
            }
        }
        if is_ws(s[0]) {
            lemma_words_settle(rest);
            assert(words(s) == words(rest));
        } else {
            crate::text::lemma_word_len(s);
            let n = crate::text::word_len(s) as int;
            let tail = s.skip(n);
            assert(all_settle(tail)) by {
                assert forall|i: int| 0 <= i < tail.len() implies settles(#[trigger] tail[i]) by {
                    assert(tail[i] == s[i + n]);
                }
            }
            lemma_words_settle(tail);
            let head = s.take(n);
            assert(all_settle(head)) by {
                assert forall|i: int| 0 <= i < head.len() implies settles(#[trigger] head[i]) by {
                    assert(head[i] == s[i]);
                }
            }
            assert(words(s) == seq![head] + words(tail));
            assert forall|k: int| 0 <= k < words(s).len() implies all_settle(#[trigger] words(s)[k]) by {
                if k == 0 {
                    assert(words(s)[k] == head);
                } else {
                    assert(words(s)[k] == words(tail)[k - 1]);
                }
            }
        }
    }
}

proof fn lemma_norm_tokens_settle(ws: Seq<Seq<char>>)
    requires
        forall|k: int| 0 <= k < ws.len() ==> all_settle(#[trigger] ws[k]),
    ensures
        forall|k: int| 0 <= k < norm_tokens(ws).len() ==> fixed_token(#[trigger] norm_tokens(ws)[k]),
        (forall|k: int| 0 <= k < ws.len() ==> fixed_token(#[trigger] ws[k])) ==> norm_tokens(ws) == ws,
    decreases ws.len(),
{
    if ws.len() > 0 {
        let init = ws.drop_last();
        assert forall|k: int| 0 <= k < init.len() implies all_settle(#[trigger] init[k]) by {
            assert(init[k] == ws[k]);
        }
        lemma_norm_tokens_settle(init);
        assert(all_settle(ws[ws.len() - 1]));
        lemma_norm_token_settles(ws.last());
        let rest = norm_tokens(init);
        let t = norm_token(ws.last());
        if t.len() > 0 {
            assert(norm_tokens(ws) == rest.push(t));
            assert forall|k: int| 0 <= k < norm_tokens(ws).len() implies fixed_token(
                #[trigger] norm_tokens(ws)[k],
            ) by {
                if k < rest.len() {
                    assert(norm_tokens(ws)[k] == rest[k]);
                } else {
                    assert(norm_tokens(ws)[k] == t);
                }
            }
        } else {
            assert(norm_tokens(ws) == rest);
        }
        if forall|k: int| 0 <= k < ws.len() ==> fixed_token(#[trigger] ws[k]) {
            assert forall|k: int| 0 <= k < init.len() implies fixed_token(#[trigger] init[k]) by {
                assert(init[k] == ws[k]);
            }
            assert(fixed_token(ws[ws.len() - 1]));
            assert(init.push(ws.last()) =~= ws);
        }
    }
}

/// Normalising a phrase twice gives what normalising it once gave, for
/// every phrase whose characters' lowercase forms are alphanumeric and
/// already lowercase (all ASCII text among them). `İ`, whose lowercase is
/// `i` and a combining dot, is a character that does not settle.
pub proof fn law_normalize_phrase_is_idempotent(value: Seq<char>)
    requires
        all_settle(value),
    ensures
        normalized(normalized(value)) == normalized(value),
{
    lemma_words_settle(value);
    let ts = norm_tokens(words(value));
    lemma_norm_tokens_settle(words(value));
    assert forall|k: int| 0 <= k < ts.len() implies (#[trigger] ts[k]).len() > 0 by {
        assert(fixed_token(ts[k]));
    }
    assert forall|k: int, i: int| 0 <= k < ts.len() && 0 <= i < ts[k].len() implies !is_ws(
        #[trigger] ts[k][i],
    ) by {
        assert(fixed_token(ts[k]));
        assert(fixed_char(ts[k][i]));
    }
    lemma_words_of_join(ts);
    assert forall|k: int| 0 <= k < ts.len() implies all_settle(#[trigger] ts[k]) by {
        assert(fixed_token(ts[k]));
        assert forall|i: int| 0 <= i < ts[k].len() implies settles(#[trigger] ts[k][i]) by {
            assert(fixed_char(ts[k][i]));
            assert(norm_char(ts[k][i]) == seq![ts[k][i]]);
        }
    }
    lemma_norm_tokens_settle(ts);
}

/// Normalising ASCII text twice gives what normalising it once gave.
pub proof fn law_normalize_phrase_is_idempotent_on_ascii(value: Seq<char>)
    requires
        all_ascii(value),
    ensures
        normalized(normalized(value)) == normalized(value),
{
    assert forall|i: int| 0 <= i < value.len() implies settles(#[trigger] value[i]) by {
        lemma_ascii_settles(value[i]);
    }
    law_normalize_phrase_is_idempotent(value);
}

// ---------------------------------------------------------------------------
// Static phrase mapping
// ---------------------------------------------------------------------------

pub open spec fn exact_phrase(ps: Seq<(&'static str, &'static str)>, n: Seq<char>) -> Option<
    &'static str,
>
    decreases ps.len(),
{
    if ps.len() == 0 {
        None
    } else if ps[0].0@ == n {
        Some(ps[0].1)
    } else {
        exact_phrase(ps.drop_first(), n)
    }
}

/// Whether `p` occurs as a run of whole consecutive tokens of `tokens`.
pub open spec fn has_window(tokens: Seq<Seq<char>>, p: Seq<Seq<char>>) -> bool {
    exists|i: int| 0 <= i && i + p.len() <= tokens.len() && #[trigger] tokens.subrange(i, i + p.len()) == p
}

/// The multi-word phrase with the most tokens that occurs in `tokens`;
/// the earliest in the table wins a tie.
pub open spec fn best_window(
    ps: Seq<(&'static str, &'static str)>,
    tokens: Seq<Seq<char>>,
    best: Option<(&'static str, nat)>,
) -> Option<(&'static str, nat)>
    decreases ps.len(),
{
    if ps.len() == 0 {
        best
    } else {
        let pt = words(ps[0].0@);
        let next = if pt.len() < 2 || tokens.len() < pt.len() {
            best
        } else if has_window(tokens, pt) && (best is None || pt.len() > best.unwrap().1) {
            Some((ps[0].1, pt.len()))
        } else {
            best
        };
        best_window(ps.drop_first(), tokens, next)
    }
}

/// Action named by an already-normalised phrase through the static table:
/// an exact phrase, else the longest multi-word phrase found as whole tokens.
pub open spec fn static_intent(n: Seq<char>) -> Option<&'static str> {
    match exact_phrase(phrase_table(), n) {
        Some(id) => Some(id),
        None => {
            let t = words(n);
            if t.len() < 2 {
                None
            } else {
                match best_window(phrase_table(), t, None) {
                    Some(b) => Some(b.0),
                    None => None,
                }
            }
        },
    }
}

/// `p` occurs in `tokens` as consecutive whole tokens starting at `i`.
pub open spec fn occurs_at(tokens: Seq<Seq<char>>, p: Seq<Seq<char>>, i: int) -> bool {
    0 <= i && i + p.len() <= tokens.len() && tokens.subrange(i, i + p.len()) == p
}

proof fn lemma_best_window_is_longest(
    ps: Seq<(&'static str, &'static str)>,
    tokens: Seq<Seq<char>>,
    best: Option<(&'static str, nat)>,
)
    ensures
        best matches Some(b) ==> (best_window(ps, tokens, best) matches Some(r) && r.1 >= b.1),
        forall|j: int, i: int|
            0 <= j < ps.len() && words(ps[j].0@).len() >= 2 && #[trigger] occurs_at(tokens, words(ps[j].0@), i)
                ==> (best_window(ps, tokens, best) matches Some(r) && r.1 >= words(ps[j].0@).len()),
        best_window(ps, tokens, best) matches Some(r) ==> (best == Some(r) || exists|j: int, i: int|
            0 <= j < ps.len() && words(ps[j].0@).len() >= 2 && #[trigger] occurs_at(tokens, words(ps[j].0@), i)
                && r == (ps[j].1, words(ps[j].0@).len())),
    decreases ps.len(),
{
    if ps.len() > 0 {
        let pt = words(ps[0].0@);
        let found = pt.len() >= 2 && tokens.len() >= pt.len() && has_window(tokens, pt);
        let next = if found && (best is None || pt.len() > best.unwrap().1) {
            Some((ps[0].1, pt.len()))
        } else {
            best
        };
        let rest = ps.drop_first();
        assert(best_window(ps, tokens, best) == best_window(rest, tokens, next));
        lemma_best_window_is_longest(rest, tokens, next);
        assert forall|j: int, i: int|
            0 <= j < ps.len() && words(ps[j].0@).len() >= 2 && #[trigger] occurs_at(tokens, words(ps[j].0@), i)
            implies (best_window(ps, tokens, best) matches Some(r) && r.1 >= words(ps[j].0@).len()) by {
            if j == 0 {
                assert(tokens.subrange(i, i + pt.len()) == pt);
                assert(has_window(tokens, pt));
            } else {
                assert(rest[j - 1] == ps[j]);
                assert(occurs_at(tokens, words(rest[j - 1].0@), i));
            }
        }
        let res = best_window(ps, tokens, best);
        if res is Some {
            let r = res->0;
            if !(best == Some(r)) {
                if next == Some(r) {
                    let i = choose|i: int| 0 <= i && i + pt.len() <= tokens.len() && #[trigger] tokens.subrange(i, i + pt.len()) == pt;
                    assert(occurs_at(tokens, words(ps[0].0@), i));
                } else {
                    let (j, i) = choose|j: int, i: int|
                        0 <= j < rest.len() && words(rest[j].0@).len() >= 2 && #[trigger] occurs_at(
                            tokens,
                            words(rest[j].0@),
                            i,
                        ) && r == (rest[j].1, words(rest[j].0@).len());
                    assert(ps[j + 1] == rest[j]);
                    assert(occurs_at(tokens, words(ps[j + 1].0@), i));
                }
            }
        }
    }
}

/// A phrase of two or more words in the static table is recognised wherever
/// it stands in the utterance, not only at its start: the utterance then
/// maps to an action, and, when no phrase matches it whole, to that of the
/// longest table phrase found in it.
pub proof fn law_multiword_phrase_found_at_any_position(n: Seq<char>, j: int, i: int)
    requires
        0 <= j < phrase_table().len(),
        words(phrase_table()[j].0@).len() >= 2,
        occurs_at(words(n), words(phrase_table()[j].0@), i),
    ensures
        static_intent(n) is Some,
        exact_phrase(phrase_table(), n) is None ==> exists|k: int, m: int|
            0 <= k < phrase_table().len() && #[trigger] occurs_at(words(n), words(phrase_table()[k].0@), m)
                && words(phrase_table()[k].0@).len() >= words(phrase_table()[j].0@).len()
                && static_intent(n) == Some(phrase_table()[k].1),
{
    let t = words(n);
    lemma_best_window_is_longest(phrase_table(), t, None);
    assert(occurs_at(t, words(phrase_table()[j].0@), i));
    assert(t.len() >= 2);
}

fn tokens_equal_at(tokens: &Vec<Vec<char>>, at: usize, p: &Vec<Vec<char>>) -> (r: bool)
    requires
        at + p@.len() <= tokens@.len(),
    ensures
        r == (views(tokens@).subrange(at as int, at + p@.len()) == views(p@)),
{
    let mut k: usize = 0;
    let n = tokens.len();
    while k < p.len()
        invariant
            n == tokens@.len(),
            at + p@.len() <= tokens@.len(),
            k <= p@.len(),
            forall|j: int| 0 <= j < k ==> tokens@[at + j]@ == p@[j]@,
        decreases p@.len() - k,
    {
        if !seq_eq(tokens[at + k].as_slice(), p[k].as_slice()) {
            assert(views(tokens@).subrange(at as int, at + p@.len())[k as int] != views(p@)[k as int]);
            return false;
        }
        k += 1;
    }
    assert(views(tokens@).subrange(at as int, at + p@.len()) =~= views(p@));
    true
}

fn window_hit(tokens: &Vec<Vec<char>>, p: &Vec<Vec<char>>) -> (r: bool)
    requires
        p@.len() <= tokens@.len(),
    ensures
        r == has_window(views(tokens@), views(p@)),
{
    let last = tokens.len() - p.len();
    let mut i: usize = 0;
    loop
        invariant
            last + p@.len() == tokens@.len(),
            i <= last,
            forall|j: int| 0 <= j < i ==> #[trigger] views(tokens@).subrange(j, j + p@.len()) != views(p@),
        decreases last - i,
    {
        if tokens_equal_at(tokens, i, p) {
            assert(views(p@).len() == p@.len());
            assert(views(tokens@).subrange(i as int, i + views(p@).len()) == views(p@));
            return true;
        }
        if i == last {
            assert forall|j: int| 0 <= j && j + views(p@).len() <= views(tokens@).len() implies
                #[trigger] views(tokens@).subrange(j, j + views(p@).len()) != views(p@) by {
                assert(j <= i);
            }
            return false;
        }
        i += 1;
    }
}

/// Maps a normalised phrase to a catalog action id through the static table.
pub fn map_static(normalized: &str) -> (r: Option<&'static str>)
    ensures
        r == static_intent(normalized@),
{
    let table = phrases();
    let mut i: usize = 0;
    assert(table@.skip(0) =~= table@);
    while i < table.len()
        invariant
            table@ == phrase_table(),
            i <= table@.len(),
            exact_phrase(phrase_table(), normalized@) == exact_phrase(table@.skip(i as int), normalized@),
        decreases table@.len() - i,
    {
        assert(table@.skip(i as int)[0] == table@[i as int]);
        if str_eq(table[i].0, normalized) {
            return Some(table[i].1);
        }
        assert(table@.skip(i as int).drop_first() =~= table@.skip(i + 1));
        i += 1;
    }
    let nchars = chars_of(normalized);
    let tokens = split_whitespace(nchars.as_slice());
    if tokens.len() < 2 {
        return None;
    }
    let mut best: Option<(&'static str, usize)> = None;
    let mut k: usize = 0;
    assert(table@.skip(0) =~= table@);
    while k < table.len()
        invariant
            table@ == phrase_table(),
            k <= table@.len(),
            views(tokens@) == words(normalized@),
            best_window(phrase_table(), words(normalized@), None) == best_window(
                table@.skip(k as int),
                words(normalized@),
                opt_rank(best),
            ),
        decreases table@.len() - k,
    {
        let entry = table[k];
        assert(table@.skip(k as int)[0] == entry);
        assert(table@.skip(k as int).drop_first() =~= table@.skip(k + 1));
        let pchars = chars_of(entry.0);
        let ptoks = split_whitespace(pchars.as_slice());
        if ptoks.len() >= 2 && tokens.len() >= ptoks.len() {
            if window_hit(&tokens, &ptoks) {
                let better = match best {
                    None => true,
                    Some(b) => ptoks.len() > b.1,
                };
                if better {
                    best = Some((entry.1, ptoks.len()));
                }
            }
        }
        k += 1;
    }
    match best {
        Some(b) => Some(b.0),
        None => None,
    }
}

pub open spec fn opt_rank(b: Option<(&'static str, usize)>) -> Option<(&'static str, nat)> {
    match b {
        Some(v) => Some((v.0, v.1 as nat)),
        None => None,
    }
}


// ---------------------------------------------------------------------------
// Accepted pairs
// ---------------------------------------------------------------------------

/// Value stored for `key` in an association list (first match).
pub open spec fn pair_lookup(ps: Seq<(Seq<char>, Seq<char>)>, key: Seq<char>) -> Option<Seq<char>>
    decreases ps.len(),
{
    if ps.len() == 0 {
        None
    } else if ps[0].0 == key {
        Some(ps[0].1)
    } else {
        pair_lookup(ps.drop_first(), key)
    }
}

pub open spec fn keys_unique(ps: Seq<(Seq<char>, Seq<char>)>) -> bool {
    forall|i: int, j: int| 0 <= i < j < ps.len() ==> ps[i].0 != ps[j].0
}

/// Accepted (normalised phrase, action id) pairs, plus where they persist.
pub struct IntentStore {
    pairs: Vec<(String, String)>,
    path: Option<String>,
    loaded: bool,
}

#[derive(Debug)]
pub enum IntentError {
    /// The action id names no catalog action.
    UnknownAction(String),
}

impl IntentError {
    /// The message shown to the user.
    pub fn message(&self) -> (r: String)
        ensures
            self matches IntentError::UnknownAction(id) ==> r@ == "unknown action id '"@ + id@ + "'"@,
    {
        match self {
            IntentError::UnknownAction(id) => {
                let head = crate::text::concat("unknown action id '", id.as_str());
                crate::text::concat(head.as_str(), "'")
            },
        }
    }
}

impl IntentStore {
    pub closed spec fn entries(&self) -> Seq<(Seq<char>, Seq<char>)> {
        self.pairs@.map_values(|p: (String, String)| (p.0@, p.1@))
    }

    pub closed spec fn store_path(&self) -> Option<Seq<char>> {
        match self.path {
            Some(p) => Some(p@),
            None => None,
        }
    }

    pub closed spec fn is_loaded(&self) -> bool {
        self.loaded
    }

    #[verifier::type_invariant]
    closed spec fn inv(&self) -> bool {
        keys_unique(self.entries())
    }

    /// The accepted action for an already-normalised key.
    pub open spec fn stored(&self, key: Seq<char>) -> Option<Seq<char>> {
        pair_lookup(self.entries(), key)
    }

    pub fn new() -> (r: Self)
        ensures
            r.entries() == Seq::<(Seq<char>, Seq<char>)>::empty(),
            r.store_path() is None,
            !r.is_loaded(),
    {
        let r = IntentStore { pairs: Vec::new(), path: None, loaded: false };
        assert(r.entries() =~= Seq::<(Seq<char>, Seq<char>)>::empty());
        r
    }

    /// Points the store at a cache file; the pairs are reloaded from it on
    /// next use.
    pub fn set_path(&mut self, path: String)
        ensures
            final(self).store_path() == Some(path@),
            !final(self).is_loaded(),
            final(self).entries() == old(self).entries(),
    {
        proof {
            use_type_invariant(&*self);
        }
        self.path = Some(path);
        self.loaded = false;
    }

    /// Marks the store loaded; returns the cache file to read the pairs from
    /// when that has not happened since the path was set.
    pub fn ensure_loaded(&mut self) -> (r: Option<String>)
        ensures
            final(self).is_loaded(),
            final(self).entries() == old(self).entries(),
            final(self).store_path() == old(self).store_path(),
            old(self).is_loaded() ==> r is None,
            !old(self).is_loaded() ==> match r {
                Some(p) => old(self).store_path() == Some(p@),
                None => old(self).store_path() is None,
            },
    {
        proof {
            use_type_invariant(&*self);
        }
        if self.loaded {
            return None;
        }
        self.loaded = true;
        match &self.path {
            Some(p) => Some(p.clone()),
            None => None,
        }
    }

    fn position(&self, key: &[char]) -> (r: Option<usize>)
        ensures
            match r {
                Some(i) => i < self.entries().len() && self.entries()[i as int].0 == key@,
                None => forall|i: int| 0 <= i < self.entries().len() ==> self.entries()[i].0 != key@,
            },
    {
        let mut i: usize = 0;
        while i < self.pairs.len()
            invariant
                i <= self.pairs@.len(),
                forall|j: int| 0 <= j < i ==> self.entries()[j].0 != key@,
            decreases self.pairs@.len() - i,
        {
            let k = chars_of(self.pairs[i].0.as_str());
            if seq_eq(k.as_slice(), key) {
                return Some(i);
            }
            i += 1;
        }
        None
    }

    /// Stores `value` under `key`, replacing an earlier value.
    fn set(&mut self, key: &[char], value: String)
        ensures
            final(self).stored(key@) == Some(value@),
            forall|k: Seq<char>| k != key@ ==> final(self).stored(k) == old(self).stored(k),
            final(self).store_path() == old(self).store_path(),
            final(self).is_loaded() == old(self).is_loaded(),
    {
        proof {
            use_type_invariant(&*self);
        }
        let ghost before = self.entries();
        match self.position(key) {
            Some(i) => {
                let ks = string_of(key);
                let ghost after = before.update(i as int, (key@, value@));
                let mut pairs: Vec<(String, String)> = Vec::new();
                std::mem::swap(&mut pairs, &mut self.pairs);
                pairs.set(i, (ks, value));
                proof {
                    assert(pairs@.map_values(|p: (String, String)| (p.0@, p.1@)) =~= after);
                    lemma_lookup_update(before, i as int, key@, value@);
                }
                self.pairs = pairs;
                assert(self.entries() =~= after);
            },
            None => {
                let ks = string_of(key);
                let ghost after = before.push((key@, value@));
                let mut pairs: Vec<(String, String)> = Vec::new();
                std::mem::swap(&mut pairs, &mut self.pairs);
                pairs.push((ks, value));
                proof {
                    assert(pairs@.map_values(|p: (String, String)| (p.0@, p.1@)) =~= after);
                    lemma_lookup_push(before, key@, value@);
                }
                self.pairs = pairs;
                assert(self.entries() =~= after);
            },
        }
    }

    /// Replaces the pairs with those read from the cache, later pairs
    /// winning over earlier ones with the same phrase.
    pub fn install(&mut self, loaded: Vec<(String, String)>)
        ensures
            final(self).store_path() == old(self).store_path(),
            final(self).is_loaded() == old(self).is_loaded(),
            forall|k: Seq<char>| #[trigger] final(self).stored(k) == last_value(
                loaded@.map_values(|p: (String, String)| (p.0@, p.1@)),
                k,
            ),
    {
        let ghost src = loaded@.map_values(|p: (String, String)| (p.0@, p.1@));
        self.pairs = Vec::new();
        assert(self.entries() =~= Seq::<(Seq<char>, Seq<char>)>::empty());
        let mut rest = loaded;
        let mut k: usize = 0;
        let n = rest.len();
        assert(src.take(0) =~= Seq::<(Seq<char>, Seq<char>)>::empty());
        while rest.len() > 0
            invariant
                k + rest@.len() == n,
                n == src.len(),
                rest@.map_values(|p: (String, String)| (p.0@, p.1@)) == src.skip(k as int),
                forall|key: Seq<char>| #[trigger] self.stored(key) == last_value(src.take(k as int), key),
                self.store_path() == old(self).store_path(),
                self.is_loaded() == old(self).is_loaded(),
            decreases rest@.len(),
        {
            let ghost old_rest = rest@;
            let (phrase, action) = rest.remove(0);
            let pc = chars_of(phrase.as_str());
            proof {
                assert(src.skip(k as int)[0] == (phrase@, action@));
                assert(src.take(k + 1).drop_last() =~= src.take(k as int));
                assert(src.take(k + 1).last() == (phrase@, action@));
            }
            self.set(pc.as_slice(), action);
            k += 1;
            proof {
                let f = |p: (String, String)| (p.0@, p.1@);
                assert forall|i: int| 0 <= i < rest@.len() implies #[trigger] rest@.map_values(f)[i]
                    == src.skip(k as int)[i] by {
                    assert(rest@[i] == old_rest[i + 1]);
                    assert(old_rest.map_values(f)[i + 1] == src.skip(k - 1)[i + 1]);
                }
                assert(rest@.map_values(f) =~= src.skip(k as int));
            }
        }
        assert(src.take(k as int) =~= src);
    }

    /// The accepted action id for `phrase`, after normalisation.
    pub fn lookup(&self, phrase: &str) -> (r: Option<String>)
        ensures
            r matches Some(v) ==> self.recalled(phrase@) == Some(v@),
            r is None ==> self.recalled(phrase@) is None,
    {
        let normalized = normalize_phrase(phrase);
        if normalized.as_str().is_empty() {
            return None;
        }
        let key = chars_of(normalized.as_str());
        match self.position(key.as_slice()) {
            Some(i) => {
                proof {
                    use_type_invariant(self);
                    lemma_lookup_at(self.entries(), i as int, key@);
                }
                Some(self.pairs[i].1.clone())
            },
            None => {
                proof {
                    lemma_lookup_absent(self.entries(), key@);
                }
                None
            },
        }
    }

    /// What `lookup` answers for `phrase`.
    pub open spec fn recalled(&self, phrase: Seq<char>) -> Option<Seq<char>> {
        let n = normalized(phrase);
        if n.len() == 0 {
            None
        } else {
            self.stored(n)
        }
    }

    /// Records that `phrase` means `action_id`; rejects ids outside the catalog.
    pub fn remember(&mut self, phrase: &str, action_id: &str) -> (r: Result<(), IntentError>)
        ensures
            lookup_action(action_id@) is None <==> r is Err,
            r matches Err(IntentError::UnknownAction(id)) ==> id@ == action_id@,
            r is Err ==> final(self).entries() == old(self).entries(),
            r is Ok && normalized(phrase@).len() == 0 ==> final(self).entries() == old(
                self,
            ).entries(),
            r is Ok && normalized(phrase@).len() > 0 ==> final(self).stored(normalized(phrase@))
                == Some(action_id@),
            r is Ok ==> forall|k: Seq<char>|
                k != normalized(phrase@) ==> #[trigger] final(self).stored(k) == old(self).stored(k),
            final(self).store_path() == old(self).store_path(),
            final(self).is_loaded() == old(self).is_loaded(),
    {
        if get(action_id).is_none() {
            return Err(IntentError::UnknownAction(string_of(chars_of(action_id).as_slice())));
        }
        let normalized = normalize_phrase(phrase);
        if normalized.as_str().is_empty() {
            return Ok(());
        }
        let key = chars_of(normalized.as_str());
        let value = string_of(chars_of(action_id).as_slice());
        self.set(key.as_slice(), value);
        Ok(())
    }
}

/// Value of the last pair with key `key`.
pub open spec fn last_value(ps: Seq<(Seq<char>, Seq<char>)>, key: Seq<char>) -> Option<Seq<char>>
    decreases ps.len(),
{
    if ps.len() == 0 {
        None
    } else if ps.last().0 == key {
        Some(ps.last().1)
    } else {
        last_value(ps.drop_last(), key)
    }
}

proof fn lemma_lookup_at(ps: Seq<(Seq<char>, Seq<char>)>, i: int, key: Seq<char>)
    requires
        keys_unique(ps),
        0 <= i < ps.len(),
        ps[i].0 == key,
    ensures
        pair_lookup(ps, key) == Some(ps[i].1),
    decreases ps.len(),
{
    if i > 0 {
        let t = ps.drop_first();
        assert(ps[0].0 != key);
        assert(t[i - 1] == ps[i]);
        lemma_lookup_at(t, i - 1, key);
    }
}

proof fn lemma_lookup_absent(ps: Seq<(Seq<char>, Seq<char>)>, key: Seq<char>)
    requires
        forall|i: int| 0 <= i < ps.len() ==> ps[i].0 != key,
    ensures
        pair_lookup(ps, key) is None,
    decreases ps.len(),
{
    if ps.len() > 0 {
        let t = ps.drop_first();
        assert forall|i: int| 0 <= i < t.len() implies t[i].0 != key by {
            assert(t[i] == ps[i + 1]);
        }
        lemma_lookup_absent(t, key);
    }
}

proof fn lemma_lookup_update(ps: Seq<(Seq<char>, Seq<char>)>, i: int, key: Seq<char>, v: Seq<char>)
    requires
        keys_unique(ps),
        0 <= i < ps.len(),
        ps[i].0 == key,
    ensures
        keys_unique(ps.update(i, (key, v))),
        pair_lookup(ps.update(i, (key, v)), key) == Some(v),
        forall|k: Seq<char>|
            k != key ==> #[trigger] pair_lookup(ps.update(i, (key, v)), k) == pair_lookup(ps, k),
    decreases ps.len(),
{
    let u = ps.update(i, (key, v));
    lemma_lookup_at(u, i, key);
    assert forall|k: Seq<char>| k != key implies #[trigger] pair_lookup(u, k) == pair_lookup(ps, k) by {
        lemma_lookup_other(ps, i, key, v, k);
    }
}

proof fn lemma_lookup_other(
    ps: Seq<(Seq<char>, Seq<char>)>,
    i: int,
    key: Seq<char>,
    v: Seq<char>,
    k: Seq<char>,
)
    requires
        0 <= i < ps.len(),
        ps[i].0 == key,
        k != key,
    ensures
        pair_lookup(ps.update(i, (key, v)), k) == pair_lookup(ps, k),
    decreases ps.len(),
{
    let u = ps.update(i, (key, v));
    if ps[0].0 != k && i > 0 {
        assert(u.drop_first() =~= ps.drop_first().update(i - 1, (key, v)));
        lemma_lookup_other(ps.drop_first(), i - 1, key, v, k);
    } else if i == 0 {
        assert(u.drop_first() =~= ps.drop_first());
    }
}

proof fn lemma_lookup_push(ps: Seq<(Seq<char>, Seq<char>)>, key: Seq<char>, v: Seq<char>)
    requires
        keys_unique(ps),
        forall|i: int| 0 <= i < ps.len() ==> ps[i].0 != key,
    ensures
        keys_unique(ps.push((key, v))),
        pair_lookup(ps.push((key, v)), key) == Some(v),
        forall|k: Seq<char>| k != key ==> #[trigger] pair_lookup(ps.push((key, v)), k) == pair_lookup(ps, k),
    decreases ps.len(),
{
    let u = ps.push((key, v));
    if ps.len() > 0 {
        let t = ps.drop_first();
        assert(u.drop_first() =~= t.push((key, v)));
        assert forall|i: int| 0 <= i < t.len() implies t[i].0 != key by {
            assert(t[i] == ps[i + 1]);
        }
        lemma_lookup_push(t, key, v);
    }
    assert forall|k: Seq<char>| k != key implies #[trigger] pair_lookup(u, k) == pair_lookup(ps, k) by {
        if ps.len() > 0 {
            let t = ps.drop_first();
            assert(u[0] == ps[0]);
            assert(u.drop_first() =~= t.push((key, v)));
            if ps[0].0 != k {
                assert(pair_lookup(u, k) == pair_lookup(t.push((key, v)), k));
                assert(pair_lookup(t.push((key, v)), k) == pair_lookup(t, k));
            }
        } else {
            assert(u[0] == (key, v));
            assert(u.drop_first().len() == 0);
            assert(pair_lookup(u.drop_first(), k) is None);
        }
    }
}

/// The action an utterance names: an accepted pair first (when it still names
/// a catalog action), else the static phrase table.
pub open spec fn resolution(query: Seq<char>, store: IntentStore) -> Option<&'static str> {
    let n = normalized(query);
    if n.len() == 0 {
        None
    } else {
        match store.recalled(n) {
            Some(id) if lookup_action(id) is Some => Some(lookup_action(id).unwrap().id),
            _ => static_intent(n),
        }
    }
}

/// Resolves a query to a catalog action id.
pub fn resolve(query: &str, store: &IntentStore) -> (r: Option<&'static str>)
    ensures
        r == resolution(query@, *store),
{
    let normalized = normalize_phrase(query);
    if normalized.as_str().is_empty() {
        return None;
    }
    match store.lookup(normalized.as_str()) {
        Some(id) => match get(id.as_str()) {
            Some(action) => {
                return Some(action.id);
            },
            None => {},
        },
        None => {},
    }
    map_static(normalized.as_str())
}

/// An utterance holding a two-or-more-word table phrase anywhere among its
/// normalised words resolves to some action, whatever the store remembers.
pub proof fn law_resolve_finds_multiword_phrase_anywhere(query: Seq<char>, store: IntentStore, j: int, i: int)
    requires
        0 <= j < phrase_table().len(),
        words(phrase_table()[j].0@).len() >= 2,
        occurs_at(words(normalized(query)), words(phrase_table()[j].0@), i),
    ensures
        resolution(query, store) is Some,
{
    let n = normalized(query);
    law_multiword_phrase_found_at_any_position(n, j, i);
    if n.len() == 0 {
        assert(words(n) =~= seq![]);
    }
}

} // verus!
