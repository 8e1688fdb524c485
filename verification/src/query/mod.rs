//! Phase-one palette query: recent commands, open windows, applications and
//! the typed action catalog, ranked in process. (Phase two, the file index,
//! is searched separately.)

pub mod score;
pub mod catalog;
pub mod jev;
pub mod open_windows;

use vstd::prelude::*;
use crate::apps::{source_rank, source_rank_of, AppEntry};
use crate::query::catalog::{
    action_effect, get, lookup_action, search, search_results, take_at_most, ActionEffect,
    CatalogError, TypedAction,
};
use crate::query::jev::{normalized, resolution, resolve, IntentError, IntentStore};
use crate::query::open_windows::{window_results, OpenWindow};
use crate::query::score::{keywords_score, score_text, score_with_keywords, text_score};
use crate::sorting::{insert_sorted, lemma_stable_sort_from, sort_ranked, stable_sort, Ranked};
use crate::text::{concat, decimal, format_i64, lex_lt, str_eq, str_lex_lt, to_lowercase, trim, trim_exec, chars_of, string_of, unicode_lowercase};

verus! {

pub const RECENT_LIMIT: usize = 5;

pub const WINDOW_LIMIT: usize = 8;

pub const APP_LIMIT: usize = 6;

pub const ACTION_LIMIT: usize = 8;

/// Score given to the action an utterance was mapped to, so it leads.
pub const INTENT_SCORE: i32 = 10000;

#[derive(Clone, Copy, Debug, PartialEq, Eq, Structural)]
pub enum Phase1Kind {
    Recent,
    Window,
    App,
    Action,
}

/// One row of the palette's first phase.
#[derive(Debug)]
pub struct Phase1Hit {
    pub id: String,
    pub kind: Phase1Kind,
    pub title: String,
    pub subtitle: String,
    pub score: i32,
    pub app_id: Option<String>,
    pub path: Option<String>,
    pub hwnd: Option<i64>,
    pub action_id: Option<String>,
    pub uri: Option<String>,
    pub icon_key: Option<String>,
    pub source: Option<String>,
}

/// A hit with its strings seen as character sequences.
#[verifier::ext_equal]
pub struct HitView {
    pub id: Seq<char>,
    pub kind: Phase1Kind,
    pub title: Seq<char>,
    pub subtitle: Seq<char>,
    pub score: i32,
    pub app_id: Option<Seq<char>>,
    pub path: Option<Seq<char>>,
    pub hwnd: Option<i64>,
    pub action_id: Option<Seq<char>>,
    pub uri: Option<Seq<char>>,
    pub icon_key: Option<Seq<char>>,
    pub source: Option<Seq<char>>,
}

pub open spec fn opt_view(o: Option<String>) -> Option<Seq<char>> {
    match o {
        Some(s) => Some(s@),
        None => None,
    }
}

pub open spec fn opt_str_view(o: Option<&'static str>) -> Option<Seq<char>> {
    match o {
        Some(s) => Some(s@),
        None => None,
    }
}

impl View for Phase1Hit {
    type V = HitView;

    open spec fn view(&self) -> HitView {
        HitView {
            id: self.id@,
            kind: self.kind,
            title: self.title@,
            subtitle: self.subtitle@,
            score: self.score,
            app_id: opt_view(self.app_id),
            path: opt_view(self.path),
            hwnd: self.hwnd,
            action_id: opt_view(self.action_id),
            uri: opt_view(self.uri),
            icon_key: opt_view(self.icon_key),
            source: opt_view(self.source),
        }
    }
}

pub open spec fn hits_view(v: Seq<Phase1Hit>) -> Seq<HitView> {
    v.map_values(|h: Phase1Hit| h@)
}

/// Everything the first phase answers for one query.
#[derive(Debug)]
pub struct Phase1Response {
    pub query: String,
    pub recents: Vec<Phase1Hit>,
    pub windows: Vec<Phase1Hit>,
    pub apps: Vec<Phase1Hit>,
    pub actions: Vec<Phase1Hit>,
    pub intent_action_id: Option<String>,
}

#[verifier::ext_equal]
pub struct ResponseView {
    pub query: Seq<char>,
    pub recents: Seq<HitView>,
    pub windows: Seq<HitView>,
    pub apps: Seq<HitView>,
    pub actions: Seq<HitView>,
    pub intent_action_id: Option<Seq<char>>,
}

impl View for Phase1Response {
    type V = ResponseView;

    open spec fn view(&self) -> ResponseView {
        ResponseView {
            query: self.query@,
            recents: hits_view(self.recents@),
            windows: hits_view(self.windows@),
            apps: hits_view(self.apps@),
            actions: hits_view(self.actions@),
            intent_action_id: opt_view(self.intent_action_id),
        }
    }
}

/// A command the user ran recently.
#[derive(Debug)]
pub struct RecentCommand {
    pub id: String,
    pub title: String,
}

impl RecentCommand {
    /// A field-by-field copy.
    pub fn duplicate(&self) -> (r: RecentCommand)
        ensures
            r == *self,
    {
        RecentCommand { id: self.id.clone(), title: self.title.clone() }
    }
}

// ---------------------------------------------------------------------------
// Rows
// ---------------------------------------------------------------------------

pub open spec fn action_hit_view(a: TypedAction, score: i32, from_intent: bool) -> HitView {
    HitView {
        id: "action::"@ + a.id@,
        kind: Phase1Kind::Action,
        title: a.title@,
        subtitle: if from_intent {
            a.subtitle@ + " · from your wording"@
        } else {
            a.subtitle@
        },
        score: score,
        app_id: None,
        path: None,
        hwnd: None,
        action_id: Some(a.id@),
        uri: opt_str_view(a.uri),
        icon_key: Some(a.icon_key@),
        source: None,
    }
}

pub open spec fn app_hit_view(app: AppEntry, score: i32) -> HitView {
    HitView {
        id: "app::"@ + app.app_id@,
        kind: Phase1Kind::App,
        title: app.name@,
        subtitle: "Application"@,
        score: score,
        app_id: Some(app.app_id@),
        path: opt_view(app.path),
        hwnd: None,
        action_id: None,
        uri: None,
        icon_key: None,
        source: Some(app.source@),
    }
}

pub open spec fn window_hit_view(w: OpenWindow, score: i32) -> HitView {
    HitView {
        id: "window::"@ + decimal(w.hwnd as int),
        kind: Phase1Kind::Window,
        title: w.title@,
        subtitle: if w.process_name@.len() == 0 {
            "Open window"@
        } else {
            "Open window · "@ + w.process_name@
        },
        score: score,
        app_id: None,
        path: None,
        hwnd: Some(w.hwnd),
        action_id: None,
        uri: None,
        icon_key: Some("window"@),
        source: None,
    }
}

pub open spec fn recent_hit_view(e: RecentCommand, score: i32) -> HitView {
    HitView {
        id: e.id@,
        kind: Phase1Kind::Recent,
        title: e.title@,
        subtitle: "Recent"@,
        score: score,
        app_id: None,
        path: None,
        hwnd: None,
        action_id: None,
        uri: None,
        icon_key: None,
        source: None,
    }
}

fn owned(s: &str) -> (r: String)
    ensures
        r@ == s@,
{
    s.to_owned()
}

fn copy_opt(o: &Option<String>) -> (r: Option<String>)
    ensures
        opt_view(r) == opt_view(*o),
{
    match o {
        Some(s) => Some(s.clone()),
        None => None,
    }
}

fn action_hit(action: &TypedAction, score: i32, from_intent: bool) -> (r: Phase1Hit)
    ensures
        r@ == action_hit_view(*action, score, from_intent),
{
    let subtitle = if from_intent {
        concat(action.subtitle, " · from your wording")
    } else {
        owned(action.subtitle)
    };
    Phase1Hit {
        id: concat("action::", action.id),
        kind: Phase1Kind::Action,
        title: owned(action.title),
        subtitle,
        score,
        app_id: None,
        path: None,
        hwnd: None,
        action_id: Some(owned(action.id)),
        uri: match action.uri {
            Some(u) => Some(owned(u)),
            None => None,
        },
        icon_key: Some(owned(action.icon_key)),
        source: None,
    }
}

fn app_hit(app: &AppEntry, score: i32) -> (r: Phase1Hit)
    ensures
        r@ == app_hit_view(*app, score),
{
    Phase1Hit {
        id: concat("app::", app.app_id.as_str()),
        kind: Phase1Kind::App,
        title: app.name.clone(),
        subtitle: owned("Application"),
        score,
        app_id: Some(app.app_id.clone()),
        path: copy_opt(&app.path),
        hwnd: None,
        action_id: None,
        uri: None,
        icon_key: None,
        source: Some(app.source.clone()),
    }
}

fn window_hit(window: &OpenWindow, score: i32) -> (r: Phase1Hit)
    ensures
        r@ == window_hit_view(*window, score),
{
    let subtitle = if window.process_name.as_str().is_empty() {
        owned("Open window")
    } else {
        concat("Open window · ", window.process_name.as_str())
    };
    let number = format_i64(window.hwnd);
    Phase1Hit {
        id: concat("window::", number.as_str()),
        kind: Phase1Kind::Window,
        title: window.title.clone(),
        subtitle,
        score,
        app_id: None,
        path: None,
        hwnd: Some(window.hwnd),
        action_id: None,
        uri: None,
        icon_key: Some(owned("window")),
        source: None,
    }
}

fn recent_hit(entry: &RecentCommand, score: i32) -> (r: Phase1Hit)
    ensures
        r@ == recent_hit_view(*entry, score),
{
    Phase1Hit {
        id: entry.id.clone(),
        kind: Phase1Kind::Recent,
        title: entry.title.clone(),
        subtitle: owned("Recent"),
        score,
        app_id: None,
        path: None,
        hwnd: None,
        action_id: None,
        uri: None,
        icon_key: None,
        source: None,
    }
}


// ---------------------------------------------------------------------------
// Recent commands
// ---------------------------------------------------------------------------

/// A recent command with its score; higher scores first.
pub struct RecentRow {
    pub entry: RecentCommand,
    pub score: i32,
}

impl Ranked for RecentRow {
    open spec fn spec_precedes(&self, other: &Self) -> bool {
        self.score > other.score
    }

    fn precedes(&self, other: &Self) -> (r: bool) {
        self.score > other.score
    }
}

pub open spec fn scored_recents(q: Seq<char>, rs: Seq<RecentCommand>) -> Seq<RecentRow>
    decreases rs.len(),
{
    if rs.len() == 0 {
        seq![]
    } else {
        let rest = scored_recents(q, rs.drop_last());
        match text_score(q, rs.last().title@) {
            Some(s) => rest.push(RecentRow { entry: rs.last(), score: s }),
            None => rest,
        }
    }
}

/// Matching recent commands, best first, at most five.
pub open spec fn recents_view(q: Seq<char>, rs: Seq<RecentCommand>) -> Seq<HitView> {
    take_at_most(stable_sort(scored_recents(q, rs)), RECENT_LIMIT as int).map_values(
        |r: RecentRow| recent_hit_view(r.entry, r.score),
    )
}

/// Rows in order of non-increasing score.
pub open spec fn best_first(s: Seq<RecentRow>) -> bool {
    forall|i: int, j: int| 0 <= i < j < s.len() ==> (#[trigger] s[i]).score >= (#[trigger] s[j]).score
}

proof fn lemma_insert_best_first(s: Seq<RecentRow>, x: RecentRow)
    requires
        best_first(s),
    ensures
        best_first(insert_sorted(s, x)),
        forall|y: RecentRow| #[trigger] insert_sorted(s, x).contains(y) <==> (y == x || s.contains(y)),
        insert_sorted(s, x).len() == s.len() + 1,
    decreases s.len(),
{
    let u = insert_sorted(s, x);
    if s.len() == 0 {
        assert(u =~= seq![x]);
        assert forall|y: RecentRow| #[trigger] u.contains(y) <==> (y == x || s.contains(y)) by {
            if y == x {
                assert(u[0] == y);
            }
        }
    } else if x.score > s[0].score {
        assert(u =~= seq![x] + s);
        assert forall|i: int, j: int| 0 <= i < j < u.len() implies (#[trigger] u[i]).score >= (#[trigger] u[j]).score by {
            if i == 0 {
                assert(u[j] == s[j - 1]);
                if j > 1 {
                    assert(s[0].score >= s[j - 1].score);
                }
            } else {
                assert(u[i] == s[i - 1] && u[j] == s[j - 1]);
            }
        }
        assert forall|y: RecentRow| #[trigger] u.contains(y) <==> (y == x || s.contains(y)) by {
            if u.contains(y) {
                let k = choose|k: int| 0 <= k < u.len() && u[k] == y;
                if k > 0 {
                    assert(s[k - 1] == y);
                }
            }
            if s.contains(y) {
                let k = choose|k: int| 0 <= k < s.len() && s[k] == y;
                assert(u[k + 1] == y);
            }
            if y == x {
                assert(u[0] == y);
            }
        }
    } else {
        let t = s.drop_first();
        assert(best_first(t)) by {
            assert forall|i: int, j: int| 0 <= i < j < t.len() implies (#[trigger] t[i]).score >= (#[trigger] t[j]).score by {
                assert(t[i] == s[i + 1] && t[j] == s[j + 1]);
            }
        }
        lemma_insert_best_first(t, x);
        let v = insert_sorted(t, x);
        assert(u =~= seq![s[0]] + v);
        assert forall|y: RecentRow| v.contains(y) implies s[0].score >= y.score by {
            if y != x {
                assert(t.contains(y));
                let k = choose|k: int| 0 <= k < t.len() && t[k] == y;
                assert(s[k + 1] == y);
            }
        }
        assert forall|i: int, j: int| 0 <= i < j < u.len() implies (#[trigger] u[i]).score >= (#[trigger] u[j]).score by {
            assert(u[j] == v[j - 1]);
            if i == 0 {
                assert(v.contains(v[j - 1]));
            } else {
                assert(u[i] == v[i - 1]);
            }
        }
        assert forall|y: RecentRow| #[trigger] u.contains(y) <==> (y == x || s.contains(y)) by {
            if u.contains(y) {
                let k = choose|k: int| 0 <= k < u.len() && u[k] == y;
                if k > 0 {
                    assert(v[k - 1] == y);
                    assert(v.contains(y));
                    if t.contains(y) {
                        let m = choose|m: int| 0 <= m < t.len() && t[m] == y;
                        assert(s[m + 1] == y);
                    }
                } else {
                    assert(s[0] == y);
                }
            }
            if s.contains(y) {
                let k = choose|k: int| 0 <= k < s.len() && s[k] == y;
                if k == 0 {
                    assert(u[0] == y);
                } else {
                    assert(t[k - 1] == y);
                    assert(t.contains(y));
                    assert(v.contains(y));
                    let m = choose|m: int| 0 <= m < v.len() && v[m] == y;
                    assert(u[m + 1] == y);
                }
            }
            if y == x {
                assert(v.contains(x));
                let m = choose|m: int| 0 <= m < v.len() && v[m] == x;
                assert(u[m + 1] == x);
            }
        }
    }
}

proof fn lemma_sort_best_first(s: Seq<RecentRow>)
    ensures
        best_first(stable_sort(s)),
        forall|y: RecentRow| #[trigger] stable_sort(s).contains(y) <==> s.contains(y),
        stable_sort(s).len() == s.len(),
    decreases s.len(),
{
    if s.len() > 0 {
        let init = s.drop_last();
        lemma_sort_best_first(init);
        lemma_insert_best_first(stable_sort(init), s.last());
        assert forall|y: RecentRow| #[trigger] stable_sort(s).contains(y) <==> s.contains(y) by {
            if s.contains(y) && y != s.last() {
                let k = choose|k: int| 0 <= k < s.len() && s[k] == y;
                assert(k < s.len() - 1);
                assert(init[k] == y);
            }
            if stable_sort(init).contains(y) {
                assert(init.contains(y));
                let k = choose|k: int| 0 <= k < init.len() && init[k] == y;
                assert(s[k] == y);
            }
            if y == s.last() {
                assert(s[s.len() - 1] == y);
            }
        }
    } else {
        assert(stable_sort(s) =~= seq![]);
    }
}

proof fn lemma_scored_recents_has(q: Seq<char>, rs: Seq<RecentCommand>, k: int, s: i32)
    requires
        0 <= k < rs.len(),
        text_score(q, rs[k].title@) == Some(s),
    ensures
        scored_recents(q, rs).contains(RecentRow { entry: rs[k], score: s }),
    decreases rs.len(),
{
    let rest = scored_recents(q, rs.drop_last());
    if k == rs.len() - 1 {
        assert(scored_recents(q, rs) == rest.push(RecentRow { entry: rs.last(), score: s }));
        assert(scored_recents(q, rs)[rest.len() as int] == RecentRow { entry: rs[k], score: s });
    } else {
        assert(rs.drop_last()[k] == rs[k]);
        lemma_scored_recents_has(q, rs.drop_last(), k, s);
        let m = choose|m: int| 0 <= m < rest.len() && rest[m] == RecentRow { entry: rs[k], score: s };
        match text_score(q, rs.last().title@) {
            Some(t) => {
                assert(scored_recents(q, rs)[m] == rest[m]);
            },
            None => {},
        }
    }
}

/// The recent commands a query lists come best first, and a matching recent
/// command is left out only when the list is full of commands that score at
/// least as high.
pub proof fn law_recents_best_first(q: Seq<char>, rs: Seq<RecentCommand>)
    ensures
        forall|i: int, j: int|
            0 <= i < j < recents_view(q, rs).len() ==> (#[trigger] recents_view(q, rs)[i]).score >= (
            #[trigger] recents_view(q, rs)[j]).score,
        recents_view(q, rs).len() <= RECENT_LIMIT,
        forall|k: int|
            0 <= k < rs.len() ==> (#[trigger] text_score(q, rs[k].title@) matches Some(s) ==> (recents_view(
                q,
                rs,
            ).contains(recent_hit_view(rs[k], s)) || (recents_view(q, rs).len() == RECENT_LIMIT && forall|i: int|
                0 <= i < recents_view(q, rs).len() ==> recents_view(q, rs)[i].score >= s))),
{
    let rows = scored_recents(q, rs);
    let sorted = stable_sort(rows);
    lemma_sort_best_first(rows);
    let kept = take_at_most(sorted, RECENT_LIMIT as int);
    let f = |r: RecentRow| recent_hit_view(r.entry, r.score);
    let out = recents_view(q, rs);
    assert(out == kept.map_values(f));
    assert forall|i: int| 0 <= i < kept.len() implies kept[i] == sorted[i] by {}
    assert forall|i: int| 0 <= i < out.len() implies (#[trigger] out[i]).score == kept[i].score by {}
    assert forall|k: int|
        0 <= k < rs.len() implies (#[trigger] text_score(q, rs[k].title@) matches Some(s) ==> (out.contains(
        recent_hit_view(rs[k], s),
    ) || (out.len() == RECENT_LIMIT && forall|i: int| 0 <= i < out.len() ==> out[i].score >= s))) by {
        if let Some(s) = text_score(q, rs[k].title@) {
            lemma_scored_recents_has(q, rs, k, s);
            let y = RecentRow { entry: rs[k], score: s };
            assert(sorted.contains(y));
            let m = choose|m: int| 0 <= m < sorted.len() && sorted[m] == y;
            if m < kept.len() {
                assert(out[m] == recent_hit_view(rs[k], s));
            } else {
                assert forall|i: int| 0 <= i < out.len() implies out[i].score >= s by {
                    assert(sorted[i].score >= sorted[m].score);
                }
            }
        }
    }
}

fn search_recents(query: &str, recent: &[RecentCommand]) -> (r: Vec<Phase1Hit>)
    ensures
        hits_view(r@) == recents_view(query@, recent@),
{
    let mut rows: Vec<RecentRow> = Vec::new();
    let mut i: usize = 0;
    assert(recent@.take(0) =~= seq![]);
    while i < recent.len()
        invariant
            i <= recent@.len(),
            rows@ == scored_recents(query@, recent@.take(i as int)),
        decreases recent@.len() - i,
    {
        proof {
            assert(recent@.take(i + 1).drop_last() =~= recent@.take(i as int));
            assert(recent@.take(i + 1).last() == recent@[i as int]);
        }
        match score_text(query, recent[i].title.as_str()) {
            Some(s) => rows.push(RecentRow { entry: recent[i].duplicate(), score: s }),
            None => {},
        }
        i += 1;
    }
    assert(recent@.take(recent@.len() as int) =~= recent@);
    let mut sorted = sort_ranked(rows);
    sorted.truncate(RECENT_LIMIT);
    let ghost expect = sorted@;
    let mut out: Vec<Phase1Hit> = Vec::new();
    let mut k: usize = 0;
    while k < sorted.len()
        invariant
            k <= sorted@.len(),
            sorted@ == expect,
            out@.len() == k,
            forall|j: int|
                0 <= j < k ==> (#[trigger] out@[j])@ == recent_hit_view(expect[j].entry, expect[j].score),
        decreases sorted@.len() - k,
    {
        let h = recent_hit(&sorted[k].entry, sorted[k].score);
        out.push(h);
        k += 1;
    }
    assert(hits_view(out@) =~= recents_view(query@, recent@));
    out
}

// ---------------------------------------------------------------------------
// Windows
// ---------------------------------------------------------------------------

pub open spec fn windows_view(q: Seq<char>, ws: Seq<OpenWindow>) -> Seq<HitView> {
    window_results(q, ws, WINDOW_LIMIT).map_values(
        |r: open_windows::WindowRow| window_hit_view(r.window, r.score),
    )
}

fn search_windows(query: &str, windows: &[OpenWindow]) -> (r: Vec<Phase1Hit>)
    ensures
        hits_view(r@) == windows_view(query@, windows@),
{
    let ranked = open_windows::search(query, windows, WINDOW_LIMIT);
    let ghost expect = window_results(query@, windows@, WINDOW_LIMIT);
    let mut out: Vec<Phase1Hit> = Vec::new();
    let mut k: usize = 0;
    while k < ranked.len()
        invariant
            k <= ranked@.len(),
            ranked@.len() == expect.len(),
            forall|i: int|
                0 <= i < ranked@.len() ==> #[trigger] ranked@[i] == (expect[i].window, expect[i].score),
            out@.len() == k,
            forall|j: int|
                0 <= j < k ==> (#[trigger] out@[j])@ == window_hit_view(expect[j].window, expect[j].score),
        decreases ranked@.len() - k,
    {
        assert(ranked@[k as int] == (expect[k as int].window, expect[k as int].score));
        let h = window_hit(&ranked[k].0, ranked[k].1);
        out.push(h);
        k += 1;
    }
    assert(hits_view(out@) =~= windows_view(query@, windows@));
    out
}

// ---------------------------------------------------------------------------
// Applications
// ---------------------------------------------------------------------------

/// A matching application (by index) ordered by normalised name, then by
/// source preference, then by score: the order in which duplicates are
/// collapsed onto their preferred entry.
pub struct NamedApp {
    pub index: usize,
    pub name: String,
    pub score: i32,
    pub rank: i32,
}

impl Ranked for NamedApp {
    open spec fn spec_precedes(&self, other: &Self) -> bool {
        ||| lex_lt(self.name@, other.name@)
        ||| (self.name@ == other.name@ && self.rank > other.rank)
        ||| (self.name@ == other.name@ && self.rank == other.rank && self.score > other.score)
    }

    fn precedes(&self, other: &Self) -> (r: bool) {
        if str_lex_lt(self.name.as_str(), other.name.as_str()) {
            return true;
        }
        if !str_eq(self.name.as_str(), other.name.as_str()) {
            return false;
        }
        self.rank > other.rank || (self.rank == other.rank && self.score > other.score)
    }
}

/// A surviving application ordered by score, then source preference.
#[derive(Clone, Copy)]
pub struct RankedApp {
    pub index: usize,
    pub score: i32,
    pub rank: i32,
}

impl Ranked for RankedApp {
    open spec fn spec_precedes(&self, other: &Self) -> bool {
        self.score > other.score || (self.score == other.score && self.rank > other.rank)
    }

    fn precedes(&self, other: &Self) -> (r: bool) {
        self.score > other.score || (self.score == other.score && self.rank > other.rank)
    }
}

pub open spec fn keyword_views(app: AppEntry) -> Seq<Seq<char>> {
    app.keywords@.map_values(|k: String| k@)
}

/// The matching applications among the first `n`, in list order.
pub open spec fn named_rows(q: Seq<char>, apps: Seq<AppEntry>, n: int) -> Seq<NamedApp>
    decreases n,
{
    if n <= 0 {
        seq![]
    } else {
        let rest = named_rows(q, apps, n - 1);
        let app = apps[n - 1];
        match keywords_score(q, app.name@, keyword_views(app)) {
            Some(s) => rest.push(
                NamedApp {
                    index: (n - 1) as usize,
                    name: app.normalized_name,
                    score: s,
                    rank: source_rank_of(app.source@),
                },
            ),
            None => rest,
        }
    }
}

/// Drops each row whose name equals that of the last row kept.
pub open spec fn dedup_names(s: Seq<NamedApp>) -> Seq<NamedApp>
    decreases s.len(),
{
    if s.len() == 0 {
        seq![]
    } else {
        let kept = dedup_names(s.drop_last());
        if kept.len() > 0 && kept.last().name@ == s.last().name@ {
            kept
        } else {
            kept.push(s.last())
        }
    }
}

pub open spec fn to_ranked(s: Seq<NamedApp>) -> Seq<RankedApp> {
    s.map_values(|r: NamedApp| RankedApp { index: r.index, score: r.score, rank: r.rank })
}

/// The application rows: one per normalised name (its preferred source),
/// best score first, at most six.
pub open spec fn app_rows(q: Seq<char>, apps: Seq<AppEntry>) -> Seq<RankedApp> {
    take_at_most(
        stable_sort(to_ranked(dedup_names(stable_sort(named_rows(q, apps, apps.len() as int))))),
        APP_LIMIT as int,
    )
}

pub open spec fn apps_view(q: Seq<char>, apps: Seq<AppEntry>) -> Seq<HitView> {
    app_rows(q, apps).map_values(|r: RankedApp| app_hit_view(apps[r.index as int], r.score))
}

fn score_app(query: &str, app: &AppEntry) -> (r: Option<i32>)
    ensures
        r == keywords_score(query@, app.name@, keyword_views(*app)),
{
    let mut refs: Vec<&str> = Vec::new();
    let mut i: usize = 0;
    while i < app.keywords.len()
        invariant
            i <= app.keywords@.len(),
            refs@.len() == i,
            forall|j: int| 0 <= j < i ==> #[trigger] refs@[j]@ == app.keywords@[j]@,
        decreases app.keywords@.len() - i,
    {
        refs.push(app.keywords[i].as_str());
        i += 1;
    }
    proof {
        assert(crate::query::score::str_views(refs@) =~= keyword_views(*app));
    }
    score_with_keywords(query, app.name.as_str(), refs.as_slice())
}

fn dedup_rows(rows: Vec<NamedApp>) -> (r: Vec<NamedApp>)
    ensures
        r@ == dedup_names(rows@),
{
    let ghost orig = rows@;
    let n = rows.len();
    let mut rest = rows;
    let mut out: Vec<NamedApp> = Vec::new();
    let mut k: usize = 0;
    assert(orig.take(0) =~= seq![]);
    assert(orig.skip(0) =~= orig);
    while rest.len() > 0
        invariant
            k + rest@.len() == n,
            n == orig.len(),
            rest@ == orig.skip(k as int),
            out@ == dedup_names(orig.take(k as int)),
        decreases rest@.len(),
    {
        let row = rest.remove(0);
        proof {
            assert(orig.take(k + 1).drop_last() =~= orig.take(k as int));
            assert(orig.take(k + 1).last() == row);
        }
        let keep = if out.len() == 0 {
            true
        } else {
            !str_eq(out[out.len() - 1].name.as_str(), row.name.as_str())
        };
        if keep {
            out.push(row);
        }
        k += 1;
        assert(rest@ =~= orig.skip(k as int));
    }
    assert(orig.take(k as int) =~= orig);
    out
}

fn search_apps(query: &str, apps: &[AppEntry]) -> (r: Vec<Phase1Hit>)
    ensures
        hits_view(r@) == apps_view(query@, apps@),
{
    let mut rows: Vec<NamedApp> = Vec::new();
    let mut i: usize = 0;
    while i < apps.len()
        invariant
            i <= apps@.len(),
            rows@ == named_rows(query@, apps@, i as int),
        decreases apps@.len() - i,
    {
        match score_app(query, &apps[i]) {
            Some(s) => rows.push(
                NamedApp {
                    index: i,
                    name: apps[i].normalized_name.clone(),
                    score: s,
                    rank: source_rank(apps[i].source.as_str()),
                },
            ),
            None => {},
        }
        i += 1;
    }
    let by_name = sort_ranked(rows);
    let unique = dedup_rows(by_name);
    let ghost named = unique@;
    let mut ranked: Vec<RankedApp> = Vec::new();
    let mut k: usize = 0;
    while k < unique.len()
        invariant
            k <= unique@.len(),
            unique@ == named,
            ranked@ =~= to_ranked(named.take(k as int)),
        decreases unique@.len() - k,
    {
        ranked.push(RankedApp { index: unique[k].index, score: unique[k].score, rank: unique[k].rank });
        proof {
            assert(named.take(k + 1) =~= named.take(k as int).push(named[k as int]));
        }
        k += 1;
    }
    assert(named.take(k as int) =~= named);
    let mut best = sort_ranked(ranked);
    best.truncate(APP_LIMIT);
    let ghost expect = best@;
    assert(expect == app_rows(query@, apps@));
    proof {
        assert forall|j: int| 0 <= j < expect.len() implies (#[trigger] expect[j]).index < apps@.len() by {
            lemma_app_rows_index(query@, apps@, j);
        }
    }
    let mut out: Vec<Phase1Hit> = Vec::new();
    let mut m: usize = 0;
    while m < best.len()
        invariant
            m <= best@.len(),
            best@ == expect,
            forall|j: int| 0 <= j < expect.len() ==> (#[trigger] expect[j]).index < apps@.len(),
            out@.len() == m,
            forall|j: int|
                0 <= j < m ==> (#[trigger] out@[j])@ == app_hit_view(
                    apps@[expect[j].index as int],
                    expect[j].score,
                ),
        decreases best@.len() - m,
    {
        let row = best[m];
        assert(row == expect[m as int]);
        let h = app_hit(&apps[row.index], row.score);
        out.push(h);
        m += 1;
    }
    assert(hits_view(out@) =~= apps_view(query@, apps@));
    out
}

// ---------------------------------------------------------------------------
// Actions
// ---------------------------------------------------------------------------

pub open spec fn catalog_hits(q: Seq<char>) -> Seq<HitView> {
    search_results(q, ACTION_LIMIT).map_values(
        |p: (TypedAction, i32)| action_hit_view(p.0, p.1, false),
    )
}

/// `hs` without the hits for action `id`.
pub open spec fn without_action(hs: Seq<HitView>, id: Seq<char>) -> Seq<HitView>
    decreases hs.len(),
{
    if hs.len() == 0 {
        seq![]
    } else {
        let rest = without_action(hs.drop_last(), id);
        if hs.last().action_id == Some(id) {
            rest
        } else {
            rest.push(hs.last())
        }
    }
}

/// The catalog hits, with the action an utterance maps to (when it is a
/// catalog action) pinned first at `INTENT_SCORE`, at most eight.
pub open spec fn actions_view(q: Seq<char>, intent: Option<&'static str>) -> Seq<HitView> {
    let base = catalog_hits(q);
    match intent {
        Some(id) => match lookup_action(id@) {
            Some(a) => take_at_most(
                seq![action_hit_view(a, INTENT_SCORE, true)] + without_action(base, id@),
                ACTION_LIMIT as int,
            ),
            None => base,
        },
        None => base,
    }
}

fn names_action(hit: &Phase1Hit, id: &str) -> (r: bool)
    ensures
        r == (hit@.action_id == Some(id@)),
{
    match &hit.action_id {
        Some(a) => str_eq(a.as_str(), id),
        None => false,
    }
}

fn search_actions(query: &str, intent_id: Option<&'static str>) -> (r: Vec<Phase1Hit>)
    ensures
        hits_view(r@) == actions_view(query@, intent_id),
{
    let found = search(query, ACTION_LIMIT);
    let ghost expect = search_results(query@, ACTION_LIMIT);
    let mut hits: Vec<Phase1Hit> = Vec::new();
    let mut k: usize = 0;
    while k < found.len()
        invariant
            k <= found@.len(),
            found@ == expect,
            hits@.len() == k,
            forall|j: int|
                0 <= j < k ==> (#[trigger] hits@[j])@ == action_hit_view(expect[j].0, expect[j].1, false),
        decreases found@.len() - k,
    {
        let h = action_hit(&found[k].0, found[k].1, false);
        hits.push(h);
        k += 1;
    }
    assert(hits_view(hits@) =~= catalog_hits(query@));
    let id = match intent_id {
        Some(id) => id,
        None => {
            return hits;
        },
    };
    let action = match get(id) {
        Some(a) => a,
        None => {
            return hits;
        },
    };
    let ghost base = hits_view(hits@);
    let mut out: Vec<Phase1Hit> = Vec::new();
    out.push(action_hit(&action, INTENT_SCORE, true));
    let mut rest = hits;
    let n = rest.len();
    let mut i: usize = 0;
    assert(base.take(0) =~= seq![]);
    assert(hits_view(out@) =~= seq![action_hit_view(action, INTENT_SCORE, true)] + without_action(
        base.take(0),
        id@,
    ));
    while rest.len() > 0
        invariant
            i + rest@.len() == n,
            n == base.len(),
            hits_view(rest@) == base.skip(i as int),
            hits_view(out@) == seq![action_hit_view(action, INTENT_SCORE, true)] + without_action(
                base.take(i as int),
                id@,
            ),
        decreases rest@.len(),
    {
        let ghost before = rest@;
        let h = rest.remove(0);
        proof {
            assert(h@ == hits_view(before)[0]);
            assert(base.take(i + 1).drop_last() =~= base.take(i as int));
            assert(base.take(i + 1).last() == base.skip(i as int)[0]);
        }
        let ghost prev = out@;
        if !names_action(&h, id) {
            out.push(h);
            assert(hits_view(out@) =~= hits_view(prev).push(base.take(i + 1).last()));
        }
        i += 1;
        assert forall|j: int| 0 <= j < rest@.len() implies #[trigger] hits_view(rest@)[j] == base.skip(
            i as int,
        )[j] by {
            assert(rest@[j] == before[j + 1]);
            assert(hits_view(before)[j + 1] == base.skip(i - 1)[j + 1]);
        }
        assert(hits_view(rest@) =~= base.skip(i as int));
    }
    assert(base.take(i as int) =~= base);
    out.truncate(ACTION_LIMIT);
    assert(hits_view(out@) =~= actions_view(query@, intent_id));
    out
}

// ---------------------------------------------------------------------------
// The first phase
// ---------------------------------------------------------------------------

pub open spec fn empty_view(query: Seq<char>) -> ResponseView {
    ResponseView {
        query: query,
        recents: seq![],
        windows: seq![],
        apps: seq![],
        actions: seq![],
        intent_action_id: None,
    }
}

/// The first phase's answer: on the trimmed query, lowercased, the recent
/// commands, windows, applications and actions that match it, and the
/// action the wording maps to.
pub open spec fn phase1_view(
    query: Seq<char>,
    recent: Seq<RecentCommand>,
    apps: Seq<AppEntry>,
    windows: Seq<OpenWindow>,
    store: IntentStore,
) -> ResponseView {
    let t = trim(query);
    if t.len() == 0 {
        empty_view(seq![])
    } else {
        let q = unicode_lowercase(t);
        let intent = resolution(q, store);
        ResponseView {
            query: t,
            recents: recents_view(q, recent),
            windows: windows_view(q, windows),
            apps: apps_view(q, apps),
            actions: actions_view(q, intent),
            intent_action_id: opt_str_view(intent),
        }
    }
}

/// A response with no rows.
pub fn empty_phase1(query: &str) -> (r: Phase1Response)
    ensures
        r@ == empty_view(query@),
{
    let r = Phase1Response {
        query: owned(query),
        recents: Vec::new(),
        windows: Vec::new(),
        apps: Vec::new(),
        actions: Vec::new(),
        intent_action_id: None,
    };
    assert(r@ =~= empty_view(query@));
    r
}

/// Runs the in-process phase of a palette query.
pub fn phase1(
    query: &str,
    recent: &[RecentCommand],
    apps: &[AppEntry],
    windows: &[OpenWindow],
    intent: &IntentStore,
) -> (r: Phase1Response)
    ensures
        r@ == phase1_view(query@, recent@, apps@, windows@, *intent),
{
    let chars = chars_of(query);
    let trimmed_chars = trim_exec(chars.as_slice());
    let trimmed = string_of(trimmed_chars.as_slice());
    if trimmed.as_str().is_empty() {
        let r = empty_phase1("");
        proof {
            reveal_strlit("");
        }
        return r;
    }
    let query_lower = to_lowercase(trimmed.as_str());
    let intent_action = resolve(query_lower.as_str(), intent);
    let recents = search_recents(query_lower.as_str(), recent);
    let window_hits = search_windows(query_lower.as_str(), windows);
    let app_hits = search_apps(query_lower.as_str(), apps);
    let actions = search_actions(query_lower.as_str(), intent_action);
    let r = Phase1Response {
        query: trimmed,
        recents,
        windows: window_hits,
        apps: app_hits,
        actions,
        intent_action_id: match intent_action {
            Some(id) => Some(owned(id)),
            None => None,
        },
    };
    assert(r@ =~= phase1_view(query@, recent@, apps@, windows@, *intent));
    r
}

/// Why a palette action could not run.
#[derive(Debug)]
pub enum ExecuteError {
    /// No catalog action has this id.
    UnknownAction(String),
    /// A settings action without its `ms-settings:` URI.
    MissingUri(&'static str),
}

impl ExecuteError {
    /// The message shown to the user.
    pub fn message(&self) -> (r: String)
        ensures
            self matches ExecuteError::UnknownAction(id) ==> r@ == "unknown action id '"@ + id@
                + "'"@,
            self matches ExecuteError::MissingUri(id) ==> r@ == "settings action "@ + id@
                + " is missing a URI"@,
    {
        match self {
            ExecuteError::UnknownAction(id) => {
                let head = concat("unknown action id '", id.as_str());
                concat(head.as_str(), "'")
            },
            ExecuteError::MissingUri(id) => {
                let head = concat("settings action ", id);
                concat(head.as_str(), " is missing a URI")
            },
        }
    }
}

/// Runs the catalog action with this id: what it does, or why it cannot.
pub fn execute(action_id: &str) -> (r: Result<ActionEffect, ExecuteError>)
    ensures
        lookup_action(action_id@) is None ==> (r matches Err(ExecuteError::UnknownAction(id))
            && id@ == action_id@),
        lookup_action(action_id@) matches Some(a) ==> match action_effect(a) {
            Ok(effect) => r matches Ok(e) && e == effect,
            Err(CatalogError::MissingUri(id)) => r matches Err(ExecuteError::MissingUri(m)) && m
                == id,
        },
{
    match get(action_id) {
        None => Err(ExecuteError::UnknownAction(owned(action_id))),
        Some(action) => match catalog::execute(&action) {
            Ok(effect) => Ok(effect),
            Err(CatalogError::MissingUri(id)) => Err(ExecuteError::MissingUri(id)),
        },
    }
}

/// Records that `query` meant `action_id`, so it resolves there next time.
pub fn accept_intent(query: &str, action_id: &str, store: &mut IntentStore) -> (r: Result<
    (),
    IntentError,
>)
    ensures
        lookup_action(action_id@) is None <==> r is Err,
        r is Err ==> final(store).entries() == old(store).entries(),
        r is Ok && normalized(query@).len() > 0 ==> final(store).stored(normalized(query@)) == Some(
            action_id@,
        ),
        r is Ok ==> forall|k: Seq<char>|
            k != normalized(query@) ==> #[trigger] final(store).stored(k) == old(store).stored(k),
        r is Ok && normalized(query@).len() == 0 ==> final(store).entries() == old(store).entries(),
{
    store.remember(query, action_id)
}

proof fn lemma_named_rows_index(q: Seq<char>, apps: Seq<AppEntry>, n: int)
    ensures
        forall|j: int|
            0 <= j < named_rows(q, apps, n).len() ==> (#[trigger] named_rows(q, apps, n)[j]).index < n,
    decreases n,
{
    if n > 0 {
        lemma_named_rows_index(q, apps, n - 1);
        let rest = named_rows(q, apps, n - 1);
        assert forall|j: int|
            0 <= j < named_rows(q, apps, n).len() implies (#[trigger] named_rows(q, apps, n)[j]).index
            < n by {
            if j < rest.len() {
                assert(named_rows(q, apps, n)[j] == rest[j]);
            }
        }
    }
}

proof fn lemma_dedup_from(s: Seq<NamedApp>)
    ensures
        forall|y: NamedApp| #[trigger] dedup_names(s).contains(y) ==> s.contains(y),
    decreases s.len(),
{
    if s.len() > 0 {
        let init = s.drop_last();
        lemma_dedup_from(init);
        assert forall|y: NamedApp| #[trigger] dedup_names(s).contains(y) implies s.contains(y) by {
            if y == s.last() {
                assert(s[s.len() - 1] == y);
            } else {
                let d = dedup_names(s);
                let j = choose|j: int| 0 <= j < d.len() && d[j] == y;
                assert(dedup_names(init)[j] == y);
                assert(dedup_names(init).contains(y));
                let k = choose|k: int| 0 <= k < init.len() && init[k] == y;
                assert(s[k] == y);
            }
        }
    }
}

/// Every application row points into the application list.
proof fn lemma_app_rows_index(q: Seq<char>, apps: Seq<AppEntry>, j: int)
    requires
        0 <= j < app_rows(q, apps).len(),
    ensures
        app_rows(q, apps)[j].index < apps.len(),
{
    let named = named_rows(q, apps, apps.len() as int);
    lemma_named_rows_index(q, apps, apps.len() as int);
    let sorted = stable_sort(named);
    lemma_stable_sort_from(named);
    let unique = dedup_names(sorted);
    lemma_dedup_from(sorted);
    let ranked = to_ranked(unique);
    let best = stable_sort(ranked);
    lemma_stable_sort_from(ranked);
    let y = app_rows(q, apps)[j];
    assert(best[j] == y);
    assert(best.contains(y));
    assert(ranked.contains(y));
    let k = choose|k: int| 0 <= k < ranked.len() && ranked[k] == y;
    assert(unique.contains(unique[k]));
    assert(sorted.contains(unique[k]));
    let m = choose|m: int| 0 <= m < named.len() && named[m] == unique[k];
    assert(named[m].index < apps.len());
}

/// The recent commands of a first-phase answer come best first for the
/// typed query, and a matching one is left out only when five listed ones
/// score at least as high.
pub proof fn law_phase1_recents_best_first(
    query: Seq<char>,
    recent: Seq<RecentCommand>,
    apps: Seq<AppEntry>,
    windows: Seq<OpenWindow>,
    store: IntentStore,
)
    ensures
        ({
            let out = phase1_view(query, recent, apps, windows, store).recents;
            let q = unicode_lowercase(trim(query));
            &&& forall|i: int, j: int| 0 <= i < j < out.len() ==> (#[trigger] out[i]).score >= (#[trigger] out[j]).score
            &&& out.len() <= RECENT_LIMIT
            &&& trim(query).len() > 0 ==> forall|k: int|
                0 <= k < recent.len() ==> (#[trigger] text_score(q, recent[k].title@) matches Some(s) ==> (
                out.contains(recent_hit_view(recent[k], s)) || (out.len() == RECENT_LIMIT && forall|i: int|
                    0 <= i < out.len() ==> out[i].score >= s)))
        }),
{
    law_recents_best_first(unicode_lowercase(trim(query)), recent);
}

} // verus!
