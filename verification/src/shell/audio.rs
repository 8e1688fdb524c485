//! What a scroll over the taskbar adjusts: the element under the cursor is
//! classified as the master volume, one application, or nothing known; and
//! the name the volume OSD shows for it.

use vstd::prelude::*;
use crate::catalog::search::last_segment;
use crate::text::{
    after_last, after_last_exec, ascii_lower, ascii_lowercase, before_first, before_first_exec,
    byte_len, char_alphanumeric, chars_of, contains, contains_exec, ends_with, ends_with_exec,
    eq_ignore_case, eq_ignore_case_exec, find, find_exec, is_alphanumeric, lemma_find_bound,
    replace, replace_exec, seq_eq, slice_to_vec, split_char, split_on, split_whitespace,
    starts_with, starts_with_exec, string_of, strip_suffix, strip_suffix_exec, trim, trim_exec,
    words, char_uppercase, is_ascii_alnum, is_ascii_alphanumeric, is_ascii_lower, is_ascii_upper,
    join, join_exec, uppercase_of_char, append_chars,
};

verus! {

/// What UI Automation reported for the element under the cursor.
#[derive(Debug)]
pub struct InspectedElement {
    pub name: String,
    pub class_name: String,
    pub automation_id: String,
}

/// What a scroll over the taskbar should adjust.
#[derive(Debug)]
pub enum TaskbarTarget {
    Unknown,
    Master,
    Application { display_title: String, executable_stem: String },
}

pub enum TargetView {
    Unknown,
    Master,
    Application(Seq<char>, Seq<char>),
}

impl View for TaskbarTarget {
    type V = TargetView;

    open spec fn view(&self) -> TargetView {
        match self {
            TaskbarTarget::Unknown => TargetView::Unknown,
            TaskbarTarget::Master => TargetView::Master,
            TaskbarTarget::Application { display_title, executable_stem } => TargetView::Application(
                display_title@,
                executable_stem@,
            ),
        }
    }
}

// ---------------------------------------------------------------------------
// Taskbar chrome
// ---------------------------------------------------------------------------

/// Whether the element is the taskbar itself or one of its system controls
/// (Start, Search, Widgets, Task View, clock, notifications, the volume tray
/// icon), rather than an application.
pub open spec fn taskbar_background(name: Seq<char>, class: Seq<char>, auto_id: Seq<char>) -> bool {
    ||| auto_id == "TaskbarFrame"@
    ||| contains(class, "TaskbarFrame"@)
    ||| auto_id == "TaskList"@
    ||| contains(class, "TaskList"@)
    ||| contains(class, "DesktopWindowContentBridge"@)
    ||| contains(class, "Shell_TrayWnd"@)
    ||| contains(class, "Shell_SecondaryTrayWnd"@)
    ||| contains(class, "MSTaskListWClass"@)
    ||| contains(class, "ReBarWindow32"@)
    ||| contains(class, "TaskbarListView"@)
    ||| auto_id == "StartButton"@
    ||| auto_id == "SearchButton"@
    ||| auto_id == "WidgetsButton"@
    ||| auto_id == "TaskViewButton"@
    ||| auto_id == "ClockButton"@
    ||| auto_id == "NotificationCenterButton"@
    ||| auto_id == "ShowDesktopButton"@
    ||| auto_id == "SystemTrayFrame"@
    ||| contains(class, "OmniButton"@)
    ||| (starts_with(ascii_lower(name), "volume"@) && (auto_id == "SystemTrayIcon"@ || contains(
        class,
        "OmniButtonRight"@,
    )))
}

fn has(s: &[char], p: &str) -> (r: bool)
    ensures
        r == contains(s@, p@),
{
    let pc = chars_of(p);
    contains_exec(s, pc.as_slice())
}

fn same(s: &[char], p: &str) -> (r: bool)
    ensures
        r == (s@ == p@),
{
    let pc = chars_of(p);
    seq_eq(s, pc.as_slice())
}

pub fn is_taskbar_background(element: &InspectedElement) -> (r: bool)
    ensures
        r == taskbar_background(element.name@, element.class_name@, element.automation_id@),
{
    let class = chars_of(element.class_name.as_str());
    let auto_id = chars_of(element.automation_id.as_str());
    let name = chars_of(element.name.as_str());
    let c = class.as_slice();
    let a = auto_id.as_slice();
    if same(a, "TaskbarFrame") || has(c, "TaskbarFrame") || same(a, "TaskList") || has(c, "TaskList")
        || has(c, "DesktopWindowContentBridge") || has(c, "Shell_TrayWnd") || has(
        c,
        "Shell_SecondaryTrayWnd",
    ) || has(c, "MSTaskListWClass") || has(c, "ReBarWindow32") || has(c, "TaskbarListView") {
        return true;
    }
    if same(a, "StartButton") || same(a, "SearchButton") || same(a, "WidgetsButton") || same(
        a,
        "TaskViewButton",
    ) || same(a, "ClockButton") || same(a, "NotificationCenterButton") || same(a, "ShowDesktopButton")
        || same(a, "SystemTrayFrame") || has(c, "OmniButton") {
        return true;
    }
    let lower = ascii_lowercase(name.as_slice());
    let volume = chars_of("volume");
    starts_with_exec(lower.as_slice(), volume.as_slice()) && (same(a, "SystemTrayIcon") || has(
        c,
        "OmniButtonRight",
    ))
}

// ---------------------------------------------------------------------------
// Executable stems
// ---------------------------------------------------------------------------

/// A process or executable name reduced to what identifies the program: the
/// file name of a path, lowercased (ASCII), without `.exe`.
pub open spec fn exe_stem(value: Seq<char>) -> Seq<char> {
    let file_name = trim(last_segment(trim(value)));
    let lower = ascii_lower(file_name);
    match strip_suffix(lower, ".exe"@) {
        Some(s) => s,
        None => lower,
    }
}

fn final_segment(s: &[char]) -> (r: Vec<char>)
    ensures
        r@ == last_segment(s@),
{
    let mut start = s.len();
    assert(s@.subrange(start as int, start as int) =~= seq![]);
    assert(s@.take(start as int) =~= s@);
    assert(last_segment(s@) + seq![] =~= last_segment(s@));
    while start > 0 && !(s[start - 1] == '\\' || s[start - 1] == '/')
        invariant
            start <= s@.len(),
            last_segment(s@) == last_segment(s@.take(start as int)) + s@.subrange(
                start as int,
                s@.len() as int,
            ),
        decreases start,
    {
        proof {
            let t = s@.take(start as int);
            assert(t.drop_last() =~= s@.take(start - 1));
            assert(last_segment(t) == last_segment(t.drop_last()).push(t.last()));
            assert(last_segment(t.drop_last()).push(t.last()) + s@.subrange(start as int, s@.len() as int)
                =~= last_segment(t.drop_last()) + s@.subrange(start - 1, s@.len() as int));
        }
        start -= 1;
    }
    proof {
        assert(last_segment(s@.take(start as int)) =~= seq![]);
        assert(seq![] + s@.subrange(start as int, s@.len() as int) =~= s@.subrange(
            start as int,
            s@.len() as int,
        ));
    }
    let mut out: Vec<char> = Vec::new();
    let mut i = start;
    while i < s.len()
        invariant
            start <= i <= s@.len(),
            out@ == s@.subrange(start as int, i as int),
        decreases s@.len() - i,
    {
        out.push(s[i]);
        i += 1;
        assert(out@ =~= s@.subrange(start as int, i as int));
    }
    out
}

fn exe_stem_chars(value: &[char]) -> (r: Vec<char>)
    ensures
        r@ == exe_stem(value@),
{
    let trimmed = trim_exec(value);
    let seg = final_segment(trimmed.as_slice());
    let file_name = trim_exec(seg.as_slice());
    let lower = ascii_lowercase(file_name.as_slice());
    let exe = chars_of(".exe");
    match strip_suffix_exec(lower.as_slice(), exe.as_slice()) {
        Some(s) => s,
        None => lower,
    }
}

/// The stem a process or executable name is matched by (see `exe_stem`).
pub fn normalize_executable_stem(value: &str) -> (r: String)
    ensures
        r@ == exe_stem(value@),
{
    let cs = chars_of(value);
    let s = exe_stem_chars(cs.as_slice());
    string_of(s.as_slice())
}

/// A session's process belongs to the target executable: equal stems, with
/// VS Code's two identities (`code`, `visualstudiocode`) taken as one.
pub open spec fn process_matches(process_name: Seq<char>, executable_stem: Seq<char>) -> bool {
    let p = exe_stem(process_name);
    let s = exe_stem(executable_stem);
    p == s || (s == "visualstudiocode"@ && p == "code"@) || (s == "code"@ && p
        == "visualstudiocode"@)
}

pub fn process_matches_executable(process_name: &str, executable_stem: &str) -> (r: bool)
    ensures
        r == process_matches(process_name@, executable_stem@),
{
    let pc = chars_of(process_name);
    let sc = chars_of(executable_stem);
    let p = exe_stem_chars(pc.as_slice());
    let s = exe_stem_chars(sc.as_slice());
    if seq_eq(p.as_slice(), s.as_slice()) {
        return true;
    }
    (same(s.as_slice(), "visualstudiocode") && same(p.as_slice(), "code")) || (same(s.as_slice(), "code")
        && same(p.as_slice(), "visualstudiocode"))
}

/// The segments' stems, without the empty ones.
pub open spec fn segment_stems(parts: Seq<Seq<char>>) -> Seq<Seq<char>>
    decreases parts.len(),
{
    if parts.len() == 0 {
        seq![]
    } else {
        let rest = segment_stems(parts.drop_last());
        let s = exe_stem(parts.last());
        if s.len() > 0 {
            rest.push(s)
        } else {
            rest
        }
    }
}

/// All elements equal the first.
pub open spec fn all_same(s: Seq<Seq<char>>) -> bool {
    forall|i: int| 0 <= i < s.len() ==> #[trigger] s[i] == s[0]
}

/// The executable an `Appid: ...` automation id names without doubt: a path
/// or file name ending in `.exe`, or a dotted id whose segments all reduce
/// to one stem. Packaged ids (with `!`) and mixed ids name none.
pub open spec fn stem_from_app_id(automation_id: Seq<char>) -> Option<Seq<char>> {
    if !starts_with(automation_id, "Appid: "@) {
        None
    } else {
        let app_id = trim(automation_id.skip(7));
        if app_id.len() == 0 || contains(app_id, "!"@) {
            None
        } else if ends_with(ascii_lower(app_id), ".exe"@) {
            Some(exe_stem(app_id))
        } else {
            let stems = segment_stems(split_char(app_id, '.'));
            if stems.len() > 0 && all_same(stems) {
                Some(stems[0])
            } else {
                None
            }
        }
    }
}

fn app_id_prefix() -> (r: Vec<char>)
    ensures
        r@ == "Appid: "@,
        r@.len() == 7,
{
    let r = chars_of("Appid: ");
    proof {
        reveal_strlit("Appid: ");
    }
    r
}

pub fn executable_stem_from_app_id(automation_id: &str) -> (r: Option<String>)
    ensures
        match r {
            Some(s) => stem_from_app_id(automation_id@) == Some(s@),
            None => stem_from_app_id(automation_id@) is None,
        },
{
    let cs = chars_of(automation_id);
    let prefix = app_id_prefix();
    if !starts_with_exec(cs.as_slice(), prefix.as_slice()) {
        return None;
    }
    let rest = crate::text::slice_to_vec(cs.as_slice(), 7, cs.len());
    assert(rest@ =~= cs@.skip(7));
    let app_id = trim_exec(rest.as_slice());
    if app_id.len() == 0 || has(app_id.as_slice(), "!") {
        return None;
    }
    let lower = ascii_lowercase(app_id.as_slice());
    let exe = chars_of(".exe");
    if ends_with_exec(lower.as_slice(), exe.as_slice()) {
        let s = exe_stem_chars(app_id.as_slice());
        return Some(string_of(s.as_slice()));
    }
    let parts = split_on(app_id.as_slice(), '.');
    let ghost sp = split_char(app_id@, '.');
    let mut stems: Vec<Vec<char>> = Vec::new();
    let mut i: usize = 0;
    assert(sp.take(0) =~= seq![]);
    assert(stems@.map_values(|v: Vec<char>| v@) =~= seq![]);
    while i < parts.len()
        invariant
            i <= parts@.len(),
            parts@.len() == sp.len(),
            forall|j: int| 0 <= j < parts@.len() ==> #[trigger] parts@[j]@ == sp[j],
            stems@.map_values(|v: Vec<char>| v@) == segment_stems(sp.take(i as int)),
        decreases parts@.len() - i,
    {
        proof {
            assert(sp.take(i + 1).drop_last() =~= sp.take(i as int));
            assert(sp.take(i + 1).last() == parts@[i as int]@);
        }
        let s = exe_stem_chars(parts[i].as_slice());
        if s.len() > 0 {
            let ghost before = stems@.map_values(|v: Vec<char>| v@);
            stems.push(s);
            assert(stems@.map_values(|v: Vec<char>| v@) =~= before.push(exe_stem(sp[i as int])));
        }
        i += 1;
    }
    assert(sp.take(i as int) =~= sp);
    let ghost st = stems@.map_values(|v: Vec<char>| v@);
    if stems.len() == 0 {
        return None;
    }
    assert(stem_from_app_id(automation_id@) == (if st.len() > 0 && all_same(st) {
        Some(st[0])
    } else {
        None
    }));
    let mut k: usize = 1;
    while k < stems.len()
        invariant
            1 <= k <= stems@.len(),
            st == stems@.map_values(|v: Vec<char>| v@),
            stem_from_app_id(automation_id@) == (if st.len() > 0 && all_same(st) {
                Some(st[0])
            } else {
                None
            }),
            forall|j: int| 0 <= j < k ==> #[trigger] st[j] == st[0],
        decreases stems@.len() - k,
    {
        if !seq_eq(stems[k].as_slice(), stems[0].as_slice()) {
            assert(st[k as int] != st[0]);
            return None;
        }
        k += 1;
    }
    Some(string_of(stems[0].as_slice()))
}

// ---------------------------------------------------------------------------
// Display names
// ---------------------------------------------------------------------------

/// The running-window suffixes Windows appends to taskbar button names,
/// removed in this order.
pub open spec fn running_patterns() -> Seq<&'static str> {
    seq![
        " - 1 running window pinned",
        " - 2 running windows pinned",
        " - 3 running windows pinned",
        " - 4 running windows pinned",
        " - 5 running windows pinned",
        " running window pinned",
        " running windows pinned",
        " - 1 running window",
        " - 2 running windows",
        " - 3 running windows",
        " - 4 running windows",
        " - 5 running windows",
        " running window",
        " running windows",
        " pinned",
    ]
}

/// `s` with every occurrence of each pattern removed, pattern by pattern.
pub open spec fn remove_all(s: Seq<char>, pats: Seq<&'static str>) -> Seq<char>
    decreases pats.len(),
{
    if pats.len() == 0 {
        s
    } else {
        remove_all(replace(s, pats[0]@, seq![]), pats.drop_first())
    }
}

/// `s` with `p` removed from its start as many times as it occurs there.
pub open spec fn strip_all_prefix(s: Seq<char>, p: Seq<char>) -> Seq<char>
    decreases s.len(),
{
    if p.len() > 0 && starts_with(s, p) {
        strip_all_prefix(s.skip(p.len() as int), p)
    } else {
        s
    }
}

/// The name a taskbar button stands for: its accessible name without the
/// running-window suffixes and without any ` - ` tail; else the last dotted
/// segment of its app id; else "Application".
pub open spec fn clean_name(name: Seq<char>, auto_id: Seq<char>) -> Seq<char> {
    let from_name = trim(before_first(remove_all(name, running_patterns()), " - "@));
    if name.len() > 0 && from_name.len() > 0 {
        from_name
    } else if starts_with(auto_id, "Appid: "@) {
        after_last(trim(strip_all_prefix(auto_id, "Appid: "@)), '.')
    } else {
        "Application"@
    }
}

fn strip_all_prefix_exec(s: &[char], p: &[char]) -> (r: Vec<char>)
    ensures
        r@ == strip_all_prefix(s@, p@),
{
    let mut i: usize = 0;
    assert(s@.skip(0) =~= s@);
    while p.len() > 0 && i <= s.len() && starts_with_exec(&slice_to_vec(s, i, s.len()), p)
        invariant
            i <= s@.len(),
            strip_all_prefix(s@, p@) == strip_all_prefix(s@.skip(i as int), p@),
        decreases s@.len() - i,
    {
        proof {
            assert(s@.subrange(i as int, s@.len() as int) =~= s@.skip(i as int));
            assert(s@.skip(i as int).skip(p@.len() as int) =~= s@.skip(i + p@.len()));
        }
        i = i + p.len();
    }
    let r = slice_to_vec(s, i, s.len());
    assert(r@ =~= s@.skip(i as int));
    r
}

pub fn clean_app_display_name(name: &str, auto_id: &str) -> (r: String)
    ensures
        r@ == clean_name(name@, auto_id@),
{
    let pats: Vec<&'static str> = vec![
        " - 1 running window pinned",
        " - 2 running windows pinned",
        " - 3 running windows pinned",
        " - 4 running windows pinned",
        " - 5 running windows pinned",
        " running window pinned",
        " running windows pinned",
        " - 1 running window",
        " - 2 running windows",
        " - 3 running windows",
        " - 4 running windows",
        " - 5 running windows",
        " running window",
        " running windows",
        " pinned",
    ];
    assert(pats@ =~= running_patterns());
    let name_chars = chars_of(name);
    let mut s = name_chars;
    let empty: Vec<char> = Vec::new();
    let mut i: usize = 0;
    assert(pats@.skip(0) =~= pats@);
    while i < pats.len()
        invariant
            i <= pats@.len(),
            pats@ == running_patterns(),
            empty@ == Seq::<char>::empty(),
            remove_all(name@, running_patterns()) == remove_all(s@, pats@.skip(i as int)),
        decreases pats@.len() - i,
    {
        let pc = chars_of(pats[i]);
        proof {
            assert(pats@.skip(i as int)[0] == pats@[i as int]);
            assert(pats@.skip(i as int).drop_first() =~= pats@.skip(i + 1));
        }
        s = replace_exec(s.as_slice(), pc.as_slice(), empty.as_slice());
        i += 1;
    }
    assert(pats@.skip(i as int).len() == 0);
    let sep = chars_of(" - ");
    let first = before_first_exec(s.as_slice(), sep.as_slice());
    let first_part = trim_exec(first.as_slice());
    if !name.is_empty() && first_part.len() > 0 {
        return string_of(first_part.as_slice());
    }
    let auto = chars_of(auto_id);
    let prefix = app_id_prefix();
    if starts_with_exec(auto.as_slice(), prefix.as_slice()) {
        let stripped = strip_all_prefix_exec(auto.as_slice(), prefix.as_slice());
        let part = trim_exec(stripped.as_slice());
        let last = after_last_exec(part.as_slice(), '.');
        return string_of(last.as_slice());
    }
    "Application".to_owned()
}

// ---------------------------------------------------------------------------
// Resolving an application
// ---------------------------------------------------------------------------

/// The stem a packaged id `Package_hash!App` names: the app part unless it
/// is empty or `App`, else the last dotted segment of the package name.
pub open spec fn packaged_stem(app_id: Seq<char>) -> Option<Seq<char>> {
    let bang = find(app_id, "!"@);
    if bang < 0 {
        None
    } else {
        let package = app_id.take(bang);
        let app = trim(app_id.skip(bang + 1));
        if app.len() > 0 && !eq_ignore_case(app, "app"@) {
            Some(exe_stem(app))
        } else {
            let name = after_last(before_first(package, "_"@), '.');
            if name.len() > 0 {
                Some(exe_stem(name))
            } else {
                None
            }
        }
    }
}

/// The last dotted segment that is not blank, trimmed.
pub open spec fn last_named_segment(parts: Seq<Seq<char>>) -> Option<Seq<char>>
    decreases parts.len(),
{
    if parts.len() == 0 {
        None
    } else if trim(parts.last()).len() > 0 {
        Some(trim(parts.last()))
    } else {
        last_named_segment(parts.drop_last())
    }
}

/// The stem of a dotted id's last segment; VS Code's id names `code`.
pub open spec fn segment_stem(app_id: Seq<char>) -> Option<Seq<char>> {
    match last_named_segment(split_char(app_id, '.')) {
        None => None,
        Some(last) => {
            let s = exe_stem(last);
            if s == "visualstudiocode"@ {
                Some("code"@)
            } else {
                Some(s)
            }
        },
    }
}

/// `s` without leading characters that are not alphanumeric.
pub open spec fn trim_start_nonalnum(s: Seq<char>) -> Seq<char>
    decreases s.len(),
{
    if s.len() > 0 && !char_alphanumeric(s[0]) {
        trim_start_nonalnum(s.drop_first())
    } else {
        s
    }
}

/// `s` without trailing characters that are not alphanumeric.
pub open spec fn trim_end_nonalnum(s: Seq<char>) -> Seq<char>
    decreases s.len(),
{
    if s.len() > 0 && !char_alphanumeric(s.last()) {
        trim_end_nonalnum(s.drop_last())
    } else {
        s
    }
}

/// The stem the first word of a window title suggests, when the title is
/// real and the word (stripped of punctuation) has at least three bytes.
pub open spec fn title_stem(title: Seq<char>) -> Option<Seq<char>> {
    if title == "Application"@ || title.len() == 0 || words(title).len() == 0 {
        None
    } else {
        let first = trim_end_nonalnum(trim_start_nonalnum(words(title)[0]));
        if byte_len(first) >= 3 {
            Some(exe_stem(first))
        } else {
            None
        }
    }
}

/// The executable a button's app id or title suggests: a packaged id's app,
/// a dotted id's last segment, then the title's first word. Ambiguous
/// packaged ids name nothing rather than a wrong program.
pub open spec fn resolved_stem(automation_id: Seq<char>, display_title: Seq<char>) -> Option<
    Seq<char>,
> {
    if starts_with(automation_id, "Appid: "@) {
        let app_id = trim(automation_id.skip(7));
        match packaged_stem(app_id) {
            Some(s) => Some(s),
            None => match segment_stem(app_id) {
                Some(s) => Some(s),
                None => title_stem(display_title),
            },
        }
    } else {
        title_stem(display_title)
    }
}

fn packaged_stem_exec(app_id: &[char]) -> (r: Option<Vec<char>>)
    ensures
        match r {
            Some(v) => packaged_stem(app_id@) == Some(v@),
            None => packaged_stem(app_id@) is None,
        },
{
    let bang_pat = chars_of("!");
    proof {
        lemma_find_bound(app_id@, "!"@);
        reveal_strlit("!");
    }
    let bang = match find_exec(app_id, bang_pat.as_slice()) {
        None => {
            return None;
        },
        Some(b) => b,
    };
    let n = app_id.len();
    let package = slice_to_vec(app_id, 0, bang);
    assert(package@ =~= app_id@.take(bang as int));
    let after = slice_to_vec(app_id, bang + 1, app_id.len());
    assert(after@ =~= app_id@.skip(bang + 1));
    let app = trim_exec(after.as_slice());
    let app_word = chars_of("app");
    if app.len() > 0 && !eq_ignore_case_exec(app.as_slice(), app_word.as_slice()) {
        return Some(exe_stem_chars(app.as_slice()));
    }
    let underscore = chars_of("_");
    let pkg_name = before_first_exec(package.as_slice(), underscore.as_slice());
    let name = after_last_exec(pkg_name.as_slice(), '.');
    if name.len() > 0 {
        Some(exe_stem_chars(name.as_slice()))
    } else {
        None
    }
}

fn segment_stem_exec(app_id: &[char]) -> (r: Option<Vec<char>>)
    ensures
        match r {
            Some(v) => segment_stem(app_id@) == Some(v@),
            None => segment_stem(app_id@) is None,
        },
{
    let parts = split_on(app_id, '.');
    let ghost sp = split_char(app_id@, '.');
    let mut k = parts.len();
    assert(sp.take(k as int) =~= sp);
    while k > 0
        invariant
            k <= parts@.len(),
            parts@.len() == sp.len(),
            sp == split_char(app_id@, '.'),
            forall|j: int| 0 <= j < parts@.len() ==> #[trigger] parts@[j]@ == sp[j],
            last_named_segment(sp) == last_named_segment(sp.take(k as int)),
        decreases k,
    {
        let t = trim_exec(parts[k - 1].as_slice());
        proof {
            assert(sp.take(k as int).last() == parts@[k - 1]@);
            assert(sp.take(k as int).drop_last() =~= sp.take(k - 1));
        }
        if t.len() > 0 {
            let s = exe_stem_chars(t.as_slice());
            if same(s.as_slice(), "visualstudiocode") {
                return Some(chars_of("code"));
            }
            return Some(s);
        }
        k -= 1;
    }
    None
}

fn title_stem_exec(title: &[char]) -> (r: Option<Vec<char>>)
    ensures
        match r {
            Some(v) => title_stem(title@) == Some(v@),
            None => title_stem(title@) is None,
        },
{
    if same(title, "Application") || title.len() == 0 {
        return None;
    }
    let ws = split_whitespace(title);
    if ws.len() == 0 {
        return None;
    }
    let w = &ws[0];
    let mut start: usize = 0;
    assert(w@.skip(0) =~= w@);
    while start < w.len() && !is_alphanumeric(w[start])
        invariant
            start <= w@.len(),
            trim_start_nonalnum(w@) == trim_start_nonalnum(w@.skip(start as int)),
        decreases w@.len() - start,
    {
        assert(w@.skip(start as int)[0] == w@[start as int]);
        assert(w@.skip(start as int).drop_first() =~= w@.skip(start + 1));
        start += 1;
    }
    proof {
        if start < w@.len() {
            assert(w@.skip(start as int)[0] == w@[start as int]);
        }
    }
    let mut end = w.len();
    assert(w@.subrange(start as int, end as int) =~= w@.skip(start as int));
    while end > start && !is_alphanumeric(w[end - 1])
        invariant
            start <= end <= w@.len(),
            trim_end_nonalnum(trim_start_nonalnum(w@)) == trim_end_nonalnum(w@.subrange(start as int, end as int)),
        decreases end,
    {
        assert(w@.subrange(start as int, end as int).drop_last() =~= w@.subrange(start as int, end - 1));
        end -= 1;
    }
    proof {
        if end > start {
            assert(w@.subrange(start as int, end as int).last() == w@[end - 1]);
        }
    }
    let first = slice_to_vec(w.as_slice(), start, end);
    let first_str = string_of(first.as_slice());
    if first_str.as_str().as_bytes().len() >= 3 {
        Some(exe_stem_chars(first.as_slice()))
    } else {
        None
    }
}

pub fn resolve_app_executable_stem(automation_id: &str, display_title: &str) -> (r: Option<String>)
    ensures
        match r {
            Some(v) => resolved_stem(automation_id@, display_title@) == Some(v@),
            None => resolved_stem(automation_id@, display_title@) is None,
        },
{
    let auto = chars_of(automation_id);
    let title = chars_of(display_title);
    let prefix = app_id_prefix();
    if starts_with_exec(auto.as_slice(), prefix.as_slice()) {
        let rest = slice_to_vec(auto.as_slice(), 7, auto.len());
        assert(rest@ =~= auto@.skip(7));
        let app_id = trim_exec(rest.as_slice());
        match packaged_stem_exec(app_id.as_slice()) {
            Some(s) => {
                return Some(string_of(s.as_slice()));
            },
            None => {},
        }
        match segment_stem_exec(app_id.as_slice()) {
            Some(s) => {
                return Some(string_of(s.as_slice()));
            },
            None => {},
        }
    }
    match title_stem_exec(title.as_slice()) {
        Some(s) => Some(string_of(s.as_slice())),
        None => None,
    }
}

// ---------------------------------------------------------------------------
// Classification
// ---------------------------------------------------------------------------

pub open spec fn element_target(e: Option<InspectedElement>) -> TargetView {
    match e {
        None => TargetView::Unknown,
        Some(el) => {
            let (name, class, auto) = (el.name@, el.class_name@, el.automation_id@);
            let is_app_button = starts_with(auto, "Appid: "@) || contains(class, "TaskListButton"@)
                || contains(class, "TaskbarItem"@);
            if name.len() == 0 && auto.len() == 0 && class.len() == 0 {
                TargetView::Unknown
            } else if !is_app_button && taskbar_background(name, class, auto) {
                TargetView::Master
            } else if !is_app_button {
                TargetView::Unknown
            } else {
                let title = clean_name(name, auto);
                match stem_from_app_id(auto) {
                    Some(stem) => TargetView::Application(title, stem),
                    None => match resolved_stem(auto, title) {
                        Some(stem) => TargetView::Application(title, stem),
                        None => if title != "Application"@ && title.len() > 0 {
                            TargetView::Application(title, exe_stem(title))
                        } else {
                            TargetView::Unknown
                        },
                    },
                }
            }
        },
    }
}

/// Classifies the element under the cursor (see `element_target`). A failed
/// inspection is `Unknown`, never the master volume.
pub fn classify_taskbar_element(element: Option<InspectedElement>) -> (r: TaskbarTarget)
    ensures
        r@ == element_target(element),
{
    let element = match element {
        None => {
            return TaskbarTarget::Unknown;
        },
        Some(e) => e,
    };
    if element.name.as_str().is_empty() && element.automation_id.as_str().is_empty()
        && element.class_name.as_str().is_empty() {
        return TaskbarTarget::Unknown;
    }
    let auto = chars_of(element.automation_id.as_str());
    let class = chars_of(element.class_name.as_str());
    let prefix = app_id_prefix();
    let is_app_button = starts_with_exec(auto.as_slice(), prefix.as_slice()) || has(
        class.as_slice(),
        "TaskListButton",
    ) || has(class.as_slice(), "TaskbarItem");
    if !is_app_button && is_taskbar_background(&element) {
        return TaskbarTarget::Master;
    }
    if is_app_button {
        let display_title = clean_app_display_name(
            element.name.as_str(),
            element.automation_id.as_str(),
        );
        match executable_stem_from_app_id(element.automation_id.as_str()) {
            Some(executable_stem) => {
                return TaskbarTarget::Application { display_title, executable_stem };
            },
            None => {},
        }
        match resolve_app_executable_stem(element.automation_id.as_str(), display_title.as_str()) {
            Some(executable_stem) => {
                return TaskbarTarget::Application { display_title, executable_stem };
            },
            None => {},
        }
        let t = chars_of(display_title.as_str());
        if !same(t.as_slice(), "Application") && t.len() > 0 {
            let executable_stem = normalize_executable_stem(display_title.as_str());
            return TaskbarTarget::Application { display_title, executable_stem };
        }
    }
    TaskbarTarget::Unknown
}

// ---------------------------------------------------------------------------
// OSD titles
// ---------------------------------------------------------------------------

/// Known executable stems and the product names the OSD shows for them.
pub open spec fn pretty_app_names() -> Seq<(&'static str, &'static str)> {
    seq![
        ("googlechrome", "Google Chrome"),
        ("chrome", "Google Chrome"),
        ("msedge", "Microsoft Edge"),
        ("edge", "Microsoft Edge"),
        ("firefox", "Firefox"),
        ("visualstudiocode", "VS Code"),
        ("code", "VS Code"),
        ("discord", "Discord"),
        ("spotify", "Spotify"),
        ("slack", "Slack"),
        ("telegram", "Telegram"),
        ("obsidian", "Obsidian"),
        ("notion", "Notion"),
        ("figma", "Figma"),
        ("steam", "Steam"),
        ("explorer", "File Explorer"),
        ("wezterm", "WezTerm"),
        ("wezterm-gui", "WezTerm"),
        ("windowsterminal", "Terminal"),
        ("terminal", "Terminal"),
        ("powershell", "PowerShell"),
        ("windowspowershell", "PowerShell"),
        ("cmd", "Command Prompt"),
        ("notepad", "Notepad"),
        ("wsl", "WSL"),
        ("windows-terminal", "Terminal"),
        ("onedrive", "OneDrive"),
        ("word", "Word"),
        ("excel", "Excel"),
        ("powerpnt", "PowerPoint"),
        ("outlook", "Outlook"),
        ("teams", "Teams"),
        ("devenv", "Visual Studio"),
    ]
}

fn pretty_app_name_table() -> (r: Vec<(&'static str, &'static str)>)
    ensures
        r@ == pretty_app_names(),
{
    let r = vec![
        ("googlechrome", "Google Chrome"),
        ("chrome", "Google Chrome"),
        ("msedge", "Microsoft Edge"),
        ("edge", "Microsoft Edge"),
        ("firefox", "Firefox"),
        ("visualstudiocode", "VS Code"),
        ("code", "VS Code"),
        ("discord", "Discord"),
        ("spotify", "Spotify"),
        ("slack", "Slack"),
        ("telegram", "Telegram"),
        ("obsidian", "Obsidian"),
        ("notion", "Notion"),
        ("figma", "Figma"),
        ("steam", "Steam"),
        ("explorer", "File Explorer"),
        ("wezterm", "WezTerm"),
        ("wezterm-gui", "WezTerm"),
        ("windowsterminal", "Terminal"),
        ("terminal", "Terminal"),
        ("powershell", "PowerShell"),
        ("windowspowershell", "PowerShell"),
        ("cmd", "Command Prompt"),
        ("notepad", "Notepad"),
        ("wsl", "WSL"),
        ("windows-terminal", "Terminal"),
        ("onedrive", "OneDrive"),
        ("word", "Word"),
        ("excel", "Excel"),
        ("powerpnt", "PowerPoint"),
        ("outlook", "Outlook"),
        ("teams", "Teams"),
        ("devenv", "Visual Studio"),
    ];
    assert(r@ =~= pretty_app_names());
    r
}

/// The product name of the first table entry for `stem`.
pub open spec fn pretty_name_in(table: Seq<(&'static str, &'static str)>, stem: Seq<char>) -> Option<
    &'static str,
>
    decreases table.len(),
{
    if table.len() == 0 {
        None
    } else if table[0].0@ == stem {
        Some(table[0].1)
    } else {
        pretty_name_in(table.drop_first(), stem)
    }
}

pub open spec fn is_word_break(c: char) -> bool {
    c == '_' || c == '-' || c == '.'
}

/// One character of the split into words: `_ - .` end a word, and an upper
/// case letter after a lower case one starts a new word.
pub open spec fn humanize_step(st: (Seq<Seq<char>>, Seq<char>), ch: char) -> (Seq<Seq<char>>, Seq<char>) {
    let (ws, cur) = st;
    if is_word_break(ch) {
        if cur.len() > 0 {
            (ws.push(cur), seq![])
        } else {
            (ws, cur)
        }
    } else if is_ascii_upper(ch) && cur.len() > 0 && is_ascii_lower(cur.last()) {
        (ws.push(cur), seq![ch])
    } else {
        (ws, cur.push(ch))
    }
}

pub open spec fn humanize_fold(s: Seq<char>) -> (Seq<Seq<char>>, Seq<char>)
    decreases s.len(),
{
    if s.len() == 0 {
        (seq![], seq![])
    } else {
        humanize_step(humanize_fold(s.drop_last()), s.last())
    }
}

/// Stems that run several words together with nothing to split them on,
/// with their words.
pub open spec fn compound_stems() -> Seq<(&'static str, &'static str)> {
    seq![("microsoftedge", "Microsoft Edge")]
}

fn compound_stem_table() -> (r: Vec<(&'static str, &'static str)>)
    ensures
        r@ == compound_stems(),
{
    let r = vec![("microsoftedge", "Microsoft Edge")];
    assert(r@ =~= compound_stems());
    r
}

/// A stem made readable: a known compound stem by its words
/// ("microsoftedge" becomes "Microsoft Edge"), any other one split into
/// words (see `split_humanized`).
pub open spec fn humanized(stem: Seq<char>) -> Seq<char> {
    match pretty_name_in(compound_stems(), stem) {
        Some(words) => words@,
        None => split_humanized(stem),
    }
}

/// A stem split into words, joined by spaces, first letter upper case
/// ("windows-terminal" becomes "Windows terminal").
pub open spec fn split_humanized(stem: Seq<char>) -> Seq<char> {
    let (ws, cur) = humanize_fold(stem);
    let all = if cur.len() > 0 {
        ws.push(cur)
    } else {
        ws
    };
    let joined = if all.len() == 0 {
        stem
    } else {
        join(all, " "@)
    };
    if joined.len() == 0 {
        joined
    } else {
        char_uppercase(joined[0]) + joined.skip(1)
    }
}

pub fn humanize_app_stem(stem: &str) -> (r: String)
    ensures
        r@ == humanized(stem@),
{
    let table = compound_stem_table();
    let mut i: usize = 0;
    assert(table@.skip(0) =~= table@);
    while i < table.len()
        invariant
            i <= table@.len(),
            table@ == compound_stems(),
            pretty_name_in(compound_stems(), stem@) == pretty_name_in(table@.skip(i as int), stem@),
        decreases table@.len() - i,
    {
        assert(table@.skip(i as int)[0] == table@[i as int]);
        if crate::text::str_eq(table[i].0, stem) {
            return table[i].1.to_owned();
        }
        assert(table@.skip(i as int).drop_first() =~= table@.skip(i + 1));
        i += 1;
    }
    split_words(stem)
}

/// The stem split into words (see `split_humanized`).
fn split_words(stem: &str) -> (r: String)
    ensures
        r@ == split_humanized(stem@),
{
    let cs = chars_of(stem);
    let mut ws: Vec<Vec<char>> = Vec::new();
    let mut cur: Vec<char> = Vec::new();
    let mut i: usize = 0;
    assert(cs@.take(0) =~= seq![]);
    assert(ws@.map_values(|w: Vec<char>| w@) =~= seq![]);
    while i < cs.len()
        invariant
            i <= cs@.len(),
            (ws@.map_values(|w: Vec<char>| w@), cur@) == humanize_fold(cs@.take(i as int)),
        decreases cs@.len() - i,
    {
        let ch = cs[i];
        proof {
            assert(cs@.take(i + 1).drop_last() =~= cs@.take(i as int));
            assert(cs@.take(i + 1).last() == ch);
        }
        let ghost before = ws@.map_values(|w: Vec<char>| w@);
        if ch == '_' || ch == '-' || ch == '.' {
            if cur.len() > 0 {
                let done = cur;
                ws.push(done);
                cur = Vec::new();
                assert(ws@.map_values(|w: Vec<char>| w@) =~= before.push(done@));
                assert(cur@ =~= seq![]);
            }
        } else if ('A' <= ch && ch <= 'Z') && cur.len() > 0 && ('a' <= cur[cur.len() - 1] && cur[cur.len() - 1] <= 'z') {
            let done = cur;
            ws.push(done);
            cur = Vec::new();
            cur.push(ch);
            assert(ws@.map_values(|w: Vec<char>| w@) =~= before.push(done@));
            assert(cur@ =~= seq![ch]);
        } else {
            cur.push(ch);
        }
        i += 1;
    }
    assert(cs@.take(i as int) =~= cs@);
    if cur.len() > 0 {
        let ghost before = ws@.map_values(|w: Vec<char>| w@);
        let done = cur;
        ws.push(done);
        assert(ws@.map_values(|w: Vec<char>| w@) =~= before.push(done@));
    }
    let joined = if ws.len() == 0 {
        cs
    } else {
        let sep = chars_of(" ");
        proof {
            reveal_strlit(" ");
        }
        join_exec(&ws, sep.as_slice())
    };
    if joined.len() == 0 {
        return string_of(joined.as_slice());
    }
    let mut out = uppercase_of_char(joined[0]);
    let tail = slice_to_vec(joined.as_slice(), 1, joined.len());
    append_chars(&mut out, tail.as_slice());
    assert(tail@ =~= joined@.skip(1));
    string_of(out.as_slice())
}

/// Every character is an ASCII letter, digit or space.
pub open spec fn plain_words(s: Seq<char>) -> bool {
    forall|i: int| 0 <= i < s.len() ==> #[trigger] is_ascii_alnum(s[i]) || s[i] == ' '
}

/// The OSD's name for a target: a known product name, else the humanized
/// stem when it is at least three plain characters, else the button title.
pub open spec fn osd_title(t: TargetView) -> Seq<char> {
    match t {
        TargetView::Master => "Master Volume"@,
        TargetView::Unknown => "Unknown"@,
        TargetView::Application(title, exe) => {
            let stem = exe_stem(exe);
            match pretty_name_in(pretty_app_names(), stem) {
                Some(p) => p@,
                None => {
                    let h = humanized(stem);
                    if byte_len(h) >= 3 && plain_words(h) {
                        h
                    } else if trim(title).len() > 0 {
                        trim(title)
                    } else {
                        "Application"@
                    }
                },
            }
        },
    }
}

pub fn taskbar_osd_title(target: &TaskbarTarget) -> (r: String)
    ensures
        r@ == osd_title(target@),
{
    match target {
        TaskbarTarget::Master => "Master Volume".to_owned(),
        TaskbarTarget::Unknown => "Unknown".to_owned(),
        TaskbarTarget::Application { display_title, executable_stem } => {
            let stem = normalize_executable_stem(executable_stem.as_str());
            let table = pretty_app_name_table();
            let mut i: usize = 0;
            assert(table@.skip(0) =~= table@);
            while i < table.len()
                invariant
                    i <= table@.len(),
                    table@ == pretty_app_names(),
                    stem@ == exe_stem(executable_stem@),
                    target@ == TargetView::Application(display_title@, executable_stem@),
                    pretty_name_in(pretty_app_names(), stem@) == pretty_name_in(
                        table@.skip(i as int),
                        stem@,
                    ),
                decreases table@.len() - i,
            {
                assert(table@.skip(i as int)[0] == table@[i as int]);
                if crate::text::str_eq(table[i].0, stem.as_str()) {
                    return table[i].1.to_owned();
                }
                assert(table@.skip(i as int).drop_first() =~= table@.skip(i + 1));
                i += 1;
            }
            let humanized_name = humanize_app_stem(stem.as_str());
            let hc = chars_of(humanized_name.as_str());
            let mut plain = true;
            let mut k: usize = 0;
            while k < hc.len()
                invariant
                    k <= hc@.len(),
                    plain == (forall|j: int| 0 <= j < k ==> #[trigger] is_ascii_alnum(hc@[j]) || hc@[j] == ' '),
                decreases hc@.len() - k,
            {
                if !(is_ascii_alphanumeric(hc[k]) || hc[k] == ' ') {
                    plain = false;
                }
                k += 1;
            }
            if humanized_name.as_str().as_bytes().len() >= 3 && plain {
                return humanized_name;
            }
            let tc = chars_of(display_title.as_str());
            let trimmed = trim_exec(tc.as_slice());
            if trimmed.len() > 0 {
                return string_of(trimmed.as_slice());
            }
            "Application".to_owned()
        },
    }
}

} // verus!
