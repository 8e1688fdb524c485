//! The persisted launcher state (`prism.json`): its JSON document model,
//! the shape every saved document must have, the one-time migration of
//! version 2 documents, and the startup choices read from it before the
//! frontend loads.

use vstd::prelude::*;
use crate::text::{chars_of, concat, decimal_nat, format_u64, str_eq, str_len, trim, trim_exec};

verus! {

/// A JSON number as the document holds it: a non-negative integer, a
/// negative integer, or any other number kept in its decimal text.
#[derive(Debug)]
pub enum JsonNumber {
    Unsigned(u64),
    Negative(i64),
    Fractional(String),
}

/// A JSON document. An object keeps its members in order; a key is looked
/// up at its first occurrence.
#[derive(Debug)]
pub enum JsonValue {
    Null,
    Bool(bool),
    Number(JsonNumber),
    Str(String),
    Array(Vec<JsonValue>),
    Object(Vec<(String, JsonValue)>),
}

/// The value stored under `key` in an object's members.
pub open spec fn lookup(members: Seq<(String, JsonValue)>, key: Seq<char>) -> Option<JsonValue>
    decreases members.len(),
{
    if members.len() == 0 {
        None
    } else if members[0].0@ == key {
        Some(members[0].1)
    } else {
        lookup(members.drop_first(), key)
    }
}

/// The string a value holds, if it is one.
pub open spec fn text_of(v: Option<JsonValue>) -> Option<Seq<char>> {
    match v {
        Some(JsonValue::Str(s)) => Some(s@),
        _ => None,
    }
}

/// The non-negative integer a value holds, if it is one.
pub open spec fn unsigned_of(v: Option<JsonValue>) -> Option<u64> {
    match v {
        Some(JsonValue::Number(JsonNumber::Unsigned(n))) => Some(n),
        _ => None,
    }
}

/// The value a lookup handed back, taken by value.
pub open spec fn found(r: Option<&JsonValue>) -> Option<JsonValue> {
    match r {
        Some(v) => Some(*v),
        None => None,
    }
}

pub open spec fn is_bool_value(v: Option<JsonValue>) -> bool {
    v matches Some(JsonValue::Bool(_))
}

impl JsonValue {
    /// The member `key` of an object; nothing for any other value.
    pub open spec fn field(self, key: Seq<char>) -> Option<JsonValue> {
        match self {
            JsonValue::Object(members) => lookup(members@, key),
            _ => None,
        }
    }

    pub fn get(&self, key: &str) -> (r: Option<&JsonValue>)
        ensures
            found(r) == self.field(key@),
    {
        match self {
            JsonValue::Object(members) => find_member(members, key),
            _ => None,
        }
    }

    pub fn as_str(&self) -> (r: Option<&str>)
        ensures
            match r {
                Some(s) => text_of(Some(*self)) == Some(s@),
                None => text_of(Some(*self)) is None,
            },
    {
        match self {
            JsonValue::Str(s) => Some(s.as_str()),
            _ => None,
        }
    }

    pub fn as_u64(&self) -> (r: Option<u64>)
        ensures
            r == unsigned_of(Some(*self)),
    {
        match self {
            JsonValue::Number(JsonNumber::Unsigned(n)) => Some(*n),
            _ => None,
        }
    }

    pub fn as_array(&self) -> (r: Option<&Vec<JsonValue>>)
        ensures
            match r {
                Some(items) => *self == JsonValue::Array(*items),
                None => !(*self is Array),
            },
    {
        match self {
            JsonValue::Array(items) => Some(items),
            _ => None,
        }
    }

    pub fn as_object(&self) -> (r: Option<&Vec<(String, JsonValue)>>)
        ensures
            match r {
                Some(members) => *self == JsonValue::Object(*members),
                None => !(*self is Object),
            },
    {
        match self {
            JsonValue::Object(members) => Some(members),
            _ => None,
        }
    }

    pub fn is_boolean(&self) -> (r: bool)
        ensures
            r == (*self is Bool),
    {
        match self {
            JsonValue::Bool(_) => true,
            _ => false,
        }
    }
}

fn find_member<'a>(members: &'a Vec<(String, JsonValue)>, key: &str) -> (r: Option<&'a JsonValue>)
    ensures
        found(r) == lookup(members@, key@),
{
    let mut i: usize = 0;
    assert(members@.skip(0) =~= members@);
    while i < members.len()
        invariant
            i <= members@.len(),
            lookup(members@, key@) == lookup(members@.skip(i as int), key@),
        decreases members@.len() - i,
    {
        let member = &members[i];
        assert(members@.skip(i as int).drop_first() =~= members@.skip(i + 1));
        if str_eq(member.0.as_str(), key) {
            return Some(&member.1);
        }
        i += 1;
    }
    None
}

// ---------------------------------------------------------------------------
// Global shortcut
// ---------------------------------------------------------------------------

/// The shortcut used until the user picks another.
pub const DEFAULT_SHORTCUT: &'static str = "Win";

/// The only accepted global shortcuts, in the order they are offered. Bare
/// typing keys, reserved keys and system combinations are never accepted.
pub open spec fn allowed_shortcut_list() -> Seq<Seq<char>> {
    seq![
        "Win"@,
        "Ctrl+Alt+Space"@,
        "Ctrl+Alt+S"@,
        "Ctrl+Alt+Shift+S"@,
        "Ctrl+Alt+P"@,
        "Ctrl+Alt+Shift+P"@,
        "Ctrl+Alt+Enter"@,
        "Ctrl+Alt+Shift+Enter"@,
    ]
}

pub fn allowed_shortcuts() -> (r: Vec<&'static str>)
    ensures
        r@.len() == allowed_shortcut_list().len(),
        forall|i: int| 0 <= i < r@.len() ==> #[trigger] r@[i]@ == allowed_shortcut_list()[i],
{
    vec![
        "Win",
        "Ctrl+Alt+Space",
        "Ctrl+Alt+S",
        "Ctrl+Alt+Shift+S",
        "Ctrl+Alt+P",
        "Ctrl+Alt+Shift+P",
        "Ctrl+Alt+Enter",
        "Ctrl+Alt+Shift+Enter",
    ]
}

/// Why `combo` is refused, if it is.
pub open spec fn shortcut_error(combo: Seq<char>) -> Option<Seq<char>> {
    if allowed_shortcut_list().contains(combo) {
        None
    } else {
        Some(
            "shortcut '"@ + combo
                + "' is not supported; pick one of: Win, Ctrl+Alt+Space, Ctrl+Alt+S, Ctrl+Alt+Shift+S, Ctrl+Alt+P, Ctrl+Alt+Shift+P, Ctrl+Alt+Enter, Ctrl+Alt+Shift+Enter"@,
        )
    }
}

fn is_allowed_shortcut(combo: &str) -> (r: bool)
    ensures
        r == allowed_shortcut_list().contains(combo@),
{
    let allowed = allowed_shortcuts();
    let mut i: usize = 0;
    while i < allowed.len()
        invariant
            i <= allowed@.len(),
            allowed@.len() == allowed_shortcut_list().len(),
            forall|j: int| 0 <= j < allowed@.len() ==> #[trigger] allowed@[j]@ == allowed_shortcut_list()[j],
            forall|j: int| 0 <= j < i ==> allowed_shortcut_list()[j] != combo@,
        decreases allowed@.len() - i,
    {
        if str_eq(allowed[i], combo) {
            assert(allowed_shortcut_list()[i as int] == combo@);
            return true;
        }
        i += 1;
    }
    false
}

/// Accepts `combo` only when it is one of the allowed shortcuts.
pub fn validate_shortcut(combo: &str) -> (r: Result<(), String>)
    ensures
        match shortcut_error(combo@) {
            None => r is Ok,
            Some(m) => r matches Err(e) && e@ == m,
        },
{
    if is_allowed_shortcut(combo) {
        Ok(())
    } else {
        let head = concat("shortcut '", combo);
        Err(concat(head.as_str(), "' is not supported; pick one of: Win, Ctrl+Alt+Space, Ctrl+Alt+S, Ctrl+Alt+Shift+S, Ctrl+Alt+P, Ctrl+Alt+Shift+P, Ctrl+Alt+Enter, Ctrl+Alt+Shift+Enter"))
    }
}

// ---------------------------------------------------------------------------
// The shape of a saved document
// ---------------------------------------------------------------------------

/// The refusal message a check produced, if any.
pub open spec fn message_of(r: Option<String>) -> Option<Seq<char>> {
    match r {
        Some(m) => Some(m@),
        None => None,
    }
}

/// The first of two refusals.
pub open spec fn either(a: Option<Seq<char>>, b: Option<Seq<char>>) -> Option<Seq<char>> {
    if a is Some {
        a
    } else {
        b
    }
}

/// `prefix`, then `value`, then a closing quote.
pub open spec fn quoted(prefix: Seq<char>, value: Seq<char>) -> Seq<char> {
    prefix + value + "'"@
}

pub open spec fn accent_ok(s: Seq<char>) -> bool {
    s == "iris"@ || s == "azure"@ || s == "mint"@ || s == "amber"@ || s == "rose"@
}

pub open spec fn effect_ok(s: Seq<char>) -> bool {
    s == "acrylic"@ || s == "mica"@ || s == "solid"@
}

pub open spec fn theme_ok(s: Seq<char>) -> bool {
    s == "system"@ || s == "dark"@ || s == "light"@
}

pub open spec fn alignment_ok(s: Seq<char>) -> bool {
    s == "left"@ || s == "center"@ || s == "right"@
}

/// The persisted widths are the three presets.
pub open spec fn width_ok(w: u64) -> bool {
    w == 560 || w == 640 || w == 720
}

/// Zoom runs from 70% to 150% in steps of ten.
pub open spec fn zoom_ok(z: u64) -> bool {
    70 <= z <= 150 && z % 10 == 0
}

pub open spec fn accent_error(settings: Seq<(String, JsonValue)>) -> Option<Seq<char>> {
    match text_of(lookup(settings, "accent"@)) {
        Some(a) => if accent_ok(a) { None } else { Some(quoted("unknown accent '"@, a)) },
        None => None,
    }
}

pub open spec fn effect_error(settings: Seq<(String, JsonValue)>) -> Option<Seq<char>> {
    match text_of(lookup(settings, "effect"@)) {
        Some(e) => if effect_ok(e) { None } else { Some(quoted("unknown effect '"@, e)) },
        None => None,
    }
}

pub open spec fn theme_error(settings: Seq<(String, JsonValue)>) -> Option<Seq<char>> {
    match text_of(lookup(settings, "theme"@)) {
        Some(t) => if theme_ok(t) { None } else { Some(quoted("unknown theme '"@, t)) },
        None => None,
    }
}

/// A present flag must be a boolean.
pub open spec fn flag_error(v: Option<JsonValue>, message: Seq<char>) -> Option<Seq<char>> {
    match v {
        Some(JsonValue::Bool(_)) => None,
        Some(_) => Some(message),
        None => None,
    }
}

pub open spec fn alignment_error(settings: Seq<(String, JsonValue)>) -> Option<Seq<char>> {
    match lookup(settings, "taskbarAlignment"@) {
        Some(JsonValue::Str(a)) => if alignment_ok(a@) {
            None
        } else {
            Some(quoted("unknown taskbar alignment '"@, a@))
        },
        Some(_) => Some("state.settings.taskbarAlignment must be a string"@),
        None => None,
    }
}

pub open spec fn shortcut_setting_error(settings: Seq<(String, JsonValue)>) -> Option<Seq<char>> {
    match text_of(lookup(settings, "shortcut"@)) {
        Some(c) => shortcut_error(c),
        None => None,
    }
}

pub open spec fn width_error(settings: Seq<(String, JsonValue)>) -> Option<Seq<char>> {
    match unsigned_of(lookup(settings, "width"@)) {
        Some(w) => if width_ok(w) {
            None
        } else {
            Some(quoted("unsupported width '"@, decimal_nat(w as nat)))
        },
        None => None,
    }
}

pub open spec fn zoom_error(settings: Seq<(String, JsonValue)>) -> Option<Seq<char>> {
    match lookup(settings, "viewZoom"@) {
        Some(v) => match unsigned_of(Some(v)) {
            Some(z) => if zoom_ok(z) {
                None
            } else {
                Some(quoted("unsupported view zoom '"@, decimal_nat(z as nat)))
            },
            None => Some("state.settings.viewZoom must be an integer"@),
        },
        None => None,
    }
}

/// The string lists of the settings, each with its own words and messages.
#[derive(Clone, Copy, Debug, PartialEq, Eq, Structural)]
pub enum ListRule {
    QuickAccess,
    SectionOrder,
    PinnedApps,
    GroupApps,
}

/// An app id is a non-empty string of at most 4096 bytes.
pub open spec fn app_id_ok(s: Seq<char>) -> bool {
    s.len() > 0 && str_len(s) <= 4096
}

pub open spec fn rule_accepts(rule: ListRule, s: Seq<char>) -> bool {
    match rule {
        ListRule::QuickAccess => s == "home"@ || s == "desktop"@ || s == "downloads"@ || s
            == "documents"@ || s == "pictures"@ || s == "music"@ || s == "videos"@,
        ListRule::SectionOrder => s == "pinned"@ || s == "recent"@ || s == "quick"@ || s
            == "apps"@,
        _ => app_id_ok(s),
    }
}

pub open spec fn rule_not_string(rule: ListRule) -> Seq<char> {
    match rule {
        ListRule::QuickAccess => "quick access entries must be strings"@,
        ListRule::SectionOrder => "section order entries must be strings"@,
        ListRule::PinnedApps => "pinned app ids must be non-empty strings"@,
        ListRule::GroupApps => "app group app ids must be non-empty strings"@,
    }
}

pub open spec fn rule_rejected(rule: ListRule, s: Seq<char>) -> Seq<char> {
    match rule {
        ListRule::QuickAccess => quoted("unknown quick access entry '"@, s),
        ListRule::SectionOrder => quoted("unknown section order entry '"@, s),
        _ => rule_not_string(rule),
    }
}

pub open spec fn rule_duplicate(rule: ListRule, s: Seq<char>, group: Seq<char>) -> Seq<char> {
    match rule {
        ListRule::QuickAccess => quoted("duplicate quick access entry '"@, s),
        ListRule::SectionOrder => quoted("duplicate section order entry '"@, s),
        ListRule::PinnedApps => "state.settings.pinnedApps contains duplicates"@,
        ListRule::GroupApps => "app group '"@ + group + "' contains duplicate apps"@,
    }
}

/// Whether the string `s` occurs among the first `i` items.
pub open spec fn seen_before(items: Seq<JsonValue>, i: int, s: Seq<char>) -> bool {
    exists|j: int| 0 <= j < i && #[trigger] text_of(Some(items[j])) == Some(s)
}

pub open spec fn item_error(rule: ListRule, group: Seq<char>, items: Seq<JsonValue>, i: int) -> Option<
    Seq<char>,
> {
    match text_of(Some(items[i])) {
        Some(s) => if !rule_accepts(rule, s) {
            Some(rule_rejected(rule, s))
        } else if seen_before(items, i, s) {
            Some(rule_duplicate(rule, s, group))
        } else {
            None
        },
        None => Some(rule_not_string(rule)),
    }
}

/// The first refusal among the items from `i` on.
pub open spec fn items_error_from(rule: ListRule, group: Seq<char>, items: Seq<JsonValue>, i: int) -> Option<
    Seq<char>,
>
    decreases items.len() - i,
{
    if i < 0 || i >= items.len() {
        None
    } else {
        either(item_error(rule, group, items, i), items_error_from(rule, group, items, i + 1))
    }
}

/// A present string list: an array of at most `limit` accepted, distinct strings.
pub open spec fn list_setting_error(
    v: Option<JsonValue>,
    rule: ListRule,
    limit: nat,
    not_array: Seq<char>,
    too_many: Seq<char>,
) -> Option<Seq<char>> {
    match v {
        Some(JsonValue::Array(items)) => if items@.len() > limit {
            Some(too_many)
        } else {
            items_error_from(rule, seq![], items@, 0)
        },
        Some(_) => Some(not_array),
        None => None,
    }
}

pub open spec fn quick_access_error(settings: Seq<(String, JsonValue)>) -> Option<Seq<char>> {
    list_setting_error(
        lookup(settings, "quickAccess"@),
        ListRule::QuickAccess,
        6,
        "state.settings.quickAccess must be an array"@,
        "state.settings.quickAccess has too many entries"@,
    )
}

pub open spec fn section_order_error(settings: Seq<(String, JsonValue)>) -> Option<Seq<char>> {
    list_setting_error(
        lookup(settings, "sectionOrder"@),
        ListRule::SectionOrder,
        4,
        "state.settings.sectionOrder must be an array"@,
        "state.settings.sectionOrder has too many entries"@,
    )
}

pub open spec fn pinned_apps_error(settings: Seq<(String, JsonValue)>) -> Option<Seq<char>> {
    list_setting_error(
        lookup(settings, "pinnedApps"@),
        ListRule::PinnedApps,
        64,
        "state.settings.pinnedApps must be an array"@,
        "state.settings.pinnedApps has too many entries"@,
    )
}

/// A group id is a non-empty string of at most 96 bytes.
pub open spec fn group_id_ok(s: Seq<char>) -> bool {
    s.len() > 0 && str_len(s) <= 96
}

/// A group name has a non-blank character and at most 64 bytes.
pub open spec fn group_name_ok(s: Seq<char>) -> bool {
    trim(s).len() > 0 && str_len(s) <= 64
}

pub open spec fn group_id(g: JsonValue) -> Option<Seq<char>> {
    text_of(g.field("id"@))
}

/// Refusal of the group at `i`, given the groups before it.
pub open spec fn group_error(groups: Seq<JsonValue>, i: int) -> Option<Seq<char>> {
    let g = groups[i];
    if !(g is Object) {
        Some("app group entries must be objects"@)
    } else {
        match group_id(g) {
            Some(id) if group_id_ok(id) => match text_of(g.field("name"@)) {
                Some(name) if group_name_ok(name) => if exists|j: int|
                    0 <= j < i && #[trigger] group_id(groups[j]) == Some(id) {
                    Some("state.settings.appGroups contains duplicate ids"@)
                } else if !is_bool_value(g.field("collapsed"@)) {
                    Some("app group collapsed must be a boolean"@)
                } else {
                    match g.field("appIds"@) {
                        Some(JsonValue::Array(apps)) => if apps@.len() > 64 {
                            Some("app group '"@ + name + "' has too many apps"@)
                        } else {
                            items_error_from(ListRule::GroupApps, name, apps@, 0)
                        },
                        _ => Some("app group appIds must be an array"@),
                    }
                },
                _ => Some("app group names must be non-empty strings"@),
            },
            _ => Some("app group ids must be non-empty strings"@),
        }
    }
}

pub open spec fn groups_error_from(groups: Seq<JsonValue>, i: int) -> Option<Seq<char>>
    decreases groups.len() - i,
{
    if i < 0 || i >= groups.len() {
        None
    } else {
        either(group_error(groups, i), groups_error_from(groups, i + 1))
    }
}

pub open spec fn app_groups_error(settings: Seq<(String, JsonValue)>) -> Option<Seq<char>> {
    match lookup(settings, "appGroups"@) {
        Some(JsonValue::Array(groups)) => if groups@.len() > 16 {
            Some("state.settings.appGroups has too many entries"@)
        } else {
            groups_error_from(groups@, 0)
        },
        Some(_) => Some("state.settings.appGroups must be an array"@),
        None => None,
    }
}

/// Every check on `state.settings`, in order; the first refusal wins.
pub open spec fn settings_error(st: Seq<(String, JsonValue)>) -> Option<Seq<char>> {
    either(
        accent_error(st),
        either(
            effect_error(st),
            either(
                theme_error(st),
                either(
                    flag_error(
                        lookup(st, "alwaysOnTop"@),
                        "state.settings.alwaysOnTop must be a boolean"@,
                    ),
                    either(
                        alignment_error(st),
                        either(
                            shortcut_setting_error(st),
                            either(
                                width_error(st),
                                either(
                                    zoom_error(st),
                                    either(
                                        quick_access_error(st),
                                        either(
                                            flag_error(
                                                lookup(st, "quickAccessCollapsed"@),
                                                "state.settings.quickAccessCollapsed must be a boolean"@,
                                            ),
                                            either(
                                                section_order_error(st),
                                                either(pinned_apps_error(st), app_groups_error(st)),
                                            ),
                                        ),
                                    ),
                                ),
                            ),
                        ),
                    ),
                ),
            ),
        ),
    )
}

/// A history entry names a non-empty id of at most 4096 bytes, a
/// non-empty title of at most 512 bytes and a non-negative timestamp.
pub open spec fn history_entry_ok(e: JsonValue) -> bool {
    &&& match text_of(e.field("id"@)) {
        Some(id) => app_id_ok(id),
        None => false,
    }
    &&& match text_of(e.field("title"@)) {
        Some(t) => t.len() > 0 && str_len(t) <= 512,
        None => false,
    }
    &&& unsigned_of(e.field("ts"@)) is Some
}

pub open spec fn history_entry_error(entries: Seq<JsonValue>, i: int) -> Option<Seq<char>> {
    if !(entries[i] is Object) {
        Some("history entries must be objects"@)
    } else if !history_entry_ok(entries[i]) {
        Some("invalid history entry"@)
    } else {
        None
    }
}

pub open spec fn history_error_from(entries: Seq<JsonValue>, i: int) -> Option<Seq<char>>
    decreases entries.len() - i,
{
    if i < 0 || i >= entries.len() {
        None
    } else {
        either(history_entry_error(entries, i), history_error_from(entries, i + 1))
    }
}

pub open spec fn history_error(top: Seq<(String, JsonValue)>) -> Option<Seq<char>> {
    match lookup(top, "history"@) {
        Some(JsonValue::Array(entries)) => if entries@.len() > 20 {
            Some("state.history has too many entries"@)
        } else {
            history_error_from(entries@, 0)
        },
        Some(_) => Some("state.history must be an array"@),
        None => None,
    }
}

/// Why a document is refused as launcher state, or nothing when it has
/// the expected shape.
pub open spec fn state_error(state: JsonValue) -> Option<Seq<char>> {
    match state {
        JsonValue::Object(top) => match lookup(top@, "settings"@) {
            Some(JsonValue::Object(st)) => either(settings_error(st@), history_error(top@)),
            _ => Some("state.settings must be an object"@),
        },
        _ => Some("state must be an object"@),
    }
}

// ---------------------------------------------------------------------------
// Checking a document
// ---------------------------------------------------------------------------

fn quoted_exec(prefix: &str, value: &str) -> (r: String)
    ensures
        r@ == quoted(prefix@, value@),
{
    let head = concat(prefix, value);
    concat(head.as_str(), "'")
}

fn text_member<'a>(members: &'a Vec<(String, JsonValue)>, key: &str) -> (r: Option<&'a str>)
    ensures
        match r {
            Some(s) => text_of(lookup(members@, key@)) == Some(s@),
            None => text_of(lookup(members@, key@)) is None,
        },
{
    match find_member(members, key) {
        Some(v) => v.as_str(),
        None => None,
    }
}

fn accent_check(st: &Vec<(String, JsonValue)>) -> (r: Option<String>)
    ensures
        message_of(r) == accent_error(st@),
{
    match text_member(st, "accent") {
        Some(a) => if str_eq(a, "iris") || str_eq(a, "azure") || str_eq(a, "mint") || str_eq(
            a,
            "amber",
        ) || str_eq(a, "rose") {
            None
        } else {
            Some(quoted_exec("unknown accent '", a))
        },
        None => None,
    }
}

fn effect_check(st: &Vec<(String, JsonValue)>) -> (r: Option<String>)
    ensures
        message_of(r) == effect_error(st@),
{
    match text_member(st, "effect") {
        Some(e) => if str_eq(e, "acrylic") || str_eq(e, "mica") || str_eq(e, "solid") {
            None
        } else {
            Some(quoted_exec("unknown effect '", e))
        },
        None => None,
    }
}

fn theme_check(st: &Vec<(String, JsonValue)>) -> (r: Option<String>)
    ensures
        message_of(r) == theme_error(st@),
{
    match text_member(st, "theme") {
        Some(t) => if str_eq(t, "system") || str_eq(t, "dark") || str_eq(t, "light") {
            None
        } else {
            Some(quoted_exec("unknown theme '", t))
        },
        None => None,
    }
}

fn flag_check(st: &Vec<(String, JsonValue)>, key: &str, message: &str) -> (r: Option<String>)
    ensures
        message_of(r) == flag_error(lookup(st@, key@), message@),
{
    match find_member(st, key) {
        Some(v) => if v.is_boolean() {
            None
        } else {
            Some(message.to_owned())
        },
        None => None,
    }
}

fn alignment_check(st: &Vec<(String, JsonValue)>) -> (r: Option<String>)
    ensures
        message_of(r) == alignment_error(st@),
{
    match find_member(st, "taskbarAlignment") {
        Some(v) => match v.as_str() {
            Some(a) => if str_eq(a, "left") || str_eq(a, "center") || str_eq(a, "right") {
                None
            } else {
                Some(quoted_exec("unknown taskbar alignment '", a))
            },
            None => Some("state.settings.taskbarAlignment must be a string".to_owned()),
        },
        None => None,
    }
}

fn shortcut_check(st: &Vec<(String, JsonValue)>) -> (r: Option<String>)
    ensures
        message_of(r) == shortcut_setting_error(st@),
{
    match text_member(st, "shortcut") {
        Some(c) => match validate_shortcut(c) {
            Ok(()) => None,
            Err(e) => Some(e),
        },
        None => None,
    }
}

fn width_check(st: &Vec<(String, JsonValue)>) -> (r: Option<String>)
    ensures
        message_of(r) == width_error(st@),
{
    match find_member(st, "width") {
        Some(v) => match v.as_u64() {
            Some(w) => if w == 560 || w == 640 || w == 720 {
                None
            } else {
                let digits = format_u64(w);
                Some(quoted_exec("unsupported width '", digits.as_str()))
            },
            None => None,
        },
        None => None,
    }
}

fn zoom_check(st: &Vec<(String, JsonValue)>) -> (r: Option<String>)
    ensures
        message_of(r) == zoom_error(st@),
{
    match find_member(st, "viewZoom") {
        Some(v) => match v.as_u64() {
            Some(z) => if 70 <= z && z <= 150 && z % 10 == 0 {
                None
            } else {
                let digits = format_u64(z);
                Some(quoted_exec("unsupported view zoom '", digits.as_str()))
            },
            None => Some("state.settings.viewZoom must be an integer".to_owned()),
        },
        None => None,
    }
}

fn rule_accepts_exec(rule: ListRule, s: &str) -> (r: bool)
    ensures
        r == rule_accepts(rule, s@),
{
    match rule {
        ListRule::QuickAccess => str_eq(s, "home") || str_eq(s, "desktop") || str_eq(s, "downloads")
            || str_eq(s, "documents") || str_eq(s, "pictures") || str_eq(s, "music") || str_eq(
            s,
            "videos",
        ),
        ListRule::SectionOrder => str_eq(s, "pinned") || str_eq(s, "recent") || str_eq(s, "quick")
            || str_eq(s, "apps"),
        _ => !s.is_empty() && s.len() <= 4096,
    }
}

fn rule_not_string_exec(rule: ListRule) -> (r: String)
    ensures
        r@ == rule_not_string(rule),
{
    match rule {
        ListRule::QuickAccess => "quick access entries must be strings".to_owned(),
        ListRule::SectionOrder => "section order entries must be strings".to_owned(),
        ListRule::PinnedApps => "pinned app ids must be non-empty strings".to_owned(),
        ListRule::GroupApps => "app group app ids must be non-empty strings".to_owned(),
    }
}

fn rule_rejected_exec(rule: ListRule, s: &str) -> (r: String)
    ensures
        r@ == rule_rejected(rule, s@),
{
    match rule {
        ListRule::QuickAccess => quoted_exec("unknown quick access entry '", s),
        ListRule::SectionOrder => quoted_exec("unknown section order entry '", s),
        _ => rule_not_string_exec(rule),
    }
}

fn rule_duplicate_exec(rule: ListRule, s: &str, group: &str) -> (r: String)
    ensures
        r@ == rule_duplicate(rule, s@, group@),
{
    match rule {
        ListRule::QuickAccess => quoted_exec("duplicate quick access entry '", s),
        ListRule::SectionOrder => quoted_exec("duplicate section order entry '", s),
        ListRule::PinnedApps => "state.settings.pinnedApps contains duplicates".to_owned(),
        ListRule::GroupApps => {
            let head = concat("app group '", group);
            concat(head.as_str(), "' contains duplicate apps")
        },
    }
}

fn seen_before_exec(items: &Vec<JsonValue>, i: usize, s: &str) -> (r: bool)
    requires
        i <= items@.len(),
    ensures
        r == seen_before(items@, i as int, s@),
{
    let mut j: usize = 0;
    while j < i
        invariant
            i <= items@.len(),
            j <= i,
            forall|k: int| 0 <= k < j ==> #[trigger] text_of(Some(items@[k])) != Some(s@),
        decreases i - j,
    {
        if let Some(t) = items[j].as_str() {
            if str_eq(t, s) {
                assert(text_of(Some(items@[j as int])) == Some(s@));
                return true;
            }
        }
        j += 1;
    }
    false
}

fn items_check(rule: ListRule, group: &str, items: &Vec<JsonValue>) -> (r: Option<String>)
    ensures
        message_of(r) == items_error_from(rule, group@, items@, 0),
{
    let mut i: usize = 0;
    while i < items.len()
        invariant
            i <= items@.len(),
            items_error_from(rule, group@, items@, 0) == items_error_from(rule, group@, items@, i as int),
        decreases items@.len() - i,
    {
        match items[i].as_str() {
            None => return Some(rule_not_string_exec(rule)),
            Some(s) => {
                if !rule_accepts_exec(rule, s) {
                    return Some(rule_rejected_exec(rule, s));
                }
                if seen_before_exec(items, i, s) {
                    return Some(rule_duplicate_exec(rule, s, group));
                }
            },
        }
        i += 1;
    }
    None
}

fn list_setting_check(
    st: &Vec<(String, JsonValue)>,
    key: &str,
    rule: ListRule,
    limit: usize,
    not_array: &str,
    too_many: &str,
) -> (r: Option<String>)
    ensures
        message_of(r) == list_setting_error(
            lookup(st@, key@),
            rule,
            limit as nat,
            not_array@,
            too_many@,
        ),
{
    match find_member(st, key) {
        Some(v) => match v.as_array() {
            Some(items) => if items.len() > limit {
                Some(too_many.to_owned())
            } else {
                proof {
                    reveal_strlit("");
                }
                assert(""@ =~= Seq::<char>::empty());
                items_check(rule, "", items)
            },
            None => Some(not_array.to_owned()),
        },
        None => None,
    }
}

fn group_id_seen_before(groups: &Vec<JsonValue>, i: usize, id: &str) -> (r: bool)
    requires
        i <= groups@.len(),
    ensures
        r == exists|j: int| 0 <= j < i && #[trigger] group_id(groups@[j]) == Some(id@),
{
    let mut j: usize = 0;
    while j < i
        invariant
            i <= groups@.len(),
            j <= i,
            forall|k: int| 0 <= k < j ==> #[trigger] group_id(groups@[k]) != Some(id@),
        decreases i - j,
    {
        if let Some(v) = groups[j].get("id") {
            if let Some(t) = v.as_str() {
                if str_eq(t, id) {
                    assert(group_id(groups@[j as int]) == Some(id@));
                    return true;
                }
            }
        }
        j += 1;
    }
    false
}

fn group_check(groups: &Vec<JsonValue>, i: usize) -> (r: Option<String>)
    requires
        i < groups@.len(),
    ensures
        message_of(r) == group_error(groups@, i as int),
{
    let members = match groups[i].as_object() {
        Some(m) => m,
        None => return Some("app group entries must be objects".to_owned()),
    };
    let id = match text_member(members, "id") {
        Some(id) => if !id.is_empty() && id.len() <= 96 {
            id
        } else {
            return Some("app group ids must be non-empty strings".to_owned());
        },
        None => return Some("app group ids must be non-empty strings".to_owned()),
    };
    let name = match text_member(members, "name") {
        Some(name) => {
            let cs = chars_of(name);
            let trimmed = trim_exec(cs.as_slice());
            if trimmed.len() > 0 && name.len() <= 64 {
                name
            } else {
                return Some("app group names must be non-empty strings".to_owned());
            }
        },
        None => return Some("app group names must be non-empty strings".to_owned()),
    };
    if group_id_seen_before(groups, i, id) {
        return Some("state.settings.appGroups contains duplicate ids".to_owned());
    }
    let collapsed_ok = match find_member(members, "collapsed") {
        Some(v) => v.is_boolean(),
        None => false,
    };
    if !collapsed_ok {
        return Some("app group collapsed must be a boolean".to_owned());
    }
    match find_member(members, "appIds") {
        Some(v) => match v.as_array() {
            Some(apps) => if apps.len() > 64 {
                let head = concat("app group '", name);
                Some(concat(head.as_str(), "' has too many apps"))
            } else {
                items_check(ListRule::GroupApps, name, apps)
            },
            None => Some("app group appIds must be an array".to_owned()),
        },
        None => Some("app group appIds must be an array".to_owned()),
    }
}

fn app_groups_check(st: &Vec<(String, JsonValue)>) -> (r: Option<String>)
    ensures
        message_of(r) == app_groups_error(st@),
{
    let groups = match find_member(st, "appGroups") {
        Some(v) => match v.as_array() {
            Some(groups) => groups,
            None => return Some("state.settings.appGroups must be an array".to_owned()),
        },
        None => return None,
    };
    if groups.len() > 16 {
        return Some("state.settings.appGroups has too many entries".to_owned());
    }
    let mut i: usize = 0;
    while i < groups.len()
        invariant
            i <= groups@.len(),
            lookup(st@, "appGroups"@) == Some(JsonValue::Array(*groups)),
            groups@.len() <= 16,
            groups_error_from(groups@, 0) == groups_error_from(groups@, i as int),
        decreases groups@.len() - i,
    {
        let e = group_check(groups, i);
        if e.is_some() {
            return e;
        }
        i += 1;
    }
    None
}

fn history_entry_valid(e: &JsonValue) -> (r: bool)
    ensures
        r == history_entry_ok(*e),
{
    let valid_id = match e.get("id") {
        Some(v) => match v.as_str() {
            Some(id) => !id.is_empty() && id.len() <= 4096,
            None => false,
        },
        None => false,
    };
    let valid_title = match e.get("title") {
        Some(v) => match v.as_str() {
            Some(t) => !t.is_empty() && t.len() <= 512,
            None => false,
        },
        None => false,
    };
    let valid_timestamp = match e.get("ts") {
        Some(v) => v.as_u64().is_some(),
        None => false,
    };
    valid_id && valid_title && valid_timestamp
}

fn history_check(top: &Vec<(String, JsonValue)>) -> (r: Option<String>)
    ensures
        message_of(r) == history_error(top@),
{
    let entries = match find_member(top, "history") {
        Some(v) => match v.as_array() {
            Some(entries) => entries,
            None => return Some("state.history must be an array".to_owned()),
        },
        None => return None,
    };
    if entries.len() > 20 {
        return Some("state.history has too many entries".to_owned());
    }
    let mut i: usize = 0;
    while i < entries.len()
        invariant
            i <= entries@.len(),
            lookup(top@, "history"@) == Some(JsonValue::Array(*entries)),
            entries@.len() <= 20,
            history_error_from(entries@, 0) == history_error_from(entries@, i as int),
        decreases entries@.len() - i,
    {
        if entries[i].as_object().is_none() {
            return Some("history entries must be objects".to_owned());
        }
        if !history_entry_valid(&entries[i]) {
            return Some("invalid history entry".to_owned());
        }
        i += 1;
    }
    None
}

fn settings_check(st: &Vec<(String, JsonValue)>) -> (r: Option<String>)
    ensures
        message_of(r) == settings_error(st@),
{
    let e = accent_check(st);
    if e.is_some() {
        return e;
    }
    let e = effect_check(st);
    if e.is_some() {
        return e;
    }
    let e = theme_check(st);
    if e.is_some() {
        return e;
    }
    let e = flag_check(st, "alwaysOnTop", "state.settings.alwaysOnTop must be a boolean");
    if e.is_some() {
        return e;
    }
    let e = alignment_check(st);
    if e.is_some() {
        return e;
    }
    let e = shortcut_check(st);
    if e.is_some() {
        return e;
    }
    let e = width_check(st);
    if e.is_some() {
        return e;
    }
    let e = zoom_check(st);
    if e.is_some() {
        return e;
    }
    let e = list_setting_check(
        st,
        "quickAccess",
        ListRule::QuickAccess,
        6,
        "state.settings.quickAccess must be an array",
        "state.settings.quickAccess has too many entries",
    );
    if e.is_some() {
        return e;
    }
    let e = flag_check(
        st,
        "quickAccessCollapsed",
        "state.settings.quickAccessCollapsed must be a boolean",
    );
    if e.is_some() {
        return e;
    }
    let e = list_setting_check(
        st,
        "sectionOrder",
        ListRule::SectionOrder,
        4,
        "state.settings.sectionOrder must be an array",
        "state.settings.sectionOrder has too many entries",
    );
    if e.is_some() {
        return e;
    }
    let e = list_setting_check(
        st,
        "pinnedApps",
        ListRule::PinnedApps,
        64,
        "state.settings.pinnedApps must be an array",
        "state.settings.pinnedApps has too many entries",
    );
    if e.is_some() {
        return e;
    }
    app_groups_check(st)
}

/// Accepts a document only when it has the launcher-state shape: an
/// object whose `settings` object passes every settings check and whose
/// optional `history` is a short list of well-formed entries. The error is
/// the first refusal, in the order the checks are listed.
pub fn validate_state(state: &JsonValue) -> (r: Result<(), String>)
    ensures
        match state_error(*state) {
            None => r is Ok,
            Some(m) => r matches Err(e) && e@ == m,
        },
{
    let top = match state.as_object() {
        Some(top) => top,
        None => return Err("state must be an object".to_owned()),
    };
    let st = match find_member(top, "settings") {
        Some(v) => match v.as_object() {
            Some(st) => st,
            None => return Err("state.settings must be an object".to_owned()),
        },
        None => return Err("state.settings must be an object".to_owned()),
    };
    if let Some(e) = settings_check(st) {
        return Err(e);
    }
    match history_check(top) {
        Some(e) => Err(e),
        None => Ok(()),
    }
}

// ---------------------------------------------------------------------------
// Reading and migrating a saved document
// ---------------------------------------------------------------------------

/// The document version written by this launcher.
pub const STATE_VERSION: u64 = 3;

/// The previous document version, migrated once on load.
pub const LEGACY_STATE_VERSION: u64 = 2;

/// The `version` a document declares, when it is a non-negative integer.
pub open spec fn state_version(value: JsonValue) -> Option<u64> {
    unsigned_of(value.field("version"@))
}

pub open spec fn has_settings_object(value: JsonValue) -> bool {
    value.field("settings"@) matches Some(JsonValue::Object(_))
}

/// `v` is `value` brought to the current version: its `version` is the
/// current one, its `settings.shortcut` is the default, and every other
/// member of the document and of its settings is unchanged.
pub open spec fn migrated_from(v: JsonValue, value: JsonValue) -> bool {
    &&& v is Object
    &&& v.field("version"@) == Some(JsonValue::Number(JsonNumber::Unsigned(3)))
    &&& forall|k: Seq<char>|
        k != "version"@ && k != "settings"@ ==> #[trigger] v.field(k) == value.field(k)
    &&& match (v.field("settings"@), value.field("settings"@)) {
        (Some(JsonValue::Object(new_st)), Some(JsonValue::Object(old_st))) => {
            &&& lookup(new_st@, "shortcut"@) matches Some(JsonValue::Str(w)) && w@ == "Win"@
            &&& forall|k: Seq<char>|
                k != "shortcut"@ ==> #[trigger] lookup(new_st@, k) == lookup(old_st@, k)
        },
        _ => false,
    }
}

proof fn lemma_lookup_update(s: Seq<(String, JsonValue)>, i: int, e: (String, JsonValue))
    requires
        0 <= i < s.len(),
        s[i].0@ == e.0@,
        forall|j: int| 0 <= j < i ==> #[trigger] s[j].0@ != e.0@,
    ensures
        lookup(s.update(i, e), e.0@) == Some(e.1),
        forall|k: Seq<char>| k != e.0@ ==> #[trigger] lookup(s.update(i, e), k) == lookup(s, k),
    decreases i,
{
    if i == 0 {
        assert(s.update(0, e).drop_first() =~= s.drop_first());
    } else {
        assert(s.update(i, e).drop_first() =~= s.drop_first().update(i - 1, e));
        assert forall|j: int| 0 <= j < i - 1 implies #[trigger] s.drop_first()[j].0@ != e.0@ by {
            assert(s.drop_first()[j] == s[j + 1]);
        }
        lemma_lookup_update(s.drop_first(), i - 1, e);
    }
    assert forall|k: Seq<char>| k != e.0@ implies #[trigger] lookup(s.update(i, e), k) == lookup(s, k) by {
        assert(s.update(i, e)[0] == if i == 0 { e } else { s[0] });
        assert(lookup(s.update(i, e), k) == if s.update(i, e)[0].0@ == k {
            Some(s.update(i, e)[0].1)
        } else {
            lookup(s.update(i, e).drop_first(), k)
        });
    }
}

proof fn lemma_lookup_push(s: Seq<(String, JsonValue)>, e: (String, JsonValue))
    requires
        lookup(s, e.0@) is None,
    ensures
        lookup(s.push(e), e.0@) == Some(e.1),
        forall|k: Seq<char>| k != e.0@ ==> #[trigger] lookup(s.push(e), k) == lookup(s, k),
    decreases s.len(),
{
    if s.len() == 0 {
        assert(s.push(e).drop_first() =~= s);
    } else {
        assert(s.push(e).drop_first() =~= s.drop_first().push(e));
        lemma_lookup_push(s.drop_first(), e);
    }
    assert forall|k: Seq<char>| k != e.0@ implies #[trigger] lookup(s.push(e), k) == lookup(s, k) by {
        assert(lookup(s.push(e), k) == if s.push(e)[0].0@ == k {
            Some(s.push(e)[0].1)
        } else {
            lookup(s.push(e).drop_first(), k)
        });
    }
}

/// The position of the first member named `key`.
fn member_index(members: &Vec<(String, JsonValue)>, key: &str) -> (r: Option<usize>)
    ensures
        match r {
            Some(i) => {
                &&& i < members@.len()
                &&& members@[i as int].0@ == key@
                &&& forall|j: int| 0 <= j < i ==> #[trigger] members@[j].0@ != key@
                &&& lookup(members@, key@) == Some(members@[i as int].1)
            },
            None => lookup(members@, key@) is None,
        },
{
    let mut i: usize = 0;
    assert(members@.skip(0) =~= members@);
    while i < members.len()
        invariant
            i <= members@.len(),
            lookup(members@, key@) == lookup(members@.skip(i as int), key@),
            forall|j: int| 0 <= j < i ==> #[trigger] members@[j].0@ != key@,
        decreases members@.len() - i,
    {
        assert(members@.skip(i as int).drop_first() =~= members@.skip(i + 1));
        if str_eq(members[i].0.as_str(), key) {
            return Some(i);
        }
        i += 1;
    }
    None
}

/// Stores `value` under `key`: in place of the first member of that name,
/// or as a new last member.
fn set_member(members: &mut Vec<(String, JsonValue)>, key: &str, value: JsonValue)
    ensures
        lookup(final(members)@, key@) == Some(value),
        forall|k: Seq<char>| k != key@ ==> #[trigger] lookup(final(members)@, k) == lookup(old(members)@, k),
{
    match member_index(members, key) {
        Some(i) => {
            let ghost before = members@;
            let (name, _previous) = members.remove(i);
            members.insert(i, (name, value));
            proof {
                assert(members@ =~= before.update(i as int, (name, value)));
                lemma_lookup_update(before, i as int, (name, value));
            }
        },
        None => {
            let name = key.to_owned();
            let ghost before = members@;
            members.push((name, value));
            proof {
                lemma_lookup_push(before, (name, value));
            }
        },
    }
}

/// `settings_error` reads the settings only through their members, and the
/// shortcut only as text.
proof fn lemma_settings_error_by_members(a: Seq<(String, JsonValue)>, b: Seq<(String, JsonValue)>)
    requires
        forall|k: Seq<char>| k != "shortcut"@ ==> #[trigger] lookup(a, k) == lookup(b, k),
        text_of(lookup(a, "shortcut"@)) == text_of(lookup(b, "shortcut"@)),
    ensures
        settings_error(a) == settings_error(b),
{
    reveal_strlit("shortcut");
    reveal_strlit("accent");
    reveal_strlit("effect");
    reveal_strlit("theme");
    reveal_strlit("alwaysOnTop");
    reveal_strlit("taskbarAlignment");
    reveal_strlit("width");
    reveal_strlit("viewZoom");
    reveal_strlit("quickAccess");
    reveal_strlit("quickAccessCollapsed");
    reveal_strlit("sectionOrder");
    reveal_strlit("pinnedApps");
    reveal_strlit("appGroups");
    assert("accent"@.len() != "shortcut"@.len());
    assert(lookup(a, "accent"@) == lookup(b, "accent"@));
    assert("effect"@.len() != "shortcut"@.len());
    assert(lookup(a, "effect"@) == lookup(b, "effect"@));
    assert("theme"@.len() != "shortcut"@.len());
    assert(lookup(a, "theme"@) == lookup(b, "theme"@));
    assert("alwaysOnTop"@.len() != "shortcut"@.len());
    assert(lookup(a, "alwaysOnTop"@) == lookup(b, "alwaysOnTop"@));
    assert("taskbarAlignment"@.len() != "shortcut"@.len());
    assert(lookup(a, "taskbarAlignment"@) == lookup(b, "taskbarAlignment"@));
    assert("width"@.len() != "shortcut"@.len());
    assert(lookup(a, "width"@) == lookup(b, "width"@));
    assert("viewZoom"@[0] != "shortcut"@[0]);
    assert(lookup(a, "viewZoom"@) == lookup(b, "viewZoom"@));
    assert("quickAccess"@.len() != "shortcut"@.len());
    assert(lookup(a, "quickAccess"@) == lookup(b, "quickAccess"@));
    assert("quickAccessCollapsed"@.len() != "shortcut"@.len());
    assert(lookup(a, "quickAccessCollapsed"@) == lookup(b, "quickAccessCollapsed"@));
    assert("sectionOrder"@.len() != "shortcut"@.len());
    assert(lookup(a, "sectionOrder"@) == lookup(b, "sectionOrder"@));
    assert("pinnedApps"@.len() != "shortcut"@.len());
    assert(lookup(a, "pinnedApps"@) == lookup(b, "pinnedApps"@));
    assert("appGroups"@.len() != "shortcut"@.len());
    assert(lookup(a, "appGroups"@) == lookup(b, "appGroups"@));
}

/// Every document migrated from the same one is judged alike.
proof fn lemma_migrated_error(a: JsonValue, b: JsonValue, value: JsonValue)
    requires
        migrated_from(a, value),
        migrated_from(b, value),
    ensures
        state_error(a) == state_error(b),
{
    reveal_strlit("version");
    reveal_strlit("settings");
    reveal_strlit("history");
    assert("history"@.len() == 7);
    assert("history"@[0] != "version"@[0]);
    assert("history"@ != "settings"@);
    assert(a.field("history"@) == value.field("history"@));
    assert(b.field("history"@) == value.field("history"@));
    match (a.field("settings"@), b.field("settings"@), value.field("settings"@)) {
        (
            Some(JsonValue::Object(sa)),
            Some(JsonValue::Object(sb)),
            Some(JsonValue::Object(old)),
        ) => {
            assert forall|k: Seq<char>| k != "shortcut"@ implies #[trigger] lookup(sa@, k) == lookup(
                sb@,
                k,
            ) by {
                assert(lookup(sa@, k) == lookup(old@, k));
                assert(lookup(sb@, k) == lookup(old@, k));
            }
            lemma_settings_error_by_members(sa@, sb@);
        },
        _ => {},
    }
}

/// Brings a saved document to the current version. A current document is
/// kept as it is; a version 2 document has its shortcut reset to the
/// default, is stamped with the current version and must then pass
/// `validate_state`; any other document is ignored (`Ok(None)`). The flag
/// says whether the document changed.
pub fn migrate_state_value(value: JsonValue) -> (r: Result<Option<(JsonValue, bool)>, String>)
    ensures
        state_version(value) == Some(3u64) ==> (r matches Ok(Some((v, changed))) && v == value
            && !changed),
        state_version(value) != Some(3u64) && state_version(value) != Some(2u64) ==> r matches Ok(
            None,
        ),
        state_version(value) == Some(2u64) && !has_settings_object(value) ==> (r matches Err(e)
            && e@ == "legacy state.settings must be an object"@),
        state_version(value) == Some(2u64) && has_settings_object(value) ==> match r {
            Ok(Some((v, changed))) => changed && migrated_from(v, value) && state_error(v) is None,
            Err(e) => forall|v: JsonValue| migrated_from(v, value) ==> state_error(v) == Some(e@),
            Ok(None) => false,
        },
{
    let version = match value.get("version") {
        Some(v) => v.as_u64(),
        None => None,
    };
    let current = match version {
        Some(n) => n == STATE_VERSION,
        None => false,
    };
    if current {
        return Ok(Some((value, false)));
    }
    let legacy = match version {
        Some(n) => n == LEGACY_STATE_VERSION,
        None => false,
    };
    if !legacy {
        return Ok(None);
    }
    let ghost original = value;
    let mut top = match value {
        JsonValue::Object(top) => top,
        _ => return Ok(None),
    };
    let i = match member_index(&top, "settings") {
        Some(i) => i,
        None => return Err("legacy state.settings must be an object".to_owned()),
    };
    let ghost before = top@;
    let (name, settings) = top.remove(i);
    let mut st = match settings {
        JsonValue::Object(st) => st,
        _ => return Err("legacy state.settings must be an object".to_owned()),
    };
    let ghost old_st = st@;
    set_member(&mut st, "shortcut", JsonValue::Str(DEFAULT_SHORTCUT.to_owned()));
    let ghost new_settings = JsonValue::Object(st);
    top.insert(i, (name, JsonValue::Object(st)));
    proof {
        assert(top@ =~= before.update(i as int, (name, new_settings)));
        lemma_lookup_update(before, i as int, (name, new_settings));
    }
    let ghost with_settings = top@;
    set_member(&mut top, "version", JsonValue::Number(JsonNumber::Unsigned(STATE_VERSION)));
    let migrated = JsonValue::Object(top);
    proof {
        reveal_strlit("version");
        reveal_strlit("settings");
        assert(lookup(with_settings, "settings"@) == Some(new_settings));
        assert(migrated.field("settings"@) == Some(new_settings));
        assert forall|k: Seq<char>| k != "version"@ && k != "settings"@ implies #[trigger] migrated.field(
            k,
        ) == original.field(k) by {
            assert(lookup(with_settings, k) == lookup(before, k));
        }
        assert(migrated_from(migrated, original));
    }
    match validate_state(&migrated) {
        Ok(()) => Ok(Some((migrated, true))),
        Err(e) => {
            proof {
                assert forall|v: JsonValue| migrated_from(v, original) implies state_error(v) == Some(
                    e@,
                ) by {
                    lemma_migrated_error(v, migrated, original);
                }
            }
            Err(e)
        },
    }
}

// ---------------------------------------------------------------------------
// Startup choices read before the frontend loads
// ---------------------------------------------------------------------------

/// The text of `settings.<key>` in a loaded document, if there is one.
pub open spec fn setting_text(state: Option<JsonValue>, key: Seq<char>) -> Option<Seq<char>> {
    match state {
        Some(v) => match v.field("settings"@) {
            Some(st) => text_of(st.field(key)),
            None => None,
        },
        None => None,
    }
}

fn setting_text_exec<'a>(state: Option<&'a JsonValue>, key: &str) -> (r: Option<&'a str>)
    ensures
        match r {
            Some(t) => setting_text(found(state), key@) == Some(t@),
            None => setting_text(found(state), key@) is None,
        },
{
    match state {
        Some(v) => match v.get("settings") {
            Some(st) => match st.get(key) {
                Some(t) => t.as_str(),
                None => None,
            },
            None => None,
        },
        None => None,
    }
}

/// The window theme at startup: a persisted `light` or `dark` wins,
/// `system` follows the OS preference, anything else is dark.
pub open spec fn window_look(state: Option<JsonValue>, system_prefers_light: bool) -> Seq<char> {
    match setting_text(state, "theme"@) {
        Some(t) => if t == "light"@ {
            "light"@
        } else if t == "system"@ && system_prefers_light {
            "light"@
        } else {
            "dark"@
        },
        None => "dark"@,
    }
}

pub fn startup_window_look(state: Option<&JsonValue>, system_prefers_light: bool) -> (r: &'static str)
    ensures
        r@ == window_look(found(state), system_prefers_light),
{
    match setting_text_exec(state, "theme") {
        Some(t) => if str_eq(t, "light") {
            "light"
        } else if str_eq(t, "system") && system_prefers_light {
            "light"
        } else {
            "dark"
        },
        None => "dark",
    }
}

/// The shortcut to register at startup: the persisted one when it is
/// allowed, else the default.
pub open spec fn initial_shortcut(state: Option<JsonValue>) -> Seq<char> {
    match setting_text(state, "shortcut"@) {
        Some(c) => if shortcut_error(c) is None {
            c
        } else {
            "Win"@
        },
        None => "Win"@,
    }
}

pub fn startup_shortcut(state: Option<&JsonValue>) -> (r: String)
    ensures
        r@ == initial_shortcut(found(state)),
{
    match setting_text_exec(state, "shortcut") {
        Some(c) => if validate_shortcut(c).is_ok() {
            c.to_owned()
        } else {
            DEFAULT_SHORTCUT.to_owned()
        },
        None => DEFAULT_SHORTCUT.to_owned(),
    }
}

/// The taskbar alignment to apply at startup: the persisted one when it is
/// `left`, `center` or `right`, else `center`.
pub open spec fn initial_alignment(state: Option<JsonValue>) -> Seq<char> {
    match setting_text(state, "taskbarAlignment"@) {
        Some(a) => if alignment_ok(a) {
            a
        } else {
            "center"@
        },
        None => "center"@,
    }
}

pub fn startup_taskbar_alignment(state: Option<&JsonValue>) -> (r: String)
    ensures
        r@ == initial_alignment(found(state)),
{
    match setting_text_exec(state, "taskbarAlignment") {
        Some(a) => if str_eq(a, "left") || str_eq(a, "center") || str_eq(a, "right") {
            a.to_owned()
        } else {
            "center".to_owned()
        },
        None => "center".to_owned(),
    }
}

/// A migrated document declares the current version, so loading it again
/// keeps it unchanged: the migration happens once.
pub proof fn law_migration_happens_once(v: JsonValue, value: JsonValue)
    requires
        migrated_from(v, value),
    ensures
        state_version(v) == Some(3u64),
{
}

/// What a saved document holds is what startup uses: a document that
/// passes `validate_state` has its shortcut registered and its taskbar
/// alignment applied as saved.
pub proof fn law_saved_choices_survive_startup(state: JsonValue)
    requires
        state_error(state) is None,
    ensures
        setting_text(Some(state), "shortcut"@) matches Some(c) ==> initial_shortcut(Some(state)) == c,
        setting_text(Some(state), "taskbarAlignment"@) matches Some(a) ==> initial_alignment(
            Some(state),
        ) == a,
{
}

} // verus!
