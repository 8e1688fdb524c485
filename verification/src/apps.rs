//! Installed applications as the launcher lists them.

use vstd::prelude::*;
use crate::text::str_eq;

verus! {

/// One launchable application found on the machine (Start Menu shortcut,
/// packaged app, registry entry, ...).
#[derive(Debug)]
pub struct AppEntry {
    pub name: String,
    /// Lowercased name with everything but ASCII letters and digits removed;
    /// entries with the same normalised name are one application.
    pub normalized_name: String,
    pub app_id: String,
    pub icon: Option<String>,
    pub path: Option<String>,
    pub args: Option<String>,
    pub working_directory: Option<String>,
    pub location: Option<String>,
    pub aumid: Option<String>,
    /// Where the entry was found: "taskbar", "startMenu", "desktop", ...
    pub source: String,
    pub keywords: Vec<String>,
}

/// Preference among the places an application can be found: pinned to the
/// taskbar first, loose program folders last.
pub open spec fn source_rank_of(source: Seq<char>) -> i32 {
    if source == "taskbar"@ {
        6
    } else if source == "startMenu"@ {
        5
    } else if source == "desktop"@ {
        4
    } else if source == "appsFolder"@ {
        3
    } else if source == "registry"@ || source == "appPaths"@ || source == "applications"@ {
        2
    } else if source == "programs"@ {
        1
    } else {
        0
    }
}

/// The preference rank of an application source.
pub fn source_rank(source: &str) -> (r: i32)
    ensures
        r == source_rank_of(source@),
{
    if str_eq(source, "taskbar") {
        6
    } else if str_eq(source, "startMenu") {
        5
    } else if str_eq(source, "desktop") {
        4
    } else if str_eq(source, "appsFolder") {
        3
    } else if str_eq(source, "registry") || str_eq(source, "appPaths") || str_eq(
        source,
        "applications",
    ) {
        2
    } else if str_eq(source, "programs") {
        1
    } else {
        0
    }
}

/// `b` is `a` without its icon.
pub open spec fn without_icon(a: AppEntry, b: AppEntry) -> bool {
    &&& b.icon is None
    &&& b.name == a.name
    &&& b.normalized_name == a.normalized_name
    &&& b.app_id == a.app_id
    &&& b.path == a.path
    &&& b.args == a.args
    &&& b.working_directory == a.working_directory
    &&& b.location == a.location
    &&& b.aumid == a.aumid
    &&& b.source == a.source
    &&& b.keywords == a.keywords
}

/// The list with every icon dropped (icons are sent separately, on demand).
pub fn strip_icons(list: Vec<AppEntry>) -> (r: Vec<AppEntry>)
    ensures
        r@.len() == list@.len(),
        forall|i: int| 0 <= i < list@.len() ==> without_icon(list@[i], #[trigger] r@[i]),
{
    let ghost orig = list@;
    let n = list.len();
    let mut rest = list;
    let mut out: Vec<AppEntry> = Vec::new();
    while rest.len() > 0
        invariant
            out@.len() + rest@.len() == n,
            n == orig.len(),
            rest@ == orig.skip(out@.len() as int),
            forall|i: int| 0 <= i < out@.len() ==> without_icon(orig[i], #[trigger] out@[i]),
        decreases rest@.len(),
    {
        let ghost k: int = out@.len() as int;
        let mut entry = rest.remove(0);
        assert(entry == orig[k]);
        entry.icon = None;
        out.push(entry);
        assert(rest@ =~= orig.skip(k + 1));
    }
    out
}

} // verus!
