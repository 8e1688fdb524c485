//! Plain records shared by the catalog's scanner, journal reader and search.

use vstd::prelude::*;

verus! {

/// Indexing state of one volume.
#[derive(Clone, Copy, Debug, PartialEq, Eq, Structural)]
pub enum VolumeState {
    Ready,
    Indexing,
    Offline,
    Error,
}

/// One search result row.
#[derive(Debug)]
pub struct FileEntry {
    pub name: String,
    pub path: String,
    pub parent: String,
    pub is_directory: bool,
    pub thumbnail: Option<String>,
}

/// A well-known folder offered before the user types.
#[derive(Debug)]
pub struct QuickAccessEntry {
    pub name: String,
    pub path: String,
    pub kind: String,
}

/// A mounted volume as the volume manager reports it.
#[derive(Debug)]
pub struct VolumeInfo {
    pub volume_id: String,
    pub volume_guid_path: Option<String>,
    pub discovery_sources: Vec<String>,
    pub drive_letter: Option<String>,
    pub mount_paths: Vec<String>,
    pub drive_type: u32,
    pub label: String,
    pub fs_type: String,
    pub accessible: bool,
}

/// One MFT record, keyed by its file reference number.
#[derive(Debug)]
pub struct NtfsNode {
    pub frn: u64,
    pub parent_frn: u64,
    pub name: String,
    pub lower_name: String,
    pub extension: Option<String>,
    pub is_directory: bool,
    pub attributes: u32,
    pub modified_at: i64,
    pub size: u64,
}

/// What `FSCTL_QUERY_USN_JOURNAL` reports about a volume's change journal.
#[derive(Clone, Copy, Debug, PartialEq, Eq, Structural)]
pub struct JournalMetadata {
    pub journal_id: u64,
    pub first_usn: i64,
    pub next_usn: i64,
    pub lowest_valid_usn: i64,
}

/// Where the index stopped reading a volume's change journal.
#[derive(Clone, Copy, Debug, PartialEq, Eq, Structural)]
pub struct JournalCheckpoint {
    pub journal_id: u64,
    pub next_usn: i64,
}

/// A change to apply to the index.
#[derive(Debug)]
pub enum NtfsChange {
    Upsert(NtfsNode),
    Delete { frn: u64 },
}

/// One file or folder found by a directory walk.
#[derive(Debug)]
pub struct ScannedItem {
    pub normalized_path: String,
    pub display_path: String,
    pub name: String,
    pub lower_name: String,
    pub parent: String,
    pub is_directory: bool,
    pub extension: Option<String>,
    pub modified_at: u64,
    pub size: u64,
}

/// A row the full-text index proposed for a query.
#[derive(Debug)]
pub struct CandidateEntry {
    pub id: i64,
    pub display_path: String,
    pub lower_name: String,
    pub is_directory: bool,
    pub extension: Option<String>,
}

impl CandidateEntry {
    /// A field-by-field copy.
    pub fn duplicate(&self) -> (r: CandidateEntry)
        ensures
            r == *self,
    {
        CandidateEntry {
            id: self.id,
            display_path: self.display_path.clone(),
            lower_name: self.lower_name.clone(),
            is_directory: self.is_directory,
            extension: match &self.extension {
                Some(e) => Some(e.clone()),
                None => None,
            },
        }
    }
}

} // verus!
