//! File catalog: candidate ranking, NTFS journal parsing, path resolution,
//! volume mount bookkeeping and the watcher's decisions.

pub mod types;
pub mod search;
pub mod usn;
pub mod path;
pub mod volume;
pub mod watcher;
pub mod scanner;
pub mod db;
pub mod backend;
pub mod browse;
pub mod merge;
