//! Verified core of the Prism launcher: query scoring, intent mapping,
//! catalog ranking, NTFS journal parsing, and shell geometry.

pub mod text;
pub mod sorting;
pub mod query;
pub mod apps;
pub mod catalog;
pub mod shell;
