use prism::catalog::db::{append_unique, candidate_plan, prefix_upper_bound};
use prism::catalog::types::CandidateEntry;

fn row(id: i64, name: &str) -> CandidateEntry {
    CandidateEntry {
        id,
        display_path: format!("C:\\{name}"),
        lower_name: name.to_string(),
        is_directory: false,
        extension: None,
    }
}

#[test]
fn candidate_queries_follow_the_query_length() {
    let plan = candidate_plan("report", 6, 10);
    assert_eq!(plan.exact_limit, 40);
    assert_eq!(plan.prefix_limit, 30);
    assert_eq!(plan.fts.as_ref().map(|(q, n)| (q.as_str(), *n)), Some(("\"report\"", 30)));
    assert!(!plan.short_prefix);
    let short = candidate_plan("re", 2, 50);
    assert_eq!(short.prefix_limit, 150);
    assert!(short.fts.is_none());
    assert!(short.short_prefix);
    assert_eq!(candidate_plan("r", 1, 3).prefix_limit, 30);
    assert_eq!(prefix_upper_bound("ab"), "ab\u{FFFF}");
}

#[test]
fn candidate_rows_are_taken_once_each() {
    let mut candidates = Vec::new();
    let mut seen = Vec::new();
    append_unique(&mut candidates, &mut seen, vec![row(1, "a"), row(2, "b"), row(1, "a")]);
    append_unique(&mut candidates, &mut seen, vec![row(2, "b"), row(3, "c")]);
    let ids: Vec<i64> = candidates.iter().map(|c| c.id).collect();
    assert_eq!(ids, vec![1, 2, 3]);
    assert_eq!(seen, vec![1, 2, 3]);
}

use prism::catalog::db::{migration_steps, MigrationStep};
use prism::shell::provider::parse_i64;

#[test]
fn old_catalogs_go_through_each_missing_upgrade() {
    assert!(migration_steps(Some("6")).is_empty());
    assert!(migration_steps(Some(" 7 ")).is_empty());
    assert_eq!(migration_steps(Some("5")), vec![MigrationStep::ResweepFallbackVolumes]);
    assert_eq!(migration_steps(Some("4")), vec![MigrationStep::AddJournalColumns, MigrationStep::ResweepFallbackVolumes]);
    assert_eq!(migration_steps(Some("2")), vec![MigrationStep::PurgeExcludedRows, MigrationStep::AddJournalColumns, MigrationStep::ResweepFallbackVolumes]);
    assert_eq!(migration_steps(Some("garbage")), vec![MigrationStep::AddJournalColumns, MigrationStep::ResweepFallbackVolumes]);
    assert_eq!(migration_steps(None), vec![MigrationStep::AddJournalColumns, MigrationStep::ResweepFallbackVolumes]);
}

#[test]
fn signed_integers_parse_like_std() {
    for text in ["0", "-0", "+12", "-12", "9223372036854775807", "-9223372036854775808", "", "-", "+", "-+1", "1a", "9223372036854775808", "-9223372036854775809"] {
        assert_eq!(parse_i64(text), text.parse::<i64>().ok(), "{text}");
    }
}

use prism::catalog::db::is_stale_recovery_copy;

#[test]
fn only_week_old_recovery_copies_are_stale() {
    let week = 7 * 24 * 60 * 60;
    assert!(is_stale_recovery_copy("catalog.recovery-1786807317418544300.db", week + 1, 0));
    assert!(is_stale_recovery_copy("catalog.recovery-1786807317418544300.db-wal", week, 1));
    assert!(!is_stale_recovery_copy("catalog.recovery-1786807317418544300.db", week, 0));
    assert!(!is_stale_recovery_copy("catalog.recovery-9999999999999999999.db", 5, 0));
    assert!(!is_stale_recovery_copy("otherfile-recovery-.db", week * 2, 0));
    assert!(!is_stale_recovery_copy("catalog.recovery-1.txt", week * 2, 0));
}
