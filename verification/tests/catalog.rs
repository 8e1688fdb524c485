use prism::catalog::backend::{catch_up_step, raw_device_path, select_backend, BackendKind, CatchUpStep, RawOpenError, DRIVE_FIXED};
use prism::catalog::db::{blob_frn, escape_like_pattern, frn_blob, sanitize_fts5_trigram_query};
use prism::catalog::path::{resolve_path, PathNode, PathResolution};
use prism::catalog::scanner::{format_win32_search_pattern, is_cloud_reparse_tag, is_excluded_dir};
use prism::catalog::search::{
    candidate_limit, clamp_limit, entry_score, file_extension_of, file_stem_of, long_enough,
    path_depth, pick_results, query_tokens, rank_candidates, target_score, MAX_QUERY_BYTES,
};
use prism::catalog::types::{CandidateEntry, JournalCheckpoint, JournalMetadata, NtfsChange, VolumeInfo};
use prism::catalog::usn::{
    fold_records, is_root_system_node, journal_continuity, journal_metadata, parse_journal_buffer,
    parse_record, JournalContinuity, ParsedUsnRecord, RebuildReason, UsnError, UsnRecordV2,
};
use prism::catalog::volume::{
    canonical_mount_index, drive_letter_from_mount_path, normalize_mount_path,
    normalize_mount_paths,
};
use prism::catalog::watcher::{is_unsearchable_top_level, watcher_root_changed, ReconnectBackoff};

const USN_REASON_FILE_CREATE: u32 = 0x0000_0100;
const USN_REASON_RENAME_OLD_NAME: u32 = 0x0000_1000;
const USN_REASON_RENAME_NEW_NAME: u32 = 0x0000_2000;

fn metadata(id: u64, first: i64, next: i64) -> JournalMetadata {
    JournalMetadata { journal_id: id, first_usn: first, next_usn: next, lowest_valid_usn: first }
}

fn candidate(id: i64, path: &str, name: &str, ext: Option<&str>) -> CandidateEntry {
    CandidateEntry {
        id,
        display_path: path.into(),
        lower_name: name.into(),
        is_directory: false,
        extension: ext.map(str::to_string),
    }
}

fn record(frn: u64, parent: u64, reason: u32, name: &str) -> UsnRecordV2 {
    UsnRecordV2 { frn, parent_frn: parent, usn: 1, timestamp: 0, reason, attributes: 0, name: name.into() }
}

fn volume(fs_type: &str, drive_type: u32, letter: Option<&str>) -> VolumeInfo {
    VolumeInfo {
        volume_id: "stable-id".into(),
        volume_guid_path: None,
        discovery_sources: vec!["test".into()],
        drive_letter: letter.map(str::to_string),
        mount_paths: vec!["C:\\".into()],
        drive_type,
        label: String::new(),
        fs_type: fs_type.into(),
        accessible: true,
    }
}

// ---- journal ----

#[test]
fn detects_journal_id_mismatch_and_range_gaps() {
    let saved = Some(JournalCheckpoint { journal_id: 1, next_usn: 100 });
    assert_eq!(
        journal_continuity(saved, metadata(2, 10, 200)),
        JournalContinuity::Rebuild(RebuildReason::JournalIdChanged)
    );
    assert_eq!(
        journal_continuity(saved, metadata(1, 101, 200)),
        JournalContinuity::Rebuild(RebuildReason::CursorTruncated)
    );
    assert_eq!(
        journal_continuity(saved, metadata(1, 10, 99)),
        JournalContinuity::Rebuild(RebuildReason::CursorAhead)
    );
    assert_eq!(journal_continuity(saved, metadata(1, 10, 100)), JournalContinuity::Current);
    assert_eq!(journal_continuity(saved, metadata(1, 10, 101)), JournalContinuity::CatchUp);
}

#[test]
fn missing_checkpoint_forces_a_rebuild() {
    assert_eq!(
        journal_continuity(None, metadata(1, 10, 101)),
        JournalContinuity::Rebuild(RebuildReason::MissingCheckpoint)
    );
}

#[test]
fn parser_rejects_truncated_and_out_of_bounds_names() {
    assert!(parse_record(&[0; 7]).is_err());
    let mut record = vec![0u8; 60];
    record[0..4].copy_from_slice(&60u32.to_le_bytes());
    record[4..6].copy_from_slice(&2u16.to_le_bytes());
    record[56..58].copy_from_slice(&2u16.to_le_bytes());
    record[58..60].copy_from_slice(&60u16.to_le_bytes());
    assert!(parse_record(&record).is_err());
}

#[test]
fn parser_skips_future_record_versions_by_declared_length() {
    let mut record = vec![0u8; 16];
    record[0..4].copy_from_slice(&16u32.to_le_bytes());
    record[4..6].copy_from_slice(&3u16.to_le_bytes());
    match parse_record(&record).unwrap() {
        (ParsedUsnRecord::Unsupported { major_version }, length) => {
            assert_eq!(major_version, 3);
            assert_eq!(length, 16);
        }
        other => panic!("unexpected {other:?}"),
    }
}

fn v2_record(frn: u64, parent: u64, reason: u32, name: &str) -> Vec<u8> {
    let units: Vec<u16> = name.encode_utf16().collect();
    let len = 60 + units.len() * 2;
    let mut r = vec![0u8; len];
    r[0..4].copy_from_slice(&(len as u32).to_le_bytes());
    r[4..6].copy_from_slice(&2u16.to_le_bytes());
    r[8..16].copy_from_slice(&frn.to_le_bytes());
    r[16..24].copy_from_slice(&parent.to_le_bytes());
    r[24..32].copy_from_slice(&77i64.to_le_bytes());
    r[40..44].copy_from_slice(&reason.to_le_bytes());
    r[56..58].copy_from_slice(&((units.len() * 2) as u16).to_le_bytes());
    r[58..60].copy_from_slice(&60u16.to_le_bytes());
    for (i, u) in units.iter().enumerate() {
        r[60 + 2 * i..62 + 2 * i].copy_from_slice(&u.to_le_bytes());
    }
    r
}

#[test]
fn parser_decodes_a_version_two_record() {
    let bytes = v2_record(42, 5, USN_REASON_FILE_CREATE, "Notes.TXT");
    match parse_record(&bytes).unwrap() {
        (ParsedUsnRecord::V2(r), length) => {
            assert_eq!(length, bytes.len());
            assert_eq!(r.frn, 42);
            assert_eq!(r.parent_frn, 5);
            assert_eq!(r.usn, 77);
            assert_eq!(r.reason, USN_REASON_FILE_CREATE);
            assert_eq!(r.name, "Notes.TXT");
        }
        other => panic!("unexpected {other:?}"),
    }
    assert_eq!(parse_record(&[0u8; 3]).unwrap_err(), UsnError::ShortCommonHeader);
    let mut short = vec![0u8; 16];
    short[0..4].copy_from_slice(&16u32.to_le_bytes());
    short[4..6].copy_from_slice(&2u16.to_le_bytes());
    assert_eq!(parse_record(&short).unwrap_err(), UsnError::ShortFixedHeader);
}

#[test]
fn journal_buffers_decode_into_folded_changes() {
    let mut buffer = 900i64.to_le_bytes().to_vec();
    buffer.extend(v2_record(10, 20, USN_REASON_FILE_CREATE, "a.txt"));
    buffer.extend(v2_record(11, 20, 0x0000_0200, "gone.txt"));
    let batch = parse_journal_buffer(&buffer).unwrap();
    assert_eq!(batch.next_usn, 900);
    assert_eq!(batch.record_count, 2);
    assert_eq!(batch.changes.len(), 2);
    assert!(matches!(batch.changes[1], NtfsChange::Delete { frn: 11 }));
    assert_eq!(parse_journal_buffer(&[1, 2, 3]).unwrap_err(), UsnError::InvalidBufferLength);
    let meta = journal_metadata(&[1, 0, 0, 0, 0, 0, 0, 0, 2, 0, 0, 0, 0, 0, 0, 0, 3, 0, 0, 0, 0, 0, 0, 0, 4, 0, 0, 0, 0, 0, 0, 0]).unwrap();
    assert_eq!(meta, JournalMetadata { journal_id: 1, first_usn: 2, next_usn: 3, lowest_valid_usn: 4 });
}

#[test]
fn ntfs_metadata_and_unsearchable_roots_are_dropped() {
    let changes = fold_records(vec![
        record(1, 5, USN_REASON_FILE_CREATE, "$LogFile"),
        record(2, 5, USN_REASON_FILE_CREATE, "System Volume Information"),
        record(3, 5, USN_REASON_FILE_CREATE, "notes.txt"),
        record(4, 100, USN_REASON_FILE_CREATE, "$temp-notes.txt"),
    ]);
    let mut names: Vec<&str> = changes
        .iter()
        .filter_map(|change| match change {
            NtfsChange::Upsert(node) => Some(node.name.as_str()),
            NtfsChange::Delete { .. } => None,
        })
        .collect();
    names.sort_unstable();
    assert_eq!(names, vec!["$temp-notes.txt", "notes.txt"]);
}

#[test]
fn rename_old_is_deferred_and_new_name_is_authoritative() {
    assert!(fold_records(vec![record(10, 5, USN_REASON_RENAME_OLD_NAME, "old.txt")]).is_empty());
    let changes = fold_records(vec![record(10, 20, USN_REASON_RENAME_NEW_NAME, "new.rs")]);
    let NtfsChange::Upsert(node) = &changes[0] else {
        panic!("expected upsert");
    };
    assert_eq!(node.parent_frn, 20);
    assert_eq!(node.lower_name, "new.rs");
    assert_eq!(node.extension.as_deref(), Some("rs"));
}

#[test]
fn replayed_create_folds_to_one_upsert() {
    let changes = fold_records(vec![
        record(10, 5, USN_REASON_FILE_CREATE, "A.TXT"),
        record(10, 5, USN_REASON_FILE_CREATE, "A.TXT"),
    ]);
    assert_eq!(changes.len(), 1);
    let NtfsChange::Upsert(node) = &changes[0] else {
        panic!("expected upsert");
    };
    assert_eq!(node.lower_name, "a.txt");
    assert_eq!(node.extension.as_deref(), Some("txt"));
}

#[test]
fn root_system_nodes_are_only_under_the_root() {
    assert!(is_root_system_node("$Mft", 5));
    assert!(is_root_system_node("SYSTEM VOLUME INFORMATION", 5));
    assert!(!is_root_system_node("$Mft", 6));
    assert!(!is_root_system_node("Users", 5));
}

// ---- paths ----

fn node(frn: u64, parent: u64, name: &str) -> PathNode {
    PathNode { frn, parent_frn: parent, name: name.into() }
}

#[test]
fn reconstructs_frn_parent_graph_iteratively() {
    let nodes = vec![node(5, 5, "."), node(10, 5, "Projects"), node(11, 10, "Prism"), node(12, 11, "main.rs")];
    match resolve_path(12, "C:\\", &nodes) {
        PathResolution::Resolved(p) => assert_eq!(p, "C:\\Projects\\Prism\\main.rs"),
        other => panic!("unexpected {other:?}"),
    }
}

#[test]
fn orphan_and_cycle_are_bounded_errors() {
    let orphan = vec![node(10, 99, "lost.txt")];
    assert!(matches!(resolve_path(10, "C:\\", &orphan), PathResolution::Orphaned { missing_frn: 99 }));
    let cycle = vec![node(10, 11, "a"), node(11, 10, "b")];
    assert!(matches!(resolve_path(10, "C:\\", &cycle), PathResolution::Cycle { frn: 10 }));
}

#[test]
fn mount_without_trailing_separator_gets_one() {
    let nodes = vec![node(5, 5, "."), node(10, 5, "Data")];
    match resolve_path(10, "D:\\Mounts\\Disk", &nodes) {
        PathResolution::Resolved(p) => assert_eq!(p, "D:\\Mounts\\Disk\\Data"),
        other => panic!("unexpected {other:?}"),
    }
}

// ---- search ----

#[test]
fn exact_and_prefix_names_rank_first() {
    let exact = candidate(1, r"C:\Users\me\Documents\report.pdf", "report.pdf", Some("pdf"));
    let prefix = candidate(2, r"C:\Users\me\Downloads\report-final.pdf", "report-final.pdf", Some("pdf"));
    let unrelated = candidate(3, r"C:\Users\me\report\notes.txt", "notes.txt", Some("txt"));
    let tokens = ["report"];
    let exact_score = entry_score(&exact, &tokens, "report").unwrap();
    let prefix_score = entry_score(&prefix, &tokens, "report").unwrap();
    assert!(exact_score > prefix_score);
    assert!(entry_score(&unrelated, &tokens, "report").is_none());
}

#[test]
fn exact_underscore_containing_filename_ranks_first() {
    let exact = candidate(1, r"C:\Users\me\Documents\gemini_revisions_unverified.md", "gemini_revisions_unverified.md", Some("md"));
    let partial = candidate(2, r"C:\Users\me\Documents\gemini_revisions.md", "gemini_revisions.md", Some("md"));
    let query = "gemini_revisions_unverified.md";
    let tokens = ["gemini_revisions_unverified.md"];
    let exact_score = entry_score(&exact, &tokens, query).unwrap();
    let partial_score = entry_score(&partial, &tokens, query);
    assert!(partial_score.is_none() || exact_score > partial_score.unwrap());
}

#[test]
fn supports_fuzzy_and_multi_token_matches() {
    let file = candidate(1, r"C:\Users\me\Documents\Project Roadmap 2026.pdf", "project roadmap 2026.pdf", Some("pdf"));
    assert!(entry_score(&file, &["prjct"], "prjct").is_some());
    assert!(entry_score(&file, &["road", "2026"], "road 2026").is_some());
    assert!(entry_score(&file, &["road", "missing"], "road missing").is_none());
    assert!(target_score("wez", "windows performance analyzer").is_none());
}

#[test]
fn score_tiers_and_penalties_have_exact_values() {
    assert_eq!(target_score("abc", "abc"), Some(5000));
    assert_eq!(target_score("ab", "abc"), Some(4000));
    assert_eq!(target_score("bc", "abc"), Some(2998));
    assert_eq!(target_score("road", "project roadmap"), Some(3000 - 16 + 500));
    let exact = candidate(1, r"C:\Users\me\report.pdf", "report.pdf", None);
    assert_eq!(entry_score(&exact, &["report.pdf"], "report.pdf"), Some(10_000));
    let stem = candidate(2, r"C:\Users\me\report.pdf", "report.pdf", None);
    assert_eq!(entry_score(&stem, &["report"], "report"), Some(9_500));
    let noisy = candidate(3, r"C:\Windows\System32\report.pdf", "report.pdf", None);
    assert_eq!(entry_score(&noisy, &["report"], "report"), Some(9_500 - 600));
    let noise_name = candidate(4, r"C:\Users\me\desktop.ini", "desktop.ini", None);
    assert_eq!(entry_score(&noise_name, &["desktop.ini"], "desktop.ini"), Some(10_000 - 800));
}

#[test]
fn stems_and_extensions_follow_the_final_component() {
    assert_eq!(file_stem_of("report.pdf").as_deref(), Some("report"));
    assert_eq!(file_stem_of(".bashrc").as_deref(), Some(".bashrc"));
    assert_eq!(file_stem_of("archive.tar.gz").as_deref(), Some("archive.tar"));
    assert_eq!(file_stem_of(r"C:\dir\name"), Some("name".to_string()));
    assert_eq!(file_stem_of(".."), None);
    assert_eq!(file_extension_of("report.PDF").as_deref(), Some("PDF"));
    assert_eq!(file_extension_of(".bashrc"), None);
    assert_eq!(file_extension_of("noext"), None);
}

#[test]
fn limits_and_depths() {
    assert_eq!(clamp_limit(None), 10);
    assert_eq!(clamp_limit(Some(0)), 1);
    assert_eq!(clamp_limit(Some(500)), 20);
    assert_eq!(candidate_limit(5), 150);
    assert_eq!(candidate_limit(20), 300);
    assert_eq!(path_depth(r"C:\a/b\c"), 3);
    assert!(!long_enough("r"));
    assert!(long_enough("re"));
    assert_eq!(query_tokens("road  2026 "), vec!["road".to_string(), "2026".to_string()]);
}

#[test]
fn ranking_orders_by_score_then_shorter_names() {
    let ranked = rank_candidates(
        "report",
        &["report"],
        vec![
            candidate(1, r"C:\x\report-long.txt", "report-long.txt", None),
            candidate(2, r"C:\x\report.txt", "report.txt", None),
            candidate(3, r"C:\x\other.txt", "other.txt", None),
        ],
    );
    assert_eq!(ranked.len(), 2);
    assert_eq!(ranked[0].entry.id, 2);
    assert_eq!(ranked[1].entry.id, 1);
}

#[test]
fn picking_skips_missing_and_duplicate_paths() {
    let ranked = rank_candidates(
        "report",
        &["report"],
        vec![
            candidate(1, r"C:\x\report.txt", "report.txt", None),
            candidate(2, r"C:\X\REPORT.TXT", "report.txt", None),
            candidate(3, r"C:\y\report.txt", "report.txt", None),
            candidate(4, r"C:\z\report.txt", "report.txt", None),
        ],
    );
    let picked = pick_results(&ranked, &[true, true, false, true], 2);
    let ids: Vec<i64> = picked.iter().map(|&i| ranked[i].entry.id).collect();
    assert_eq!(ids.len(), 2);
    assert_eq!(ids[0], 1);
    assert_eq!(ids[1], 4);
}

// ---- scanner, db ----

#[test]
fn only_unsearchable_roots_are_excluded() {
    assert!(is_excluded_dir("$recycle.bin"));
    assert!(is_excluded_dir("system volume information"));
    assert!(!is_excluded_dir("windows"));
    assert!(!is_excluded_dir("node_modules"));
    assert!(!is_excluded_dir(".git"));
    assert!(!is_excluded_dir("temp"));
    assert!(!is_excluded_dir("windowsapps"));
}

#[test]
fn cloud_placeholder_roots_are_descended_but_not_other_reparse_points() {
    assert!(is_cloud_reparse_tag(0x9000_001A));
    assert!(is_cloud_reparse_tag(0x9000_701A));
    assert!(!is_cloud_reparse_tag(0xA000_0003));
    assert!(!is_cloud_reparse_tag(0xA000_000C));
    assert!(!is_cloud_reparse_tag(0));
}

#[test]
fn search_patterns_use_the_long_path_namespace() {
    assert_eq!(format_win32_search_pattern(r"C:\Users\"), r"\\?\C:\Users\*");
    assert_eq!(format_win32_search_pattern(r"\\server\share"), r"\\?\UNC\server\share\*");
    assert_eq!(format_win32_search_pattern(r"\\?\C:\x"), r"\\?\C:\x\*");
}

#[test]
fn like_patterns_and_fts_queries_are_escaped() {
    assert_eq!(escape_like_pattern("50%_off!"), "50!%!_off!!");
    assert_eq!(sanitize_fts5_trigram_query(r#"ab report "q"x"#), r#""report" AND """q""x""#);
    assert_eq!(sanitize_fts5_trigram_query("a b"), "");
}

#[test]
fn frn_blobs_round_trip() {
    for frn in [0u64, 5, 0x0102_0304_0506_0708, u64::MAX] {
        assert_eq!(blob_frn(&frn_blob(frn)), Some(frn));
        assert_eq!(frn_blob(frn), frn.to_le_bytes());
    }
    assert_eq!(blob_frn(&[1, 2, 3]), None);
}

// ---- volumes ----

#[test]
fn drive_letter_requires_a_true_root() {
    assert_eq!(drive_letter_from_mount_path(r"d:\"), Some("D:".into()));
    assert_eq!(drive_letter_from_mount_path(r"D:\Mounted"), None);
    assert_eq!(drive_letter_from_mount_path("not:a-root"), None);
}

#[test]
fn aliases_are_deduplicated_case_insensitively() {
    let paths = normalize_mount_paths(&[r"d:\".to_string(), r"D:\".to_string(), "D:/".to_string()]);
    assert_eq!(paths, vec![r"D:\".to_string()]);
}

#[test]
fn normalised_mounts_are_ordered_unique_and_backslashed() {
    let paths = normalize_mount_paths(&[
        "e:/Data/".to_string(),
        "c:/".to_string(),
        r"C:\".to_string(),
        r"E:\data".to_string(),
        "d:".to_string(),
    ]);
    assert_eq!(paths, vec![r"C:\".to_string(), r"D:\".to_string(), r"E:\Data".to_string()]);
    for p in &paths {
        assert!(!p.contains('/'));
    }
    for w in paths.windows(2) {
        assert!(w[0].to_lowercase() < w[1].to_lowercase());
    }
    assert_eq!(normalize_mount_paths(&paths), paths);
}

#[test]
fn mount_paths_normalise_their_spelling() {
    assert_eq!(normalize_mount_path("c:/Mounts/Data/"), r"C:\Mounts\Data");
    assert_eq!(normalize_mount_path("e:"), r"E:\");
    assert_eq!(normalize_mount_path(r"\\server\share\"), r"\\server\share");
}

fn canonical(mounts: &[&str]) -> String {
    let paths = normalize_mount_paths(&mounts.iter().map(|m| m.to_string()).collect::<Vec<_>>());
    let flags = vec![true; paths.len()];
    paths[canonical_mount_index(&paths, &flags).unwrap()].clone()
}

#[test]
fn canonical_mount_prefers_drive_root_regardless_of_input_order() {
    for mounts in [vec![r"C:\Mounts\Data\", r"D:\"], vec![r"D:\", r"C:\Mounts\Data\"]] {
        assert_eq!(canonical(&mounts), r"D:\");
    }
}

#[test]
fn canonical_mounted_folder_selection_is_deterministic() {
    let first = canonical(&[r"C:\Mounts\Long\Data\", r"C:\Data\"]);
    let second = canonical(&[r"C:\Data\", r"C:\Mounts\Long\Data\"]);
    assert_eq!(first, r"C:\Data");
    assert_eq!(first, second);
}

#[test]
fn logical_fallback_recomputes_its_drive_letter() {
    let mut fallback = volume("NTFS", DRIVE_FIXED, None);
    fallback.mount_paths = vec![r"D:\".to_string()];
    fallback.recompute_mount_metadata(&[true]);
    assert_eq!(fallback.drive_letter.as_deref(), Some("D:"));
    assert!(fallback.accessible);
}

#[test]
fn selects_ntfs_only_for_accessible_local_fixed_volumes() {
    assert_eq!(select_backend(&volume("NTFS", DRIVE_FIXED, Some("C:")), true), BackendKind::Ntfs);
    assert_eq!(select_backend(&volume("NTFS", DRIVE_FIXED, Some("C:")), false), BackendKind::Directory);
    assert_eq!(select_backend(&volume("exFAT", DRIVE_FIXED, Some("C:")), true), BackendKind::Directory);
    assert_eq!(select_backend(&volume("NTFS", 4, Some("C:")), true), BackendKind::Directory);
    assert_eq!(select_backend(&volume("NTFS", 2, Some("C:")), true), BackendKind::Directory);
}

#[test]
fn raw_devices_need_a_validated_drive_letter() {
    assert_eq!(raw_device_path(&volume("ntfs", DRIVE_FIXED, Some("c:"))), Ok(r"\\.\c:".to_string()));
    assert_eq!(raw_device_path(&volume("NTFS", DRIVE_FIXED, Some("C"))), Err(RawOpenError::NoValidatedDriveLetter));
    assert_eq!(raw_device_path(&volume("FAT32", DRIVE_FIXED, Some("C:"))), Err(RawOpenError::NotEligible));
    assert_eq!(catch_up_step(10, 9), CatchUpStep::Regressed);
    assert_eq!(catch_up_step(10, 10), CatchUpStep::Stalled);
    assert_eq!(catch_up_step(10, 12), CatchUpStep::Advance(12));
}

// ---- watcher ----

#[test]
fn reconnect_backoff_is_capped_and_resets_after_success() {
    let mut backoff = ReconnectBackoff::new();
    assert_eq!(backoff.next_delay(), 250);
    assert_eq!(backoff.next_delay(), 500);
    for _ in 0..20 {
        backoff.next_delay();
    }
    assert_eq!(backoff.next_delay(), 30_000);
    backoff.reset();
    assert_eq!(backoff.next_delay(), 250);
}

#[test]
fn canonical_root_change_requires_watcher_replacement() {
    assert!(!watcher_root_changed(r"D:\", r"d:\"));
    assert!(watcher_root_changed(r"D:\", r"E:\"));
}

#[test]
fn unsearchable_top_levels_are_recognised_by_first_component() {
    assert!(is_unsearchable_top_level(r"$RECYCLE.BIN\S-1-5\x"));
    assert!(is_unsearchable_top_level("System Volume Information"));
    assert!(!is_unsearchable_top_level(r"Users\$recycle.bin"));
}

#[test]
fn a_noisier_location_never_wins_a_tie() {
    let quiet = candidate(1, r"C:\Users\me\Documents\budget.xlsx", "budget.xlsx", Some("xlsx"));
    let noisy = candidate(2, r"C:\Windows\Temp\budget.xlsx", "budget.xlsx", Some("xlsx"));
    for (tokens, query) in [(vec!["budget"], "budget"), (vec!["bud"], "bud"), (vec!["budget.xlsx"], "budget.xlsx")] {
        let a = entry_score(&quiet, &tokens, query).unwrap();
        let b = entry_score(&noisy, &tokens, query).unwrap();
        assert!(a > b);
    }
    assert!(entry_score(&quiet, &["zzz"], "zzz").is_none());
    assert!(entry_score(&noisy, &["zzz"], "zzz").is_none());
}

#[test]
fn the_query_bound_is_where_the_subsequence_score_stops_fitting() {
    assert!(1000 + 8 * MAX_QUERY_BYTES as i64 <= i32::MAX as i64);
    assert!(1000 + 8 * (MAX_QUERY_BYTES as i64 + 1) > i32::MAX as i64);
}
