use prism::catalog::backend::DRIVE_FIXED;
use prism::catalog::merge::{
    fallback_volume_id, merge_into, merge_volume_records, records_represent_same_volume, stable_guid_id,
};
use prism::catalog::types::VolumeInfo;

const REMOVABLE: u32 = 2;

/// Every drive root and mounted folder these tests use is reachable.
fn reachable() -> Vec<String> {
    [r"C:\", r"D:\", r"E:\", r"C:\Mounts\Data"].iter().map(|p| p.to_string()).collect()
}

fn volume(id: &str, guid: Option<&str>, mounts: &[&str]) -> VolumeInfo {
    let mut volume = VolumeInfo {
        volume_id: id.into(),
        volume_guid_path: guid.map(str::to_string),
        discovery_sources: vec!["test".into()],
        drive_letter: None,
        mount_paths: mounts.iter().map(|m| m.to_string()).collect(),
        drive_type: DRIVE_FIXED,
        label: "Data".into(),
        fs_type: "NTFS".into(),
        accessible: true,
    };
    volume.recompute_with_reachable(&reachable());
    volume
}

#[test]
fn guid_and_logical_records_merge_but_distinct_drives_do_not() {
    let guid = r"\\?\Volume{11111111-1111-1111-1111-111111111111}\";
    let records = vec![
        volume("guid-d", Some(guid), &[r"D:\", r"C:\Mounts\Data\"]),
        volume("guid-d", Some(guid), &[r"d:\"]),
        volume("guid-c", None, &[r"C:\"]),
    ];
    let merged = merge_volume_records(records, &reachable());
    assert_eq!(merged.len(), 2);
    let secondary = merged.iter().find(|item| item.volume_id == "guid-d").unwrap();
    let flags = vec![true; secondary.mount_paths.len()];
    assert_eq!(secondary.canonical_mount_path(&flags), Some(r"D:\".to_string()));
    assert_eq!(secondary.mount_paths.len(), 2);
}

#[test]
fn inaccessible_record_does_not_remove_other_volumes() {
    let mut offline = volume("offline", None, &[r"E:\"]);
    offline.accessible = false;
    let merged = merge_volume_records(
        vec![offline, volume("system", None, &[r"C:\"]), volume("data", None, &[r"D:\"])],
        &reachable(),
    );
    assert_eq!(merged.len(), 3);
    assert!(merged.iter().any(|item| item.volume_id == "system"));
    assert!(merged.iter().any(|item| item.volume_id == "data"));
}

#[test]
fn merged_volumes_are_ordered_by_canonical_mount_path() {
    let merged = merge_volume_records(
        vec![volume("data", None, &[r"D:\"]), volume("mounted", None, &[r"C:\Mounts\Data"]), volume("system", None, &[r"C:\"])],
        &reachable(),
    );
    let ids: Vec<&str> = merged.iter().map(|v| v.volume_id.as_str()).collect();
    assert_eq!(ids, vec!["system", "mounted", "data"]);
    assert_eq!(merged[0].drive_letter.as_deref(), Some("C:"));
    assert_eq!(merged[1].drive_letter, None);
}

#[test]
fn a_volume_without_mounts_sorts_by_its_lowercase_id() {
    let merged = merge_volume_records(
        vec![volume("Zeta", None, &[]), volume("alpha", None, &[]), volume("disk", None, &[r"C:\"])],
        &reachable(),
    );
    let ids: Vec<&str> = merged.iter().map(|v| v.volume_id.as_str()).collect();
    assert_eq!(ids, vec!["alpha", r"disk", "Zeta"]);
    assert!(!merged[0].accessible);
}

#[test]
fn shared_mounts_merge_only_on_matching_drive_type_and_file_system() {
    let a = volume("one", None, &[r"D:\"]);
    let mut b = volume("two", None, &[r"d:/"]);
    assert!(records_represent_same_volume(&a, &b));
    b.drive_type = REMOVABLE;
    assert!(!records_represent_same_volume(&a, &b));
    b.drive_type = DRIVE_FIXED;
    b.fs_type = "exFAT".into();
    assert!(!records_represent_same_volume(&a, &b));
    b.fs_type = String::new();
    assert!(records_represent_same_volume(&a, &b));
    let c = volume("ONE", None, &[r"E:\"]);
    assert!(records_represent_same_volume(&a, &c));
    let g1 = volume("x", Some(r"\\?\Volume{AB}\"), &[]);
    let g2 = volume("y", Some(r"\\?\volume{ab}\"), &[]);
    assert!(records_represent_same_volume(&g1, &g2));
}

#[test]
fn merging_pools_mounts_and_sources_and_fills_missing_fields() {
    let mut logical = volume("drive_d:", None, &[r"D:\"]);
    logical.label = String::new();
    logical.discovery_sources = vec!["logical-drive-fallback".into(), "b".into()];
    let mut guid = volume("1111", Some(r"\\?\Volume{1111}\"), &[r"C:\Mounts\Data", r"d:\"]);
    guid.discovery_sources = vec!["volume-guid".into(), "b".into()];
    merge_into(&mut logical, guid, &reachable());
    assert_eq!(logical.volume_id, "1111");
    assert_eq!(logical.volume_guid_path.as_deref(), Some(r"\\?\Volume{1111}\"));
    assert_eq!(logical.label, "Data");
    assert_eq!(logical.discovery_sources, vec!["b", "logical-drive-fallback", "volume-guid"]);
    assert_eq!(logical.mount_paths, vec![r"C:\Mounts\Data", r"D:\"]);
    assert_eq!(logical.drive_letter.as_deref(), Some("D:"));
    assert!(logical.accessible);
}

#[test]
fn guid_paths_yield_their_lowercase_guid() {
    assert_eq!(
        stable_guid_id(r"\\?\Volume{11111111-AAAA-1111-1111-111111111111}\").as_deref(),
        Some("11111111-aaaa-1111-1111-111111111111")
    );
    assert_eq!(stable_guid_id(r"\\?\Volume{}\"), None);
    assert_eq!(stable_guid_id(r"\\?\Volume{abc}"), None);
    assert_eq!(stable_guid_id(r"C:\"), None);
}

#[test]
fn fallback_ids_prefer_serial_then_letter_then_path() {
    assert_eq!(fallback_volume_id(0x1a2b, Some("D:"), r"D:\"), "vol_00001a2b");
    assert_eq!(fallback_volume_id(0, Some("D:"), r"D:\"), "drive_d:");
    assert_eq!(fallback_volume_id(0, None, r"\\Server\Share?"), "path___server_share_");
}
