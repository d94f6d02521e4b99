use nucleus::backup::{backup_kind_of, wants_full, BackupKind, BackupManager, BackupRecord};
use nucleus::error::NucleusError;

fn full(id: &str) -> BackupRecord {
    BackupRecord {
        id: id.to_string(),
        kind: BackupKind::Full,
        created_at: 0,
        parent: None,
        file: format!("{id}.redb"),
        bytes: 1,
    }
}

fn diff(id: &str, parent: &str) -> BackupRecord {
    BackupRecord {
        id: id.to_string(),
        kind: BackupKind::Differential,
        created_at: 0,
        parent: Some(parent.to_string()),
        file: format!("{id}.patch"),
        bytes: 1,
    }
}

#[test]
fn ids_and_file_names() {
    assert_eq!(BackupManager::backup_id(0, BackupKind::Full), "1970-01-01_00-00-00-000-full");
    assert_eq!(
        BackupManager::backup_id(1_782_000_000_042, BackupKind::Differential),
        "2026-06-21_00-00-00-042-diff"
    );
    assert_eq!(BackupManager::backup_id(-1, BackupKind::Full), "1969-12-31_23-59-59-999-full");
    assert_eq!(BackupManager::backup_file("x-full", BackupKind::Full), "x-full.redb");
    assert_eq!(BackupManager::backup_file("x-diff", BackupKind::Differential), "x-diff.patch");
    let r = BackupManager::full_record(0, 77);
    assert_eq!(r.file, "1970-01-01_00-00-00-000-full.redb");
    assert_eq!(r.bytes, 77);
    assert!(r.parent.is_none());
    let d = BackupManager::differential_record(1000, &r.id, 5);
    assert_eq!(d.parent.as_deref(), Some("1970-01-01_00-00-00-000-full"));
    assert_eq!(d.id, "1970-01-01_00-00-01-000-diff");
}

#[test]
fn prune_keeps_newest_fulls_and_their_differentials() {
    let recs = vec![full("a"), diff("a1", "a"), full("b"), diff("b1", "b"), full("c"), diff("c1", "c")];
    let (kept, removed) = BackupManager::prune_plan(&recs, 1);
    let ids: Vec<&str> = kept.iter().map(|r| r.id.as_str()).collect();
    assert_eq!(ids, vec!["c", "c1"]);
    assert_eq!(removed, vec!["a.redb", "a1.patch", "b.redb", "b1.patch"]);

    let (kept, removed) = BackupManager::prune_plan(&recs, 3);
    assert_eq!(kept.len(), 6);
    assert!(removed.is_empty());

    let (kept, removed) = BackupManager::prune_plan(&recs, 0);
    assert!(kept.is_empty());
    assert_eq!(removed.len(), 6);
}

#[test]
fn differential_base_is_latest_full() {
    let recs = vec![full("a"), diff("a1", "a"), full("b"), diff("b1", "b")];
    assert_eq!(BackupManager::differential_base(&recs).unwrap(), 2);
    let none = vec![diff("x", "y")];
    assert!(matches!(
        BackupManager::differential_base(&none),
        Err(NucleusError::InvalidRequest(m)) if m == "no full backup to diff against; take a full first"
    ));
}

#[test]
fn restore_plans() {
    let mut orphan = diff("o", "gone");
    orphan.parent = None;
    let recs = vec![full("a"), diff("a1", "a"), diff("z1", "gone"), orphan];
    assert_eq!(BackupManager::restore_plan(&recs, "a").unwrap(), (0, None));
    assert_eq!(BackupManager::restore_plan(&recs, "a1").unwrap(), (1, Some(0)));
    assert!(matches!(
        BackupManager::restore_plan(&recs, "nope"),
        Err(NucleusError::InvalidRequest(m)) if m == "unknown backup: nope"
    ));
    assert!(matches!(
        BackupManager::restore_plan(&recs, "z1"),
        Err(NucleusError::InvalidRequest(m)) if m == "parent full is missing from catalog"
    ));
    assert!(matches!(
        BackupManager::restore_plan(&recs, "o"),
        Err(NucleusError::InvalidRequest(m)) if m == "differential has no parent full"
    ));
}

#[test]
fn differential_roundtrip_restores_current_bytes() {
    let full_bytes: Vec<u8> = (0..4000u32).map(|i| (i % 251) as u8).collect();
    let mut current = full_bytes.clone();
    current[100] = 7;
    current.truncate(3500);
    current.extend_from_slice(b"new tail");
    let patch = BackupManager::make_differential(&full_bytes, &current).unwrap();
    assert_eq!(BackupManager::apply_differential(&full_bytes, &patch).unwrap(), current);
}

#[test]
fn garbage_patch_is_rejected() {
    assert!(matches!(
        BackupManager::apply_differential(b"abc", b"not a patch"),
        Err(NucleusError::InvalidRequest(_))
    ));
    let mut header = b"BSDIFF40".to_vec();
    header.extend_from_slice(&[0xff; 24]);
    assert!(BackupManager::apply_differential(b"abc", &header).is_err());
}

#[test]
fn requested_kinds() {
    assert_eq!(backup_kind_of(None).unwrap(), BackupKind::Full);
    assert_eq!(backup_kind_of(Some("full")).unwrap(), BackupKind::Full);
    assert_eq!(backup_kind_of(Some("diff")).unwrap(), BackupKind::Differential);
    assert_eq!(backup_kind_of(Some("differential")).unwrap(), BackupKind::Differential);
    assert!(matches!(
        backup_kind_of(Some("weekly")),
        Err(NucleusError::InvalidRequest(m)) if m == "unknown backup kind: weekly"
    ));
}

#[test]
fn schedule_cadence() {
    assert!(wants_full(1, 7));
    assert!(!wants_full(2, 7));
    assert!(wants_full(8, 7));
    assert!(wants_full(5, 1));
    assert!(wants_full(5, 0));
}

#[test]
fn manager_keeps_its_directory() {
    let m = BackupManager::new("/var/backups/nucleus".to_string());
    assert_eq!(m.dir(), "/var/backups/nucleus");
}
