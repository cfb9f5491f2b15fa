//! Scenario and boundary tests: the diff engine on concrete trees, the hash
//! thresholds, the collision guard, the walk filter, the governor matrix,
//! and the validation errors.

use nefaxer::config::PackagePaths;
use nefaxer::control::{check_for_cancel, check_for_initial_error_or_skipped_paths, check_for_root, Colors};
use nefaxer::diff::{collect_entry_into_diff, diff_from_entries, wants_paranoid_recheck};
use nefaxer::drive::{
    base_device_name, calculate_workers, channel_cap_for_drive, channel_cap_from_stored_count,
    classify_from_mounts, determine_threads_given_fd_limit, is_network_fs, is_network_mount,
    max_workers_by_fd_limit, network_tuning_from_label, probe_disk_label, rotational_to_drive,
    tuning_for_drive, DriveType, MountClassification, MountInfo, MountKind, WorkerThreadLimits,
};
use nefaxer::hash::{content_digest, hash_action, hash_strategy_for, qualifies_for_hash, HashAction, HashStrategy};
use nefaxer::nefax::{validate_nefax, Nefax, StoredIndex, ValidateErrorKind};
use nefaxer::paths::{create_db_path, entry_path_for, temp_path_for, shm_sidecar_for, wal_sidecar_for};
use nefaxer::types::{Entry, PathMeta};
use nefaxer::walk::{run_walk_loop, walk_step, WalkOutcome, WalkStep};

fn entry(path: &str, mtime_ns: i64, size: u64, hash: Option<[u8; 32]>) -> Entry {
    Entry {
        path: path.to_string(),
        mtime_ns,
        size,
        hash,
    }
}

// --- Fresh tree scenario: two files, no hashing ---

#[test]
fn test_fresh_tree_two_files() {
    let existing = StoredIndex::new();
    let entries = vec![
        entry("a.txt", 1000, 10, None),
        entry("b/c.txt", 2000, 0, None),
    ];
    let (diff, nefax) = diff_from_entries(&entries, &existing, 0);
    assert_eq!(diff.added, vec!["a.txt".to_string(), "b/c.txt".to_string()]);
    assert!(diff.removed.is_empty());
    assert!(diff.modified.is_empty());
    assert_eq!(nefax.len(), 2);
    assert_eq!(
        nefax.get("a.txt"),
        Some(&PathMeta { mtime_ns: 1000, size: 10, hash: None })
    );
    assert_eq!(
        nefax.get("b/c.txt"),
        Some(&PathMeta { mtime_ns: 2000, size: 0, hash: None })
    );
}

// --- Modified bytes, same mtime and size ---

#[test]
fn test_modified_bytes_same_mtime() {
    // The tree from the fresh run, as the stored snapshot.
    let mut existing = StoredIndex::new();
    existing.insert("a.txt".to_string(), (1000, 10, None));
    existing.insert("b/c.txt".to_string(), (2000, 0, None));

    // Without hashing, a byte change that keeps mtime and size is invisible.
    let entries = vec![
        entry("a.txt", 1000, 10, None),
        entry("b/c.txt", 2000, 0, None),
    ];
    let (diff, _) = diff_from_entries(&entries, &existing, 0);
    assert!(diff.added.is_empty());
    assert!(diff.removed.is_empty());
    assert!(diff.modified.is_empty());

    // With hashing (file large enough to qualify), the digest differs and
    // the file is reported modified.
    let mut existing2 = StoredIndex::new();
    existing2.insert("a.txt".to_string(), (1000, 5000, Some(vec![1u8; 32])));
    existing2.insert("b/c.txt".to_string(), (2000, 0, None));
    let entries2 = vec![
        entry("a.txt", 1000, 5000, Some([2u8; 32])),
        entry("b/c.txt", 2000, 0, None),
    ];
    let (diff2, _) = diff_from_entries(&entries2, &existing2, 0);
    assert_eq!(diff2.modified, vec!["a.txt".to_string()]);
    assert!(diff2.added.is_empty());
    assert!(diff2.removed.is_empty());
}

// --- Deleting a file ---

#[test]
fn test_deleted_file_reported_removed() {
    let mut existing = StoredIndex::new();
    existing.insert("a.txt".to_string(), (1000, 10, None));
    existing.insert("b/c.txt".to_string(), (2000, 0, None));
    let entries = vec![entry("b/c.txt", 2000, 0, None)];
    let (diff, nefax) = diff_from_entries(&entries, &existing, 0);
    assert_eq!(diff.removed, vec!["a.txt".to_string()]);
    assert!(diff.added.is_empty());
    assert!(diff.modified.is_empty());
    assert_eq!(nefax.get("a.txt"), None);
}

// --- Diff membership is disjoint across the three lists ---

#[test]
fn test_diff_lists_disjoint() {
    let mut existing = StoredIndex::new();
    existing.insert("keep".to_string(), (1000, 10, None));
    existing.insert("change".to_string(), (1000, 10, None));
    existing.insert("gone".to_string(), (1000, 10, None));
    let entries = vec![
        entry("keep", 1000, 10, None),
        entry("change", 9999, 10, None),
        entry("new", 5, 1, None),
    ];
    let (diff, _) = diff_from_entries(&entries, &existing, 0);
    assert_eq!(diff.added, vec!["new".to_string()]);
    assert_eq!(diff.modified, vec!["change".to_string()]);
    assert_eq!(diff.removed, vec!["gone".to_string()]);
    for a in &diff.added {
        assert!(!diff.modified.contains(a));
        assert!(!diff.removed.contains(a));
    }
    for m in &diff.modified {
        assert!(!diff.removed.contains(m));
    }
}

// --- Idempotence at the library level ---

#[test]
fn test_rerun_unchanged_tree_empty_diff() {
    let existing = StoredIndex::new();
    let entries = vec![
        entry("a.txt", 1000, 10, None),
        entry("b/c.txt", 2000, 0, None),
    ];
    let (_, first) = diff_from_entries(&entries, &existing, 0);
    // Rebuild the stored snapshot from the first run's result.
    let mut stored = StoredIndex::new();
    stored.insert(
        "a.txt".to_string(),
        (1000, 10, None),
    );
    stored.insert("b/c.txt".to_string(), (2000, 0, None));
    let (diff, second) = diff_from_entries(&entries, &stored, 0);
    assert!(diff.added.is_empty());
    assert!(diff.modified.is_empty());
    assert!(diff.removed.is_empty());
    assert_eq!(first.len(), second.len());
}

// --- Hash reuse (no I/O when mtime and size unchanged) ---

#[test]
fn test_hash_reuse_when_unchanged() {
    let mut existing = StoredIndex::new();
    let stored_digest = vec![9u8; 32];
    existing.insert("big.bin".to_string(), (1000, 5000, Some(stored_digest)));
    // Same mtime within the window, same size: the stored digest is reused.
    let e = entry("big.bin", 1040, 5000, None);
    match hash_action(&e, &existing, true, 50) {
        HashAction::Reuse(h) => assert_eq!(h, [9u8; 32]),
        other => panic!("expected reuse, got {:?}", other),
    }
    // Changed size: the file must be re-read.
    let e2 = entry("big.bin", 1000, 6000, None);
    assert_eq!(hash_action(&e2, &existing, true, 50), HashAction::Compute);
    // Hashing off: nothing happens.
    assert_eq!(hash_action(&e, &existing, false, 50), HashAction::Keep);
}

// --- Collision guard (paranoid mode) ---

#[test]
fn test_paranoid_collision_guard() {
    let mut existing = StoredIndex::new();
    existing.insert("f".to_string(), (1000, 6000, Some(vec![9u8; 32])));
    // Size changed but the digest matches: the guard wants a re-hash.
    let e = entry("f", 1000, 5000, Some([9u8; 32]));
    let stored = existing.get("f").unwrap().clone();
    assert!(wants_paranoid_recheck(&e, &stored, true));
    assert!(!wants_paranoid_recheck(&e, &stored, false));

    // Re-hash equal to the stored digest: not reported modified.
    let mut added = Vec::new();
    let mut modified = Vec::new();
    collect_entry_into_diff(&e, &existing, &mut added, &mut modified, 0, true, &Some([9u8; 32]));
    assert!(added.is_empty());
    assert!(modified.is_empty());

    // Re-hash that differs: still modified.
    collect_entry_into_diff(&e, &existing, &mut added, &mut modified, 0, true, &Some([8u8; 32]));
    assert_eq!(modified, vec!["f".to_string()]);

    // Without paranoid mode the same entry is reported modified outright.
    let mut modified2 = Vec::new();
    let mut added2 = Vec::new();
    collect_entry_into_diff(&e, &existing, &mut added2, &mut modified2, 0, false, &None);
    assert_eq!(modified2, vec!["f".to_string()]);
}

// --- Hash engine: digests and thresholds ---

#[test]
fn test_digest_deterministic_and_distinct() {
    let x = vec![1u8, 2, 3, 4];
    let y = vec![1u8, 2, 3, 5];
    let dx1 = content_digest(x.as_slice());
    let dx2 = content_digest(x.as_slice());
    assert!(nefaxer::types::hash_equals(&Some(dx1), &Some(dx2.to_vec())));
    let dy = content_digest(y.as_slice());
    assert!(!nefaxer::types::hash_equals(&Some(dx1), &Some(dy.to_vec())));
}

#[test]
fn test_digest_known_value_of_empty_input() {
    // The digest of the empty byte string, per the hash's published test
    // vectors.
    let expected: [u8; 32] = [
        0xaf, 0x13, 0x49, 0xb9, 0xf5, 0xf9, 0xa1, 0xa6, 0xa0, 0x40, 0x4d, 0xea, 0x36, 0xdc, 0xc9,
        0x49, 0x9b, 0xcb, 0x25, 0xc9, 0xad, 0xc1, 0x12, 0xb7, 0xcc, 0x9a, 0x93, 0xca, 0xe4, 0x1f,
        0x32, 0x62,
    ];
    let empty: Vec<u8> = Vec::new();
    assert_eq!(content_digest(empty.as_slice()), expected);
}

#[test]
fn test_small_file_threshold_is_strict() {
    // Exactly 4 KiB qualifies for hashing; one byte less does not.
    assert!(qualifies_for_hash(4096));
    assert!(!qualifies_for_hash(4095));
    let existing = StoredIndex::new();
    let at_threshold = entry("f", 1, 4096, None);
    assert_eq!(hash_action(&at_threshold, &existing, true, 0), HashAction::Compute);
    let below = entry("f", 1, 4095, None);
    assert_eq!(hash_action(&below, &existing, true, 0), HashAction::Keep);
}

#[test]
fn test_mmap_threshold_is_strict() {
    let hundred_mib: u64 = 100 * 1024 * 1024;
    assert_eq!(hash_strategy_for(hundred_mib + 1), HashStrategy::MemoryMap);
    assert_eq!(hash_strategy_for(hundred_mib), HashStrategy::Buffered);
}

// --- Exclusion scenario ---

#[test]
fn test_exclude_log_files_from_walk() {
    let outcomes = vec![
        WalkOutcome::Found("/root/x.log".to_string()),
        WalkOutcome::Found("/root/y.txt".to_string()),
    ];
    let plan = run_walk_loop(
        &outcomes,
        "/root",
        &None,
        &None,
        &vec!["*.log".to_string()],
        false,
        true,
    );
    assert_eq!(plan.included, vec!["/root/y.txt".to_string()]);
    assert_eq!(plan.count, 1);
    assert!(plan.skipped.is_empty());
    assert_eq!(plan.first_error, None);

    let existing = StoredIndex::new();
    let entries = vec![entry("y.txt", 1, 1, None)];
    let (_, nefax) = diff_from_entries(&entries, &existing, 0);
    assert!(nefax.get("y.txt").is_some());
    assert!(nefax.get("x.log").is_none());
}

// --- Strict mode stops at the first error ---

#[test]
fn test_strict_walk_stops_on_error() {
    let outcomes = vec![
        WalkOutcome::Found("/root/a".to_string()),
        WalkOutcome::Failed {
            msg: "permission denied".to_string(),
            path: Some("/root/locked".to_string()),
        },
        WalkOutcome::Found("/root/b".to_string()),
    ];
    let plan = run_walk_loop(&outcomes, "/root", &None, &None, &vec![], true, true);
    assert_eq!(plan.included, vec!["/root/a".to_string()]);
    assert_eq!(plan.first_error, Some("permission denied".to_string()));
    assert!(plan.skipped.is_empty());
    let r = check_for_initial_error_or_skipped_paths(true, &plan.first_error);
    assert!(r.is_err());
    assert_eq!(r.unwrap_err().message(), "permission denied");
}

#[test]
fn test_non_strict_walk_records_skipped() {
    let outcomes = vec![
        WalkOutcome::Found("/root/a".to_string()),
        WalkOutcome::Failed {
            msg: "timeout".to_string(),
            path: None,
        },
        WalkOutcome::Found("/root/b".to_string()),
    ];
    let plan = run_walk_loop(&outcomes, "/root", &None, &None, &vec![], false, true);
    assert_eq!(
        plan.included,
        vec!["/root/a".to_string(), "/root/b".to_string()]
    );
    assert_eq!(plan.first_error, None);
    assert_eq!(plan.skipped.len(), 1);
    assert_eq!(plan.skipped[0].0, "<no-path, last was /root/a>");
    assert_eq!(plan.skipped[0].1, "timeout");
    assert!(check_for_initial_error_or_skipped_paths(false, &plan.first_error).is_ok());
}

/// The per-outcome step mirrors the loop: emit included paths, skip filtered
/// ones, record pathless errors under the last seen path, stop on strict.
#[test]
fn test_walk_step_per_outcome() {
    let mut last: Option<String> = None;
    let excl = vec!["*.log".to_string()];

    let step = walk_step(
        WalkOutcome::Found("/root/a.txt".to_string()),
        "/root",
        &None,
        &None,
        &excl,
        false,
        true,
        &mut last,
    );
    assert!(matches!(step, WalkStep::Emit(p) if p == "/root/a.txt"));
    assert_eq!(last.as_deref(), Some("/root/a.txt"));

    let step = walk_step(
        WalkOutcome::Found("/root/b.log".to_string()),
        "/root",
        &None,
        &None,
        &excl,
        false,
        true,
        &mut last,
    );
    assert!(matches!(step, WalkStep::Skip));
    assert_eq!(last.as_deref(), Some("/root/b.log"));

    let step = walk_step(
        WalkOutcome::Failed { msg: "timeout".to_string(), path: None },
        "/root",
        &None,
        &None,
        &excl,
        false,
        true,
        &mut last,
    );
    match step {
        WalkStep::Record(sp, m) => {
            assert_eq!(sp, "<no-path, last was /root/b.log>");
            assert_eq!(m, "timeout");
        }
        _ => panic!("expected a recorded skip"),
    }

    let step = walk_step(
        WalkOutcome::Failed { msg: "denied".to_string(), path: Some("/root/l".to_string()) },
        "/root",
        &None,
        &None,
        &excl,
        true,
        true,
        &mut last,
    );
    assert!(matches!(step, WalkStep::Stop(m) if m == "denied"));
}

// --- Cancellation and root checks ---

#[test]
fn test_check_for_cancel() {
    assert!(check_for_cancel(false).is_ok());
    let err = check_for_cancel(true).unwrap_err();
    assert_eq!(
        err.message(),
        "Nefaxing cancelled by user; partial index was flushed"
    );
}

#[test]
fn test_check_for_root() {
    assert!(check_for_root(0).is_err());
    assert!(check_for_root(1000).is_ok());
}

// --- Network probe and governor matrix ---

#[test]
fn test_probe_label_threshold() {
    assert_eq!(probe_disk_label(149), "Network+HDD");
    assert_eq!(probe_disk_label(150), "Network+SSD");
}

#[test]
fn test_network_tuning_matrix() {
    let limits = WorkerThreadLimits::default();
    // Spinning disk behind the mount.
    assert_eq!(calculate_workers(true, 10_001, &limits), 2);
    assert_eq!(calculate_workers(true, 10_000, &limits), 3);
    assert_eq!(calculate_workers(true, 5_001, &limits), 3);
    assert_eq!(calculate_workers(true, 5_000, &limits), 4);
    // Solid state behind the mount.
    assert_eq!(calculate_workers(false, 10_001, &limits), 4);
    assert_eq!(calculate_workers(false, 5_001, &limits), 8);
    assert_eq!(calculate_workers(false, 5_000, &limits), 12);
}

#[test]
fn test_network_tuning_from_cached_label() {
    let limits = WorkerThreadLimits::default();
    let (w, parallel) = network_tuning_from_label("Network+SSD", 3_000, &limits);
    assert_eq!(w, 12);
    assert!(parallel);
    let (w2, parallel2) = network_tuning_from_label("Network+HDD", 11_000, &limits);
    assert_eq!(w2, 2);
    assert!(!parallel2);
}

#[test]
fn test_tuning_for_drive() {
    let limits = WorkerThreadLimits::default();
    assert_eq!(tuning_for_drive(DriveType::SSD, 16, None, &limits), (16, true));
    assert_eq!(tuning_for_drive(DriveType::HDD, 16, None, &limits), (4, false));
    assert_eq!(tuning_for_drive(DriveType::HDD, 2, None, &limits), (2, false));
    assert_eq!(
        tuning_for_drive(DriveType::Network, 16, Some((12, true)), &limits),
        (12, true)
    );
    assert_eq!(
        tuning_for_drive(DriveType::Network, 16, None, &limits),
        (16, false)
    );
    assert_eq!(tuning_for_drive(DriveType::Unknown, 16, None, &limits), (2, false));
}

#[test]
fn test_worker_threads_per_drive() {
    assert_eq!(DriveType::SSD.worker_threads(16), 16);
    assert_eq!(DriveType::HDD.worker_threads(16), 4);
    assert_eq!(DriveType::HDD.worker_threads(2), 2);
    assert_eq!(DriveType::Network.worker_threads(16), 2);
    assert_eq!(DriveType::Unknown.worker_threads(16), 2);
    assert_eq!(DriveType::Unknown.worker_threads(1), 1);
    assert!(DriveType::HDD.is_hdd());
    assert!(DriveType::SSD.is_ssd());
    assert!(DriveType::Network.is_network());
}

#[test]
fn test_from_disk_type_str() {
    assert_eq!(DriveType::from_disk_type_str("Network+HDD"), DriveType::HDD);
    assert_eq!(DriveType::from_disk_type_str("Network+SSD"), DriveType::SSD);
    assert_eq!(DriveType::from_disk_type_str("whatever"), DriveType::Unknown);
}

#[test]
fn test_network_fs_tags() {
    assert!(is_network_fs("nfs4"));
    assert!(is_network_fs("NFS"));
    assert!(is_network_fs("cifs"));
    assert!(is_network_fs("smbfs"));
    assert!(is_network_fs("webdavfs"));
    assert!(!is_network_fs("ext4"));
    assert!(!is_network_fs("apfs"));
    assert!(is_network_mount("\\\\server\\share"));
    assert!(is_network_mount("//server/share"));
    assert!(!is_network_mount("/mnt/disk"));
}

#[test]
fn test_classify_from_mounts_longest_prefix() {
    let mounts = vec![
        MountInfo {
            mount_point: "/".to_string(),
            fs_type: "ext4".to_string(),
            device_name: "/dev/sda1".to_string(),
            kind: MountKind::Hdd,
        },
        MountInfo {
            mount_point: "/mnt/fast".to_string(),
            fs_type: "ext4".to_string(),
            device_name: "/dev/nvme0n1p1".to_string(),
            kind: MountKind::Ssd,
        },
        MountInfo {
            mount_point: "/mnt/share".to_string(),
            fs_type: "nfs4".to_string(),
            device_name: "remote:/share".to_string(),
            kind: MountKind::Other,
        },
    ];
    assert!(matches!(
        classify_from_mounts("/mnt/fast/dir", &mounts),
        MountClassification::Decided(DriveType::SSD)
    ));
    assert!(matches!(
        classify_from_mounts("/mnt/share/dir", &mounts),
        MountClassification::Decided(DriveType::Network)
    ));
    assert!(matches!(
        classify_from_mounts("/home/user", &mounts),
        MountClassification::Decided(DriveType::HDD)
    ));
    assert!(matches!(
        classify_from_mounts("relative/path", &mounts),
        MountClassification::Decided(DriveType::Unknown)
    ));
}

#[test]
fn test_rotational_flag_and_device_base() {
    assert_eq!(rotational_to_drive("1"), DriveType::HDD);
    assert_eq!(rotational_to_drive("0"), DriveType::SSD);
    assert_eq!(base_device_name("sda1"), "sda");
    assert_eq!(base_device_name("sda"), "sda");
    assert_eq!(base_device_name("nvme0n1p1"), "nvme0n1");
    assert_eq!(base_device_name("nvme0n1"), "nvme0n1");
}

#[test]
fn test_fd_limit_caps() {
    assert_eq!(max_workers_by_fd_limit(None), None);
    assert_eq!(max_workers_by_fd_limit(Some(1000)), Some(80));
    assert_eq!(max_workers_by_fd_limit(Some(10)), Some(1));
    assert_eq!(determine_threads_given_fd_limit(16, Some(8)), 8);
    assert_eq!(determine_threads_given_fd_limit(16, Some(32)), 16);
    assert_eq!(determine_threads_given_fd_limit(16, None), 16);
}

#[test]
fn test_channel_caps() {
    assert_eq!(channel_cap_for_drive(DriveType::SSD), 500_000);
    assert_eq!(channel_cap_for_drive(DriveType::HDD), 100_000);
    assert_eq!(channel_cap_for_drive(DriveType::Network), 200_000);
    assert_eq!(channel_cap_for_drive(DriveType::Unknown), 50_000);
    assert_eq!(channel_cap_from_stored_count(5_000), 15_000);
    assert_eq!(channel_cap_from_stored_count(999_999), 1_000_000);
}

// --- Validation ---

#[test]
fn test_validate_nefax_accepts_good_map() {
    let mut nefax = Nefax::new();
    nefax.insert(
        "a/b.txt".to_string(),
        PathMeta { mtime_ns: 1_000, size: 10, hash: Some([1u8; 32]) },
    );
    assert!(validate_nefax(&nefax).is_ok());
}

#[test]
fn test_validate_nefax_rejects_absolute_path() {
    let mut nefax = Nefax::new();
    nefax.insert(
        "/abs".to_string(),
        PathMeta { mtime_ns: 0, size: 0, hash: None },
    );
    let e = validate_nefax(&nefax).unwrap_err();
    assert_eq!(e.kind, ValidateErrorKind::AbsolutePath);
    assert_eq!(e.path, "/abs");
}

#[test]
fn test_validate_nefax_rejects_empty_path() {
    let mut nefax = Nefax::new();
    nefax.insert(String::new(), PathMeta { mtime_ns: 0, size: 0, hash: None });
    let e = validate_nefax(&nefax).unwrap_err();
    assert_eq!(e.kind, ValidateErrorKind::EmptyPath);
}

#[test]
fn test_validate_nefax_rejects_implausible_mtime() {
    let mut nefax = Nefax::new();
    nefax.insert(
        "ok".to_string(),
        PathMeta { mtime_ns: i64::MIN, size: 0, hash: None },
    );
    let e = validate_nefax(&nefax).unwrap_err();
    assert_eq!(e.kind, ValidateErrorKind::MtimeOutOfRange);
}

#[test]
fn test_validate_nefax_rejects_huge_size() {
    let mut nefax = Nefax::new();
    nefax.insert(
        "ok".to_string(),
        PathMeta { mtime_ns: 0, size: u64::MAX, hash: None },
    );
    let e = validate_nefax(&nefax).unwrap_err();
    assert_eq!(e.kind, ValidateErrorKind::SizeTooLarge);
}

// --- Path helpers ---

#[test]
fn test_db_and_temp_paths() {
    assert_eq!(create_db_path("/root", None), "/root/.nefaxer");
    assert_eq!(create_db_path("/root/", None), "/root/.nefaxer");
    assert_eq!(create_db_path("/root", Some("/tmp/index")), "/tmp/index");
    assert_eq!(temp_path_for("/root/.nefaxer"), "/root/.nefaxer.tmp");
    assert_eq!(wal_sidecar_for("/root/.nefaxer.tmp"), "/root/.nefaxer.tmp-wal");
    assert_eq!(shm_sidecar_for("/root/.nefaxer.tmp"), "/root/.nefaxer.tmp-shm");
}

#[test]
fn test_entry_path_for() {
    assert_eq!(entry_path_for("/root/a/b.txt", "/root"), "a/b.txt");
    assert_eq!(entry_path_for("/elsewhere/x", "/root"), "/elsewhere/x");
    assert_eq!(entry_path_for("/root/a\\b", "/root"), "a/b");
}

#[test]
fn test_package_paths() {
    let names = PackagePaths::get();
    assert_eq!(names.pkg_name(), "nefaxer");
    assert_eq!(names.output_filename(), ".nefaxer");
    assert_eq!(names.probe_dir_name(), ".nefaxer_probe");
    assert_eq!(names.results_filename(), "nefaxer.results");
    assert_eq!(
        names.default_exclude_patterns(),
        vec![".nefaxer_probe".to_string(), "nefaxer.results".to_string()]
    );
}

// --- Colors ---

#[test]
fn test_colorize_wraps_with_reset() {
    assert_eq!(
        Colors::colorize(Colors::ADDED, "Added: 3"),
        "\x1b[32mAdded: 3\x1b[0m"
    );
}

// --- Snapshot conversion ---

#[test]
fn test_nefax_to_stored_preserves_rows() {
    let mut nefax = Nefax::new();
    nefax.insert(
        "a".to_string(),
        PathMeta { mtime_ns: 5, size: 7, hash: Some([3u8; 32]) },
    );
    nefax.insert("b".to_string(), PathMeta { mtime_ns: 8, size: 0, hash: None });
    let stored = nefaxer::nefax::nefax_to_stored(&nefax);
    assert_eq!(stored.len(), 2);
    assert_eq!(stored.get("a"), Some(&(5, 7, Some(vec![3u8; 32]))));
    assert_eq!(stored.get("b"), Some(&(8, 0, None)));
    assert_eq!(stored.get("c"), None);
}

// --- The writer-pool partition ---

#[test]
fn test_partition_index_diff_buckets() {
    let existing = {
        let mut m = StoredIndex::new();
        m.insert("gone".to_string(), (1, 1, None));
        m.insert("same".to_string(), (2, 2, None));
        m
    };
    let entries = vec![
        entry("same", 2, 2, None),
        entry("fresh1", 3, 3, None),
        entry("fresh2", 4, 4, None),
    ];
    let (_, current) = diff_from_entries(&entries, &existing, 0);
    let buckets = nefaxer::store::partition_index_diff(&entries, &existing, &current, 3, 0);
    assert_eq!(buckets.len(), 3);
    let all_entries: Vec<String> = buckets
        .iter()
        .flat_map(|b| b.entries.iter().map(|e| e.path.clone()))
        .collect();
    // Each changed entry lands exactly once, in its own bucket.
    let mut sorted = all_entries.clone();
    sorted.sort();
    assert_eq!(sorted, vec!["fresh1".to_string(), "fresh2".to_string()]);
    for (b, work) in buckets.iter().enumerate() {
        for e in &work.entries {
            assert_eq!(nefaxer::store::path_bucket(&e.path, 3), b);
        }
    }
    let all_deletes: Vec<String> = buckets
        .iter()
        .flat_map(|b| b.deletes.iter().cloned())
        .collect();
    assert_eq!(all_deletes, vec!["gone".to_string()]);
}

/// A bucket keeps its entries in the order they were walked, and an entry
/// walked twice lands twice (multiplicity is the input's).
#[test]
fn test_partition_index_diff_order_and_multiplicity() {
    let existing = StoredIndex::new();
    let entries = vec![
        entry("dup", 1, 1, None),
        entry("dup", 2, 2, None),
        entry("solo", 3, 3, None),
    ];
    let (_, current) = diff_from_entries(&entries, &existing, 0);
    let buckets = nefaxer::store::partition_index_diff(&entries, &existing, &current, 1, 0);
    assert_eq!(buckets.len(), 1);
    let paths: Vec<&str> = buckets[0].entries.iter().map(|e| e.path.as_str()).collect();
    assert_eq!(paths, vec!["dup", "dup", "solo"]);
    assert_eq!(buckets[0].entries[0].mtime_ns, 1);
    assert_eq!(buckets[0].entries[1].mtime_ns, 2);
    assert!(buckets[0].deletes.is_empty());
}
