use a2fa_daemon::log_rotation::{
    daemon_log, prune_old_rotations, rotate_daemon_log, rotate_log_if_huge, DEFAULT_MAX_BYTES,
    KEEP_ROTATIONS,
};

#[test]
fn small_file_is_left_untouched() {
    let r = rotate_log_if_huge("/tmp/a2fa_log_rotation_small.log", Some(10), 1024 * 1024, 1);
    assert_eq!(r, None, "no .gz file should be created for a small log");
}

#[test]
fn large_file_is_rotated() {
    let r = rotate_log_if_huge("/tmp/a2fa_log_rotation_large.log", Some(11), 10, 1_700_000_000);
    assert_eq!(r.as_deref(), Some("/tmp/a2fa_log_rotation_large.log.1700000000.gz"));
}

#[test]
fn prune_keeps_only_newest_archives() {
    let mut files: Vec<String> = vec![];
    for secs in [600u64, 100, 300, 200, 500, 400] {
        files.push(format!("a2fa_log_prune_test.log.{secs}.gz"));
    }
    files.push("unrelated.gz".into());
    files.push("a2fa_log_prune_test.log".into());
    let mut gone = prune_old_rotations("/tmp/a2fa_log_prune_test.log", &files, 3);
    gone.sort();
    assert_eq!(
        gone,
        vec![
            "a2fa_log_prune_test.log.100.gz".to_string(),
            "a2fa_log_prune_test.log.200.gz".to_string(),
            "a2fa_log_prune_test.log.300.gz".to_string(),
        ]
    );
    assert!(prune_old_rotations("/tmp/a2fa_log_prune_test.log", &gone, KEEP_ROTATIONS).is_empty());
}

#[test]
fn missing_file_does_not_panic() {
    assert_eq!(rotate_log_if_huge("/tmp/a2fa_log_rotation_nonexistent_zzz.log", None, 10, 1), None);
}

#[test]
fn the_daemon_log_is_rotated_at_ten_mebibytes() {
    assert_eq!(DEFAULT_MAX_BYTES, 10 * 1024 * 1024);
    assert_eq!(rotate_daemon_log(Some(DEFAULT_MAX_BYTES - 1), 5), None);
    assert_eq!(rotate_daemon_log(Some(DEFAULT_MAX_BYTES), 5), Some(format!("{}.5.gz", daemon_log())));
}
