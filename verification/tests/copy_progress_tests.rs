use multi_cursor::copy_progress::{
    copy_error_from_lower, counting_label, folder_error_from_lower, trash_progress_total,
    trash_stages, TrashStage,
    copied_too_small_error, copy_ticker_percent, create_folder_error, delete_progress_percent,
    du_output_bytes, files_label, friendly_copy_error, is_excluded_dir_name,
    is_excluded_file_name, is_vscdb_backup_name, map_into_range, min_copied_bytes,
    nearly_empty_source_error, no_files_error, progress_event, saturating_mul, should_skip_entry,
    trash_slice, trash_ticker_percent,
};

#[test]
fn map_into_range_examples() {
    assert_eq!(map_into_range(0, 0, 50), 0);
    assert_eq!(map_into_range(50, 0, 50), 25);
    assert_eq!(map_into_range(100, 50, 100), 100);
    assert_eq!(map_into_range(200, 50, 100), 100);
    assert_eq!(map_into_range(33, 10, 20), 13);
    assert_eq!(map_into_range(50, 60, 40), 60);
    assert_eq!(map_into_range(100, 200, 250), 200);
    assert_eq!(map_into_range(100, 255, 0), 255);
}

#[test]
fn progress_event_caps_percent() {
    assert_eq!(progress_event(150, "x".into()).percent, 100);
    let e = progress_event(42, "lbl".into());
    assert_eq!(e.percent, 42);
    assert_eq!(e.label, "lbl");
}

#[test]
fn friendly_errors() {
    assert_eq!(
        friendly_copy_error("whatever", Some(28), "/p"),
        "Not enough disk space to copy the environment. Free some space and try again."
    );
    assert_eq!(
        friendly_copy_error("No Space left on device", None, "/p"),
        "Not enough disk space to copy the environment. Free some space and try again."
    );
    assert_eq!(
        friendly_copy_error("Permission Denied (os error 13)", Some(13), "/a/b"),
        "Permission denied while copying /a/b: check folder permissions and try again."
    );
    assert_eq!(friendly_copy_error("boom", None, "/a"), "Copy failed at /a: boom");
}

#[test]
fn create_folder_errors() {
    assert_eq!(
        create_folder_error("NO SPACE", None),
        "Not enough disk space to create the environment folder."
    );
    assert_eq!(create_folder_error("denied", Some(13)), "denied");
}

#[test]
fn excluded_names() {
    for n in ["Cache", "CachedData", "Code Cache", "GPUCache", "DawnCache", "DawnWebGPUCache",
        "DawnGraphiteCache", "ShaderCache", "logs", "Crashpad"] {
        assert!(is_excluded_dir_name(n));
    }
    assert!(!is_excluded_dir_name("cache"));
    assert!(!is_excluded_dir_name("User"));
    assert!(is_excluded_file_name("state.vscdb.backup"));
    assert!(is_excluded_file_name("state.vscdb.bak-123"));
    assert!(is_excluded_file_name("x.bak-1"));
    assert!(!is_excluded_file_name("state.vscdb"));
}

#[test]
fn skip_rules() {
    assert!(should_skip_entry(Some("Cache"), Some("x"), true));
    assert!(!should_skip_entry(Some("Cache"), Some("x"), false));
    assert!(should_skip_entry(Some("CacheStorage"), Some("Service Worker"), true));
    assert!(!should_skip_entry(Some("CacheStorage"), Some("Other"), true));
    assert!(!should_skip_entry(Some("CacheStorage"), None, true));
    assert!(should_skip_entry(Some("a.bak-2"), None, false));
    assert!(!should_skip_entry(None, None, true));
}

#[test]
fn du_parsing() {
    assert_eq!(du_output_bytes("1234\t/Users/x\n"), 1234 * 1024);
    assert_eq!(du_output_bytes("  \n 7 /p"), 7 * 1024);
    assert_eq!(du_output_bytes(""), 0);
    assert_eq!(du_output_bytes("du: cannot access"), 0);
    assert_eq!(du_output_bytes("18446744073709551615 /p"), u64::MAX);
}

#[test]
fn saturating_multiplication() {
    assert_eq!(saturating_mul(3, 4), 12);
    assert_eq!(saturating_mul(u64::MAX, 2), u64::MAX);
}

#[test]
fn labels_and_copy_checks() {
    assert_eq!(files_label("Copying", 3, 10), "Copying (3 / 10 files)");
    assert_eq!(
        nearly_empty_source_error(99_999, "/src"),
        Some("Source looks nearly empty (99999 bytes): /src. Nothing useful to copy.".to_string())
    );
    assert_eq!(nearly_empty_source_error(100_000, "/src"), None);
    assert_eq!(
        no_files_error(0, "/s"),
        Some("No files to copy from /s (everything excluded or empty).".to_string())
    );
    assert_eq!(no_files_error(1, "/s"), None);
    assert_eq!(min_copied_bytes(500_000), 500_000);
    assert_eq!(min_copied_bytes(10_000_000), 1_000_000);
    assert_eq!(min_copied_bytes(200_000_000), 4_000_000);
    assert_eq!(
        copied_too_small_error(10, 500_000),
        Some("Copy finished but destination is too small (10 bytes vs source 500000). Try again.".to_string())
    );
    assert_eq!(copied_too_small_error(1_000_000, 10_000_000), None);
}

#[test]
fn progress_percentages() {
    assert_eq!(delete_progress_percent(5, 0), 100);
    assert_eq!(delete_progress_percent(1, 4), 25);
    assert_eq!(delete_progress_percent(10, 10), 99);
    assert_eq!(copy_ticker_percent(5, 10, 0, 50), 25);
    assert_eq!(copy_ticker_percent(10, 10, 50, 100), 99);
    assert_eq!(trash_slice(0, 5, 10), (0, 50));
    assert_eq!(trash_slice(5, 5, 10), (50, 99));
    assert_eq!(trash_ticker_percent(1, 0, 50), 11);
    assert_eq!(trash_ticker_percent(0, 10, 10), 10);
}

#[test]
fn vscdb_backups() {
    assert!(is_vscdb_backup_name("state.vscdb.bak-1"));
    assert!(is_vscdb_backup_name("state.vscdb.backup"));
    assert!(!is_vscdb_backup_name("state.vscdb"));
}

#[test]
fn progress_never_goes_back_as_files_finish() {
    let mut last_copy = 0u8;
    let mut last_delete = 0u8;
    for done in 0..=40u64 {
        let c = copy_ticker_percent(done, 37, 10, 90);
        let d = delete_progress_percent(done, 37);
        assert!(c >= last_copy);
        assert!(d >= last_delete);
        last_copy = c;
        last_delete = d;
    }
    assert_eq!(last_delete, 99);
}

#[test]
fn messages_from_lower_cased_text() {
    assert_eq!(
        copy_error_from_lower("No Space left", "no space left", None, "/p"),
        "Not enough disk space to copy the environment. Free some space and try again."
    );
    assert_eq!(
        copy_error_from_lower("Denied", "permission denied", None, "/p"),
        "Permission denied while copying /p: check folder permissions and try again."
    );
    assert_eq!(copy_error_from_lower("Boom", "boom", Some(5), "/p"), "Copy failed at /p: Boom");
    assert_eq!(
        folder_error_from_lower("x", "x", Some(28)),
        "Not enough disk space to create the environment folder."
    );
    assert_eq!(folder_error_from_lower("Oops", "oops", None), "Oops");
    assert_eq!(counting_label("Copying"), "Copying (counting files…)");
}

#[test]
fn trash_stages_split_the_bar_by_file_counts() {
    assert_eq!(trash_progress_total(0), 1);
    assert_eq!(trash_progress_total(7), 7);
    let stages = trash_stages(&vec![Some(30), None, Some(0), Some(70)], 100);
    assert_eq!(
        stages,
        vec![
            Some(TrashStage { done_before: 0, slice_start: 0, slice_end: 30, done_after: 30 }),
            None,
            Some(TrashStage { done_before: 30, slice_start: 30, slice_end: 31, done_after: 30 }),
            Some(TrashStage { done_before: 30, slice_start: 30, slice_end: 99, done_after: 100 }),
        ]
    );
    let empty = trash_stages(&vec![Some(0), Some(0)], 0);
    assert_eq!(
        empty,
        vec![
            Some(TrashStage { done_before: 0, slice_start: 0, slice_end: 99, done_after: 0 }),
            Some(TrashStage { done_before: 0, slice_start: 0, slice_end: 99, done_after: 0 }),
        ]
    );
}
