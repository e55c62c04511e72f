use std::collections::HashMap;

use multi_cursor::copy_progress::{nothing_to_copy_error, source_missing_error};
use multi_cursor::folders::{
    activation_plan, global_storage_dir, legacy_migration_plan, pool_entry_plan, rename_blocked_error,
    FsStep,
};
use multi_cursor::paths::{account_snapshot_path, legacy_env_dir};

const HOME: &str = "/Users/me";
const SUPPORT: &str = "/Users/me/Library/Application Support";

fn s(x: &str) -> String {
    x.to_string()
}

fn park_of(env: &str) -> (String, String) {
    (
        format!("{SUPPORT}/Cursor.multi-cursor.{env}"),
        format!("{HOME}/.cursor.multi-cursor.{env}"),
    )
}

/// Performs steps on a map from path to contents, as the folders would move.
fn perform(fs: &mut HashMap<String, String>, steps: &[FsStep]) -> Result<(), String> {
    for step in steps {
        match step {
            FsStep::Rename(a, b) => {
                if fs.contains_key(b) {
                    return Err(format!("{b} taken"));
                }
                let v = fs.remove(a).ok_or_else(|| format!("{a} missing"))?;
                fs.insert(b.clone(), v);
            }
            FsStep::MakeDirs(p) => {
                fs.entry(p.clone()).or_insert_with(String::new);
            }
            FsStep::Trash(p) => {
                fs.remove(p);
            }
            FsStep::WriteMarker(p) => {
                fs.insert(p.clone(), s("2"));
            }
            FsStep::Copy(a, b) => {
                let v = fs.get(a).cloned().ok_or_else(|| format!("{a} missing"))?;
                fs.insert(b.clone(), v);
            }
        }
    }
    Ok(())
}

#[test]
fn activation_to_the_active_environment_does_nothing() {
    let r = activation_plan(HOME, Some("a"), "a", park_of("a"), false, false, true, true, true, true);
    assert_eq!(r, Ok(vec![]));
}

#[test]
fn activation_refuses_a_missing_data_folder_first() {
    let r = activation_plan(HOME, Some("a"), "b", park_of("a"), false, false, true, true, true, true);
    assert_eq!(
        r,
        Err(format!("Environment data folder missing: {SUPPORT}/Cursor.multi-cursor.b"))
    );
}

#[test]
fn activation_refuses_a_missing_dot_folder() {
    let r = activation_plan(HOME, Some("a"), "b", park_of("a"), true, false, true, true, true, true);
    assert_eq!(
        r,
        Err(format!("Environment ~/.cursor folder missing: {HOME}/.cursor.multi-cursor.b"))
    );
}

#[test]
fn activation_refuses_a_taken_parking_data_folder() {
    let r = activation_plan(HOME, Some("a"), "b", park_of("a"), true, true, true, true, true, true);
    assert_eq!(
        r,
        Err(format!(
            "Inactive data folder already exists for active env: {SUPPORT}/Cursor.multi-cursor.a"
        ))
    );
}

#[test]
fn activation_refuses_a_taken_parking_dot_folder() {
    let r = activation_plan(HOME, Some("a"), "b", park_of("a"), true, true, false, true, true, true);
    assert_eq!(
        r,
        Err(format!(
            "Inactive ~/.cursor folder already exists for active env: {HOME}/.cursor.multi-cursor.a"
        ))
    );
}

#[test]
fn activation_swaps_the_live_folders_with_the_pool() {
    let (pd, pt) = park_of("a");
    let r = activation_plan(HOME, Some("a"), "b", (pd.clone(), pt.clone()), true, true, false, false, true, true);
    assert_eq!(
        r,
        Ok(vec![
            FsStep::Rename(format!("{SUPPORT}/Cursor"), pd.clone()),
            FsStep::Rename(format!("{HOME}/.cursor"), pt.clone()),
            FsStep::Rename(format!("{SUPPORT}/Cursor.multi-cursor.b"), format!("{SUPPORT}/Cursor")),
            FsStep::Rename(format!("{HOME}/.cursor.multi-cursor.b"), format!("{HOME}/.cursor")),
        ])
    );
}

#[test]
fn activation_creates_parking_folders_when_live_ones_are_missing() {
    let (pd, pt) = park_of("a");
    let r = activation_plan(HOME, Some("a"), "b", (pd.clone(), pt.clone()), true, true, false, false, false, false);
    assert_eq!(
        r,
        Ok(vec![
            FsStep::MakeDirs(pd.clone()),
            FsStep::MakeDirs(format!("{pd}/User/globalStorage")),
            FsStep::MakeDirs(pt.clone()),
            FsStep::Rename(format!("{SUPPORT}/Cursor.multi-cursor.b"), format!("{SUPPORT}/Cursor")),
            FsStep::Rename(format!("{HOME}/.cursor.multi-cursor.b"), format!("{HOME}/.cursor")),
        ])
    );
}

#[test]
fn activation_without_an_active_environment_skips_the_parking_checks() {
    let park = (format!("{SUPPORT}/Cursor.multi-cursor.__swap__-x"), format!("{HOME}/.cursor.multi-cursor.__swap__-x"));
    let r = activation_plan(HOME, None, "b", park.clone(), true, true, true, true, true, false);
    assert_eq!(
        r,
        Ok(vec![
            FsStep::Rename(format!("{SUPPORT}/Cursor"), park.0.clone()),
            FsStep::MakeDirs(park.1.clone()),
            FsStep::Rename(format!("{SUPPORT}/Cursor.multi-cursor.b"), format!("{SUPPORT}/Cursor")),
            FsStep::Rename(format!("{HOME}/.cursor.multi-cursor.b"), format!("{HOME}/.cursor")),
        ])
    );
}

#[test]
fn performing_an_activation_moves_contents_as_promised() {
    let mut fs: HashMap<String, String> = HashMap::new();
    fs.insert(format!("{SUPPORT}/Cursor"), s("live data of a"));
    fs.insert(format!("{HOME}/.cursor"), s("live dot of a"));
    fs.insert(format!("{SUPPORT}/Cursor.multi-cursor.b"), s("data of b"));
    fs.insert(format!("{HOME}/.cursor.multi-cursor.b"), s("dot of b"));
    let (pd, pt) = park_of("a");
    let steps = activation_plan(HOME, Some("a"), "b", (pd.clone(), pt.clone()), true, true, false, false, true, true).unwrap();
    perform(&mut fs, &steps).unwrap();
    assert_eq!(fs[&format!("{SUPPORT}/Cursor")], "data of b");
    assert_eq!(fs[&format!("{HOME}/.cursor")], "dot of b");
    assert_eq!(fs[&pd], "live data of a");
    assert_eq!(fs[&pt], "live dot of a");
    assert!(!fs.contains_key(&format!("{SUPPORT}/Cursor.multi-cursor.b")));
    assert_eq!(fs.len(), 4);
}

#[test]
fn global_storage_is_below_user() {
    assert_eq!(global_storage_dir("/x/Cursor"), "/x/Cursor/User/globalStorage");
}

#[test]
fn legacy_folder_sits_under_environments() {
    assert_eq!(legacy_env_dir(HOME, "e1"), "/Users/me/.multi-cursor/environments/e1");
}

#[test]
fn migration_does_nothing_once_marked() {
    let r = legacy_migration_plan(HOME, true, Some("e1"), true, true, true, false, false, true, true, "_pre-v2-abcdef12");
    assert_eq!(r, vec![]);
}

#[test]
fn migration_without_a_legacy_folder_only_marks() {
    let r = legacy_migration_plan(HOME, false, Some("e1"), false, true, true, false, false, false, false, "_pre-v2-abcdef12");
    assert_eq!(r, vec![FsStep::WriteMarker(s("/Users/me/.multi-cursor/.storage-v2"))]);
    let r = legacy_migration_plan(HOME, false, None, true, true, true, false, false, false, false, "_pre-v2-abcdef12");
    assert_eq!(r, vec![FsStep::WriteMarker(s("/Users/me/.multi-cursor/.storage-v2"))]);
}

#[test]
fn migration_parks_live_folders_and_moves_extensions() {
    let r = legacy_migration_plan(HOME, false, Some("e1"), true, true, true, false, false, true, true, "_pre-v2-abcdef12");
    assert_eq!(
        r,
        vec![
            FsStep::Rename(format!("{SUPPORT}/Cursor"), format!("{SUPPORT}/Cursor.multi-cursor._pre-v2-abcdef12")),
            FsStep::Rename(format!("{HOME}/.cursor"), format!("{HOME}/.cursor.multi-cursor._pre-v2-abcdef12")),
            FsStep::Rename(s("/Users/me/.multi-cursor/environments/e1"), format!("{SUPPORT}/Cursor")),
            FsStep::MakeDirs(format!("{HOME}/.cursor")),
            FsStep::Rename(format!("{SUPPORT}/Cursor/extensions"), format!("{HOME}/.cursor/extensions")),
            FsStep::WriteMarker(s("/Users/me/.multi-cursor/.storage-v2")),
        ]
    );
}

#[test]
fn migration_trashes_extensions_left_in_an_unparked_dot_folder() {
    let r = legacy_migration_plan(HOME, false, Some("e1"), true, false, true, false, true, true, true, "_pre-v2-abcdef12");
    assert_eq!(
        r,
        vec![
            FsStep::Rename(s("/Users/me/.multi-cursor/environments/e1"), format!("{SUPPORT}/Cursor")),
            FsStep::MakeDirs(format!("{HOME}/.cursor")),
            FsStep::Trash(format!("{HOME}/.cursor/extensions")),
            FsStep::Rename(format!("{SUPPORT}/Cursor/extensions"), format!("{HOME}/.cursor/extensions")),
            FsStep::WriteMarker(s("/Users/me/.multi-cursor/.storage-v2")),
        ]
    );
}

#[test]
fn performing_the_migration_twice_changes_nothing_more() {
    let mut fs: HashMap<String, String> = HashMap::new();
    fs.insert(s("/Users/me/.multi-cursor/environments/e1"), s("legacy"));
    let first = legacy_migration_plan(HOME, false, Some("e1"), true, false, false, false, false, false, false, "_pre-v2-abcdef12");
    perform(&mut fs, &first).unwrap();
    assert_eq!(fs[&format!("{SUPPORT}/Cursor")], "legacy");
    let marker = fs.contains_key("/Users/me/.multi-cursor/.storage-v2");
    assert!(marker);
    let second = legacy_migration_plan(HOME, marker, Some("e1"), false, true, true, false, false, false, false, "_pre-v2-00000000");
    assert!(second.is_empty());
}

#[test]
fn rename_into_a_taken_name_is_refused() {
    assert_eq!(rename_blocked_error(false, "/a", "/b"), None);
    assert_eq!(
        rename_blocked_error(true, "/a", "/b"),
        Some(s("Cannot rename /a → /b (destination exists)"))
    );
}

#[test]
fn copy_sources_must_exist() {
    assert_eq!(source_missing_error(true, "/src"), None);
    assert_eq!(source_missing_error(false, "/src"), Some(s("Source does not exist: /src")));
    assert_eq!(nothing_to_copy_error(true, "/src"), None);
    assert_eq!(nothing_to_copy_error(false, "/src"), Some(s("Nothing to copy: /src does not exist")));
}

#[test]
fn snapshot_paths_of_different_pairs_differ() {
    let a = account_snapshot_path(HOME, "e1", "acc");
    let b = account_snapshot_path(HOME, "e1", "acd");
    let c = account_snapshot_path(HOME, "e2", "acc");
    assert_ne!(a, b);
    assert_ne!(a, c);
    assert_eq!(a, "/Users/me/.multi-cursor/accounts/e1/acc.json");
}

#[test]
fn pool_entry_of_the_active_environment_only_gets_its_login_folder() {
    let r = pool_entry_plan(HOME, "e1", true, false, false, true, true);
    assert_eq!(r, vec![FsStep::MakeDirs(s("/Users/me/.multi-cursor/accounts/e1"))]);
    let r = pool_entry_plan(HOME, "e1", false, true, true, true, true);
    assert_eq!(r, vec![FsStep::MakeDirs(s("/Users/me/.multi-cursor/accounts/e1"))]);
}

#[test]
fn pool_entry_is_copied_from_a_legacy_folder() {
    let r = pool_entry_plan(HOME, "e1", false, false, false, true, true);
    assert_eq!(
        r,
        vec![
            FsStep::MakeDirs(s("/Users/me/.multi-cursor/accounts/e1")),
            FsStep::Copy(s("/Users/me/.multi-cursor/environments/e1"), format!("{SUPPORT}/Cursor.multi-cursor.e1")),
            FsStep::MakeDirs(format!("{HOME}/.cursor.multi-cursor.e1")),
            FsStep::Copy(
                s("/Users/me/.multi-cursor/environments/e1/extensions"),
                format!("{HOME}/.cursor.multi-cursor.e1/extensions")
            ),
        ]
    );
}

#[test]
fn pool_entry_without_legacy_folder_is_made_empty() {
    let r = pool_entry_plan(HOME, "e1", false, false, true, false, false);
    assert_eq!(
        r,
        vec![
            FsStep::MakeDirs(s("/Users/me/.multi-cursor/accounts/e1")),
            FsStep::MakeDirs(format!("{SUPPORT}/Cursor.multi-cursor.e1/User/globalStorage")),
            FsStep::MakeDirs(format!("{HOME}/.cursor.multi-cursor.e1")),
            FsStep::MakeDirs(s("/Users/me/.multi-cursor/accounts/e1")),
        ]
    );
}

#[test]
fn performing_a_pool_entry_plan_keeps_everything_and_fills_the_pool() {
    let mut fs: HashMap<String, String> = HashMap::new();
    fs.insert(s("/Users/me/.multi-cursor/environments/e1"), s("legacy"));
    fs.insert(format!("{HOME}/.cursor.multi-cursor.e1"), s("dot"));
    let steps = pool_entry_plan(HOME, "e1", false, false, true, true, false);
    perform(&mut fs, &steps).unwrap();
    assert_eq!(fs[&format!("{SUPPORT}/Cursor.multi-cursor.e1")], "legacy");
    assert_eq!(fs[&format!("{HOME}/.cursor.multi-cursor.e1")], "dot");
    assert_eq!(fs[&s("/Users/me/.multi-cursor/environments/e1")], "legacy");
    assert!(fs.contains_key("/Users/me/.multi-cursor/accounts/e1"));
}

#[test]
fn switching_back_restores_every_folder() {
    let mut fs: HashMap<String, String> = HashMap::new();
    fs.insert(format!("{SUPPORT}/Cursor"), s("data of a"));
    fs.insert(format!("{HOME}/.cursor"), s("dot of a"));
    fs.insert(format!("{SUPPORT}/Cursor.multi-cursor.b"), s("data of b"));
    fs.insert(format!("{HOME}/.cursor.multi-cursor.b"), s("dot of b"));
    let before = fs.clone();
    let there = activation_plan(HOME, Some("a"), "b", park_of("a"), true, true, false, false, true, true).unwrap();
    perform(&mut fs, &there).unwrap();
    let back = activation_plan(HOME, Some("b"), "a", park_of("b"), true, true, false, false, true, true).unwrap();
    perform(&mut fs, &back).unwrap();
    assert_eq!(fs, before);
}
