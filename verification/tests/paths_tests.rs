use multi_cursor::about::{credits_text, APP_NAME, REPO_URL};
use multi_cursor::paths::{
    account_snapshot_path, accounts_dir, activation_park_dirs, active_data_dir,
    active_dot_cursor_dir, application_support_dir, config_path, default_cursor_app_path,
    env_data_dir, env_dot_cursor_dir, env_state_db, escape_for_applescript, finder_delete_script,
    inactive_data_dir, inactive_dot_cursor_dir, legacy_park_id, new_id, now_iso, root_dir,
    storage_marker_content, storage_v2_marker, AppConfig,
};

#[test]
fn credits_end_with_repository_url() {
    let c = credits_text();
    assert!(c.ends_with(REPO_URL));
    assert!(c.starts_with("\nSwitch between Cursor accounts and isolated environments.\n\n"));
    assert_eq!(
        c,
        "\nSwitch between Cursor accounts and isolated environments.\n\n© 2026 Cláudio Silva\nhttps://github.com/claudio-silva/multi-cursor"
    );
    assert_eq!(APP_NAME, "Multi Cursor");
}

#[test]
fn layout_under_home() {
    let h = "/Users/ada";
    assert_eq!(root_dir(h), "/Users/ada/.multi-cursor");
    assert_eq!(config_path(h), "/Users/ada/.multi-cursor/config.json");
    assert_eq!(application_support_dir(h), "/Users/ada/Library/Application Support");
    assert_eq!(active_data_dir(h), "/Users/ada/Library/Application Support/Cursor");
    assert_eq!(
        inactive_data_dir(h, "e1"),
        "/Users/ada/Library/Application Support/Cursor.multi-cursor.e1"
    );
    assert_eq!(active_dot_cursor_dir(h), "/Users/ada/.cursor");
    assert_eq!(inactive_dot_cursor_dir(h, "e1"), "/Users/ada/.cursor.multi-cursor.e1");
    assert_eq!(storage_v2_marker(h), "/Users/ada/.multi-cursor/.storage-v2");
    assert_eq!(accounts_dir(h, "e1"), "/Users/ada/.multi-cursor/accounts/e1");
    assert_eq!(
        account_snapshot_path(h, "e1", "a9"),
        "/Users/ada/.multi-cursor/accounts/e1/a9.json"
    );
}

#[test]
fn home_with_trailing_slash_gets_no_double_separator() {
    assert_eq!(root_dir("/Users/ada/"), "/Users/ada/.multi-cursor");
    assert_eq!(root_dir(""), ".multi-cursor");
}

#[test]
fn absolute_component_replaces_base() {
    assert_eq!(accounts_dir("/h", "/etc"), "/etc");
}

#[test]
fn env_dirs_follow_active_environment() {
    let h = "/Users/ada";
    assert_eq!(env_data_dir(h, "e1", Some("e1")), active_data_dir(h));
    assert_eq!(env_data_dir(h, "e1", Some("e2")), inactive_data_dir(h, "e1"));
    assert_eq!(env_data_dir(h, "e1", None), inactive_data_dir(h, "e1"));
    assert_eq!(env_dot_cursor_dir(h, "e1", Some("e1")), active_dot_cursor_dir(h));
    assert_eq!(env_dot_cursor_dir(h, "e1", None), inactive_dot_cursor_dir(h, "e1"));
    assert_eq!(
        env_state_db(h, "e1", Some("e1")),
        "/Users/ada/Library/Application Support/Cursor/User/globalStorage/state.vscdb"
    );
    assert_eq!(
        env_state_db(h, "e2", Some("e1")),
        "/Users/ada/Library/Application Support/Cursor.multi-cursor.e2/User/globalStorage/state.vscdb"
    );
}

#[test]
fn pool_entries_differ_from_live_and_each_other() {
    let h = "/Users/ada";
    assert_ne!(inactive_data_dir(h, "a"), inactive_data_dir(h, "b"));
    assert_ne!(inactive_dot_cursor_dir(h, "a"), inactive_dot_cursor_dir(h, "b"));
    assert_ne!(inactive_data_dir(h, ""), active_data_dir(h));
    assert_ne!(inactive_dot_cursor_dir(h, ""), active_dot_cursor_dir(h));
}

#[test]
fn default_config_is_empty() {
    let cfg = AppConfig::default();
    assert!(cfg.environments.is_empty());
    assert!(cfg.accounts.is_empty());
    assert!(cfg.active.env_id.is_none());
    assert!(cfg.active.account_id.is_none());
    assert_eq!(cfg.cursor_app_path, "/Applications/Cursor.app");
    assert_eq!(default_cursor_app_path(), "/Applications/Cursor.app");
}

fn is_uuid_text(s: &str) -> bool {
    s.chars().count() == 36
        && s.chars().enumerate().all(|(i, c)| {
            if i == 8 || i == 13 || i == 18 || i == 23 {
                c == '-'
            } else {
                c.is_ascii_hexdigit() && !c.is_ascii_uppercase()
            }
        })
}

#[test]
fn new_ids_are_uuid_text() {
    let a = new_id();
    let b = new_id();
    assert!(is_uuid_text(&a));
    assert!(is_uuid_text(&b));
    assert_ne!(a, b);
}

#[test]
fn now_iso_is_rfc3339() {
    let t = now_iso();
    assert!(chrono::DateTime::parse_from_rfc3339(&t).is_ok());
}

#[test]
fn legacy_park_id_shape() {
    let p = legacy_park_id();
    assert_eq!(p.len(), 16);
    assert!(p.starts_with("_pre-v2-"));
    assert!(p[8..].chars().all(|c| c.is_ascii_hexdigit() && !c.is_ascii_uppercase()));
}

#[test]
fn park_dirs_for_previous_environment() {
    let (d, h) = activation_park_dirs("/Users/ada", Some("old"));
    assert_eq!(d, inactive_data_dir("/Users/ada", "old"));
    assert_eq!(h, inactive_dot_cursor_dir("/Users/ada", "old"));
}

#[test]
fn park_dirs_without_previous_environment_use_swap_names() {
    let (d, h) = activation_park_dirs("/Users/ada", None);
    let prefix = "/Users/ada/Library/Application Support/Cursor.multi-cursor.__swap__-";
    assert!(d.starts_with(prefix));
    assert!(is_uuid_text(&d[prefix.len()..]));
    let hprefix = "/Users/ada/.cursor.multi-cursor.__swap__-";
    assert!(h.starts_with(hprefix));
    assert_eq!(&d[prefix.len()..], &h[hprefix.len()..]);
}

#[test]
fn applescript_escaping() {
    assert_eq!(escape_for_applescript(r#"/a\b"c"#), r#"/a\\b\"c"#);
    assert_eq!(escape_for_applescript("plain"), "plain");
    assert_eq!(
        finder_delete_script("/Users/x/My \"dir\""),
        "tell application \"Finder\" to delete (POSIX file \"/Users/x/My \\\"dir\\\"\" as alias)"
    );
}

#[test]
fn marker_content_is_the_storage_version() {
    assert_eq!(storage_marker_content(), "2\n");
}
