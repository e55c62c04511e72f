use multi_cursor::auth::{
    auth_keys, auth_rows_to_write, display_name_from_snapshot, email_from_snapshot,
    has_login_tokens, is_auth_key, profile_name_from_members, profile_name_from_snapshot,
    snapshot_from_reads, AuthSnapshot,
};

fn snap(pairs: &[(&str, &str)]) -> AuthSnapshot {
    let mut s = AuthSnapshot::new();
    for (k, v) in pairs {
        s.insert(k.to_string(), v.to_string());
    }
    s
}

#[test]
fn insert_replaces_and_get_finds_latest() {
    let mut s = AuthSnapshot::default();
    assert!(s.get("k").is_none());
    s.insert("k".into(), "1".into());
    s.insert("j".into(), "2".into());
    s.insert("k".into(), "3".into());
    assert_eq!(s.get("k").map(|v| v.as_str()), Some("3"));
    assert_eq!(s.get("j").map(|v| v.as_str()), Some("2"));
}

#[test]
fn email_requires_non_empty_value() {
    assert_eq!(email_from_snapshot(&snap(&[])), None);
    assert_eq!(email_from_snapshot(&snap(&[("cursorAuth/cachedEmail", "")])), None);
    assert_eq!(
        email_from_snapshot(&snap(&[("cursorAuth/cachedEmail", "a@b.c")])),
        Some("a@b.c".to_string())
    );
}

#[test]
fn tokens_require_non_empty_access_token() {
    assert!(!has_login_tokens(&snap(&[])));
    assert!(!has_login_tokens(&snap(&[("cursorAuth/accessToken", "")])));
    assert!(!has_login_tokens(&snap(&[("cursorAuth/refreshToken", "r")])));
    assert!(has_login_tokens(&snap(&[("cursorAuth/accessToken", "t")])));
}

#[test]
fn profile_name_from_json() {
    let p = "cursorAuth/cachedScopedProfile";
    assert_eq!(
        profile_name_from_snapshot(&snap(&[(p, r#"{"displayName":"  Ada L ","name":"x"}"#)])),
        Some("Ada L".to_string())
    );
    assert_eq!(
        profile_name_from_snapshot(&snap(&[(p, r#"{"name":"Bob"}"#)])),
        Some("Bob".to_string())
    );
    assert_eq!(profile_name_from_snapshot(&snap(&[(p, r#"{"displayName":5,"name":"Bob"}"#)])), None);
    assert_eq!(profile_name_from_snapshot(&snap(&[(p, r#"{"displayName":"   "}"#)])), None);
    assert_eq!(profile_name_from_snapshot(&snap(&[(p, "not json")])), None);
    assert_eq!(profile_name_from_snapshot(&snap(&[(p, r#"["displayName"]"#)])), None);
    assert_eq!(profile_name_from_snapshot(&snap(&[])), None);
}

#[test]
fn profile_name_choice() {
    assert_eq!(
        profile_name_from_members(Some(Some(" A ".into())), Some(Some("B".into()))),
        Some("A".to_string())
    );
    assert_eq!(profile_name_from_members(Some(None), Some(Some("B".into()))), None);
    assert_eq!(profile_name_from_members(None, Some(Some("B".into()))), Some("B".to_string()));
    assert_eq!(profile_name_from_members(None, None), None);
}

#[test]
fn display_name_prefers_profile() {
    let p = "cursorAuth/cachedScopedProfile";
    let e = "cursorAuth/cachedEmail";
    assert_eq!(
        display_name_from_snapshot(&snap(&[(p, r#"{"name":"Ada"}"#), (e, "a@x")])),
        Some("Ada".to_string())
    );
    assert_eq!(
        display_name_from_snapshot(&snap(&[(p, "{}"), (e, "a@x")])),
        Some("a@x".to_string())
    );
    assert_eq!(display_name_from_snapshot(&snap(&[])), None);
}

#[test]
fn auth_key_list() {
    let keys = auth_keys();
    assert_eq!(keys.len(), 7);
    assert_eq!(keys[0], "cursorAuth/accessToken");
    assert_eq!(keys[6], "cursorAuth/cachedScopedProfile");
    assert!(is_auth_key("cursorAuth/stripeSubscriptionStatus"));
    assert!(!is_auth_key("workbench.theme"));
}

#[test]
fn write_rows_keep_only_auth_keys_in_key_order() {
    let s = snap(&[
        ("other", "x"),
        ("cursorAuth/cachedEmail", "a@b"),
        ("cursorAuth/accessToken", "t"),
        ("cursorAuth/accessToken", "t2"),
    ]);
    let rows = auth_rows_to_write(&s);
    assert_eq!(
        rows,
        vec![
            ("cursorAuth/accessToken".to_string(), "t2".to_string()),
            ("cursorAuth/cachedEmail".to_string(), "a@b".to_string()),
        ]
    );
    assert!(auth_rows_to_write(&AuthSnapshot::new()).is_empty());
}

#[test]
fn read_back_after_write_round_trip() {
    let s = snap(&[("cursorAuth/accessToken", "t"), ("cursorAuth/cachedEmail", "e"), ("x", "y")]);
    let rows = auth_rows_to_write(&s);
    // Apply the rows to a table that holds other data and a stale auth key.
    let mut table: Vec<(String, String)> = vec![
        ("theme".into(), "dark".into()),
        ("cursorAuth/refreshToken".into(), "stale".into()),
    ];
    table.retain(|(k, _)| !is_auth_key(k));
    for (k, v) in rows {
        table.retain(|(k2, _)| *k2 != k);
        table.push((k, v));
    }
    let values: Vec<Option<String>> = auth_keys()
        .iter()
        .map(|k| table.iter().find(|(k2, _)| k2 == k).map(|(_, v)| v.clone()))
        .collect();
    let back = snapshot_from_reads(values);
    assert_eq!(back.get("cursorAuth/accessToken").map(|v| v.as_str()), Some("t"));
    assert_eq!(back.get("cursorAuth/cachedEmail").map(|v| v.as_str()), Some("e"));
    assert!(back.get("cursorAuth/refreshToken").is_none());
    assert!(back.get("x").is_none());
    assert!(table.iter().any(|(k, v)| k == "theme" && v == "dark"));
}
