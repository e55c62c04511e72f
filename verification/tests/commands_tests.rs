use multi_cursor::auth::AuthSnapshot;
use multi_cursor::commands::{
    account_needs_identity, account_to_save, active_env_id, add_captured_account,
    add_pending_account, apply_captured_identity, bootstrap_default_environment,
    capture_candidates, capture_signed_in_login, check_new_environment_name, clear_active_account,
    copy_environment_check, create_account_check, create_environment, delete_account_check,
    delete_environment_check, delete_environment_paths, environment_exists, find_account_in,
    heal_account_identity, is_orphan_pool_entry, launch_check, list_state_result,
    live_login_adoption_env, mark_account_active, mark_environment_active, name_taken,
    pending_capture_email, record_pending_capture, refresh_account_identity_from_snapshot,
    remove_account, remove_environment, rename_environment, state_db, state_from,
    switch_account_check, switch_environment_check, validate_environment_name, BootstrapStep,
};
use multi_cursor::paths::{
    Account, ActiveSelection, AppConfig, Environment, DATA_INACTIVE_PREFIX,
};

fn env(id: &str, name: &str) -> Environment {
    Environment { id: id.into(), name: name.into(), created_at: "t".into() }
}

fn acct(id: &str, env_id: &str, name: &str, email: Option<&str>, pending: bool) -> Account {
    Account {
        id: id.into(),
        env_id: env_id.into(),
        name: name.into(),
        email: email.map(|e| e.to_string()),
        updated_at: "t".into(),
        pending_login: pending,
    }
}

fn config() -> AppConfig {
    AppConfig {
        environments: vec![env("e1", "Default"), env("e2", "Work")],
        accounts: vec![
            acct("a1", "e1", "Ada", Some("ada@x"), false),
            acct("a2", "e2", "Bob", Some("bob@x"), false),
            acct("a3", "e2", "Signing in…", None, true),
        ],
        active: ActiveSelection { env_id: Some("e1".into()), account_id: Some("a1".into()) },
        cursor_app_path: "/Applications/Cursor.app".into(),
    }
}

fn snap(pairs: &[(&str, &str)]) -> AuthSnapshot {
    let mut s = AuthSnapshot::new();
    for (k, v) in pairs {
        s.insert(k.to_string(), v.to_string());
    }
    s
}

#[test]
fn state_and_db_paths() {
    let cfg = config();
    assert_eq!(active_env_id(&cfg), Some("e1"));
    assert_eq!(
        state_db(&cfg, "/h", "e1"),
        "/h/Library/Application Support/Cursor/User/globalStorage/state.vscdb"
    );
    assert_eq!(
        state_db(&cfg, "/h", "e2"),
        "/h/Library/Application Support/Cursor.multi-cursor.e2/User/globalStorage/state.vscdb"
    );
    let st = state_from(cfg, true, "/h");
    assert!(st.cursor_running);
    assert_eq!(st.root_dir, "/h/.multi-cursor");
    let r = list_state_result(st, vec!["x@y".into(), "z@w".into()]);
    assert_eq!(r.captured_email, Some("x@y".to_string()));
}

#[test]
fn identity_needs() {
    assert!(!account_needs_identity(&acct("a", "e", "Ada", Some("a@x"), false)));
    assert!(account_needs_identity(&acct("a", "e", "Ada", Some("a@x"), true)));
    assert!(account_needs_identity(&acct("a", "e", "Ada", None, false)));
    assert!(account_needs_identity(&acct("a", "e", "Ada", Some(""), false)));
    assert!(account_needs_identity(&acct("a", "e", "Signing in…", Some("a@x"), false)));
}

#[test]
fn captured_identity_uses_profile_or_email() {
    let mut a = acct("a3", "e2", "Signing in…", None, true);
    let s = snap(&[("cursorAuth/cachedScopedProfile", r#"{"displayName":"Cy"}"#)]);
    apply_captured_identity(&mut a, "cy@x", &s);
    assert!(!a.pending_login);
    assert_eq!(a.email, Some("cy@x".to_string()));
    assert_eq!(a.name, "Cy");
    assert_eq!(a.id, "a3");
    let mut b = acct("b", "e", "Signing in…", None, true);
    apply_captured_identity(&mut b, "b@x", &AuthSnapshot::new());
    assert_eq!(b.name, "b@x");
}

#[test]
fn refresh_identity() {
    let mut a = acct("a", "e", "Old", Some("old@x"), false);
    refresh_account_identity_from_snapshot(&mut a, &snap(&[("cursorAuth/cachedEmail", "new@x")]));
    assert_eq!(a.email, Some("new@x".to_string()));
    assert_eq!(a.name, "new@x");
    let mut b = acct("b", "e", "Old", Some("old@x"), false);
    refresh_account_identity_from_snapshot(
        &mut b,
        &snap(&[("cursorAuth/cachedScopedProfile", r#"{"name":"Neo"}"#)]),
    );
    assert_eq!(b.name, "Neo");
    assert_eq!(b.email, Some("old@x".to_string()));
    let mut c = acct("c", "e", "Pending", None, true);
    refresh_account_identity_from_snapshot(&mut c, &snap(&[("cursorAuth/cachedEmail", "n@x")]));
    assert_eq!(c.name, "Pending");
    assert_eq!(c.email, None);
}

#[test]
fn candidates_and_pending_capture() {
    let cfg = config();
    let c = capture_candidates(&cfg);
    assert_eq!(c, vec![("e2".to_string(), "a3".to_string(), true)]);
    assert_eq!(pending_capture_email(&snap(&[("cursorAuth/cachedEmail", "a@x")])), None);
    assert_eq!(
        pending_capture_email(&snap(&[
            ("cursorAuth/accessToken", "t"),
            ("cursorAuth/cachedEmail", "a@x")
        ])),
        Some("a@x".to_string())
    );
    assert_eq!(pending_capture_email(&snap(&[("cursorAuth/accessToken", "t")])), None);
}

#[test]
fn recording_a_pending_capture() {
    let mut cfg = config();
    let s = snap(&[("cursorAuth/accessToken", "t"), ("cursorAuth/cachedEmail", "cy@x")]);
    record_pending_capture(&mut cfg, "e2", "a3", "cy@x", &s);
    assert_eq!(cfg.accounts[2].email, Some("cy@x".to_string()));
    assert_eq!(cfg.accounts[2].name, "cy@x");
    assert!(!cfg.accounts[2].pending_login);
    assert_eq!(cfg.accounts[0].name, "Ada");
    assert_eq!(cfg.active.env_id, Some("e2".to_string()));
    assert_eq!(cfg.active.account_id, Some("a3".to_string()));
}

#[test]
fn healing_requires_email_and_token() {
    let mut cfg = config();
    cfg.accounts[1].email = None;
    assert!(!heal_account_identity(&mut cfg, "a2", &snap(&[("cursorAuth/cachedEmail", "b@x")])));
    assert_eq!(cfg.accounts[1].email, None);
    let s = snap(&[("cursorAuth/accessToken", "t"), ("cursorAuth/cachedEmail", "b@x")]);
    assert!(heal_account_identity(&mut cfg, "a2", &s));
    assert_eq!(cfg.accounts[1].email, Some("b@x".to_string()));
}

#[test]
fn which_account_tokens_are_saved() {
    let mut cfg = config();
    assert_eq!(account_to_save(&cfg, "e1"), Some("a1".to_string()));
    assert_eq!(account_to_save(&cfg, "e2"), None);
    cfg.active.account_id = Some("a3".into());
    assert_eq!(account_to_save(&cfg, "e2"), None);
    cfg.active.account_id = Some("zz".into());
    assert_eq!(account_to_save(&cfg, "e1"), None);
    cfg.active.account_id = None;
    assert_eq!(account_to_save(&cfg, "e1"), None);
}

#[test]
fn switching_environments() {
    let mut cfg = config();
    assert_eq!(switch_environment_check(&cfg, "nope", false), Err("Environment not found".to_string()));
    assert_eq!(switch_environment_check(&cfg, "e1", true), Ok(false));
    assert_eq!(
        switch_environment_check(&cfg, "e2", true),
        Err("Cursor is still running. Wait for it to quit before switching environments.".to_string())
    );
    assert_eq!(switch_environment_check(&cfg, "e2", false), Ok(true));
    mark_environment_active(&mut cfg, "e2");
    assert_eq!(cfg.active.env_id, Some("e2".to_string()));
    assert_eq!(cfg.active.account_id, None);
    cfg.active.account_id = Some("a2".into());
    mark_environment_active(&mut cfg, "e2");
    assert_eq!(cfg.active.account_id, Some("a2".to_string()));
}

#[test]
fn applying_an_account() {
    let mut cfg = config();
    assert_eq!(find_account_in(&cfg, "e1", "a2").unwrap_err(), "Account not found");
    let a = find_account_in(&cfg, "e2", "a2").unwrap();
    assert_eq!(a.name, "Bob");
    mark_account_active(&mut cfg, "e2", "a2");
    assert_eq!(cfg.active.env_id, Some("e2".to_string()));
    assert_eq!(cfg.active.account_id, Some("a2".to_string()));
    clear_active_account(&mut cfg);
    assert_eq!(cfg.active.account_id, None);
    assert_eq!(cfg.active.env_id, Some("e2".to_string()));
}

#[test]
fn environment_names() {
    let mut cfg = config();
    assert_eq!(validate_environment_name("  x "), Ok("x".to_string()));
    assert_eq!(validate_environment_name(" "), Err("Environment name is required".to_string()));
    assert!(name_taken(&cfg, "work", None));
    assert!(!name_taken(&cfg, "work", Some("e2")));
    assert_eq!(
        check_new_environment_name(&cfg, " WORK "),
        Err("Environment \"WORK\" already exists".to_string())
    );
    assert_eq!(create_environment(&mut cfg, "e3".into(), " Play "), Ok(()));
    assert_eq!(cfg.environments.len(), 3);
    assert_eq!(cfg.environments[2].id, "e3");
    assert_eq!(cfg.environments[2].name, "Play");
    assert_eq!(create_environment(&mut cfg, "e4".into(), ""), Err("Environment name is required".to_string()));
    assert_eq!(cfg.environments.len(), 3);
}

#[test]
fn renaming_environments() {
    let mut cfg = config();
    assert_eq!(rename_environment(&mut cfg, "e2", "  work "), Ok(()));
    assert_eq!(cfg.environments[1].name, "work");
    assert_eq!(
        rename_environment(&mut cfg, "e1", "WORK"),
        Err("Environment \"WORK\" already exists".to_string())
    );
    assert_eq!(rename_environment(&mut cfg, "zz", "New"), Err("Environment not found".to_string()));
    assert_eq!(rename_environment(&mut cfg, "e1", "\t"), Err("Environment name is required".to_string()));
    assert_eq!(cfg.environments[0].name, "Default");
}

#[test]
fn deleting_environments() {
    let mut cfg = config();
    assert_eq!(delete_environment_check(&cfg, "x"), Err("Environment not found".to_string()));
    assert_eq!(
        delete_environment_check(&cfg, "e1"),
        Err("Cannot delete the current environment. Switch to another environment first.".to_string())
    );
    assert_eq!(delete_environment_check(&cfg, "e2"), Ok(()));
    remove_environment(&mut cfg, "e2");
    assert_eq!(cfg.environments.len(), 1);
    assert_eq!(cfg.accounts.len(), 1);
    assert_eq!(cfg.accounts[0].id, "a1");
    cfg.active.env_id = Some("elsewhere".into());
    assert_eq!(delete_environment_check(&cfg, "e1"), Err("Cannot delete the only environment.".to_string()));
    let p = delete_environment_paths("/h", "e2");
    assert_eq!(p[0].0, "/h/Library/Application Support/Cursor.multi-cursor.e2");
    assert_eq!(p[1].0, "/h/.cursor.multi-cursor.e2");
    assert_eq!(p[2].0, "/h/.multi-cursor/accounts/e2");
    assert_eq!(p[2].1, "Removing saved logins…");
}

#[test]
fn adding_and_deleting_accounts() {
    let mut cfg = config();
    assert_eq!(
        create_account_check(&cfg, "e2", true),
        Err("Cursor is still running. Wait for it to quit before adding an account.".to_string())
    );
    assert_eq!(create_account_check(&cfg, "x", false), Err("Environment not found".to_string()));
    assert_eq!(create_account_check(&cfg, "e2", false), Ok(()));
    add_pending_account(&mut cfg, "e2", "a4".into());
    let last = cfg.accounts.last().unwrap();
    assert_eq!(last.name, "Signing in…");
    assert!(last.pending_login);
    assert_eq!(cfg.active.account_id, Some("a4".to_string()));

    assert_eq!(delete_account_check(&cfg, "zz", false).unwrap_err(), "Account not found");
    assert_eq!(
        delete_account_check(&cfg, "a4", true).unwrap_err(),
        "Cursor is still running. Wait for it to quit before deleting the current account."
    );
    let (a, was_active) = delete_account_check(&cfg, "a4", false).unwrap();
    assert!(was_active);
    let next = remove_account(&mut cfg, &a.id, &a.env_id, was_active);
    assert_eq!(next, Some("a2".to_string()));
    assert_eq!(cfg.active.account_id, Some("a2".to_string()));
    assert_eq!(cfg.accounts.len(), 3);

    let (a, was_active) = delete_account_check(&cfg, "a1", true).unwrap();
    assert!(!was_active);
    assert_eq!(remove_account(&mut cfg, &a.id, &a.env_id, was_active), None);
    assert_eq!(cfg.active.account_id, Some("a2".to_string()));
}

#[test]
fn deleting_the_last_account_of_an_environment_clears_selection() {
    let mut cfg = config();
    let next = remove_account(&mut cfg, "a1", "e1", true);
    assert_eq!(next, None);
    assert_eq!(cfg.active.account_id, None);
}

#[test]
fn launch_and_copy_checks() {
    let cfg = config();
    assert_eq!(launch_check(&cfg, "x", None, false), Err("Environment not found".to_string()));
    assert_eq!(
        launch_check(&cfg, "e1", Some("a1"), true),
        Err("Cursor is already running with this account.".to_string())
    );
    assert_eq!(
        launch_check(&cfg, "e2", Some("a2"), true),
        Err("Cursor is still running. Wait for it to quit before launching.".to_string())
    );
    assert_eq!(
        launch_check(&cfg, "e1", None, true),
        Err("Cursor is still running. Wait for it to quit before launching.".to_string())
    );
    assert_eq!(launch_check(&cfg, "e2", Some("a2"), false), Ok(()));
    assert_eq!(copy_environment_check(&cfg, "e1", false), Err("Cannot copy into the current environment.".to_string()));
    assert_eq!(
        copy_environment_check(&cfg, "e2", true),
        Err("Quit Cursor before copying the current environment (data files may be locked).".to_string())
    );
    assert_eq!(copy_environment_check(&cfg, "e2", false), Ok(()));
    assert_eq!(
        switch_account_check(true),
        Err("Cursor is still running. Wait for it to quit before switching accounts.".to_string())
    );
    assert!(environment_exists(&cfg, "e2"));
}

#[test]
fn bootstrap_steps() {
    let none = AuthSnapshot::new();
    let mut cfg = AppConfig::default();
    assert_eq!(bootstrap_default_environment(&mut cfg, &none), BootstrapStep::CreatedDefault);
    assert_eq!(cfg.environments.len(), 1);
    assert_eq!(cfg.environments[0].name, "Default");
    assert!(cfg.accounts.is_empty());
    assert_eq!(cfg.active.env_id.as_deref(), Some(cfg.environments[0].id.as_str()));
    assert_eq!(bootstrap_default_environment(&mut cfg, &none), BootstrapStep::Ready);
    cfg.active.env_id = None;
    assert_eq!(bootstrap_default_environment(&mut cfg, &none), BootstrapStep::ActivatedFirst);
    assert_eq!(cfg.active.env_id.as_deref(), Some(cfg.environments[0].id.as_str()));
}

#[test]
fn bootstrap_adopts_the_live_login() {
    let live = snap(&[("cursorAuth/accessToken", "t"), ("cursorAuth/cachedEmail", "d@x")]);
    let mut cfg = AppConfig::default();
    assert_eq!(bootstrap_default_environment(&mut cfg, &live), BootstrapStep::CreatedDefault);
    assert_eq!(cfg.accounts.len(), 1);
    assert_eq!(cfg.accounts[0].env_id, cfg.environments[0].id);
    assert_eq!(cfg.accounts[0].name, "d@x");
    assert!(!cfg.accounts[0].pending_login);
    assert_eq!(cfg.active.account_id.as_deref(), Some(cfg.accounts[0].id.as_str()));
    // An existing setup is left alone even when a login is live.
    let mut cfg2 = config();
    assert_eq!(bootstrap_default_environment(&mut cfg2, &live), BootstrapStep::Ready);
    assert_eq!(cfg2.accounts.len(), 3);
}

#[test]
fn adopting_the_live_login() {
    let mut cfg = config();
    assert_eq!(live_login_adoption_env(&cfg), None);
    cfg.accounts.clear();
    assert_eq!(live_login_adoption_env(&cfg), Some("e1".to_string()));
    let s = snap(&[
        ("cursorAuth/accessToken", "t"),
        ("cursorAuth/cachedEmail", "z@x"),
    ]);
    add_captured_account(&mut cfg, "e1", "a9".into(), &s);
    assert_eq!(cfg.accounts[0].name, "z@x");
    assert_eq!(cfg.accounts[0].email, Some("z@x".to_string()));
    assert_eq!(cfg.active.account_id, Some("a9".to_string()));
    add_captured_account(&mut cfg, "e1", "a10".into(), &snap(&[("cursorAuth/accessToken", "t")]));
    assert_eq!(cfg.accounts[1].name, "Signed-in account");
    assert_eq!(cfg.accounts[1].email, None);
}

#[test]
fn orphan_pool_entries() {
    let cfg = config();
    assert!(is_orphan_pool_entry(&cfg, "Cursor.multi-cursor.gone", DATA_INACTIVE_PREFIX));
    assert!(!is_orphan_pool_entry(&cfg, "Cursor.multi-cursor.e2", DATA_INACTIVE_PREFIX));
    assert!(!is_orphan_pool_entry(&cfg, "Cursor", DATA_INACTIVE_PREFIX));
    assert!(is_orphan_pool_entry(&cfg, "Cursor.multi-cursor.__swap__-1", DATA_INACTIVE_PREFIX));
}

#[test]
fn capture_adopts_only_a_signed_in_login() {
    let mut cfg = config();
    let before = cfg.clone();
    assert!(!capture_signed_in_login(&mut cfg, "e1", "n1".to_string(), &snap(&[("cursorAuth/cachedEmail", "x@y")])));
    assert_eq!(cfg.accounts.len(), before.accounts.len());
    assert_eq!(cfg.active.account_id.as_deref(), Some("a1"));
    let s = snap(&[("cursorAuth/accessToken", "tok"), ("cursorAuth/cachedEmail", "x@y")]);
    assert!(capture_signed_in_login(&mut cfg, "e1", "n1".to_string(), &s));
    assert_eq!(cfg.accounts.len(), before.accounts.len() + 1);
    let last = cfg.accounts.last().unwrap();
    assert_eq!(last.id, "n1");
    assert_eq!(last.env_id, "e1");
    assert_eq!(last.email.as_deref(), Some("x@y"));
    assert_eq!(cfg.active.account_id.as_deref(), Some("n1"));
}

#[test]
fn capture_pass_keeps_ids_environments_and_settled_accounts() {
    let mut cfg = config();
    cfg.accounts.push(acct("a4", "e1", "Signing in…", None, false));
    let before = cfg.clone();
    let s = snap(&[("cursorAuth/accessToken", "tok"), ("cursorAuth/cachedEmail", "cy@x")]);
    let mut recorded = 0;
    for (env_id, account_id, pending) in capture_candidates(&before) {
        if pending {
            if let Some(email) = pending_capture_email(&s) {
                record_pending_capture(&mut cfg, &env_id, &account_id, &email, &s);
                recorded += 1;
            }
        } else {
            heal_account_identity(&mut cfg, &account_id, &s);
        }
    }
    assert_eq!(cfg.environments.len(), before.environments.len());
    let ids: Vec<(&str, &str)> = cfg.accounts.iter().map(|a| (a.id.as_str(), a.env_id.as_str())).collect();
    let ids0: Vec<(&str, &str)> = before.accounts.iter().map(|a| (a.id.as_str(), a.env_id.as_str())).collect();
    assert_eq!(ids, ids0);
    assert_eq!(cfg.accounts[0].name, before.accounts[0].name);
    assert_eq!(cfg.accounts[1].email, before.accounts[1].email);
    assert!(recorded <= 1);
    assert_eq!(cfg.accounts[3].email.as_deref(), Some("cy@x"));
}
