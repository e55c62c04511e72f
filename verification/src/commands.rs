//! The rules of the commands the user interface invokes.
//!
//! Each command loads the configuration, checks what it may do, moves or
//! rewrites folders and login databases, and saves the configuration. The
//! checks and every change to the configuration are here; the caller does
//! the file work in between and hands back what it found (whether Cursor is
//! running, the snapshot it read).
use vstd::prelude::*;

use crate::auth::{
    display_name_from_snapshot, email_from_snapshot, has_login_tokens, non_empty_value,
    profile_name_from_snapshot, spec_display_name, spec_profile_name, AuthSnapshot,
    ACCESS_TOKEN_KEY, CACHED_EMAIL_KEY,
};
use crate::paths::{
    env_state_db, inactive_data_dir, inactive_dot_cursor_dir, account_views, accounts_dir,
    env_views, new_id, now_iso, opt_str_is, opt_str_view, opt_view, root_dir, spec_accounts_dir,
    spec_env_state_db, spec_inactive_data_dir, spec_inactive_dot_cursor_dir, spec_root_dir,
    Account, AccountView, AppConfig, ConfigView, Environment, EnvironmentView,
};
use crate::text::{
    cat3, eq_ignore_ascii_case, eq_ignore_ascii_case_seq, is_prefix_of, owned, starts_with,
    str_eq, trim, trim_str,
};

verus! {

/// What the user interface shows.
#[derive(Debug)]
pub struct AppState {
    pub config: AppConfig,
    pub cursor_running: bool,
    pub root_dir: String,
}

/// The state, with the email of a login captured while listing it.
#[derive(Debug)]
pub struct ListStateResult {
    pub state: AppState,
    pub captured_email: Option<String>,
}

/// The state for `cfg`, given whether Cursor runs and the home directory.
pub fn state_from(cfg: AppConfig, cursor_running: bool, home: &str) -> (r: AppState)
    ensures
        r.config == cfg,
        r.cursor_running == cursor_running,
        r.root_dir@ == spec_root_dir(home@),
{
    AppState { config: cfg, cursor_running, root_dir: root_dir(home) }
}

/// The result of listing the state: the first captured email, if any.
pub fn list_state_result(state: AppState, captured: Vec<String>) -> (r: ListStateResult)
    ensures
        r.state == state,
        captured@.len() == 0 ==> r.captured_email is None,
        captured@.len() > 0 ==> (r.captured_email matches Some(e) && e@ == captured@[0]@),
{
    let captured_email = if captured.len() > 0 {
        Some(owned(captured[0].as_str()))
    } else {
        None
    };
    ListStateResult { state, captured_email }
}

/// The id of the active environment.
pub fn active_env_id(cfg: &AppConfig) -> (r: Option<&str>)
    ensures
        opt_str_view(r) == cfg@.active.env_id,
{
    match &cfg.active.env_id {
        Some(s) => Some(s.as_str()),
        None => None,
    }
}

/// The login database of `env_id`, live or pooled.
pub fn state_db(cfg: &AppConfig, home: &str, env_id: &str) -> (r: String)
    ensures
        r@ == spec_env_state_db(home@, env_id@, cfg@.active.env_id),
{
    env_state_db(home, env_id, active_env_id(cfg))
}

/// The index of the first element satisfying `p`.
pub open spec fn first_match<A>(s: Seq<A>, p: spec_fn(A) -> bool) -> Option<int>
    decreases s.len(),
{
    if s.len() == 0 {
        None
    } else if p(s[0]) {
        Some(0)
    } else {
        match first_match(s.drop_first(), p) {
            Some(i) => Some(i + 1),
            None => None,
        }
    }
}

pub proof fn lemma_first_match<A>(s: Seq<A>, p: spec_fn(A) -> bool)
    ensures
        match first_match(s, p) {
            Some(i) => 0 <= i < s.len() && p(s[i]) && forall|j: int| 0 <= j < i ==> !p(s[j]),
            None => forall|j: int| 0 <= j < s.len() ==> !p(s[j]),
        },
    decreases s.len(),
{
    if s.len() > 0 && !p(s[0]) {
        lemma_first_match(s.drop_first(), p);
        assert forall|j: int| 0 < j < s.len() implies s[j] == s.drop_first()[j - 1] by {}
    }
}

/// `first_match` is the position found by a front-to-back scan.
pub proof fn lemma_first_match_at<A>(s: Seq<A>, p: spec_fn(A) -> bool, i: int)
    requires
        0 <= i < s.len(),
        p(s[i]),
        forall|j: int| 0 <= j < i ==> !p(s[j]),
    ensures
        first_match(s, p) == Some(i),
{
    lemma_first_match(s, p);
}

/// The elements of `s` that satisfy `p`, in order.
pub open spec fn keep<A>(s: Seq<A>, p: spec_fn(A) -> bool) -> Seq<A>
    decreases s.len(),
{
    if s.len() == 0 {
        seq![]
    } else {
        let r = keep(s.drop_last(), p);
        if p(s.last()) {
            r.push(s.last())
        } else {
            r
        }
    }
}

/// What `keep` leaves satisfies `p` and comes from `s`; every element of
/// `s` that satisfies `p` is left.
pub proof fn lemma_keep<A>(s: Seq<A>, p: spec_fn(A) -> bool)
    ensures
        forall|x: A| #[trigger] keep(s, p).contains(x) <==> (s.contains(x) && p(x)),
    decreases s.len(),
{
    if s.len() > 0 {
        lemma_keep(s.drop_last(), p);
        let r = keep(s.drop_last(), p);
        assert forall|x: A| #[trigger] keep(s, p).contains(x) <==> (s.contains(x) && p(x)) by {
            if s.contains(x) {
                let w = choose|w: int| 0 <= w < s.len() && s[w] == x;
                if w < s.len() - 1 {
                    assert(s.drop_last()[w] == x);
                }
            }
            if s.drop_last().contains(x) {
                let w = choose|w: int| 0 <= w < s.drop_last().len() && s.drop_last()[w] == x;
                assert(s[w] == x);
            }
            if p(s.last()) {
                if r.contains(x) {
                    let w = choose|w: int| 0 <= w < r.len() && r[w] == x;
                    assert(r.push(s.last())[w] == x);
                }
                if r.push(s.last()).contains(x) {
                    let w = choose|w: int| 0 <= w < r.len() + 1 && r.push(s.last())[w] == x;
                    if w < r.len() {
                        assert(r[w] == x);
                    }
                }
                assert(r.push(s.last())[r.len() as int] == s.last());
                assert(s[s.len() - 1] == s.last());
            }
        }
    }
}

pub open spec fn env_has_id(id: Seq<char>) -> spec_fn(EnvironmentView) -> bool {
    |e: EnvironmentView| e.id == id
}

pub open spec fn env_lacks_id(id: Seq<char>) -> spec_fn(EnvironmentView) -> bool {
    |e: EnvironmentView| e.id != id
}

pub open spec fn account_has_id(id: Seq<char>) -> spec_fn(AccountView) -> bool {
    |a: AccountView| a.id == id
}

pub open spec fn account_lacks_id(id: Seq<char>) -> spec_fn(AccountView) -> bool {
    |a: AccountView| a.id != id
}

pub open spec fn account_in_env(env_id: Seq<char>) -> spec_fn(AccountView) -> bool {
    |a: AccountView| a.env_id == env_id
}

pub open spec fn account_outside_env(env_id: Seq<char>) -> spec_fn(AccountView) -> bool {
    |a: AccountView| a.env_id != env_id
}

/// Some environment has the id `id`.
pub open spec fn has_env(c: ConfigView, id: Seq<char>) -> bool {
    exists|i: int| 0 <= i < c.environments.len() && c.environments[i].id == id
}

/// Every account belongs to an environment that exists.
pub open spec fn accounts_in_known_envs(c: ConfigView) -> bool {
    forall|i: int| 0 <= i < c.accounts.len() ==> has_env(c, #[trigger] c.accounts[i].env_id)
}

/// No two environments have names that are equal ignoring ASCII case.
pub open spec fn env_names_distinct(c: ConfigView) -> bool {
    forall|i: int, j: int|
        0 <= i < c.environments.len() && 0 <= j < c.environments.len() && i != j
            ==> !eq_ignore_ascii_case_seq(c.environments[i].name, c.environments[j].name)
}

/// A copy of `e` with the same characters.
pub fn copy_environment(e: &Environment) -> (r: Environment)
    ensures
        r@ == e@,
{
    Environment { id: owned(e.id.as_str()), name: owned(e.name.as_str()), created_at: owned(e.created_at.as_str()) }
}

/// A copy of an optional string.
pub fn copy_opt(o: &Option<String>) -> (r: Option<String>)
    ensures
        opt_view(r) == opt_view(*o),
{
    match o {
        Some(s) => Some(owned(s.as_str())),
        None => None,
    }
}

/// A copy of `a` with the same characters.
pub fn copy_account(a: &Account) -> (r: Account)
    ensures
        r@ == a@,
{
    Account {
        id: owned(a.id.as_str()),
        env_id: owned(a.env_id.as_str()),
        name: owned(a.name.as_str()),
        email: copy_opt(&a.email),
        updated_at: owned(a.updated_at.as_str()),
        pending_login: a.pending_login,
    }
}

/// Some environment has the id `id`.
pub fn environment_exists(cfg: &AppConfig, id: &str) -> (r: bool)
    ensures
        r == has_env(cfg@, id@),
{
    let mut i: usize = 0;
    while i < cfg.environments.len()
        invariant
            i <= cfg.environments@.len(),
            forall|j: int| 0 <= j < i ==> cfg@.environments[j].id != id@,
        decreases cfg.environments@.len() - i,
    {
        if str_eq(cfg.environments[i].id.as_str(), id) {
            assert(cfg@.environments[i as int].id == id@);
            return true;
        }
        i += 1;
    }
    false
}

/// The position of the first account with the id `id`.
pub fn find_account_index(cfg: &AppConfig, id: &str) -> (r: Option<usize>)
    ensures
        match r {
            Some(i) => first_match(cfg@.accounts, account_has_id(id@)) == Some(i as int),
            None => first_match(cfg@.accounts, account_has_id(id@)) is None,
        },
{
    let mut i: usize = 0;
    while i < cfg.accounts.len()
        invariant
            i <= cfg.accounts@.len(),
            forall|j: int| 0 <= j < i ==> !account_has_id(id@)(cfg@.accounts[j]),
        decreases cfg.accounts@.len() - i,
    {
        if str_eq(cfg.accounts[i].id.as_str(), id) {
            proof {
                lemma_first_match_at(cfg@.accounts, account_has_id(id@), i as int);
            }
            return Some(i);
        }
        i += 1;
    }
    proof {
        lemma_first_match(cfg@.accounts, account_has_id(id@));
        if first_match(cfg@.accounts, account_has_id(id@)) is Some {
            let k = first_match(cfg@.accounts, account_has_id(id@))->0;
            assert(!account_has_id(id@)(cfg@.accounts[k]));
        }
    }
    None
}

/// The position of the first account of the environment `env_id`.
pub fn find_account_in_env_index(cfg: &AppConfig, env_id: &str) -> (r: Option<usize>)
    ensures
        match r {
            Some(i) => first_match(cfg@.accounts, account_in_env(env_id@)) == Some(i as int),
            None => first_match(cfg@.accounts, account_in_env(env_id@)) is None,
        },
{
    let mut i: usize = 0;
    while i < cfg.accounts.len()
        invariant
            i <= cfg.accounts@.len(),
            forall|j: int| 0 <= j < i ==> !account_in_env(env_id@)(cfg@.accounts[j]),
        decreases cfg.accounts@.len() - i,
    {
        if str_eq(cfg.accounts[i].env_id.as_str(), env_id) {
            proof {
                lemma_first_match_at(cfg@.accounts, account_in_env(env_id@), i as int);
            }
            return Some(i);
        }
        i += 1;
    }
    proof {
        lemma_first_match(cfg@.accounts, account_in_env(env_id@));
        if first_match(cfg@.accounts, account_in_env(env_id@)) is Some {
            let k = first_match(cfg@.accounts, account_in_env(env_id@))->0;
            assert(!account_in_env(env_id@)(cfg@.accounts[k]));
        }
    }
    None
}

/// The account still lacks a confirmed identity: its login is pending, it
/// has no email, or it still carries the placeholder name.
pub open spec fn needs_identity(a: AccountView) -> bool {
    a.pending_login || a.email is None || a.email == Some(Seq::<char>::empty()) || is_prefix_of(
        "Signing in"@,
        a.name,
    )
}

pub open spec fn needs_identity_fn() -> spec_fn(AccountView) -> bool {
    |a: AccountView| needs_identity(a)
}

pub fn account_needs_identity(account: &Account) -> (r: bool)
    ensures
        r == needs_identity(account@),
{
    let no_email = match &account.email {
        Some(e) => {
            let empty = e.as_str().unicode_len() == 0;
            assert(empty ==> e@ =~= Seq::<char>::empty());
            empty
        },
        None => true,
    };
    account.pending_login || no_email || starts_with(account.name.as_str(), "Signing in")
}

/// The name an identity gets: the profile name, else the email.
pub open spec fn identity_name(email: Seq<char>, snap: AuthSnapshot) -> Seq<char> {
    match spec_profile_name(snap) {
        Some(n) => n,
        None => email,
    }
}

/// `new` is `old` with the identity `email` (and the profile of `snap`)
/// recorded; only its time stamp is left open.
pub open spec fn identity_applied(
    old: AccountView,
    new: AccountView,
    email: Seq<char>,
    snap: AuthSnapshot,
) -> bool {
    &&& new.id == old.id
    &&& new.env_id == old.env_id
    &&& !new.pending_login
    &&& new.email == Some(email)
    &&& new.name == identity_name(email, snap)
}

/// Record a captured login on `account`: no longer pending, its email, and
/// the profile name (or the email) as its name, stamped with the time.
pub fn apply_captured_identity(account: &mut Account, email: &str, snap: &AuthSnapshot)
    ensures
        identity_applied(old(account)@, final(account)@, email@, *snap),
{
    account.pending_login = false;
    account.email = Some(owned(email));
    account.name = match profile_name_from_snapshot(snap) {
        Some(n) => n,
        None => owned(email),
    };
    account.updated_at = now_iso();
}

/// Refresh a settled account's email and name from its saved snapshot.
pub open spec fn refreshed(old: AccountView, snap: AuthSnapshot) -> AccountView {
    if old.pending_login {
        old
    } else {
        match non_empty_value(snap, CACHED_EMAIL_KEY@) {
            Some(e) => AccountView { email: Some(e), name: identity_name(e, snap), ..old },
            None => match spec_profile_name(snap) {
                Some(n) => AccountView { name: n, ..old },
                None => old,
            },
        }
    }
}

/// Update a settled account's email and name from its saved snapshot; a
/// pending account is left alone.
pub fn refresh_account_identity_from_snapshot(account: &mut Account, snap: &AuthSnapshot)
    ensures
        final(account)@ == refreshed(old(account)@, *snap),
{
    if account.pending_login {
        return;
    }
    match email_from_snapshot(snap) {
        Some(email) => {
            account.name = match profile_name_from_snapshot(snap) {
                Some(n) => n,
                None => owned(email.as_str()),
            };
            account.email = Some(email);
        },
        None => {
            match profile_name_from_snapshot(snap) {
                Some(n) => {
                    account.name = n;
                },
                None => {},
            }
        },
    }
}

/// What is checked of an account that needs an identity: its environment,
/// its id, and whether its login is pending.
pub open spec fn candidate_of(a: AccountView) -> (Seq<char>, Seq<char>, bool) {
    (a.env_id, a.id, a.pending_login)
}

pub open spec fn triple_views(s: Seq<(String, String, bool)>) -> Seq<(Seq<char>, Seq<char>, bool)> {
    s.map_values(|t: (String, String, bool)| (t.0@, t.1@, t.2))
}

/// The accounts that still need an identity, in order.
pub fn capture_candidates(cfg: &AppConfig) -> (r: Vec<(String, String, bool)>)
    ensures
        triple_views(r@) == keep(cfg@.accounts, needs_identity_fn()).map_values(
            |a: AccountView| candidate_of(a),
        ),
{
    let mut out: Vec<(String, String, bool)> = Vec::new();
    let mut i: usize = 0;
    assert(cfg@.accounts.take(0) =~= Seq::<AccountView>::empty());
    assert(triple_views(out@) =~= keep(cfg@.accounts.take(0), needs_identity_fn()).map_values(
        |a: AccountView| candidate_of(a),
    ));
    while i < cfg.accounts.len()
        invariant
            i <= cfg.accounts@.len(),
            triple_views(out@) == keep(cfg@.accounts.take(i as int), needs_identity_fn()).map_values(
                |a: AccountView| candidate_of(a),
            ),
        decreases cfg.accounts@.len() - i,
    {
        let ghost before = out@;
        let a = &cfg.accounts[i];
        assert(cfg@.accounts.take(i + 1).drop_last() =~= cfg@.accounts.take(i as int));
        assert(cfg@.accounts.take(i + 1).last() == a@);
        if account_needs_identity(a) {
            out.push((owned(a.env_id.as_str()), owned(a.id.as_str()), a.pending_login));
            assert(triple_views(out@) =~= triple_views(before).push(candidate_of(a@)));
            assert(keep(cfg@.accounts.take(i as int), needs_identity_fn()).push(a@).map_values(
                |a: AccountView| candidate_of(a),
            ) =~= keep(cfg@.accounts.take(i as int), needs_identity_fn()).map_values(
                |a: AccountView| candidate_of(a),
            ).push(candidate_of(a@)));
        }
        i += 1;
    }
    assert(cfg@.accounts.take(i as int) =~= cfg@.accounts);
    out
}

/// The email a pending login is captured with: present once the live
/// database holds both a token and the email.
pub open spec fn spec_pending_capture(snap: AuthSnapshot) -> Option<Seq<char>> {
    if non_empty_value(snap, ACCESS_TOKEN_KEY@) is Some {
        non_empty_value(snap, CACHED_EMAIL_KEY@)
    } else {
        None
    }
}

/// Tokens can appear before the cached email: a login is captured only
/// when both are there.
pub fn pending_capture_email(snap: &AuthSnapshot) -> (r: Option<String>)
    ensures
        opt_view(r) == spec_pending_capture(*snap),
{
    if !has_login_tokens(snap) {
        return None;
    }
    email_from_snapshot(snap)
}

/// `new` equals `old` except that the account at `i` (if any) received the
/// identity `email`.
pub open spec fn accounts_with_identity(
    old: Seq<AccountView>,
    new: Seq<AccountView>,
    i: Option<int>,
    email: Seq<char>,
    snap: AuthSnapshot,
) -> bool {
    &&& new.len() == old.len()
    &&& forall|j: int| 0 <= j < old.len() && Some(j) != i ==> new[j] == old[j]
    &&& match i {
        Some(k) => identity_applied(old[k], new[k], email, snap),
        None => true,
    }
}

/// Give the first account with the id `account_id` the identity `email`.
fn set_identity(cfg: &mut AppConfig, account_id: &str, email: &str, snap: &AuthSnapshot)
    ensures
        accounts_with_identity(
            old(cfg)@.accounts,
            final(cfg)@.accounts,
            first_match(old(cfg)@.accounts, account_has_id(account_id@)),
            email@,
            *snap,
        ),
        final(cfg)@.environments == old(cfg)@.environments,
        final(cfg)@.active == old(cfg)@.active,
        final(cfg)@.cursor_app_path == old(cfg)@.cursor_app_path,
{
    proof {
        lemma_first_match(cfg@.accounts, account_has_id(account_id@));
    }
    match find_account_index(cfg, account_id) {
        Some(i) => {
            let mut a = copy_account(&cfg.accounts[i]);
            apply_captured_identity(&mut a, email, snap);
            let ghost old_accounts = cfg.accounts@;
            cfg.accounts.set(i, a);
            assert(account_views(cfg.accounts@) =~= account_views(old_accounts).update(i as int, a@));
        },
        None => {},
    }
}

/// Record a pending login captured for `account_id` in `env_id`: the
/// account receives its identity, and the pair becomes the active selection.
pub fn record_pending_capture(
    cfg: &mut AppConfig,
    env_id: &str,
    account_id: &str,
    email: &str,
    snap: &AuthSnapshot,
)
    ensures
        accounts_with_identity(
            old(cfg)@.accounts,
            final(cfg)@.accounts,
            first_match(old(cfg)@.accounts, account_has_id(account_id@)),
            email@,
            *snap,
        ),
        final(cfg)@.environments == old(cfg)@.environments,
        final(cfg)@.active.env_id == Some(env_id@),
        final(cfg)@.active.account_id == Some(account_id@),
        final(cfg)@.cursor_app_path == old(cfg)@.cursor_app_path,
{
    set_identity(cfg, account_id, email, snap);
    cfg.active.env_id = Some(owned(env_id));
    cfg.active.account_id = Some(owned(account_id));
}

/// Heal a settled account from its own saved snapshot: when that snapshot
/// holds an email and a token, the account receives that identity.
pub fn heal_account_identity(cfg: &mut AppConfig, account_id: &str, snap: &AuthSnapshot) -> (r:
    bool)
    ensures
        r == (non_empty_value(*snap, CACHED_EMAIL_KEY@) is Some && non_empty_value(
            *snap,
            ACCESS_TOKEN_KEY@,
        ) is Some),
        r ==> accounts_with_identity(
            old(cfg)@.accounts,
            final(cfg)@.accounts,
            first_match(old(cfg)@.accounts, account_has_id(account_id@)),
            non_empty_value(*snap, CACHED_EMAIL_KEY@)->0,
            *snap,
        ),
        !r ==> final(cfg)@ == old(cfg)@,
        final(cfg)@.environments == old(cfg)@.environments,
        final(cfg)@.active == old(cfg)@.active,
        final(cfg)@.cursor_app_path == old(cfg)@.cursor_app_path,
{
    let email = match email_from_snapshot(snap) {
        Some(e) => e,
        None => return false,
    };
    if !has_login_tokens(snap) {
        return false;
    }
    set_identity(cfg, account_id, email.as_str(), snap);
    true
}

/// The account whose tokens are saved before the live login of `env_id`
/// changes: the active account, when it exists, belongs to `env_id` and is
/// not pending.
pub open spec fn spec_account_to_save(c: ConfigView, env_id: Seq<char>) -> Option<Seq<char>> {
    match c.active.account_id {
        None => None,
        Some(aid) => match first_match(c.accounts, account_has_id(aid)) {
            None => None,
            Some(i) => if c.accounts[i].env_id != env_id || c.accounts[i].pending_login {
                None
            } else {
                Some(aid)
            },
        },
    }
}

pub fn account_to_save(cfg: &AppConfig, env_id: &str) -> (r: Option<String>)
    ensures
        opt_view(r) == spec_account_to_save(cfg@, env_id@),
{
    let aid = match &cfg.active.account_id {
        Some(a) => a,
        None => return None,
    };
    proof {
        lemma_first_match(cfg@.accounts, account_has_id(aid@));
    }
    match find_account_index(cfg, aid.as_str()) {
        None => None,
        Some(i) => {
            if !str_eq(cfg.accounts[i].env_id.as_str(), env_id) || cfg.accounts[i].pending_login {
                None
            } else {
                Some(owned(aid.as_str()))
            }
        },
    }
}

pub open spec fn not_found_env() -> Seq<char> {
    "Environment not found"@
}

/// Whether switching to `env_id` has work to do: an unknown environment is
/// an error; the active one needs nothing; otherwise Cursor must not run.
pub fn switch_environment_check(cfg: &AppConfig, env_id: &str, cursor_running: bool) -> (r:
    Result<bool, String>)
    ensures
        !has_env(cfg@, env_id@) ==> (r matches Err(e) && e@ == not_found_env()),
        has_env(cfg@, env_id@) && cfg@.active.env_id == Some(env_id@) ==> r == Ok::<bool, String>(
            false,
        ),
        has_env(cfg@, env_id@) && cfg@.active.env_id != Some(env_id@) && cursor_running ==> (r matches Err(e)
            && e@
            == "Cursor is still running. Wait for it to quit before switching environments."@),
        has_env(cfg@, env_id@) && cfg@.active.env_id != Some(env_id@) && !cursor_running ==> r
            == Ok::<bool, String>(true),
{
    if !environment_exists(cfg, env_id) {
        return Err(owned("Environment not found"));
    }
    if opt_str_is(active_env_id(cfg), env_id) {
        return Ok(false);
    }
    if cursor_running {
        return Err(owned("Cursor is still running. Wait for it to quit before switching environments."));
    }
    Ok(true)
}

/// The active account stays selected when it belongs to `env_id`.
pub open spec fn account_stays(c: ConfigView, env_id: Seq<char>) -> bool {
    match c.active.account_id {
        Some(aid) => match first_match(c.accounts, account_has_id(aid)) {
            Some(i) => c.accounts[i].env_id == env_id,
            None => false,
        },
        None => false,
    }
}

/// Record that `env_id` now owns the live folders. The active account is
/// kept only when it belongs to `env_id`.
pub fn mark_environment_active(cfg: &mut AppConfig, env_id: &str)
    ensures
        final(cfg)@.environments == old(cfg)@.environments,
        final(cfg)@.accounts == old(cfg)@.accounts,
        final(cfg)@.cursor_app_path == old(cfg)@.cursor_app_path,
        final(cfg)@.active.env_id == Some(env_id@),
        final(cfg)@.active.account_id == if account_stays(old(cfg)@, env_id@) {
            old(cfg)@.active.account_id
        } else {
            None
        },
{
    cfg.active.env_id = Some(owned(env_id));
    let stays = match &cfg.active.account_id {
        Some(aid) => {
            proof {
                lemma_first_match(cfg@.accounts, account_has_id(aid@));
            }
            match find_account_index(cfg, aid.as_str()) {
                Some(i) => str_eq(cfg.accounts[i].env_id.as_str(), env_id),
                None => false,
            }
        },
        None => false,
    };
    if !stays {
        cfg.active.account_id = None;
    }
}

/// After an environment becomes active, the active account (if any) is an
/// account of that environment.
pub proof fn lemma_active_account_in_active_env(old_c: ConfigView, new_c: ConfigView, env_id: Seq<char>)
    requires
        new_c.accounts == old_c.accounts,
        new_c.active.env_id == Some(env_id),
        new_c.active.account_id == if account_stays(old_c, env_id) {
            old_c.active.account_id
        } else {
            None
        },
    ensures
        new_c.active.account_id matches Some(aid) ==> exists|i: int|
            0 <= i < new_c.accounts.len() && new_c.accounts[i].id == aid
                && new_c.accounts[i].env_id == env_id,
{
    if new_c.active.account_id is Some {
        let aid = new_c.active.account_id->0;
        lemma_first_match(old_c.accounts, account_has_id(aid));
        let i = first_match(old_c.accounts, account_has_id(aid))->0;
        assert(new_c.accounts[i].id == aid);
    }
}

pub open spec fn account_matches(env_id: Seq<char>, id: Seq<char>) -> spec_fn(AccountView) -> bool {
    |a: AccountView| a.id == id && a.env_id == env_id
}

/// The account `account_id` of the environment `env_id`.
pub fn find_account_in(cfg: &AppConfig, env_id: &str, account_id: &str) -> (r: Result<
    Account,
    String,
>)
    ensures
        match first_match(cfg@.accounts, account_matches(env_id@, account_id@)) {
            Some(i) => r matches Ok(a) && a@ == cfg@.accounts[i],
            None => r matches Err(e) && e@ == "Account not found"@,
        },
{
    let mut i: usize = 0;
    while i < cfg.accounts.len()
        invariant
            i <= cfg.accounts@.len(),
            forall|j: int| 0 <= j < i ==> !account_matches(env_id@, account_id@)(cfg@.accounts[j]),
        decreases cfg.accounts@.len() - i,
    {
        if str_eq(cfg.accounts[i].id.as_str(), account_id) && str_eq(
            cfg.accounts[i].env_id.as_str(),
            env_id,
        ) {
            proof {
                lemma_first_match_at(cfg@.accounts, account_matches(env_id@, account_id@), i as int);
            }
            return Ok(copy_account(&cfg.accounts[i]));
        }
        i += 1;
    }
    proof {
        lemma_first_match(cfg@.accounts, account_matches(env_id@, account_id@));
        if first_match(cfg@.accounts, account_matches(env_id@, account_id@)) is Some {
            let k = first_match(cfg@.accounts, account_matches(env_id@, account_id@))->0;
            assert(!account_matches(env_id@, account_id@)(cfg@.accounts[k]));
        }
    }
    Err(owned("Account not found"))
}

/// Record `account_id` of `env_id` as the active selection.
pub fn mark_account_active(cfg: &mut AppConfig, env_id: &str, account_id: &str)
    ensures
        final(cfg)@.environments == old(cfg)@.environments,
        final(cfg)@.accounts == old(cfg)@.accounts,
        final(cfg)@.cursor_app_path == old(cfg)@.cursor_app_path,
        final(cfg)@.active.env_id == Some(env_id@),
        final(cfg)@.active.account_id == Some(account_id@),
{
    cfg.active.env_id = Some(owned(env_id));
    cfg.active.account_id = Some(owned(account_id));
}

/// Forget the active account (the environment stays active).
pub fn clear_active_account(cfg: &mut AppConfig)
    ensures
        final(cfg)@.environments == old(cfg)@.environments,
        final(cfg)@.accounts == old(cfg)@.accounts,
        final(cfg)@.cursor_app_path == old(cfg)@.cursor_app_path,
        final(cfg)@.active.env_id == old(cfg)@.active.env_id,
        final(cfg)@.active.account_id is None,
{
    cfg.active.account_id = None;
}

pub open spec fn name_required() -> Seq<char> {
    "Environment name is required"@
}

pub open spec fn already_exists(name: Seq<char>) -> Seq<char> {
    "Environment \""@ + name + "\" already exists"@
}

/// An environment name, trimmed; it must not be blank.
pub fn validate_environment_name(name: &str) -> (r: Result<String, String>)
    ensures
        trim(name@).len() == 0 ==> (r matches Err(e) && e@ == name_required()),
        trim(name@).len() > 0 ==> (r matches Ok(n) && n@ == trim(name@)),
{
    let n = trim_str(name);
    if n.as_str().unicode_len() == 0 {
        return Err(owned("Environment name is required"));
    }
    Ok(n)
}

/// Some environment other than `except_id` bears `name`, ignoring ASCII case.
pub open spec fn name_taken_spec(c: ConfigView, name: Seq<char>, except_id: Option<Seq<char>>) -> bool {
    exists|i: int|
        0 <= i < c.environments.len() && Some(c.environments[i].id) != except_id
            && eq_ignore_ascii_case_seq(#[trigger] c.environments[i].name, name)
}

pub fn name_taken(cfg: &AppConfig, name: &str, except_id: Option<&str>) -> (r: bool)
    ensures
        r == name_taken_spec(cfg@, name@, opt_str_view(except_id)),
{
    let mut i: usize = 0;
    while i < cfg.environments.len()
        invariant
            i <= cfg.environments@.len(),
            forall|j: int|
                0 <= j < i ==> !(Some(cfg@.environments[j].id) != opt_str_view(except_id)
                    && eq_ignore_ascii_case_seq(#[trigger] cfg@.environments[j].name, name@)),
        decreases cfg.environments@.len() - i,
    {
        let e = &cfg.environments[i];
        if !opt_str_is(except_id, e.id.as_str()) && eq_ignore_ascii_case(e.name.as_str(), name) {
            assert(cfg@.environments[i as int] == e@);
            assert(Some(cfg@.environments[i as int].id) != opt_str_view(except_id)
                && eq_ignore_ascii_case_seq(cfg@.environments[i as int].name, name@));
            return true;
        }
        i += 1;
    }
    false
}

proof fn lemma_eq_ignore_case_symmetric(a: Seq<char>, b: Seq<char>)
    ensures
        eq_ignore_ascii_case_seq(a, b) == eq_ignore_ascii_case_seq(b, a),
{
}

/// A new environment may be named `name` (trimmed) when that is not blank
/// and no environment bears it yet.
pub fn check_new_environment_name(cfg: &AppConfig, name: &str) -> (r: Result<String, String>)
    ensures
        trim(name@).len() == 0 ==> (r matches Err(e) && e@ == name_required()),
        trim(name@).len() > 0 && name_taken_spec(cfg@, trim(name@), None) ==> (r matches Err(e)
            && e@ == already_exists(trim(name@))),
        trim(name@).len() > 0 && !name_taken_spec(cfg@, trim(name@), None) ==> (r matches Ok(n)
            && n@ == trim(name@)),
{
    let n = validate_environment_name(name)?;
    if name_taken(cfg, n.as_str(), None) {
        return Err(cat3("Environment \"", n.as_str(), "\" already exists"));
    }
    Ok(n)
}

/// Add the environment `id` named `name` (trimmed), unless the name is
/// blank or taken; names stay distinct.
pub fn create_environment(cfg: &mut AppConfig, id: String, name: &str) -> (r: Result<(), String>)
    ensures
        trim(name@).len() == 0 ==> (r matches Err(e) && e@ == name_required()),
        trim(name@).len() > 0 && name_taken_spec(old(cfg)@, trim(name@), None) ==> (r matches Err(e)
            && e@ == already_exists(trim(name@))),
        r is Err ==> final(cfg)@ == old(cfg)@,
        trim(name@).len() > 0 && !name_taken_spec(old(cfg)@, trim(name@), None) ==> r is Ok,
        r is Ok ==> {
            &&& trim(name@).len() > 0 && !name_taken_spec(old(cfg)@, trim(name@), None)
            &&& final(cfg)@.environments.len() == old(cfg)@.environments.len() + 1
            &&& final(cfg)@.environments.drop_last() == old(cfg)@.environments
            &&& final(cfg)@.environments.last().id == id@
            &&& final(cfg)@.environments.last().name == trim(name@)
            &&& final(cfg)@.accounts == old(cfg)@.accounts
            &&& final(cfg)@.active == old(cfg)@.active
            &&& final(cfg)@.cursor_app_path == old(cfg)@.cursor_app_path
        },
        r is Ok && env_names_distinct(old(cfg)@) ==> env_names_distinct(final(cfg)@),
        r is Ok && accounts_in_known_envs(old(cfg)@) ==> accounts_in_known_envs(final(cfg)@),
{
    let n = check_new_environment_name(cfg, name)?;
    let ghost before = cfg@;
    let e = Environment { id, name: n, created_at: now_iso() };
    cfg.environments.push(e);
    proof {
        assert(cfg@.environments =~= before.environments.push(e@));
        let c = cfg@;
        let k = before.environments.len() as int;
        assert forall|i: int, j: int|
            env_names_distinct(before) && 0 <= i < c.environments.len() && 0 <= j < c.environments.len() && i != j
                implies !eq_ignore_ascii_case_seq(c.environments[i].name, c.environments[j].name) by {
            if i == k {
                assert(!eq_ignore_ascii_case_seq(before.environments[j].name, trim(name@)));
                lemma_eq_ignore_case_symmetric(before.environments[j].name, trim(name@));
            } else if j == k {
                assert(!eq_ignore_ascii_case_seq(before.environments[i].name, trim(name@)));
            }
        }
        assert forall|i: int| accounts_in_known_envs(before) && 0 <= i < c.accounts.len() implies has_env(c, #[trigger] c.accounts[i].env_id) by {
            let w = choose|w: int| 0 <= w < before.environments.len() && before.environments[w].id == c.accounts[i].env_id;
            assert(c.environments[w] == before.environments[w]);
        }
    }
    Ok(())
}

/// The environment ids are pairwise distinct.
pub open spec fn env_ids_distinct(c: ConfigView) -> bool {
    forall|i: int, j: int|
        0 <= i < c.environments.len() && 0 <= j < c.environments.len() && i != j
            ==> c.environments[i].id != c.environments[j].id
}

/// Rename the environment `id` to `name` (trimmed), unless the name is
/// blank, borne by another environment, or `id` is unknown.
pub fn rename_environment(cfg: &mut AppConfig, id: &str, name: &str) -> (r: Result<(), String>)
    ensures
        trim(name@).len() == 0 ==> (r matches Err(e) && e@ == name_required()),
        trim(name@).len() > 0 && name_taken_spec(old(cfg)@, trim(name@), Some(id@)) ==> (r matches Err(e)
            && e@ == already_exists(trim(name@))),
        trim(name@).len() > 0 && !name_taken_spec(old(cfg)@, trim(name@), Some(id@)) && !has_env(old(cfg)@, id@)
            ==> (r matches Err(e) && e@ == not_found_env()),
        r is Err ==> final(cfg)@ == old(cfg)@,
        trim(name@).len() > 0 && !name_taken_spec(old(cfg)@, trim(name@), Some(id@)) && has_env(
            old(cfg)@,
            id@,
        ) ==> r is Ok,
        r is Ok ==> {
            &&& trim(name@).len() > 0 && !name_taken_spec(old(cfg)@, trim(name@), Some(id@))
            &&& has_env(old(cfg)@, id@)
            &&& final(cfg)@.environments == old(cfg)@.environments.update(
                first_match(old(cfg)@.environments, env_has_id(id@))->0,
                EnvironmentView {
                    name: trim(name@),
                    ..old(cfg)@.environments[first_match(old(cfg)@.environments, env_has_id(id@))->0]
                },
            )
            &&& final(cfg)@.accounts == old(cfg)@.accounts
            &&& final(cfg)@.active == old(cfg)@.active
            &&& final(cfg)@.cursor_app_path == old(cfg)@.cursor_app_path
        },
        r is Ok && env_names_distinct(old(cfg)@) && env_ids_distinct(old(cfg)@) ==> env_names_distinct(final(cfg)@),
        r is Ok && accounts_in_known_envs(old(cfg)@) ==> accounts_in_known_envs(final(cfg)@),
{
    let n = validate_environment_name(name)?;
    if name_taken(cfg, n.as_str(), Some(id)) {
        return Err(cat3("Environment \"", n.as_str(), "\" already exists"));
    }
    let mut i: usize = 0;
    while i < cfg.environments.len()
        invariant
            i <= cfg.environments@.len(),
            forall|j: int| 0 <= j < i ==> !env_has_id(id@)(cfg@.environments[j]),
            cfg@ == old(cfg)@,
            n@ == trim(name@),
            trim(name@).len() > 0,
            !name_taken_spec(old(cfg)@, trim(name@), Some(id@)),
        decreases cfg.environments@.len() - i,
    {
        if str_eq(cfg.environments[i].id.as_str(), id) {
            proof {
                lemma_first_match_at(cfg@.environments, env_has_id(id@), i as int);
                assert(cfg@.environments[i as int].id == id@);
                assert(has_env(cfg@, id@));
            }
            let ghost before = cfg@;
            let old_e = &cfg.environments[i];
            let e = Environment {
                id: owned(old_e.id.as_str()),
                name: n,
                created_at: owned(old_e.created_at.as_str()),
            };
            let ghost ev = e@;
            cfg.environments.set(i, e);
            proof {
                let c = cfg@;
                assert(ev == EnvironmentView { name: trim(name@), ..before.environments[i as int] });
                assert(c.environments =~= before.environments.update(i as int, ev));
                assert forall|a: int, b: int|
                    env_names_distinct(before) && env_ids_distinct(before) && 0 <= a < c.environments.len() && 0 <= b < c.environments.len() && a != b
                        implies !eq_ignore_ascii_case_seq(c.environments[a].name, c.environments[b].name) by {
                    if a == i {
                        assert(before.environments[b].id != id@);
                        assert(!(Some(before.environments[b].id) != Some(id@) && eq_ignore_ascii_case_seq(before.environments[b].name, trim(name@))));
                        lemma_eq_ignore_case_symmetric(before.environments[b].name, trim(name@));
                    } else if b == i {
                        assert(before.environments[a].id != id@);
                        assert(!(Some(before.environments[a].id) != Some(id@) && eq_ignore_ascii_case_seq(before.environments[a].name, trim(name@))));
                    }
                }
                assert forall|k: int| accounts_in_known_envs(before) && 0 <= k < c.accounts.len() implies has_env(c, #[trigger] c.accounts[k].env_id) by {
                    let w = choose|w: int| 0 <= w < before.environments.len() && before.environments[w].id == c.accounts[k].env_id;
                    assert(c.environments[w].id == before.environments[w].id);
                }
            }
            return Ok(());
        }
        i += 1;
    }
    proof {
        assert(!has_env(cfg@, id@)) by {
            if has_env(cfg@, id@) {
                let w = choose|w: int| 0 <= w < cfg@.environments.len() && cfg@.environments[w].id == id@;
                assert(!env_has_id(id@)(cfg@.environments[w]));
            }
        }
    }
    Err(owned("Environment not found"))
}

/// Deleting `id` is refused when it is unknown, active, or the only
/// environment.
pub fn delete_environment_check(cfg: &AppConfig, id: &str) -> (r: Result<(), String>)
    ensures
        !has_env(cfg@, id@) ==> (r matches Err(e) && e@ == not_found_env()),
        has_env(cfg@, id@) && cfg@.active.env_id == Some(id@) ==> (r matches Err(e) && e@
            == "Cannot delete the current environment. Switch to another environment first."@),
        has_env(cfg@, id@) && cfg@.active.env_id != Some(id@) && cfg@.environments.len() <= 1
            ==> (r matches Err(e) && e@ == "Cannot delete the only environment."@),
        r is Ok <==> (has_env(cfg@, id@) && cfg@.active.env_id != Some(id@)
            && cfg@.environments.len() > 1),
{
    if !environment_exists(cfg, id) {
        return Err(owned("Environment not found"));
    }
    if opt_str_is(active_env_id(cfg), id) {
        return Err(
            owned("Cannot delete the current environment. Switch to another environment first."),
        );
    }
    if cfg.environments.len() <= 1 {
        return Err(owned("Cannot delete the only environment."));
    }
    Ok(())
}

/// The folders trashed when `id` is deleted, each with its progress label:
/// its two pool entries and its saved logins.
pub fn delete_environment_paths(home: &str, id: &str) -> (r: Vec<(String, String)>)
    ensures
        r@.len() == 3,
        r@[0].0@ == spec_inactive_data_dir(home@, id@),
        r@[1].0@ == spec_inactive_dot_cursor_dir(home@, id@),
        r@[2].0@ == spec_accounts_dir(home@, id@),
        r@[0].1@ == "Moving Application Support to Trash…"@,
        r@[1].1@ == "Moving ~/.cursor to Trash…"@,
        r@[2].1@ == "Removing saved logins…"@,
{
    vec![
        (inactive_data_dir(home, id), owned("Moving Application Support to Trash…")),
        (inactive_dot_cursor_dir(home, id), owned("Moving ~/.cursor to Trash…")),
        (accounts_dir(home, id), owned("Removing saved logins…")),
    ]
}

/// Drop the environment `id` and every account that belongs to it; the
/// rest keeps its order.
pub fn remove_environment(cfg: &mut AppConfig, id: &str)
    ensures
        final(cfg)@.environments == keep(old(cfg)@.environments, env_lacks_id(id@)),
        final(cfg)@.accounts == keep(old(cfg)@.accounts, account_outside_env(id@)),
        final(cfg)@.active == old(cfg)@.active,
        final(cfg)@.cursor_app_path == old(cfg)@.cursor_app_path,
{
    let mut envs: Vec<Environment> = Vec::new();
    let mut i: usize = 0;
    assert(cfg@.environments.take(0) =~= Seq::<EnvironmentView>::empty());
    assert(env_views(envs@) =~= Seq::<EnvironmentView>::empty());
    while i < cfg.environments.len()
        invariant
            i <= cfg.environments@.len(),
            env_views(envs@) == keep(cfg@.environments.take(i as int), env_lacks_id(id@)),
        decreases cfg.environments@.len() - i,
    {
        let ghost before = envs@;
        assert(cfg@.environments.take(i + 1).drop_last() =~= cfg@.environments.take(i as int));
        assert(cfg@.environments.take(i + 1).last() == cfg.environments[i as int]@);
        if !str_eq(cfg.environments[i].id.as_str(), id) {
            let e = copy_environment(&cfg.environments[i]);
            envs.push(e);
            assert(env_views(envs@) =~= env_views(before).push(e@));
        }
        i += 1;
    }
    assert(cfg@.environments.take(i as int) =~= cfg@.environments);
    let mut accts: Vec<Account> = Vec::new();
    let mut k: usize = 0;
    assert(cfg@.accounts.take(0) =~= Seq::<AccountView>::empty());
    assert(account_views(accts@) =~= Seq::<AccountView>::empty());
    while k < cfg.accounts.len()
        invariant
            k <= cfg.accounts@.len(),
            account_views(accts@) == keep(cfg@.accounts.take(k as int), account_outside_env(id@)),
        decreases cfg.accounts@.len() - k,
    {
        let ghost before = accts@;
        assert(cfg@.accounts.take(k + 1).drop_last() =~= cfg@.accounts.take(k as int));
        assert(cfg@.accounts.take(k + 1).last() == cfg.accounts[k as int]@);
        if !str_eq(cfg.accounts[k].env_id.as_str(), id) {
            let a = copy_account(&cfg.accounts[k]);
            accts.push(a);
            assert(account_views(accts@) =~= account_views(before).push(a@));
        }
        k += 1;
    }
    assert(cfg@.accounts.take(k as int) =~= cfg@.accounts);
    cfg.environments = envs;
    cfg.accounts = accts;
}

/// After an environment is removed, no account refers to it, and every
/// account that belonged to a remaining environment still does.
pub proof fn lemma_remove_environment(old_c: ConfigView, new_c: ConfigView, id: Seq<char>)
    requires
        new_c.environments == keep(old_c.environments, env_lacks_id(id)),
        new_c.accounts == keep(old_c.accounts, account_outside_env(id)),
    ensures
        forall|i: int| 0 <= i < new_c.accounts.len() ==> #[trigger] new_c.accounts[i].env_id != id,
        !has_env(new_c, id),
        accounts_in_known_envs(old_c) ==> accounts_in_known_envs(new_c),
{
    lemma_keep(old_c.environments, env_lacks_id(id));
    lemma_keep(old_c.accounts, account_outside_env(id));
    assert forall|i: int| 0 <= i < new_c.accounts.len() implies #[trigger] new_c.accounts[i].env_id != id by {
        assert(new_c.accounts.contains(new_c.accounts[i]));
    }
    if has_env(new_c, id) {
        let w = choose|w: int| 0 <= w < new_c.environments.len() && new_c.environments[w].id == id;
        assert(new_c.environments.contains(new_c.environments[w]));
    }
    if accounts_in_known_envs(old_c) {
        assert forall|i: int| 0 <= i < new_c.accounts.len() implies has_env(new_c, #[trigger] new_c.accounts[i].env_id) by {
            let a = new_c.accounts[i];
            assert(new_c.accounts.contains(a));
            let w = choose|w: int| 0 <= w < old_c.accounts.len() && old_c.accounts[w] == a;
            assert(has_env(old_c, old_c.accounts[w].env_id));
            let v = choose|v: int| 0 <= v < old_c.environments.len() && old_c.environments[v].id == a.env_id;
            let e = old_c.environments[v];
            assert(old_c.environments.contains(e));
            assert(new_c.environments.contains(e));
            let u = choose|u: int| 0 <= u < new_c.environments.len() && new_c.environments[u] == e;
        }
    }
}

/// The account added while its login is pending.
pub open spec fn pending_account(env_id: Seq<char>, id: Seq<char>, a: AccountView) -> bool {
    &&& a.id == id
    &&& a.env_id == env_id
    &&& a.name == "Signing in…"@
    &&& a.email is None
    &&& a.pending_login
}

/// Add the account `id` to `env_id` with its login pending, and select it.
pub fn add_pending_account(cfg: &mut AppConfig, env_id: &str, id: String)
    ensures
        final(cfg)@.environments == old(cfg)@.environments,
        final(cfg)@.accounts.len() == old(cfg)@.accounts.len() + 1,
        final(cfg)@.accounts.drop_last() == old(cfg)@.accounts,
        pending_account(env_id@, id@, final(cfg)@.accounts.last()),
        needs_identity(final(cfg)@.accounts.last()),
        final(cfg)@.active.env_id == Some(env_id@),
        final(cfg)@.active.account_id == Some(id@),
        final(cfg)@.cursor_app_path == old(cfg)@.cursor_app_path,
        has_env(old(cfg)@, env_id@) && accounts_in_known_envs(old(cfg)@) ==> accounts_in_known_envs(final(cfg)@),
{
    let ghost before = cfg@;
    let a = Account {
        id: owned(id.as_str()),
        env_id: owned(env_id),
        name: owned("Signing in…"),
        email: None,
        updated_at: now_iso(),
        pending_login: true,
    };
    let ghost av = a@;
    cfg.accounts.push(a);
    cfg.active.env_id = Some(owned(env_id));
    cfg.active.account_id = Some(id);
    assert(cfg@.accounts =~= before.accounts.push(av));
    assert(cfg@.accounts.drop_last() =~= before.accounts);
}

/// Deleting the account `id`: it must exist, and when it is the active
/// account Cursor must not run. Gives a copy of the account and whether it
/// was active.
pub fn delete_account_check(cfg: &AppConfig, id: &str, cursor_running: bool) -> (r: Result<
    (Account, bool),
    String,
>)
    ensures
        match first_match(cfg@.accounts, account_has_id(id@)) {
            None => r matches Err(e) && e@ == "Account not found"@,
            Some(i) => if cfg@.active.account_id == Some(id@) && cursor_running {
                r matches Err(e) && e@
                    == "Cursor is still running. Wait for it to quit before deleting the current account."@
            } else {
                r matches Ok(p) && p.0@ == cfg@.accounts[i] && p.1 == (cfg@.active.account_id
                    == Some(id@))
            },
        },
{
    proof {
        lemma_first_match(cfg@.accounts, account_has_id(id@));
    }
    let i = match find_account_index(cfg, id) {
        Some(i) => i,
        None => return Err(owned("Account not found")),
    };
    let account = copy_account(&cfg.accounts[i]);
    let is_active = match &cfg.active.account_id {
        Some(a) => str_eq(a.as_str(), id),
        None => false,
    };
    if is_active && cursor_running {
        return Err(
            owned(
                "Cursor is still running. Wait for it to quit before deleting the current account.",
            ),
        );
    }
    Ok((account, is_active))
}

/// Drop every account with the id `id`. When it was the active account,
/// the first remaining account of `env_id` (if any) becomes active; its id
/// is returned so that its login can be written.
pub fn remove_account(cfg: &mut AppConfig, id: &str, env_id: &str, was_active: bool) -> (r:
    Option<String>)
    ensures
        final(cfg)@.environments == old(cfg)@.environments,
        final(cfg)@.accounts == keep(old(cfg)@.accounts, account_lacks_id(id@)),
        final(cfg)@.active.env_id == old(cfg)@.active.env_id,
        final(cfg)@.cursor_app_path == old(cfg)@.cursor_app_path,
        !was_active ==> r is None && final(cfg)@.active.account_id == old(cfg)@.active.account_id,
        was_active ==> final(cfg)@.active.account_id == opt_view(r) && match first_match(
            final(cfg)@.accounts,
            account_in_env(env_id@),
        ) {
            Some(k) => r matches Some(n) && n@ == final(cfg)@.accounts[k].id,
            None => r is None,
        },
        accounts_in_known_envs(old(cfg)@) ==> accounts_in_known_envs(final(cfg)@),
{
    let mut accts: Vec<Account> = Vec::new();
    let mut k: usize = 0;
    assert(cfg@.accounts.take(0) =~= Seq::<AccountView>::empty());
    assert(account_views(accts@) =~= Seq::<AccountView>::empty());
    while k < cfg.accounts.len()
        invariant
            k <= cfg.accounts@.len(),
            account_views(accts@) == keep(cfg@.accounts.take(k as int), account_lacks_id(id@)),
        decreases cfg.accounts@.len() - k,
    {
        let ghost before = accts@;
        assert(cfg@.accounts.take(k + 1).drop_last() =~= cfg@.accounts.take(k as int));
        assert(cfg@.accounts.take(k + 1).last() == cfg.accounts[k as int]@);
        if !str_eq(cfg.accounts[k].id.as_str(), id) {
            let a = copy_account(&cfg.accounts[k]);
            accts.push(a);
            assert(account_views(accts@) =~= account_views(before).push(a@));
        }
        k += 1;
    }
    assert(cfg@.accounts.take(k as int) =~= cfg@.accounts);
    let ghost old_c = cfg@;
    cfg.accounts = accts;
    proof {
        lemma_keep(old_c.accounts, account_lacks_id(id@));
        if accounts_in_known_envs(old_c) {
            assert forall|i: int| 0 <= i < cfg@.accounts.len() implies has_env(cfg@, #[trigger] cfg@.accounts[i].env_id) by {
                let a = cfg@.accounts[i];
                assert(cfg@.accounts.contains(a));
                let w = choose|w: int| 0 <= w < old_c.accounts.len() && old_c.accounts[w] == a;
                assert(has_env(old_c, old_c.accounts[w].env_id));
                let v = choose|v: int| 0 <= v < old_c.environments.len() && old_c.environments[v].id == a.env_id;
                assert(cfg@.environments[v].id == a.env_id);
            }
        }
    }
    if !was_active {
        return None;
    }
    proof {
        lemma_first_match(cfg@.accounts, account_in_env(env_id@));
    }
    let next = match find_account_in_env_index(cfg, env_id) {
        Some(j) => Some(owned(cfg.accounts[j].id.as_str())),
        None => None,
    };
    cfg.active.account_id = copy_opt(&next);
    next
}

pub open spec fn still_running_launch() -> Seq<char> {
    "Cursor is still running. Wait for it to quit before launching."@
}

/// Launching `env_id` (with `account_id`, if given) is refused for an
/// unknown environment and while Cursor runs; running the very selection
/// that is active has its own message.
pub fn launch_check(cfg: &AppConfig, env_id: &str, account_id: Option<&str>, cursor_running: bool)
    -> (r: Result<(), String>)
    ensures
        !has_env(cfg@, env_id@) ==> (r matches Err(e) && e@ == not_found_env()),
        has_env(cfg@, env_id@) && !cursor_running ==> r is Ok,
        has_env(cfg@, env_id@) && cursor_running ==> (r matches Err(e) && e@ == if account_id is Some
            && cfg@.active.env_id == Some(env_id@) && cfg@.active.account_id == opt_str_view(
            account_id,
        ) {
            "Cursor is already running with this account."@
        } else {
            still_running_launch()
        }),
{
    if !environment_exists(cfg, env_id) {
        return Err(owned("Environment not found"));
    }
    match account_id {
        Some(aid) => {
            let same = opt_str_is(active_env_id(cfg), env_id) && match &cfg.active.account_id {
                Some(a) => str_eq(a.as_str(), aid),
                None => false,
            };
            if cursor_running && same {
                return Err(owned("Cursor is already running with this account."));
            }
            if cursor_running {
                return Err(owned("Cursor is still running. Wait for it to quit before launching."));
            }
        },
        None => {
            if cursor_running {
                return Err(owned("Cursor is still running. Wait for it to quit before launching."));
            }
        },
    }
    Ok(())
}

/// Copying the live folders into `env_id` is refused for an unknown or the
/// active environment, and while Cursor runs.
pub fn copy_environment_check(cfg: &AppConfig, env_id: &str, cursor_running: bool) -> (r: Result<
    (),
    String,
>)
    ensures
        !has_env(cfg@, env_id@) ==> (r matches Err(e) && e@ == not_found_env()),
        has_env(cfg@, env_id@) && cfg@.active.env_id == Some(env_id@) ==> (r matches Err(e) && e@
            == "Cannot copy into the current environment."@),
        has_env(cfg@, env_id@) && cfg@.active.env_id != Some(env_id@) && cursor_running ==> (r matches Err(e)
            && e@
            == "Quit Cursor before copying the current environment (data files may be locked)."@),
        r is Ok <==> (has_env(cfg@, env_id@) && cfg@.active.env_id != Some(env_id@)
            && !cursor_running),
{
    if !environment_exists(cfg, env_id) {
        return Err(owned("Environment not found"));
    }
    if opt_str_is(active_env_id(cfg), env_id) {
        return Err(owned("Cannot copy into the current environment."));
    }
    if cursor_running {
        return Err(
            owned("Quit Cursor before copying the current environment (data files may be locked)."),
        );
    }
    Ok(())
}

/// Adding an account is refused while Cursor runs or for an unknown environment.
pub fn create_account_check(cfg: &AppConfig, env_id: &str, cursor_running: bool) -> (r: Result<
    (),
    String,
>)
    ensures
        cursor_running ==> (r matches Err(e) && e@
            == "Cursor is still running. Wait for it to quit before adding an account."@),
        !cursor_running && !has_env(cfg@, env_id@) ==> (r matches Err(e) && e@ == not_found_env()),
        r is Ok <==> (!cursor_running && has_env(cfg@, env_id@)),
{
    if cursor_running {
        return Err(owned("Cursor is still running. Wait for it to quit before adding an account."));
    }
    if !environment_exists(cfg, env_id) {
        return Err(owned("Environment not found"));
    }
    Ok(())
}

/// Switching accounts is refused while Cursor runs.
pub fn switch_account_check(cursor_running: bool) -> (r: Result<(), String>)
    ensures
        cursor_running ==> (r matches Err(e) && e@
            == "Cursor is still running. Wait for it to quit before switching accounts."@),
        !cursor_running ==> r is Ok,
{
    if cursor_running {
        return Err(owned("Cursor is still running. Wait for it to quit before switching accounts."));
    }
    Ok(())
}

/// What the first-launch bootstrap did to the configuration.
#[derive(Debug, Clone, Copy, PartialEq, Eq)]
pub enum BootstrapStep {
    /// Environments exist and one is active.
    Ready,
    /// Environments exist; the first one became active.
    ActivatedFirst,
    /// There was none; a "Default" environment was created and made active.
    CreatedDefault,
}

/// First launch registers the live folders as the "Default" environment
/// and adopts the login found in them (`live`, the snapshot read from the
/// live database) as its account when it holds tokens; the caller then
/// saves that account's snapshot, saves the configuration and writes the
/// storage marker. Later launches make sure some environment is active.
pub fn bootstrap_default_environment(cfg: &mut AppConfig, live: &AuthSnapshot) -> (r: BootstrapStep)
    ensures
        final(cfg)@.cursor_app_path == old(cfg)@.cursor_app_path,
        old(cfg)@.environments.len() > 0 && old(cfg)@.active.env_id is Some ==> r == BootstrapStep::Ready
            && final(cfg)@ == old(cfg)@,
        old(cfg)@.environments.len() > 0 && old(cfg)@.active.env_id is None ==> r
            == BootstrapStep::ActivatedFirst && final(cfg)@.environments == old(cfg)@.environments
            && final(cfg)@.accounts == old(cfg)@.accounts
            && final(cfg)@.active.account_id == old(cfg)@.active.account_id
            && final(cfg)@.active.env_id == Some(old(cfg)@.environments[0].id),
        old(cfg)@.environments.len() == 0 ==> r == BootstrapStep::CreatedDefault
            && final(cfg)@.environments.len() == 1 && final(cfg)@.environments[0].name
            == "Default"@ && final(cfg)@.active.env_id == Some(final(cfg)@.environments[0].id),
        old(cfg)@.environments.len() == 0 && non_empty_value(*live, ACCESS_TOKEN_KEY@) is Some ==> {
            &&& final(cfg)@.accounts.len() == old(cfg)@.accounts.len() + 1
            &&& final(cfg)@.accounts.drop_last() == old(cfg)@.accounts
            &&& captured_account(
                final(cfg)@.environments[0].id,
                final(cfg)@.accounts.last().id,
                *live,
                final(cfg)@.accounts.last(),
            )
            &&& final(cfg)@.active.account_id == Some(final(cfg)@.accounts.last().id)
        },
        old(cfg)@.environments.len() == 0 && non_empty_value(*live, ACCESS_TOKEN_KEY@) is None
            ==> final(cfg)@.accounts == old(cfg)@.accounts && final(cfg)@.active.account_id
            == old(cfg)@.active.account_id,
        final(cfg)@.environments.len() > 0,
{
    if cfg.environments.len() > 0 {
        if cfg.active.env_id.is_none() {
            cfg.active.env_id = Some(owned(cfg.environments[0].id.as_str()));
            assert(cfg@.environments[0].id == cfg@.active.env_id->0);
            return BootstrapStep::ActivatedFirst;
        }
        return BootstrapStep::Ready;
    }
    let id = new_id();
    let e = Environment { id: owned(id.as_str()), name: owned("Default"), created_at: now_iso() };
    let ghost ev = e@;
    cfg.environments.push(e);
    cfg.active.env_id = Some(owned(id.as_str()));
    assert(cfg@.environments[0] == ev);
    if has_login_tokens(live) {
        let account_id = new_id();
        add_captured_account(cfg, id.as_str(), account_id, live);
    }
    BootstrapStep::CreatedDefault
}

/// The account recorded when the live login of `env_id` is adopted.
pub open spec fn captured_account(env_id: Seq<char>, id: Seq<char>, snap: AuthSnapshot, a: AccountView) -> bool {
    &&& a.id == id
    &&& a.env_id == env_id
    &&& a.name == match spec_display_name(snap) {
        Some(n) => n,
        None => "Signed-in account"@,
    }
    &&& a.email == non_empty_value(snap, CACHED_EMAIL_KEY@)
    &&& !a.pending_login
}

/// Adopt the login found in `env_id`'s live folders as the new account
/// `id`, but only when the snapshot holds login tokens; says whether it
/// did. Without tokens the configuration is left as it was.
pub fn capture_signed_in_login(cfg: &mut AppConfig, env_id: &str, id: String, snap: &AuthSnapshot) -> (r:
    bool)
    ensures
        r == (non_empty_value(*snap, ACCESS_TOKEN_KEY@) is Some),
        !r ==> final(cfg)@ == old(cfg)@,
        r ==> {
            &&& final(cfg)@.environments == old(cfg)@.environments
            &&& final(cfg)@.accounts.len() == old(cfg)@.accounts.len() + 1
            &&& final(cfg)@.accounts.drop_last() == old(cfg)@.accounts
            &&& captured_account(env_id@, id@, *snap, final(cfg)@.accounts.last())
            &&& final(cfg)@.active.env_id == old(cfg)@.active.env_id
            &&& final(cfg)@.active.account_id == Some(id@)
            &&& final(cfg)@.cursor_app_path == old(cfg)@.cursor_app_path
        },
{
    if !has_login_tokens(snap) {
        return false;
    }
    add_captured_account(cfg, env_id, id, snap);
    true
}

/// Record the signed-in login found in `env_id` as the account `id`, named
/// after its profile (or email), and select it.
pub fn add_captured_account(cfg: &mut AppConfig, env_id: &str, id: String, snap: &AuthSnapshot)
    ensures
        final(cfg)@.environments == old(cfg)@.environments,
        final(cfg)@.accounts.len() == old(cfg)@.accounts.len() + 1,
        final(cfg)@.accounts.drop_last() == old(cfg)@.accounts,
        captured_account(env_id@, id@, *snap, final(cfg)@.accounts.last()),
        final(cfg)@.active.env_id == old(cfg)@.active.env_id,
        final(cfg)@.active.account_id == Some(id@),
        final(cfg)@.cursor_app_path == old(cfg)@.cursor_app_path,
        has_env(old(cfg)@, env_id@) && accounts_in_known_envs(old(cfg)@) ==> accounts_in_known_envs(final(cfg)@),
{
    let ghost before = cfg@;
    let name = match display_name_from_snapshot(snap) {
        Some(n) => n,
        None => owned("Signed-in account"),
    };
    let a = Account {
        id: owned(id.as_str()),
        env_id: owned(env_id),
        name,
        email: email_from_snapshot(snap),
        updated_at: now_iso(),
        pending_login: false,
    };
    let ghost av = a@;
    cfg.accounts.push(a);
    cfg.active.account_id = Some(id);
    assert(cfg@.accounts =~= before.accounts.push(av));
    assert(cfg@.accounts.drop_last() =~= before.accounts);
    proof {
        if has_env(before, env_id@) && accounts_in_known_envs(before) {
            assert forall|i: int| 0 <= i < cfg@.accounts.len() implies has_env(cfg@, #[trigger] cfg@.accounts[i].env_id) by {
                let x = cfg@.accounts[i].env_id;
                if i < before.accounts.len() {
                    assert(cfg@.accounts[i] == before.accounts[i]);
                    assert(has_env(before, before.accounts[i].env_id));
                }
                let v = choose|v: int| 0 <= v < before.environments.len() && before.environments[v].id == x;
                assert(cfg@.environments[v].id == x);
            }
        }
    }
}

/// The environment whose live login is adopted on listing: the active one,
/// when no account belongs to it yet.
pub open spec fn spec_adoption_env(c: ConfigView) -> Option<Seq<char>> {
    match c.active.env_id {
        Some(e) => if first_match(c.accounts, account_in_env(e)) is None {
            Some(e)
        } else {
            None
        },
        None => None,
    }
}

pub fn live_login_adoption_env(cfg: &AppConfig) -> (r: Option<String>)
    ensures
        opt_view(r) == spec_adoption_env(cfg@),
{
    match &cfg.active.env_id {
        Some(e) => match find_account_in_env_index(cfg, e.as_str()) {
            Some(_) => None,
            None => Some(owned(e.as_str())),
        },
        None => None,
    }
}

/// A pool folder named `name` is an orphan when it carries `prefix` and
/// what follows names no configured environment.
pub open spec fn spec_orphan(c: ConfigView, name: Seq<char>, prefix: Seq<char>) -> bool {
    is_prefix_of(prefix, name) && !has_env(c, name.skip(prefix.len() as int))
}

pub fn is_orphan_pool_entry(cfg: &AppConfig, name: &str, prefix: &str) -> (r: bool)
    ensures
        r == spec_orphan(cfg@, name@, prefix@),
{
    if !starts_with(name, prefix) {
        return false;
    }
    let n = name.unicode_len();
    let p = prefix.unicode_len();
    let id = name.substring_char(p, n);
    assert(id@ =~= name@.skip(p as int));
    !environment_exists(cfg, id)
}

/// The pool folder of a configured environment is never an orphan,
/// whatever its position in the list; a name with the prefix is an orphan
/// exactly when no environment has the id that follows the prefix, and a
/// name without the prefix never is.
pub proof fn lemma_configured_pool_entries_kept(c: ConfigView, name: Seq<char>, prefix: Seq<char>)
    ensures
        forall|i: int|
            0 <= i < c.environments.len() ==> !spec_orphan(
                c,
                prefix + #[trigger] c.environments[i].id,
                prefix,
            ),
        spec_orphan(c, name, prefix) <==> (name.len() >= prefix.len() && name.take(
            prefix.len() as int,
        ) == prefix && forall|i: int|
            0 <= i < c.environments.len() ==> #[trigger] c.environments[i].id != name.skip(
                prefix.len() as int,
            )),
{
    assert forall|i: int| 0 <= i < c.environments.len() implies !spec_orphan(
        c,
        prefix + #[trigger] c.environments[i].id,
        prefix,
    ) by {
        let full = prefix + c.environments[i].id;
        assert(full.take(prefix.len() as int) =~= prefix);
        assert(full.skip(prefix.len() as int) =~= c.environments[i].id);
    }
}

/// Refreshing a settled account from a snapshot with a non-empty email
/// sets that email and names the account after the snapshot's profile
/// name, or after the email when the snapshot has none; id, environment,
/// pending flag and time stamp are kept. A pending account is untouched.
pub proof fn lemma_refresh_names_after_profile(old: AccountView, snap: AuthSnapshot)
    ensures
        old.pending_login ==> refreshed(old, snap) == old,
        !old.pending_login && non_empty_value(snap, CACHED_EMAIL_KEY@) is Some ==> {
            let e = non_empty_value(snap, CACHED_EMAIL_KEY@)->Some_0;
            let r = refreshed(old, snap);
            &&& r.email == Some(e)
            &&& r.name == match spec_profile_name(snap) {
                Some(p) => p,
                None => e,
            }
            &&& r.id == old.id && r.env_id == old.env_id
            &&& r.pending_login == old.pending_login && r.updated_at == old.updated_at
        },
        !old.pending_login && non_empty_value(snap, CACHED_EMAIL_KEY@) is None ==> {
            let r = refreshed(old, snap);
            &&& r.email == old.email
            &&& r.name == match spec_profile_name(snap) {
                Some(p) => p,
                None => old.name,
            }
            &&& r.id == old.id && r.env_id == old.env_id
            &&& r.pending_login == old.pending_login && r.updated_at == old.updated_at
        },
{
}

/// Before the live login of `env_id` changes, the active account's tokens
/// are saved whenever that account exists (its id used once), belongs to
/// `env_id` and is not pending, wherever it stands among the accounts.
/// Whatever is saved is the active account, and it is such an account.
pub proof fn lemma_active_account_saved(c: ConfigView, env_id: Seq<char>, i: int)
    ensures
        0 <= i < c.accounts.len() && c.active.account_id == Some(c.accounts[i].id)
            && c.accounts[i].env_id == env_id && !c.accounts[i].pending_login && (forall|j: int|
            0 <= j < c.accounts.len() && j != i ==> c.accounts[j].id != c.accounts[i].id)
            ==> spec_account_to_save(c, env_id) == Some(c.accounts[i].id),
        spec_account_to_save(c, env_id) matches Some(x) ==> c.active.account_id == Some(x) && exists|
            k: int,
        |
            0 <= k < c.accounts.len() && #[trigger] c.accounts[k].id == x && c.accounts[k].env_id
                == env_id && !c.accounts[k].pending_login,
        c.active.account_id is None ==> spec_account_to_save(c, env_id) is None,
{
    match c.active.account_id {
        Some(aid) => {
            lemma_first_match(c.accounts, account_has_id(aid));
            if 0 <= i < c.accounts.len() && c.accounts[i].id == aid && (forall|j: int|
                0 <= j < c.accounts.len() && j != i ==> c.accounts[j].id != c.accounts[i].id) {
                lemma_first_match_at(c.accounts, account_has_id(aid), i);
            }
        },
        None => {},
    }
}

/// A pending login is captured exactly when the database holds a
/// non-empty token and a non-empty email, and it is captured with that
/// email; a token without the email keeps the account waiting.
pub proof fn lemma_capture_waits_for_email(snap: AuthSnapshot, e: Seq<char>)
    ensures
        spec_pending_capture(snap) == Some(e) <==> (snap.value_of(ACCESS_TOKEN_KEY@) matches Some(
            t,
        ) && t.len() > 0 && snap.value_of(CACHED_EMAIL_KEY@) == Some(e) && e.len() > 0),
{
}

/// The live login is adopted for the active environment exactly when no
/// account, at any position, belongs to it; never when none is active.
pub proof fn lemma_adoption_only_for_empty_env(c: ConfigView, e: Seq<char>)
    ensures
        spec_adoption_env(c) == Some(e) <==> (c.active.env_id == Some(e) && forall|i: int|
            0 <= i < c.accounts.len() ==> #[trigger] c.accounts[i].env_id != e),
        c.active.env_id is None ==> spec_adoption_env(c) is None,
{
    lemma_first_match(c.accounts, account_in_env(e));
    if c.active.env_id == Some(e) && first_match(c.accounts, account_in_env(e)) is Some {
        let i = first_match(c.accounts, account_in_env(e))->Some_0;
        assert(c.accounts[i].env_id == e);
    }
}

/// When the environment `env_id` becomes active, the active account stays
/// selected exactly when it exists (its id used once) and belongs to
/// `env_id`, wherever it stands among the accounts.
pub proof fn lemma_account_stays_in_its_env(c: ConfigView, env_id: Seq<char>, i: int)
    requires
        0 <= i < c.accounts.len(),
        c.active.account_id == Some(c.accounts[i].id),
        forall|j: int| 0 <= j < c.accounts.len() && j != i ==> c.accounts[j].id != c.accounts[i].id,
    ensures
        account_stays(c, env_id) <==> c.accounts[i].env_id == env_id,
{
    lemma_first_match_at(c.accounts, account_has_id(c.accounts[i].id), i);
}

} // verus!
