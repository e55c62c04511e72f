//! The on-disk layout and the configuration model.
//!
//! The live Cursor folders are `~/Library/Application Support/Cursor` and
//! `~/.cursor`; every inactive environment keeps its copies beside them
//! under names made of a fixed prefix and the environment's id. Paths are
//! '/'-separated strings built from the home directory, which the caller
//! reads from the process environment.
use vstd::prelude::*;

use crate::text::{cat, cat3, join, join_path, owned};

verus! {

/// Inactive Application Support folder: `Cursor.multi-cursor.<envId>`
pub const DATA_INACTIVE_PREFIX: &'static str = "Cursor.multi-cursor.";

/// Inactive home folder: `.cursor.multi-cursor.<envId>`
pub const DOT_INACTIVE_PREFIX: &'static str = ".cursor.multi-cursor.";

/// Marks the temporary parking names used when no environment was active.
pub const SWAP_TOKEN: &'static str = "__swap__";

/// An isolated set of Cursor folders.
#[derive(Debug, Clone)]
pub struct Environment {
    pub id: String,
    pub name: String,
    pub created_at: String,
}

/// A Cursor login saved for one environment.
#[derive(Debug, Clone)]
pub struct Account {
    pub id: String,
    pub env_id: String,
    pub name: String,
    pub email: Option<String>,
    pub updated_at: String,
    pub pending_login: bool,
}

/// The environment and account that currently own the live folders.
#[derive(Debug, Clone)]
pub struct ActiveSelection {
    pub env_id: Option<String>,
    pub account_id: Option<String>,
}

/// Everything Multi Cursor stores in `config.json`.
#[derive(Debug, Clone)]
pub struct AppConfig {
    pub environments: Vec<Environment>,
    pub accounts: Vec<Account>,
    pub active: ActiveSelection,
    pub cursor_app_path: String,
}

pub struct EnvironmentView {
    pub id: Seq<char>,
    pub name: Seq<char>,
    pub created_at: Seq<char>,
}

pub struct AccountView {
    pub id: Seq<char>,
    pub env_id: Seq<char>,
    pub name: Seq<char>,
    pub email: Option<Seq<char>>,
    pub updated_at: Seq<char>,
    pub pending_login: bool,
}

pub struct ActiveView {
    pub env_id: Option<Seq<char>>,
    pub account_id: Option<Seq<char>>,
}

pub struct ConfigView {
    pub environments: Seq<EnvironmentView>,
    pub accounts: Seq<AccountView>,
    pub active: ActiveView,
    pub cursor_app_path: Seq<char>,
}

/// The characters of an optional string.
pub open spec fn opt_view(o: Option<String>) -> Option<Seq<char>> {
    match o {
        Some(s) => Some(s@),
        None => None,
    }
}

impl View for Environment {
    type V = EnvironmentView;

    open spec fn view(&self) -> EnvironmentView {
        EnvironmentView { id: self.id@, name: self.name@, created_at: self.created_at@ }
    }
}

impl View for Account {
    type V = AccountView;

    open spec fn view(&self) -> AccountView {
        AccountView {
            id: self.id@,
            env_id: self.env_id@,
            name: self.name@,
            email: opt_view(self.email),
            updated_at: self.updated_at@,
            pending_login: self.pending_login,
        }
    }
}

impl View for ActiveSelection {
    type V = ActiveView;

    open spec fn view(&self) -> ActiveView {
        ActiveView { env_id: opt_view(self.env_id), account_id: opt_view(self.account_id) }
    }
}

pub open spec fn env_views(s: Seq<Environment>) -> Seq<EnvironmentView> {
    s.map_values(|e: Environment| e@)
}

pub open spec fn account_views(s: Seq<Account>) -> Seq<AccountView> {
    s.map_values(|a: Account| a@)
}

impl View for AppConfig {
    type V = ConfigView;

    open spec fn view(&self) -> ConfigView {
        ConfigView {
            environments: env_views(self.environments@),
            accounts: account_views(self.accounts@),
            active: self.active@,
            cursor_app_path: self.cursor_app_path@,
        }
    }
}

pub open spec fn spec_default_cursor_app_path() -> Seq<char> {
    "/Applications/Cursor.app"@
}

/// Where Cursor is installed unless the configuration says otherwise.
pub fn default_cursor_app_path() -> (r: String)
    ensures
        r@ == spec_default_cursor_app_path(),
{
    owned("/Applications/Cursor.app")
}

impl ActiveSelection {
    /// Nothing selected.
    pub fn none() -> (r: ActiveSelection)
        ensures
            r.env_id is None,
            r.account_id is None,
    {
        ActiveSelection { env_id: None, account_id: None }
    }
}

impl Default for AppConfig {
    /// No environments, no accounts, nothing active, Cursor at its standard path.
    fn default() -> (r: AppConfig)
        ensures
            r.environments@.len() == 0,
            r.accounts@.len() == 0,
            r.active.env_id is None,
            r.active.account_id is None,
            r.cursor_app_path@ == spec_default_cursor_app_path(),
    {
        AppConfig {
            environments: Vec::new(),
            accounts: Vec::new(),
            active: ActiveSelection::none(),
            cursor_app_path: default_cursor_app_path(),
        }
    }
}

pub open spec fn spec_root_dir(home: Seq<char>) -> Seq<char> {
    join_path(home, ".multi-cursor"@)
}

pub open spec fn spec_config_path(home: Seq<char>) -> Seq<char> {
    join_path(spec_root_dir(home), "config.json"@)
}

pub open spec fn spec_application_support_dir(home: Seq<char>) -> Seq<char> {
    join_path(join_path(home, "Library"@), "Application Support"@)
}

pub open spec fn spec_active_data_dir(home: Seq<char>) -> Seq<char> {
    join_path(spec_application_support_dir(home), "Cursor"@)
}

pub open spec fn spec_inactive_data_dir(home: Seq<char>, env_id: Seq<char>) -> Seq<char> {
    join_path(spec_application_support_dir(home), DATA_INACTIVE_PREFIX@ + env_id)
}

pub open spec fn spec_active_dot_cursor_dir(home: Seq<char>) -> Seq<char> {
    join_path(home, ".cursor"@)
}

pub open spec fn spec_inactive_dot_cursor_dir(home: Seq<char>, env_id: Seq<char>) -> Seq<char> {
    join_path(home, DOT_INACTIVE_PREFIX@ + env_id)
}

pub open spec fn spec_env_data_dir(
    home: Seq<char>,
    env_id: Seq<char>,
    active_env_id: Option<Seq<char>>,
) -> Seq<char> {
    if active_env_id == Some(env_id) {
        spec_active_data_dir(home)
    } else {
        spec_inactive_data_dir(home, env_id)
    }
}

pub open spec fn spec_env_dot_cursor_dir(
    home: Seq<char>,
    env_id: Seq<char>,
    active_env_id: Option<Seq<char>>,
) -> Seq<char> {
    if active_env_id == Some(env_id) {
        spec_active_dot_cursor_dir(home)
    } else {
        spec_inactive_dot_cursor_dir(home, env_id)
    }
}

pub open spec fn spec_state_db_under(data_dir: Seq<char>) -> Seq<char> {
    join_path(join_path(join_path(data_dir, "User"@), "globalStorage"@), "state.vscdb"@)
}

pub open spec fn spec_env_state_db(
    home: Seq<char>,
    env_id: Seq<char>,
    active_env_id: Option<Seq<char>>,
) -> Seq<char> {
    spec_state_db_under(spec_env_data_dir(home, env_id, active_env_id))
}

pub open spec fn spec_accounts_dir(home: Seq<char>, env_id: Seq<char>) -> Seq<char> {
    join_path(join_path(spec_root_dir(home), "accounts"@), env_id)
}

pub open spec fn spec_account_snapshot_path(
    home: Seq<char>,
    env_id: Seq<char>,
    account_id: Seq<char>,
) -> Seq<char> {
    join_path(spec_accounts_dir(home, env_id), account_id + ".json"@)
}

pub open spec fn spec_storage_v2_marker(home: Seq<char>) -> Seq<char> {
    join_path(spec_root_dir(home), ".storage-v2"@)
}

/// `~/.multi-cursor`: configuration and saved logins.
pub fn root_dir(home: &str) -> (r: String)
    ensures
        r@ == spec_root_dir(home@),
{
    join(home, ".multi-cursor")
}

pub fn config_path(home: &str) -> (r: String)
    ensures
        r@ == spec_config_path(home@),
{
    join(root_dir(home).as_str(), "config.json")
}

pub fn application_support_dir(home: &str) -> (r: String)
    ensures
        r@ == spec_application_support_dir(home@),
{
    join(join(home, "Library").as_str(), "Application Support")
}

/// Active Cursor user-data dir (what Dock launches use).
pub fn active_data_dir(home: &str) -> (r: String)
    ensures
        r@ == spec_active_data_dir(home@),
{
    join(application_support_dir(home).as_str(), "Cursor")
}

/// Inactive pool entry for an environment's user-data dir.
pub fn inactive_data_dir(home: &str, env_id: &str) -> (r: String)
    ensures
        r@ == spec_inactive_data_dir(home@, env_id@),
{
    join(application_support_dir(home).as_str(), cat(DATA_INACTIVE_PREFIX, env_id).as_str())
}

/// Active `~/.cursor` (extensions / CLI state for Dock launches).
pub fn active_dot_cursor_dir(home: &str) -> (r: String)
    ensures
        r@ == spec_active_dot_cursor_dir(home@),
{
    join(home, ".cursor")
}

/// Inactive pool entry for an environment's `~/.cursor`.
pub fn inactive_dot_cursor_dir(home: &str, env_id: &str) -> (r: String)
    ensures
        r@ == spec_inactive_dot_cursor_dir(home@, env_id@),
{
    join(home, cat(DOT_INACTIVE_PREFIX, env_id).as_str())
}

/// The user-data dir of `env_id`: the live one when `env_id` is active,
/// else its pool entry.
pub fn env_data_dir(home: &str, env_id: &str, active_env_id: Option<&str>) -> (r: String)
    ensures
        r@ == spec_env_data_dir(home@, env_id@, opt_str_view(active_env_id)),
{
    if opt_str_is(active_env_id, env_id) {
        active_data_dir(home)
    } else {
        inactive_data_dir(home, env_id)
    }
}

/// The `~/.cursor` dir of `env_id`: the live one when `env_id` is active,
/// else its pool entry.
pub fn env_dot_cursor_dir(home: &str, env_id: &str, active_env_id: Option<&str>) -> (r: String)
    ensures
        r@ == spec_env_dot_cursor_dir(home@, env_id@, opt_str_view(active_env_id)),
{
    if opt_str_is(active_env_id, env_id) {
        active_dot_cursor_dir(home)
    } else {
        inactive_dot_cursor_dir(home, env_id)
    }
}

/// `User/globalStorage/state.vscdb` under the environment's user-data dir.
pub fn env_state_db(home: &str, env_id: &str, active_env_id: Option<&str>) -> (r: String)
    ensures
        r@ == spec_env_state_db(home@, env_id@, opt_str_view(active_env_id)),
{
    let data = env_data_dir(home, env_id, active_env_id);
    let user = join(data.as_str(), "User");
    let global = join(user.as_str(), "globalStorage");
    join(global.as_str(), "state.vscdb")
}

/// The login database of the live folders.
pub fn live_state_db(home: &str) -> (r: String)
    ensures
        r@ == spec_state_db_under(spec_active_data_dir(home@)),
{
    let data = active_data_dir(home);
    let user = join(data.as_str(), "User");
    let global = join(user.as_str(), "globalStorage");
    join(global.as_str(), "state.vscdb")
}

/// `~/.multi-cursor/accounts/<envId>`.
pub fn accounts_dir(home: &str, env_id: &str) -> (r: String)
    ensures
        r@ == spec_accounts_dir(home@, env_id@),
{
    join(join(root_dir(home).as_str(), "accounts").as_str(), env_id)
}

/// `~/.multi-cursor/accounts/<envId>/<accountId>.json`.
pub fn account_snapshot_path(home: &str, env_id: &str, account_id: &str) -> (r: String)
    ensures
        r@ == spec_account_snapshot_path(home@, env_id@, account_id@),
{
    join(accounts_dir(home, env_id).as_str(), cat(account_id, ".json").as_str())
}

pub open spec fn spec_legacy_env_dir(home: Seq<char>, env_id: Seq<char>) -> Seq<char> {
    join_path(join_path(spec_root_dir(home), "environments"@), env_id)
}

/// `~/.multi-cursor/environments/<envId>`: where an environment's folder
/// lived before storage used the live names.
pub fn legacy_env_dir(home: &str, env_id: &str) -> (r: String)
    ensures
        r@ == spec_legacy_env_dir(home@, env_id@),
{
    join(join(root_dir(home).as_str(), "environments").as_str(), env_id)
}

/// Present once storage uses the live folder names.
pub fn storage_v2_marker(home: &str) -> (r: String)
    ensures
        r@ == spec_storage_v2_marker(home@),
{
    join(root_dir(home).as_str(), ".storage-v2")
}

/// What the storage marker file holds.
pub fn storage_marker_content() -> (r: String)
    ensures
        r@ == "2\n"@,
{
    owned("2\n")
}

pub open spec fn opt_str_view(o: Option<&str>) -> Option<Seq<char>> {
    match o {
        Some(s) => Some(s@),
        None => None,
    }
}

/// `o == Some(s)` by characters.
pub fn opt_str_is(o: Option<&str>, s: &str) -> (r: bool)
    ensures
        r == (opt_str_view(o) == Some(s@)),
{
    match o {
        Some(t) => crate::text::str_eq(t, s),
        None => false,
    }
}

proof fn lemma_join_appends(base: Seq<char>, p: Seq<char>, t: Seq<char>)
    requires
        p.len() > 0,
        p[0] != '/',
    ensures
        join_path(base, p + t) == join_path(base, p) + t,
        join_path(base, p).len() == join_path(base, seq![p[0]]).len() + p.len() - 1,
{
    assert((p + t)[0] == p[0]);
    if base.len() > 0 && base.last() != '/' {
        assert(base + seq!['/'] + (p + t) =~= base + seq!['/'] + p + t);
    } else {
        assert(base + (p + t) =~= base + p + t);
    }
}

/// Two different environments never share a pool folder: their inactive
/// user-data dirs differ, and so do their inactive `~/.cursor` dirs.
pub proof fn lemma_pool_entries_distinct(home: Seq<char>, a: Seq<char>, b: Seq<char>)
    requires
        a != b,
    ensures
        spec_inactive_data_dir(home, a) != spec_inactive_data_dir(home, b),
        spec_inactive_dot_cursor_dir(home, a) != spec_inactive_dot_cursor_dir(home, b),
{
    reveal_strlit("Cursor.multi-cursor.");
    reveal_strlit(".cursor.multi-cursor.");
    let dp = DATA_INACTIVE_PREFIX@;
    let hp = DOT_INACTIVE_PREFIX@;
    let base = spec_application_support_dir(home);
    lemma_join_appends(base, dp, a);
    lemma_join_appends(base, dp, b);
    lemma_join_appends(home, hp, a);
    lemma_join_appends(home, hp, b);
    let xa = join_path(base, dp) + a;
    let xb = join_path(base, dp) + b;
    if xa == xb {
        assert(xa.skip(join_path(base, dp).len() as int) =~= a);
        assert(xb.skip(join_path(base, dp).len() as int) =~= b);
    }
    let ya = join_path(home, hp) + a;
    let yb = join_path(home, hp) + b;
    if ya == yb {
        assert(ya.skip(join_path(home, hp).len() as int) =~= a);
        assert(yb.skip(join_path(home, hp).len() as int) =~= b);
    }
}

pub open spec fn has_no_slash(s: Seq<char>) -> bool {
    forall|i: int| 0 <= i < s.len() ==> s[i] != '/'
}

/// Saved logins never share a file: two different (environment, account)
/// pairs give two different snapshot paths, as long as environment ids
/// are non-empty and neither kind of id holds a '/'.
pub proof fn lemma_snapshot_paths_distinct(
    home: Seq<char>,
    env_a: Seq<char>,
    acc_a: Seq<char>,
    env_b: Seq<char>,
    acc_b: Seq<char>,
)
    requires
        env_a.len() > 0,
        env_b.len() > 0,
        has_no_slash(env_a),
        has_no_slash(env_b),
        has_no_slash(acc_a),
        has_no_slash(acc_b),
        env_a != env_b || acc_a != acc_b,
    ensures
        spec_account_snapshot_path(home, env_a, acc_a) != spec_account_snapshot_path(
            home,
            env_b,
            acc_b,
        ),
{
    reveal_strlit("accounts");
    reveal_strlit(".json");
    let base = join_path(spec_root_dir(home), "accounts"@);
    assert(base.len() > 0 && base.last() == 's');
    let b = base + seq!['/'];
    let ja = join_path(base, env_a);
    let jb = join_path(base, env_b);
    assert(ja =~= b + env_a);
    assert(jb =~= b + env_b);
    assert(ja.last() == env_a.last());
    assert(jb.last() == env_b.last());
    let fa = acc_a + ".json"@;
    let fb = acc_b + ".json"@;
    if acc_a.len() > 0 {
        assert(fa[0] == acc_a[0]);
    } else {
        assert(fa[0] == '.');
    }
    if acc_b.len() > 0 {
        assert(fb[0] == acc_b[0]);
    } else {
        assert(fb[0] == '.');
    }
    let pa = spec_account_snapshot_path(home, env_a, acc_a);
    let pb = spec_account_snapshot_path(home, env_b, acc_b);
    let ta = env_a + seq!['/'] + fa;
    let tb = env_b + seq!['/'] + fb;
    assert(pa =~= b + ta);
    assert(pb =~= b + tb);
    if pa == pb {
        assert(ta =~= pa.skip(b.len() as int));
        assert(tb =~= pb.skip(b.len() as int));
        let la = env_a.len() as int;
        let lb = env_b.len() as int;
        if la < lb {
            assert(ta[la] == '/');
            assert(tb[la] == env_b[la]);
        } else if lb < la {
            assert(tb[lb] == '/');
            assert(ta[lb] == env_a[lb]);
        } else {
            assert(env_a =~= ta.take(la));
            assert(env_b =~= tb.take(la));
            assert(fa =~= ta.skip(la + 1));
            assert(fb =~= tb.skip(la + 1));
            assert(acc_a =~= fa.take(acc_a.len() as int));
            assert(acc_b =~= fb.take(acc_b.len() as int));
        }
    }
}

/// No environment's pool folder is ever one of the live folders that Cursor
/// itself opens.
pub proof fn lemma_pool_never_live(home: Seq<char>, env_id: Seq<char>)
    ensures
        spec_inactive_data_dir(home, env_id) != spec_active_data_dir(home),
        spec_inactive_dot_cursor_dir(home, env_id) != spec_active_dot_cursor_dir(home),
{
    reveal_strlit("Cursor.multi-cursor.");
    reveal_strlit(".cursor.multi-cursor.");
    reveal_strlit("Cursor");
    reveal_strlit(".cursor");
    let base = spec_application_support_dir(home);
    lemma_join_appends(base, DATA_INACTIVE_PREFIX@, env_id);
    lemma_join_appends(base, "Cursor"@, Seq::<char>::empty());
    lemma_join_appends(home, DOT_INACTIVE_PREFIX@, env_id);
    lemma_join_appends(home, ".cursor"@, Seq::<char>::empty());
    assert(seq![DATA_INACTIVE_PREFIX@[0]] =~= seq!["Cursor"@[0]]);
    assert(seq![DOT_INACTIVE_PREFIX@[0]] =~= seq![".cursor"@[0]]);
    assert("Cursor"@ + Seq::<char>::empty() =~= "Cursor"@);
    assert(".cursor"@ + Seq::<char>::empty() =~= ".cursor"@);
}

/// `uuid::Uuid::new_v4` written out by `to_string`: 36 characters, hyphens
/// at positions 8, 13, 18 and 23, lower-case hexadecimal digits elsewhere.
/// The digits are random; nothing more is stated of them.
#[verifier::external_body]
pub fn new_id() -> (r: String)
    ensures
        r@.len() == 36,
        forall|i: int|
            0 <= i < 36 ==> if i == 8 || i == 13 || i == 18 || i == 23 {
                r@[i] == '-'
            } else {
                ('0' <= r@[i] && r@[i] <= '9') || ('a' <= r@[i] && r@[i] <= 'f')
            },
{
    uuid::Uuid::new_v4().to_string()
}

/// `chrono::Local::now().to_rfc3339()`: the current local time. It depends
/// on the clock, so nothing is stated of it.
#[verifier::external_body]
pub fn now_iso() -> String {
    chrono::Local::now().to_rfc3339()
}

/// Where the live folders are parked while `to` takes their place: the
/// pool entries of the environment that was active, or, when none was,
/// entries under a fresh swap name `__swap__-<uuid>`.
pub fn activation_park_dirs(home: &str, from_env_id: Option<&str>) -> (r: (String, String))
    ensures
        from_env_id matches Some(f) ==> r.0@ == spec_inactive_data_dir(home@, f@) && r.1@
            == spec_inactive_dot_cursor_dir(home@, f@),
        from_env_id is None ==> exists|x: Seq<char>|
            x.len() == 36 && r.0@ == spec_inactive_data_dir(home@, SWAP_TOKEN@ + "-"@ + x)
                && r.1@ == spec_inactive_dot_cursor_dir(home@, SWAP_TOKEN@ + "-"@ + x),
{
    match from_env_id {
        Some(f) => (inactive_data_dir(home, f), inactive_dot_cursor_dir(home, f)),
        None => {
            let id = new_id();
            let suffix = cat3(SWAP_TOKEN, "-", id.as_str());
            (inactive_data_dir(home, suffix.as_str()), inactive_dot_cursor_dir(home, suffix.as_str()))
        },
    }
}

/// A parking id for live folders found during the legacy migration:
/// `_pre-v2-` and the first 8 characters of a fresh uuid.
pub fn legacy_park_id() -> (r: String)
    ensures
        r@.len() == 16,
        r@.take(8) == "_pre-v2-"@,
        forall|i: int|
            8 <= i < 16 ==> ('0' <= #[trigger] r@[i] && r@[i] <= '9') || ('a' <= r@[i] && r@[i]
                <= 'f'),
{
    let id = new_id();
    proof {
        reveal_strlit("_pre-v2-");
    }
    let head = id.as_str().substring_char(0, 8);
    let r = cat("_pre-v2-", head);
    assert(r@.take(8) =~= "_pre-v2-"@);
    assert forall|i: int| 8 <= i < 16 implies ('0' <= #[trigger] r@[i] && r@[i] <= '9') || ('a'
        <= r@[i] && r@[i] <= 'f') by {
        assert(r@[i] == id@[i - 8]);
    }
    r
}

/// One character as AppleScript string text: backslash and double quote
/// are escaped with a backslash.
pub open spec fn escape_char(c: char) -> Seq<char> {
    if c == '\\' {
        seq!['\\', '\\']
    } else if c == '"' {
        seq!['\\', '"']
    } else {
        seq![c]
    }
}

/// `s` as AppleScript string text.
pub open spec fn applescript_escape(s: Seq<char>) -> Seq<char>
    decreases s.len(),
{
    if s.len() == 0 {
        seq![]
    } else {
        applescript_escape(s.drop_last()) + escape_char(s.last())
    }
}

/// `posix.replace('\\', "\\\\").replace('"', "\\\"")`.
pub fn escape_for_applescript(posix: &str) -> (r: String)
    ensures
        r@ == applescript_escape(posix@),
{
    let n = posix.unicode_len();
    let mut r = String::new();
    let mut i: usize = 0;
    assert(posix@.take(0) =~= Seq::<char>::empty());
    while i < n
        invariant
            n == posix@.len(),
            i <= n,
            r@ == applescript_escape(posix@.take(i as int)),
        decreases n - i,
    {
        let c = posix.get_char(i);
        assert(posix@.take(i + 1).drop_last() =~= posix@.take(i as int));
        assert(posix@.take(i + 1).last() == c);
        proof {
            reveal_strlit("\\\\");
            reveal_strlit("\\\"");
            assert("\\\\"@ =~= seq!['\\', '\\']);
            assert("\\\""@ =~= seq!['\\', '"']);
        }
        if c == '\\' {
            r.append("\\\\");
        } else if c == '"' {
            r.append("\\\"");
        } else {
            let one = posix.substring_char(i, i + 1);
            assert(one@ =~= seq![c]);
            r.append(one);
        }
        i += 1;
    }
    assert(posix@.take(n as int) =~= posix@);
    r
}

/// The AppleScript that asks Finder to move `posix` to the Trash.
pub fn finder_delete_script(posix: &str) -> (r: String)
    ensures
        r@ == "tell application \"Finder\" to delete (POSIX file \""@ + applescript_escape(posix@)
            + "\" as alias)"@,
{
    let escaped = escape_for_applescript(posix);
    cat3(
        "tell application \"Finder\" to delete (POSIX file \"",
        escaped.as_str(),
        "\" as alias)",
    )
}

/// Escaping loses nothing: different paths give different script text, so
/// the script always names exactly the path it was given.
pub proof fn lemma_escape_injective(a: Seq<char>, b: Seq<char>)
    requires
        applescript_escape(a) == applescript_escape(b),
    ensures
        a == b,
    decreases a.len(),
{
    if a.len() == 0 || b.len() == 0 {
        if a.len() > 0 {
            assert(applescript_escape(a).len() >= escape_char(a.last()).len());
        }
        if b.len() > 0 {
            assert(applescript_escape(b).len() >= escape_char(b.last()).len());
        }
        assert(a =~= b);
    } else {
        let x = a.last();
        let y = b.last();
        let ea = applescript_escape(a.drop_last());
        let eb = applescript_escape(b.drop_last());
        let s = applescript_escape(a);
        assert(s == ea + escape_char(x));
        assert(s == eb + escape_char(y));
        assert(s.last() == escape_char(x).last());
        assert(s.last() == escape_char(y).last());
        assert(x == y);
        let n = escape_char(x).len();
        assert(s.take(s.len() - n) =~= ea);
        assert(s.take(s.len() - n) =~= eb);
        lemma_escape_injective(a.drop_last(), b.drop_last());
        assert(a =~= a.drop_last().push(x));
        assert(b =~= b.drop_last().push(y));
    }
}

} // verus!
