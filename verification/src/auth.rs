//! Saved Cursor logins.
//!
//! Cursor keeps its login in the `ItemTable` of `state.vscdb` under a fixed
//! set of keys. An [`AuthSnapshot`] holds the values of those keys; this
//! module decides which rows a snapshot writes, assembles a snapshot from
//! the rows that were read, and derives the account's identity from it.
use vstd::prelude::*;

use crate::paths::opt_view;
use crate::text::{owned, str_eq, trim, trim_str};

verus! {

pub const ACCESS_TOKEN_KEY: &'static str = "cursorAuth/accessToken";

pub const REFRESH_TOKEN_KEY: &'static str = "cursorAuth/refreshToken";

pub const CACHED_EMAIL_KEY: &'static str = "cursorAuth/cachedEmail";

pub const SIGN_UP_TYPE_KEY: &'static str = "cursorAuth/cachedSignUpType";

pub const MEMBERSHIP_TYPE_KEY: &'static str = "cursorAuth/stripeMembershipType";

pub const SUBSCRIPTION_STATUS_KEY: &'static str = "cursorAuth/stripeSubscriptionStatus";

pub const SCOPED_PROFILE_KEY: &'static str = "cursorAuth/cachedScopedProfile";

/// The `ItemTable` keys that make up a Cursor login, in the order they are read.
pub open spec fn spec_auth_keys() -> Seq<Seq<char>> {
    seq![
        ACCESS_TOKEN_KEY@,
        REFRESH_TOKEN_KEY@,
        CACHED_EMAIL_KEY@,
        SIGN_UP_TYPE_KEY@,
        MEMBERSHIP_TYPE_KEY@,
        SUBSCRIPTION_STATUS_KEY@,
        SCOPED_PROFILE_KEY@,
    ]
}

pub open spec fn is_auth_key_spec(k: Seq<char>) -> bool {
    spec_auth_keys().contains(k)
}

/// The auth keys, in the order they are read.
pub fn auth_keys() -> (r: Vec<&'static str>)
    ensures
        r@.len() == 7,
        forall|i: int| 0 <= i < 7 ==> #[trigger] r@[i]@ == spec_auth_keys()[i],
{
    vec![
        ACCESS_TOKEN_KEY,
        REFRESH_TOKEN_KEY,
        CACHED_EMAIL_KEY,
        SIGN_UP_TYPE_KEY,
        MEMBERSHIP_TYPE_KEY,
        SUBSCRIPTION_STATUS_KEY,
        SCOPED_PROFILE_KEY,
    ]
}

/// `key` is one of the auth keys.
pub fn is_auth_key(key: &str) -> (r: bool)
    ensures
        r == is_auth_key_spec(key@),
{
    let keys = auth_keys();
    let mut i: usize = 0;
    while i < keys.len()
        invariant
            keys@.len() == 7,
            forall|j: int| 0 <= j < 7 ==> #[trigger] keys@[j]@ == spec_auth_keys()[j],
            i <= 7,
            forall|j: int| 0 <= j < i ==> spec_auth_keys()[j] != key@,
        decreases 7 - i,
    {
        if str_eq(keys[i], key) {
            assert(spec_auth_keys()[i as int] == key@);
            return true;
        }
        i += 1;
    }
    assert forall|j: int| 0 <= j < spec_auth_keys().len() implies spec_auth_keys()[j] != key@ by {}
    false
}

/// The value stored under `k` by the last entry with that key.
pub open spec fn lookup(entries: Seq<(String, String)>, k: Seq<char>) -> Option<Seq<char>>
    decreases entries.len(),
{
    if entries.len() == 0 {
        None
    } else if entries.last().0@ == k {
        Some(entries.last().1@)
    } else {
        lookup(entries.drop_last(), k)
    }
}

/// The auth values captured from one `state.vscdb`, keyed by `ItemTable` key.
#[derive(Debug, Clone)]
pub struct AuthSnapshot {
    entries: Vec<(String, String)>,
}

impl AuthSnapshot {
    /// The value stored under `k`.
    pub closed spec fn value_of(&self, k: Seq<char>) -> Option<Seq<char>> {
        lookup(self.entries@, k)
    }

    /// An empty snapshot.
    pub fn new() -> (r: AuthSnapshot)
        ensures
            forall|k: Seq<char>| #[trigger] r.value_of(k) is None,
    {
        AuthSnapshot { entries: Vec::new() }
    }

    /// Store `value` under `key`, replacing what was there.
    pub fn insert(&mut self, key: String, value: String)
        ensures
            final(self).value_of(key@) == Some(value@),
            forall|k: Seq<char>|
                k != key@ ==> #[trigger] final(self).value_of(k) == old(self).value_of(k),
    {
        let ghost old_entries = self.entries@;
        self.entries.push((key, value));
        proof {
            assert(self.entries@.drop_last() =~= old_entries);
        }
    }

    /// The value stored under `key`.
    pub fn get(&self, key: &str) -> (r: Option<&String>)
        ensures
            match r {
                Some(v) => self.value_of(key@) == Some(v@),
                None => self.value_of(key@) is None,
            },
    {
        let mut i: usize = self.entries.len();
        assert(self.entries@.take(i as int) =~= self.entries@);
        while i > 0
            invariant
                i <= self.entries@.len(),
                lookup(self.entries@, key@) == lookup(self.entries@.take(i as int), key@),
            decreases i,
        {
            assert(self.entries@.take(i as int).drop_last() =~= self.entries@.take(i - 1));
            assert(self.entries@.take(i as int).last() == self.entries@[i - 1]);
            if str_eq(self.entries[i - 1].0.as_str(), key) {
                return Some(&self.entries[i - 1].1);
            }
            i -= 1;
        }
        None
    }

    /// The stored pairs, oldest first; a later pair overrides an earlier one
    /// with the same key.
    pub fn entries(&self) -> (r: &Vec<(String, String)>)
        ensures
            forall|k: Seq<char>| #[trigger] self.value_of(k) == lookup(r@, k),
    {
        &self.entries
    }
}

impl Default for AuthSnapshot {
    /// An empty snapshot.
    fn default() -> (r: AuthSnapshot)
        ensures
            forall|k: Seq<char>| #[trigger] r.value_of(k) is None,
    {
        AuthSnapshot::new()
    }
}

/// The snapshot's value under `k` when it is non-empty.
pub open spec fn non_empty_value(snap: AuthSnapshot, k: Seq<char>) -> Option<Seq<char>> {
    match snap.value_of(k) {
        Some(v) => if v.len() > 0 {
            Some(v)
        } else {
            None
        },
        None => None,
    }
}

/// The cached email, when present and non-empty.
pub fn email_from_snapshot(snap: &AuthSnapshot) -> (r: Option<String>)
    ensures
        opt_view(r) == non_empty_value(*snap, CACHED_EMAIL_KEY@),
{
    match snap.get(CACHED_EMAIL_KEY) {
        Some(v) => {
            if v.as_str().unicode_len() == 0 {
                None
            } else {
                Some(owned(v.as_str()))
            }
        },
        None => None,
    }
}

/// The snapshot holds a non-empty access token.
pub fn has_login_tokens(snap: &AuthSnapshot) -> (r: bool)
    ensures
        r == non_empty_value(*snap, ACCESS_TOKEN_KEY@) is Some,
{
    match snap.get(ACCESS_TOKEN_KEY) {
        Some(t) => t.as_str().unicode_len() != 0,
        None => false,
    }
}

/// The member `key` of the JSON document `raw`, as `serde_json` reads it:
/// `None` when `raw` is not JSON, is not an object, or has no such member;
/// `Some(None)` when the member is not a string; `Some(Some(s))` when it is
/// the string `s`.
pub uninterp spec fn json_member(raw: Seq<char>, key: Seq<char>) -> Option<Option<Seq<char>>>;

pub open spec fn opt_opt_view(o: Option<Option<String>>) -> Option<Option<Seq<char>>> {
    match o {
        Some(Some(s)) => Some(Some(s@)),
        Some(None) => Some(None),
        None => None,
    }
}

/// `serde_json::from_str::<Value>(raw)`, then `Value::get(key)` and
/// `Value::as_str` on the member. The result is named by `json_member`;
/// nothing is stated of how `serde_json` parses.
#[verifier::external_body]
fn json_string_member(raw: &str, key: &str) -> (r: Option<Option<String>>)
    ensures
        opt_opt_view(r) == json_member(raw@, key@),
{
    let v: serde_json::Value = match serde_json::from_str(raw) {
        Ok(v) => v,
        Err(_) => return None,
    };
    match v.get(key) {
        None => None,
        Some(m) => match m.as_str() {
            Some(s) => Some(Some(s.to_string())),
            None => Some(None),
        },
    }
}

/// The profile name chosen from the `displayName` and `name` members:
/// `displayName` when present, else `name`; it counts only when it is a
/// string that is not blank, and comes back trimmed.
pub open spec fn pick_profile_name(
    display_name: Option<Option<Seq<char>>>,
    name: Option<Option<Seq<char>>>,
) -> Option<Seq<char>> {
    let chosen = match display_name {
        Some(m) => Some(m),
        None => name,
    };
    match chosen {
        Some(Some(s)) => if trim(s).len() > 0 {
            Some(trim(s))
        } else {
            None
        },
        _ => None,
    }
}

/// The choice made from the two members of the profile document.
pub fn profile_name_from_members(
    display_name: Option<Option<String>>,
    name: Option<Option<String>>,
) -> (r: Option<String>)
    ensures
        opt_view(r) == pick_profile_name(opt_opt_view(display_name), opt_opt_view(name)),
{
    let chosen = match display_name {
        Some(m) => Some(m),
        None => name,
    };
    match chosen {
        Some(Some(s)) => {
            let t = trim_str(s.as_str());
            if t.as_str().unicode_len() == 0 {
                None
            } else {
                Some(t)
            }
        },
        _ => None,
    }
}

/// The display name recorded in `cursorAuth/cachedScopedProfile`.
pub open spec fn spec_profile_name(snap: AuthSnapshot) -> Option<Seq<char>> {
    match snap.value_of(SCOPED_PROFILE_KEY@) {
        Some(raw) => pick_profile_name(
            json_member(raw, "displayName"@),
            json_member(raw, "name"@),
        ),
        None => None,
    }
}

/// Display name from `cursorAuth/cachedScopedProfile` JSON (`displayName` or `name`).
pub fn profile_name_from_snapshot(snap: &AuthSnapshot) -> (r: Option<String>)
    ensures
        opt_view(r) == spec_profile_name(*snap),
{
    match snap.get(SCOPED_PROFILE_KEY) {
        Some(raw) => {
            let d = json_string_member(raw.as_str(), "displayName");
            let n = json_string_member(raw.as_str(), "name");
            profile_name_from_members(d, n)
        },
        None => None,
    }
}

pub open spec fn spec_display_name(snap: AuthSnapshot) -> Option<Seq<char>> {
    match spec_profile_name(snap) {
        Some(n) => Some(n),
        None => non_empty_value(snap, CACHED_EMAIL_KEY@),
    }
}

/// Prefer profile display name; fall back to email.
pub fn display_name_from_snapshot(snap: &AuthSnapshot) -> (r: Option<String>)
    ensures
        opt_view(r) == spec_display_name(*snap),
{
    match profile_name_from_snapshot(snap) {
        Some(n) => Some(n),
        None => email_from_snapshot(snap),
    }
}

proof fn lemma_auth_keys_distinct()
    ensures
        forall|i: int, j: int|
            0 <= i < 7 && 0 <= j < 7 && i != j ==> spec_auth_keys()[i] != spec_auth_keys()[j],
{
    reveal_strlit("cursorAuth/accessToken");
    reveal_strlit("cursorAuth/refreshToken");
    reveal_strlit("cursorAuth/cachedEmail");
    reveal_strlit("cursorAuth/cachedSignUpType");
    reveal_strlit("cursorAuth/stripeMembershipType");
    reveal_strlit("cursorAuth/stripeSubscriptionStatus");
    reveal_strlit("cursorAuth/cachedScopedProfile");
    let k = spec_auth_keys();
    assert(k[0].len() == 22);
    assert(k[1].len() == 23);
    assert(k[2].len() == 22);
    assert(k[3].len() == 27);
    assert(k[4].len() == 31);
    assert(k[5].len() == 35);
    assert(k[6].len() == 30);
    assert(k[0][11] != k[2][11]);
}

/// The pairs that writing `snap` stores for the keys `keys`: each key, in
/// order, with the snapshot's value, when it has one.
pub open spec fn pairs_for(keys: Seq<Seq<char>>, snap: AuthSnapshot) -> Seq<
    (Seq<char>, Seq<char>),
>
    decreases keys.len(),
{
    if keys.len() == 0 {
        seq![]
    } else {
        let rest = pairs_for(keys.drop_last(), snap);
        match snap.value_of(keys.last()) {
            Some(v) => rest.push((keys.last(), v)),
            None => rest,
        }
    }
}

/// `t` after inserting (or replacing) each pair in order.
pub open spec fn upsert_all(
    t: Map<Seq<char>, Seq<char>>,
    pairs: Seq<(Seq<char>, Seq<char>)>,
) -> Map<Seq<char>, Seq<char>>
    decreases pairs.len(),
{
    if pairs.len() == 0 {
        t
    } else {
        upsert_all(t, pairs.drop_last()).insert(pairs.last().0, pairs.last().1)
    }
}

/// The `ItemTable` after writing `snap`: every auth key deleted, then the
/// snapshot's auth pairs inserted.
pub open spec fn written_table(t: Map<Seq<char>, Seq<char>>, snap: AuthSnapshot) -> Map<
    Seq<char>,
    Seq<char>,
> {
    upsert_all(t.remove_keys(spec_auth_keys().to_set()), pairs_for(spec_auth_keys(), snap))
}

/// The row stored under `k`, if any.
pub open spec fn map_get(m: Map<Seq<char>, Seq<char>>, k: Seq<char>) -> Option<Seq<char>> {
    if m.dom().contains(k) {
        Some(m[k])
    } else {
        None
    }
}

pub open spec fn pair_views(s: Seq<(String, String)>) -> Seq<(Seq<char>, Seq<char>)> {
    s.map_values(|p: (String, String)| (p.0@, p.1@))
}

/// The rows to insert when writing `snap`, once the auth keys have been
/// deleted: the snapshot's auth pairs, in key order.
pub fn auth_rows_to_write(snap: &AuthSnapshot) -> (r: Vec<(String, String)>)
    ensures
        pair_views(r@) == pairs_for(spec_auth_keys(), *snap),
{
    let keys = auth_keys();
    let mut rows: Vec<(String, String)> = Vec::new();
    let mut i: usize = 0;
    assert(spec_auth_keys().take(0) =~= Seq::<Seq<char>>::empty());
    assert(pair_views(rows@) =~= Seq::<(Seq<char>, Seq<char>)>::empty());
    while i < 7
        invariant
            keys@.len() == 7,
            forall|j: int| 0 <= j < 7 ==> #[trigger] keys@[j]@ == spec_auth_keys()[j],
            i <= 7,
            pair_views(rows@) == pairs_for(spec_auth_keys().take(i as int), *snap),
        decreases 7 - i,
    {
        let ghost before = rows@;
        assert(spec_auth_keys().take(i + 1).drop_last() =~= spec_auth_keys().take(i as int));
        assert(spec_auth_keys().take(i + 1).last() == keys@[i as int]@);
        match snap.get(keys[i]) {
            Some(v) => {
                rows.push((owned(keys[i]), owned(v.as_str())));
                assert(pair_views(rows@) =~= pair_views(before).push((keys@[i as int]@, v@)));
            },
            None => {},
        }
        i += 1;
    }
    assert(spec_auth_keys().take(7) =~= spec_auth_keys());
    rows
}

/// The snapshot read back from `state.vscdb`: `values[i]` is what the row of
/// the `i`-th auth key held, or `None` when there was no such row.
pub fn snapshot_from_reads(values: Vec<Option<String>>) -> (r: AuthSnapshot)
    requires
        values@.len() == 7,
    ensures
        forall|i: int| 0 <= i < 7 ==> r.value_of(#[trigger] spec_auth_keys()[i]) == opt_view(values@[i]),
        forall|k: Seq<char>| !is_auth_key_spec(k) ==> #[trigger] r.value_of(k) is None,
{
    proof {
        lemma_auth_keys_distinct();
    }
    let keys = auth_keys();
    let mut snap = AuthSnapshot::new();
    let mut i: usize = 0;
    while i < 7
        invariant
            values@.len() == 7,
            keys@.len() == 7,
            forall|j: int| 0 <= j < 7 ==> #[trigger] keys@[j]@ == spec_auth_keys()[j],
            forall|a: int, b: int|
                0 <= a < 7 && 0 <= b < 7 && a != b ==> spec_auth_keys()[a] != spec_auth_keys()[b],
            i <= 7,
            forall|j: int| 0 <= j < i ==> snap.value_of(#[trigger] spec_auth_keys()[j]) == opt_view(values@[j]),
            forall|k: Seq<char>|
                !spec_auth_keys().take(i as int).contains(k) ==> #[trigger] snap.value_of(k) is None,
        decreases 7 - i,
    {
        let ghost before = snap;
        match &values[i] {
            Some(v) => {
                snap.insert(owned(keys[i]), owned(v.as_str()));
            },
            None => {},
        }
        assert forall|k: Seq<char>| !spec_auth_keys().take(i + 1).contains(k) implies #[trigger] snap.value_of(k) is None by {
            if spec_auth_keys().take(i as int).contains(k) {
                let w = choose|w: int| 0 <= w < i && spec_auth_keys().take(i as int)[w] == k;
                assert(spec_auth_keys().take(i + 1)[w] == k);
            }
            assert(spec_auth_keys().take(i + 1)[i as int] == keys@[i as int]@);
        }
        i += 1;
    }
    assert forall|k: Seq<char>| !is_auth_key_spec(k) implies #[trigger] snap.value_of(k) is None by {
        assert(spec_auth_keys().take(7) =~= spec_auth_keys());
    }
    snap
}

proof fn lemma_upsert_prefix(base: Map<Seq<char>, Seq<char>>, snap: AuthSnapshot, n: int)
    requires
        0 <= n <= 7,
        forall|j: int| 0 <= j < 7 ==> !base.dom().contains(#[trigger] spec_auth_keys()[j]),
    ensures
        forall|k: Seq<char>|
            #[trigger] map_get(upsert_all(base, pairs_for(spec_auth_keys().take(n), snap)), k)
                == if spec_auth_keys().take(n).contains(k) {
                snap.value_of(k)
            } else {
                map_get(base, k)
            },
    decreases n,
{
    let keys = spec_auth_keys();
    if n == 0 {
        assert(keys.take(0) =~= Seq::<Seq<char>>::empty());
    } else {
        lemma_upsert_prefix(base, snap, n - 1);
        let prev = keys.take(n - 1);
        let cur = keys.take(n);
        let x = keys[n - 1];
        assert(cur.drop_last() =~= prev);
        assert(cur.last() == x);
        let pp = pairs_for(prev, snap);
        let before = upsert_all(base, pp);
        assert forall|k: Seq<char>| #[trigger]
            map_get(upsert_all(base, pairs_for(cur, snap)), k) == if cur.contains(k) {
                snap.value_of(k)
            } else {
                map_get(base, k)
            } by {
            assert(cur[n - 1] == x);
            assert(map_get(before, k) == if prev.contains(k) {
                snap.value_of(k)
            } else {
                map_get(base, k)
            });
            assert(cur.contains(k) <==> (prev.contains(k) || k == x)) by {
                if cur.contains(k) {
                    let w = choose|w: int| 0 <= w < n && cur[w] == k;
                    if w < n - 1 {
                        assert(prev[w] == k);
                    }
                }
                if prev.contains(k) {
                    let w = choose|w: int| 0 <= w < n - 1 && prev[w] == k;
                    assert(cur[w] == k);
                }
            }
            match snap.value_of(x) {
                Some(v) => {
                    assert(pp.push((x, v)).drop_last() =~= pp);
                    assert(upsert_all(base, pp.push((x, v))) == before.insert(x, v));
                },
                None => {
                    if k == x && !prev.contains(k) {
                        assert(keys[n - 1] == k);
                    }
                },
            }
        }
    }
}

/// Reading the auth keys back after writing `snap` gives exactly the
/// snapshot's auth values; every other row is left as it was.
pub proof fn lemma_read_after_write(t: Map<Seq<char>, Seq<char>>, snap: AuthSnapshot, k: Seq<char>)
    ensures
        map_get(written_table(t, snap), k) == if is_auth_key_spec(k) {
            snap.value_of(k)
        } else {
            map_get(t, k)
        },
{
    let keys = spec_auth_keys();
    let base = t.remove_keys(keys.to_set());
    assert forall|j: int| 0 <= j < 7 implies !base.dom().contains(#[trigger] keys[j]) by {
        assert(keys.to_set().contains(keys[j]));
    }
    lemma_upsert_prefix(base, snap, 7);
    assert(keys.take(7) =~= keys);
    assert(map_get(written_table(t, snap), k) == if keys.contains(k) {
        snap.value_of(k)
    } else {
        map_get(base, k)
    });
    if !keys.contains(k) {
        assert(!keys.to_set().contains(k));
    }
}

/// A snapshot assembled from the rows of a table that `snap` was written
/// to equals `snap` on the auth keys and holds nothing else.
pub proof fn lemma_snapshot_round_trip(
    t: Map<Seq<char>, Seq<char>>,
    snap: AuthSnapshot,
    read: AuthSnapshot,
)
    requires
        forall|i: int|
            0 <= i < 7 ==> read.value_of(#[trigger] spec_auth_keys()[i]) == map_get(
                written_table(t, snap),
                spec_auth_keys()[i],
            ),
        forall|k: Seq<char>| !is_auth_key_spec(k) ==> #[trigger] read.value_of(k) is None,
    ensures
        forall|k: Seq<char>|
            #[trigger] read.value_of(k) == if is_auth_key_spec(k) {
                snap.value_of(k)
            } else {
                None
            },
{
    assert forall|k: Seq<char>| #[trigger]
        read.value_of(k) == if is_auth_key_spec(k) {
            snap.value_of(k)
        } else {
            None
        } by {
        if is_auth_key_spec(k) {
            let i = choose|i: int| 0 <= i < 7 && spec_auth_keys()[i] == k;
            lemma_read_after_write(t, snap, k);
        }
    }
}

} // verus!
