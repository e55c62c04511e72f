//! The login-capture pass as a whole.
//!
//! The pass walks the accounts that still need an identity (in the order
//! of `capture_candidates`). For a pending account it reads the login
//! database and, once the email is there, records the login; for another
//! it may heal the account from its own saved snapshot. Each step is a
//! verified function of `commands`; this module states what the whole
//! pass keeps.
use vstd::prelude::*;

use crate::auth::AuthSnapshot;
use crate::commands::{
    account_has_id, accounts_with_identity, first_match, keep, lemma_first_match, lemma_keep,
    needs_identity, needs_identity_fn,
};
use crate::paths::{AccountView, ConfigView};

verus! {

/// What one step of the pass did to its candidate account.
pub enum CaptureOutcome {
    /// Nothing: no login yet, or no snapshot to heal from.
    Skipped,
    /// Healed from a snapshot: the email and the snapshot.
    Healed(Seq<char>, AuthSnapshot),
    /// A pending login recorded: the environment, the email and the snapshot.
    Recorded(Seq<char>, Seq<char>, AuthSnapshot),
}

/// The configuration after one step on the account `id`, as the contracts
/// of `heal_account_identity` and `record_pending_capture` state it.
pub open spec fn capture_step_holds(
    before: ConfigView,
    after: ConfigView,
    id: Seq<char>,
    outcome: CaptureOutcome,
) -> bool {
    let i = first_match(before.accounts, account_has_id(id));
    match outcome {
        CaptureOutcome::Skipped => after == before,
        CaptureOutcome::Healed(email, snap) => {
            &&& accounts_with_identity(before.accounts, after.accounts, i, email, snap)
            &&& after.environments == before.environments
            &&& after.active == before.active
            &&& after.cursor_app_path == before.cursor_app_path
        },
        CaptureOutcome::Recorded(env, email, snap) => {
            &&& accounts_with_identity(before.accounts, after.accounts, i, email, snap)
            &&& after.environments == before.environments
            &&& after.active.env_id == Some(env)
            &&& after.active.account_id == Some(id)
            &&& after.cursor_app_path == before.cursor_app_path
        },
    }
}

pub open spec fn account_ids_distinct(accounts: Seq<AccountView>) -> bool {
    forall|a: int, b: int|
        0 <= a < accounts.len() && 0 <= b < accounts.len() && a != b ==> accounts[a].id
            != accounts[b].id
}

pub open spec fn any_recorded(outcomes: Seq<CaptureOutcome>) -> bool {
    exists|k: int| 0 <= k < outcomes.len() && #[trigger] outcomes[k] is Recorded
}

/// How many steps recorded a login.
pub open spec fn recorded_count(outcomes: Seq<CaptureOutcome>) -> nat
    decreases outcomes.len(),
{
    if outcomes.len() == 0 {
        0
    } else {
        recorded_count(outcomes.drop_last()) + if outcomes.last() is Recorded {
            1nat
        } else {
            0nat
        }
    }
}

/// How many accounts wait for a login.
pub open spec fn pending_count(accounts: Seq<AccountView>) -> nat
    decreases accounts.len(),
{
    if accounts.len() == 0 {
        0
    } else {
        pending_count(accounts.drop_last()) + if accounts.last().pending_login {
            1nat
        } else {
            0nat
        }
    }
}

/// What the pass keeps between the first configuration `c0` and `c`.
pub open spec fn capture_kept(c0: ConfigView, c: ConfigView, recorded: bool) -> bool {
    &&& c.environments == c0.environments
    &&& c.cursor_app_path == c0.cursor_app_path
    &&& c.accounts.len() == c0.accounts.len()
    &&& forall|j: int|
        0 <= j < c0.accounts.len() ==> (#[trigger] c.accounts[j]).id == c0.accounts[j].id
            && c.accounts[j].env_id == c0.accounts[j].env_id
    &&& forall|j: int|
        0 <= j < c0.accounts.len() && !needs_identity(c0.accounts[j]) ==> #[trigger] c.accounts[j]
            == c0.accounts[j]
    &&& !recorded ==> c.active == c0.active
}

proof fn lemma_capture_step(
    c0: ConfigView,
    c: ConfigView,
    c2: ConfigView,
    m: int,
    outcome: CaptureOutcome,
    recorded: bool,
)
    requires
        capture_kept(c0, c, recorded),
        account_ids_distinct(c0.accounts),
        0 <= m < c0.accounts.len(),
        needs_identity(c0.accounts[m]),
        capture_step_holds(c, c2, c0.accounts[m].id, outcome),
    ensures
        capture_kept(c0, c2, recorded || outcome is Recorded),
{
    let id = c0.accounts[m].id;
    lemma_first_match(c.accounts, account_has_id(id));
    assert(c.accounts[m].id == id);
    let i = first_match(c.accounts, account_has_id(id));
    assert(i == Some(m)) by {
        if i != Some(m) {
            match i {
                Some(k) => {
                    assert(c.accounts[k].id == c0.accounts[k].id);
                    assert(k != m);
                },
                None => {
                    assert(account_has_id(id)(c.accounts[m]));
                },
            }
        }
    }
}

proof fn lemma_capture_prefix(
    configs: Seq<ConfigView>,
    ids: Seq<Seq<char>>,
    outcomes: Seq<CaptureOutcome>,
    k: int,
)
    requires
        configs.len() == ids.len() + 1,
        outcomes.len() == ids.len(),
        0 <= k <= ids.len(),
        account_ids_distinct(configs[0].accounts),
        forall|n: int|
            0 <= n < ids.len() ==> capture_step_holds(
                #[trigger] configs[n],
                configs[n + 1],
                ids[n],
                outcomes[n],
            ),
        forall|n: int|
            0 <= n < ids.len() ==> exists|m: int|
                0 <= m < configs[0].accounts.len() && configs[0].accounts[m].id == #[trigger] ids[n]
                    && needs_identity(configs[0].accounts[m]),
    ensures
        capture_kept(configs[0], configs[k], any_recorded(outcomes.take(k))),
    decreases k,
{
    let c0 = configs[0];
    if k == 0 {
        assert(!any_recorded(outcomes.take(0)));
    } else {
        lemma_capture_prefix(configs, ids, outcomes, k - 1);
        let n = k - 1;
        assert(capture_step_holds(configs[n], configs[n + 1], ids[n], outcomes[n]));
        let m = choose|m: int|
            0 <= m < c0.accounts.len() && c0.accounts[m].id == ids[n] && needs_identity(
                c0.accounts[m],
            );
        lemma_capture_step(
            c0,
            configs[n],
            configs[k],
            m,
            outcomes[n],
            any_recorded(outcomes.take(n)),
        );
        let before = outcomes.take(n);
        let now = outcomes.take(k);
        assert(any_recorded(now) == (any_recorded(before) || outcomes[n] is Recorded)) by {
            if any_recorded(before) {
                let w = choose|w: int| 0 <= w < before.len() && #[trigger] before[w] is Recorded;
                assert(now[w] == before[w]);
            }
            if outcomes[n] is Recorded {
                assert(now[n] == outcomes[n]);
            }
            if any_recorded(now) {
                let w = choose|w: int| 0 <= w < now.len() && #[trigger] now[w] is Recorded;
                if w < n {
                    assert(before[w] == now[w]);
                }
            }
        }
    }
}

proof fn lemma_recorded_at_most_pending(
    outcomes: Seq<CaptureOutcome>,
    cands: Seq<AccountView>,
)
    requires
        outcomes.len() == cands.len(),
        forall|k: int|
            0 <= k < outcomes.len() && #[trigger] outcomes[k] is Recorded ==> cands[k].pending_login,
    ensures
        recorded_count(outcomes) <= pending_count(cands),
    decreases outcomes.len(),
{
    if outcomes.len() > 0 {
        let n = outcomes.len() - 1;
        assert forall|k: int|
            0 <= k < outcomes.drop_last().len() && #[trigger] outcomes.drop_last()[k] is Recorded
            implies cands.drop_last()[k].pending_login by {
            assert(outcomes.drop_last()[k] == outcomes[k]);
        }
        lemma_recorded_at_most_pending(outcomes.drop_last(), cands.drop_last());
        assert(outcomes.last() == outcomes[n as int]);
    }
}

proof fn lemma_pending_all_need_identity(accounts: Seq<AccountView>)
    ensures
        pending_count(keep(accounts, needs_identity_fn())) == pending_count(accounts),
    decreases accounts.len(),
{
    if accounts.len() > 0 {
        lemma_pending_all_need_identity(accounts.drop_last());
        let r = keep(accounts.drop_last(), needs_identity_fn());
        if needs_identity(accounts.last()) {
            assert(r.push(accounts.last()).drop_last() =~= r);
        }
    }
}

/// The capture pass keeps the configuration's shape.
///
/// Take any run of the pass: the configurations `configs[0]` to
/// `configs.last()`, where step `n` works on the candidate `cands[n]` (the
/// accounts that needed an identity at the start, in order), as
/// `capture_step_holds` says, and records a login only for a pending
/// candidate. When account ids are distinct, the environments and the
/// Cursor path are unchanged, the accounts keep their ids and environments
/// in the same order, every account that needed no identity is unchanged,
/// at most as many logins are recorded as accounts were pending, and when
/// none is recorded the selection is unchanged.
pub proof fn lemma_capture_pass(
    configs: Seq<ConfigView>,
    outcomes: Seq<CaptureOutcome>,
)
    requires
        configs.len() == outcomes.len() + 1,
        outcomes.len() == keep(configs[0].accounts, needs_identity_fn()).len(),
        account_ids_distinct(configs[0].accounts),
        forall|n: int|
            0 <= n < outcomes.len() ==> capture_step_holds(
                #[trigger] configs[n],
                configs[n + 1],
                keep(configs[0].accounts, needs_identity_fn())[n].id,
                outcomes[n],
            ),
        forall|n: int|
            0 <= n < outcomes.len() && #[trigger] outcomes[n] is Recorded ==> keep(
                configs[0].accounts,
                needs_identity_fn(),
            )[n].pending_login,
    ensures
        capture_kept(configs[0], configs.last(), any_recorded(outcomes)),
        recorded_count(outcomes) <= pending_count(configs[0].accounts),
{
    let c0 = configs[0];
    let cands = keep(c0.accounts, needs_identity_fn());
    let ids = cands.map_values(|a: AccountView| a.id);
    lemma_keep(c0.accounts, needs_identity_fn());
    assert forall|n: int| 0 <= n < ids.len() implies exists|m: int|
        0 <= m < c0.accounts.len() && c0.accounts[m].id == #[trigger] ids[n] && needs_identity(
            c0.accounts[m],
        ) by {
        assert(cands.contains(cands[n]));
        let m = choose|m: int| 0 <= m < c0.accounts.len() && c0.accounts[m] == cands[n];
        assert(c0.accounts[m].id == ids[n]);
    }
    assert forall|n: int| 0 <= n < ids.len() implies capture_step_holds(
        #[trigger] configs[n],
        configs[n + 1],
        ids[n],
        outcomes[n],
    ) by {
        assert(capture_step_holds(configs[n], configs[n + 1], cands[n].id, outcomes[n]));
    }
    lemma_capture_prefix(configs, ids, outcomes, ids.len() as int);
    assert(outcomes.take(ids.len() as int) =~= outcomes);
    assert(configs.last() == configs[ids.len() as int]);
    lemma_recorded_at_most_pending(outcomes, cands);
    lemma_pending_all_need_identity(c0.accounts);
}

} // verus!
