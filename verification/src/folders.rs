//! Plans for moving the environment folders.
//!
//! Switching the environment that a normal Dock or Spotlight launch opens
//! is a swap of folder names: the live folders are parked under the pool
//! names of the environment that owned them, and the pool folders of the
//! target take the live names. That switch, the one-time move from the
//! legacy layout and the filling of each environment's pool all work the
//! same way: the caller reads which folders exist, this module decides the
//! steps, and the caller performs them in order.
use vstd::prelude::*;

use crate::paths::{
    accounts_dir, active_data_dir, active_dot_cursor_dir, inactive_data_dir,
    inactive_dot_cursor_dir, legacy_env_dir, opt_str_is, opt_str_view, spec_accounts_dir,
    spec_active_data_dir, spec_active_dot_cursor_dir, spec_inactive_data_dir,
    spec_inactive_dot_cursor_dir, spec_legacy_env_dir, spec_storage_v2_marker, storage_v2_marker,
};
use crate::text::{cat, cat3, join, join_path, owned};

verus! {

/// One file-system step of a plan.
#[derive(Debug, Clone, PartialEq)]
pub enum FsStep {
    /// Rename the first path to the second; the second must not exist.
    Rename(String, String),
    /// Create the folder and its missing parents.
    MakeDirs(String),
    /// Move the path to the Trash; a failure is ignored.
    Trash(String),
    /// Write the storage marker file.
    WriteMarker(String),
    /// Copy the first folder to the second, replacing what is there.
    Copy(String, String),
}

/// A step over the characters of its paths.
pub enum StepView {
    Rename(Seq<char>, Seq<char>),
    MakeDirs(Seq<char>),
    Trash(Seq<char>),
    WriteMarker(Seq<char>),
    Copy(Seq<char>, Seq<char>),
}

impl View for FsStep {
    type V = StepView;

    open spec fn view(&self) -> StepView {
        match self {
            FsStep::Rename(a, b) => StepView::Rename(a@, b@),
            FsStep::MakeDirs(p) => StepView::MakeDirs(p@),
            FsStep::Trash(p) => StepView::Trash(p@),
            FsStep::WriteMarker(p) => StepView::WriteMarker(p@),
            FsStep::Copy(a, b) => StepView::Copy(a@, b@),
        }
    }
}

pub open spec fn steps_view(s: Seq<FsStep>) -> Seq<StepView> {
    s.map_values(|x: FsStep| x@)
}

pub open spec fn plan_view(r: Result<Vec<FsStep>, String>) -> Result<Seq<StepView>, Seq<char>> {
    match r {
        Ok(v) => Ok(steps_view(v@)),
        Err(e) => Err(e@),
    }
}

/// A rename is refused when its destination already exists.
pub fn rename_blocked_error(dest_exists: bool, from: &str, to: &str) -> (r: Option<String>)
    ensures
        !dest_exists ==> r is None,
        dest_exists ==> (r matches Some(m) && m@ == "Cannot rename "@ + from@ + " → "@ + to@
            + " (destination exists)"@),
{
    if dest_exists {
        let a = cat3("Cannot rename ", from, " → ");
        Some(cat3(a.as_str(), to, " (destination exists)"))
    } else {
        None
    }
}

/// `<dir>/User/globalStorage`, where Cursor keeps its state database.
pub open spec fn spec_global_storage_dir(dir: Seq<char>) -> Seq<char> {
    join_path(join_path(dir, "User"@), "globalStorage"@)
}

pub fn global_storage_dir(dir: &str) -> (r: String)
    ensures
        r@ == spec_global_storage_dir(dir@),
{
    join(join(dir, "User").as_str(), "globalStorage")
}

/// The steps that make `to` the live environment, or the refusal.
///
/// `park` holds the names under which the live folders are put aside: the
/// pool names of `from` when an environment was active. The flags say
/// which folders exist before any step is taken.
pub open spec fn spec_activation_plan(
    home: Seq<char>,
    from: Option<Seq<char>>,
    to: Seq<char>,
    park: (Seq<char>, Seq<char>),
    to_data_exists: bool,
    to_dot_exists: bool,
    park_data_exists: bool,
    park_dot_exists: bool,
    live_data_exists: bool,
    live_dot_exists: bool,
) -> Result<Seq<StepView>, Seq<char>> {
    let to_data = spec_inactive_data_dir(home, to);
    let to_dot = spec_inactive_dot_cursor_dir(home, to);
    let live_data = spec_active_data_dir(home);
    let live_dot = spec_active_dot_cursor_dir(home);
    if from == Some(to) {
        Ok(Seq::empty())
    } else if !to_data_exists {
        Err("Environment data folder missing: "@ + to_data)
    } else if !to_dot_exists {
        Err("Environment ~/.cursor folder missing: "@ + to_dot)
    } else if from is Some && park_data_exists {
        Err("Inactive data folder already exists for active env: "@ + park.0)
    } else if from is Some && park_dot_exists {
        Err("Inactive ~/.cursor folder already exists for active env: "@ + park.1)
    } else {
        let data_side = if live_data_exists {
            seq![StepView::Rename(live_data, park.0)]
        } else {
            seq![StepView::MakeDirs(park.0), StepView::MakeDirs(spec_global_storage_dir(park.0))]
        };
        let dot_side = if live_dot_exists {
            seq![StepView::Rename(live_dot, park.1)]
        } else {
            seq![StepView::MakeDirs(park.1)]
        };
        Ok(
            data_side + dot_side + seq![
                StepView::Rename(to_data, live_data),
                StepView::Rename(to_dot, live_dot),
            ],
        )
    }
}

/// Decide how to make `to_env_id` the environment behind the live folders.
///
/// Switching to the environment that is already active needs no step. The
/// target's pool folders must exist, and, when an environment was active,
/// its pool names must be free to receive the live folders.
pub fn activation_plan(
    home: &str,
    from_env_id: Option<&str>,
    to_env_id: &str,
    park: (String, String),
    to_data_exists: bool,
    to_dot_exists: bool,
    park_data_exists: bool,
    park_dot_exists: bool,
    live_data_exists: bool,
    live_dot_exists: bool,
) -> (r: Result<Vec<FsStep>, String>)
    ensures
        plan_view(r) == spec_activation_plan(
            home@,
            opt_str_view(from_env_id),
            to_env_id@,
            (park.0@, park.1@),
            to_data_exists,
            to_dot_exists,
            park_data_exists,
            park_dot_exists,
            live_data_exists,
            live_dot_exists,
        ),
{
    if opt_str_is(from_env_id, to_env_id) {
        let none: Vec<FsStep> = Vec::new();
        assert(steps_view(none@) =~= Seq::<StepView>::empty());
        return Ok(none);
    }
    let to_data = inactive_data_dir(home, to_env_id);
    let to_dot = inactive_dot_cursor_dir(home, to_env_id);
    if !to_data_exists {
        return Err(cat("Environment data folder missing: ", to_data.as_str()));
    }
    if !to_dot_exists {
        return Err(cat("Environment ~/.cursor folder missing: ", to_dot.as_str()));
    }
    if from_env_id.is_some() && park_data_exists {
        return Err(cat("Inactive data folder already exists for active env: ", park.0.as_str()));
    }
    if from_env_id.is_some() && park_dot_exists {
        return Err(
            cat("Inactive ~/.cursor folder already exists for active env: ", park.1.as_str()),
        );
    }
    let live_data = active_data_dir(home);
    let live_dot = active_dot_cursor_dir(home);
    let mut steps: Vec<FsStep> = Vec::new();
    if live_data_exists {
        steps.push(FsStep::Rename(owned(live_data.as_str()), owned(park.0.as_str())));
    } else {
        steps.push(FsStep::MakeDirs(owned(park.0.as_str())));
        steps.push(FsStep::MakeDirs(global_storage_dir(park.0.as_str())));
    }
    if live_dot_exists {
        steps.push(FsStep::Rename(owned(live_dot.as_str()), owned(park.1.as_str())));
    } else {
        steps.push(FsStep::MakeDirs(owned(park.1.as_str())));
    }
    steps.push(FsStep::Rename(to_data, owned(live_data.as_str())));
    steps.push(FsStep::Rename(to_dot, owned(live_dot.as_str())));
    let ghost want = spec_activation_plan(
        home@,
        opt_str_view(from_env_id),
        to_env_id@,
        (park.0@, park.1@),
        to_data_exists,
        to_dot_exists,
        park_data_exists,
        park_dot_exists,
        live_data_exists,
        live_dot_exists,
    );
    assert(want is Ok);
    assert(steps_view(steps@) =~= want->Ok_0);
    Ok(steps)
}

/// What one step does to the folders, modelled as a map from path to
/// contents; `fresh` stands for a new, empty folder or file. A rename fails
/// when its source is missing or its destination is taken, a copy when its
/// source is missing.
pub open spec fn run_step<V>(fs: Map<Seq<char>, V>, step: StepView, fresh: V) -> Option<
    Map<Seq<char>, V>,
> {
    match step {
        StepView::Rename(a, b) => if fs.contains_key(a) && !fs.contains_key(b) {
            Some(fs.remove(a).insert(b, fs[a]))
        } else {
            None
        },
        StepView::MakeDirs(p) => if fs.contains_key(p) {
            Some(fs)
        } else {
            Some(fs.insert(p, fresh))
        },
        StepView::Trash(p) => Some(fs.remove(p)),
        StepView::WriteMarker(p) => Some(fs.insert(p, fresh)),
        StepView::Copy(a, b) => if fs.contains_key(a) {
            Some(fs.insert(b, fs[a]))
        } else {
            None
        },
    }
}

/// The steps performed in order, stopping at the first that fails.
pub open spec fn run_steps<V>(fs: Map<Seq<char>, V>, steps: Seq<StepView>, fresh: V) -> Option<
    Map<Seq<char>, V>,
>
    decreases steps.len(),
{
    if steps.len() == 0 {
        Some(fs)
    } else {
        match run_step(fs, steps[0], fresh) {
            Some(next) => run_steps(next, steps.drop_first(), fresh),
            None => None,
        }
    }
}

proof fn lemma_run_concat<V>(fs: Map<Seq<char>, V>, a: Seq<StepView>, b: Seq<StepView>, fresh: V)
    ensures
        run_steps(fs, a + b, fresh) == match run_steps(fs, a, fresh) {
            Some(m) => run_steps(m, b, fresh),
            None => None,
        },
    decreases a.len(),
{
    if a.len() == 0 {
        assert(a + b =~= b);
    } else {
        assert((a + b)[0] == a[0]);
        assert((a + b).drop_first() =~= a.drop_first() + b);
        match run_step(fs, a[0], fresh) {
            Some(m) => lemma_run_concat(m, a.drop_first(), b, fresh),
            None => {},
        }
    }
}

proof fn lemma_run_one<V>(fs: Map<Seq<char>, V>, s: StepView, fresh: V)
    ensures
        run_steps(fs, seq![s], fresh) == run_step(fs, s, fresh),
{
    assert(seq![s].drop_first() =~= Seq::<StepView>::empty());
    assert(seq![s][0] == s);
    match run_step(fs, s, fresh) {
        Some(m) => assert(run_steps(m, Seq::<StepView>::empty(), fresh) == Some(m)),
        None => {},
    }
}

proof fn lemma_run_two<V>(fs: Map<Seq<char>, V>, s: StepView, t: StepView, fresh: V)
    ensures
        run_steps(fs, seq![s, t], fresh) == match run_step(fs, s, fresh) {
            Some(m) => run_step(m, t, fresh),
            None => None,
        },
{
    assert(seq![s, t] =~= seq![s] + seq![t]);
    lemma_run_concat(fs, seq![s], seq![t], fresh);
    lemma_run_one(fs, s, fresh);
    match run_step(fs, s, fresh) {
        Some(m) => lemma_run_one(m, t, fresh),
        None => {},
    }
}

/// The plan for `from` to `to`, with each existence flag read from `fs`.
pub open spec fn activation_plan_on<V>(
    home: Seq<char>,
    from: Seq<char>,
    to: Seq<char>,
    fs: Map<Seq<char>, V>,
) -> Result<Seq<StepView>, Seq<char>> {
    let park_data = spec_inactive_data_dir(home, from);
    let park_dot = spec_inactive_dot_cursor_dir(home, from);
    spec_activation_plan(
        home,
        Some(from),
        to,
        (park_data, park_dot),
        fs.contains_key(spec_inactive_data_dir(home, to)),
        fs.contains_key(spec_inactive_dot_cursor_dir(home, to)),
        fs.contains_key(park_data),
        fs.contains_key(park_dot),
        fs.contains_key(spec_active_data_dir(home)),
        fs.contains_key(spec_active_dot_cursor_dir(home)),
    )
}

/// After switching from `from` to `to`: the live names hold what `to`'s
/// pool folders held, `to`'s pool names are free, `from`'s pool names
/// hold the former live folders (or new empty ones where a live folder
/// was missing), and every other path is as it was, but for the
/// `User/globalStorage` folder created in a new parked data folder.
pub open spec fn activation_outcome<V>(
    home: Seq<char>,
    from: Seq<char>,
    to: Seq<char>,
    before: Map<Seq<char>, V>,
    after: Map<Seq<char>, V>,
    fresh: V,
) -> bool {
    let live_data = spec_active_data_dir(home);
    let live_dot = spec_active_dot_cursor_dir(home);
    let to_data = spec_inactive_data_dir(home, to);
    let to_dot = spec_inactive_dot_cursor_dir(home, to);
    let park_data = spec_inactive_data_dir(home, from);
    let park_dot = spec_inactive_dot_cursor_dir(home, from);
    let touched = set![
        live_data,
        live_dot,
        to_data,
        to_dot,
        park_data,
        park_dot,
        spec_global_storage_dir(park_data),
    ];
    &&& after.contains_key(live_data) && after[live_data] == before[to_data]
    &&& after.contains_key(live_dot) && after[live_dot] == before[to_dot]
    &&& !after.contains_key(to_data) && !after.contains_key(to_dot)
    &&& after.contains_key(park_data) && after[park_data] == if before.contains_key(live_data) {
        before[live_data]
    } else {
        fresh
    }
    &&& after.contains_key(park_dot) && after[park_dot] == if before.contains_key(live_dot) {
        before[live_dot]
    } else {
        fresh
    }
    &&& after.remove_keys(touched) == before.remove_keys(touched)
}

spec fn home_base(home: Seq<char>) -> Seq<char> {
    if home.len() > 0 && home.last() != '/' {
        home.push('/')
    } else {
        home
    }
}

proof fn lemma_join_keeps(base: Seq<char>, comp: Seq<char>)
    requires
        comp.len() > 0,
        comp[0] != '/',
    ensures
        join_path(base, comp).len() > base.len(),
        forall|i: int| 0 <= i < base.len() ==> #[trigger] join_path(base, comp)[i] == base[i],
{
}

proof fn lemma_join_home(home: Seq<char>, comp: Seq<char>)
    requires
        comp.len() > 0,
        comp[0] != '/',
    ensures
        join_path(home, comp) == home_base(home) + comp,
{
    if home.len() > 0 && home.last() != '/' {
        assert(home + seq!['/'] + comp =~= home.push('/') + comp);
    }
}

/// Every folder under Application Support differs from every folder named
/// `.cursor...` in the home directory: right after the home directory one
/// path has `L` (of `Library`) and the other `.`. The live data folder is
/// also shorter than any pool data folder, and a `User/globalStorage`
/// below a folder is longer than the folder.
proof fn lemma_folder_shapes(home: Seq<char>, a: Seq<char>, b: Seq<char>)
    ensures
        ({
            let k = home_base(home).len() as int;
            let n = spec_global_storage_dir(spec_inactive_data_dir(home, a));
            &&& spec_active_data_dir(home).len() > k && spec_active_data_dir(home)[k] == 'L'
            &&& spec_inactive_data_dir(home, a).len() > k && spec_inactive_data_dir(home, a)[k]
                == 'L'
            &&& n.len() > k && n[k] == 'L'
            &&& spec_active_dot_cursor_dir(home).len() > k && spec_active_dot_cursor_dir(home)[k]
                == '.'
            &&& spec_inactive_dot_cursor_dir(home, b).len() > k && spec_inactive_dot_cursor_dir(
                home,
                b,
            )[k] == '.'
            &&& spec_active_data_dir(home).len() < spec_inactive_data_dir(home, a).len()
            &&& spec_inactive_data_dir(home, a).len() < n.len()
        }),
{
    reveal_strlit("Library");
    reveal_strlit("Application Support");
    reveal_strlit("Cursor");
    reveal_strlit("Cursor.multi-cursor.");
    reveal_strlit(".cursor");
    reveal_strlit(".cursor.multi-cursor.");
    reveal_strlit("User");
    reveal_strlit("globalStorage");
    let hb = home_base(home);
    let k = hb.len() as int;
    let lib = join_path(home, "Library"@);
    lemma_join_home(home, "Library"@);
    assert(lib[k] == 'L');
    let support = join_path(lib, "Application Support"@);
    lemma_join_keeps(lib, "Application Support"@);
    assert(support[k] == 'L');
    let live = spec_active_data_dir(home);
    lemma_join_keeps(support, "Cursor"@);
    assert(live[k] == 'L');
    let pool = spec_inactive_data_dir(home, a);
    let pa = crate::paths::DATA_INACTIVE_PREFIX@ + a;
    assert(pa[0] == 'C');
    lemma_join_keeps(support, pa);
    assert(pool[k] == 'L');
    let user = join_path(pool, "User"@);
    lemma_join_keeps(pool, "User"@);
    assert(user[k] == 'L');
    let n = spec_global_storage_dir(pool);
    lemma_join_keeps(user, "globalStorage"@);
    assert(n[k] == 'L');
    lemma_join_home(home, ".cursor"@);
    assert(spec_active_dot_cursor_dir(home)[k] == '.');
    let pb = crate::paths::DOT_INACTIVE_PREFIX@ + b;
    assert(pb[0] == '.');
    lemma_join_home(home, pb);
    assert(spec_inactive_dot_cursor_dir(home, b)[k] == '.');
    assert(lib.len() > 0 && lib.last() == 'y');
    assert(support =~= lib + seq!['/'] + "Application Support"@);
    assert(support.last() == 't');
    assert(live =~= support + seq!['/'] + "Cursor"@);
    assert(pool =~= support + seq!['/'] + pa);
}

/// The names a switch from `from` to `to` touches are pairwise different.
proof fn lemma_swap_names_distinct(home: Seq<char>, from: Seq<char>, to: Seq<char>)
    requires
        from != to,
    ensures
        ({
            let ld = spec_active_data_dir(home);
            let lt = spec_active_dot_cursor_dir(home);
            let td = spec_inactive_data_dir(home, to);
            let tt = spec_inactive_dot_cursor_dir(home, to);
            let pd = spec_inactive_data_dir(home, from);
            let pt = spec_inactive_dot_cursor_dir(home, from);
            let n = spec_global_storage_dir(pd);
            &&& ld != lt && ld != tt && ld != pt && ld != td && ld != pd
            &&& td != lt && td != tt && td != pt && td != pd
            &&& pd != lt && pd != tt && pd != pt
            &&& lt != tt && lt != pt && tt != pt
            &&& n != lt && n != pt && n != ld && n != pd
        }),
{
    crate::paths::lemma_pool_entries_distinct(home, from, to);
    crate::paths::lemma_pool_never_live(home, from);
    crate::paths::lemma_pool_never_live(home, to);
    lemma_folder_shapes(home, from, from);
    lemma_folder_shapes(home, to, to);
    lemma_folder_shapes(home, from, to);
    lemma_folder_shapes(home, to, from);
}

/// Switching environments swaps the folders.
///
/// When the plan for `from` to `to`, made from what `fs` shows, is
/// accepted, performing its steps on `fs` succeeds: from another
/// environment it gives `activation_outcome`, and to the active one it
/// changes nothing.
pub proof fn lemma_activation_swaps_folders<V>(
    home: Seq<char>,
    from: Seq<char>,
    to: Seq<char>,
    fs: Map<Seq<char>, V>,
    fresh: V,
)
    requires
        activation_plan_on(home, from, to, fs) is Ok,
    ensures
        from == to ==> run_steps(fs, activation_plan_on(home, from, to, fs)->Ok_0, fresh) == Some(
            fs,
        ),
        from != to ==> (run_steps(fs, activation_plan_on(home, from, to, fs)->Ok_0, fresh) matches Some(
            after,
        ) && activation_outcome(home, from, to, fs, after, fresh)),
{
    let plan = activation_plan_on(home, from, to, fs)->Ok_0;
    if from == to {
        assert(plan =~= Seq::<StepView>::empty());
        return;
    }
    let ld = spec_active_data_dir(home);
    let lt = spec_active_dot_cursor_dir(home);
    let td = spec_inactive_data_dir(home, to);
    let tt = spec_inactive_dot_cursor_dir(home, to);
    let pd = spec_inactive_data_dir(home, from);
    let pt = spec_inactive_dot_cursor_dir(home, from);
    let n = spec_global_storage_dir(pd);
    lemma_swap_names_distinct(home, from, to);
    assert(fs.contains_key(td) && fs.contains_key(tt));
    assert(!fs.contains_key(pd) && !fs.contains_key(pt));
    let data_side = if fs.contains_key(ld) {
        seq![StepView::Rename(ld, pd)]
    } else {
        seq![StepView::MakeDirs(pd), StepView::MakeDirs(n)]
    };
    let dot_side = if fs.contains_key(lt) {
        seq![StepView::Rename(lt, pt)]
    } else {
        seq![StepView::MakeDirs(pt)]
    };
    let tail = seq![StepView::Rename(td, ld), StepView::Rename(tt, lt)];
    assert(plan == data_side + dot_side + tail);
    lemma_run_concat(fs, data_side + dot_side, tail, fresh);
    lemma_run_concat(fs, data_side, dot_side, fresh);
    if fs.contains_key(ld) {
        lemma_run_one(fs, StepView::Rename(ld, pd), fresh);
    } else {
        lemma_run_two(fs, StepView::MakeDirs(pd), StepView::MakeDirs(n), fresh);
    }
    let m1 = run_steps(fs, data_side, fresh)->Some_0;
    assert(m1.contains_key(pd) && !m1.contains_key(ld) && !m1.contains_key(pt));
    assert(m1.contains_key(td) && m1.contains_key(tt) && m1[td] == fs[td] && m1[tt] == fs[tt]);
    assert(m1.contains_key(lt) == fs.contains_key(lt) && m1[lt] == fs[lt]);
    if fs.contains_key(lt) {
        lemma_run_one(m1, StepView::Rename(lt, pt), fresh);
    } else {
        lemma_run_one(m1, StepView::MakeDirs(pt), fresh);
    }
    let m2 = run_steps(m1, dot_side, fresh)->Some_0;
    lemma_run_two(m2, StepView::Rename(td, ld), StepView::Rename(tt, lt), fresh);
    let after = run_steps(fs, plan, fresh)->Some_0;
    let touched = set![ld, lt, td, tt, pd, pt, n];
    assert(after.remove_keys(touched) =~= fs.remove_keys(touched));
}

/// The one-time move from the legacy layout, where each environment
/// lived under `~/.multi-cursor/environments/<id>`, to the live names.
///
/// Nothing is done once the storage marker exists. Otherwise, when the
/// active environment still has a legacy folder, the live folders are
/// parked under `park_id` (each only where its parking name is free), the
/// legacy folder takes the live data name, `~/.cursor` is made, and the
/// legacy folder's `extensions` moves to `~/.cursor/extensions`, replacing
/// (through the Trash) one that is still there. The marker is written last.
/// `nested_ext_exists` says whether the legacy folder has `extensions`,
/// `dest_ext_exists` whether `~/.cursor/extensions` exists before any step.
pub open spec fn spec_legacy_migration_plan(
    home: Seq<char>,
    marker_exists: bool,
    active_env_id: Option<Seq<char>>,
    legacy_exists: bool,
    live_data_exists: bool,
    live_dot_exists: bool,
    park_data_exists: bool,
    park_dot_exists: bool,
    nested_ext_exists: bool,
    dest_ext_exists: bool,
    park_id: Seq<char>,
) -> Seq<StepView> {
    if marker_exists {
        Seq::empty()
    } else {
        let live = spec_active_data_dir(home);
        let live_dot = spec_active_dot_cursor_dir(home);
        let moves = if active_env_id is Some && legacy_exists {
            let legacy = spec_legacy_env_dir(home, active_env_id->Some_0);
            let park_live = if live_data_exists && !park_data_exists {
                seq![StepView::Rename(live, spec_inactive_data_dir(home, park_id))]
            } else {
                Seq::empty()
            };
            let dot_parked = live_dot_exists && !park_dot_exists;
            let park_dot = if dot_parked {
                seq![StepView::Rename(live_dot, spec_inactive_dot_cursor_dir(home, park_id))]
            } else {
                Seq::empty()
            };
            let ext_to = join_path(live_dot, "extensions"@);
            let ext = if nested_ext_exists {
                let clear = if dest_ext_exists && !dot_parked {
                    seq![StepView::Trash(ext_to)]
                } else {
                    Seq::empty()
                };
                clear + seq![StepView::Rename(join_path(live, "extensions"@), ext_to)]
            } else {
                Seq::empty()
            };
            park_live + park_dot + seq![
                StepView::Rename(legacy, live),
                StepView::MakeDirs(live_dot),
            ] + ext
        } else {
            Seq::empty()
        };
        moves.push(StepView::WriteMarker(spec_storage_v2_marker(home)))
    }
}

/// Decide the steps of the one-time move from the legacy layout.
pub fn legacy_migration_plan(
    home: &str,
    marker_exists: bool,
    active_env_id: Option<&str>,
    legacy_exists: bool,
    live_data_exists: bool,
    live_dot_exists: bool,
    park_data_exists: bool,
    park_dot_exists: bool,
    nested_ext_exists: bool,
    dest_ext_exists: bool,
    park_id: &str,
) -> (r: Vec<FsStep>)
    ensures
        steps_view(r@) == spec_legacy_migration_plan(
            home@,
            marker_exists,
            opt_str_view(active_env_id),
            legacy_exists,
            live_data_exists,
            live_dot_exists,
            park_data_exists,
            park_dot_exists,
            nested_ext_exists,
            dest_ext_exists,
            park_id@,
        ),
{
    let mut steps: Vec<FsStep> = Vec::new();
    let ghost want = spec_legacy_migration_plan(
        home@,
        marker_exists,
        opt_str_view(active_env_id),
        legacy_exists,
        live_data_exists,
        live_dot_exists,
        park_data_exists,
        park_dot_exists,
        nested_ext_exists,
        dest_ext_exists,
        park_id@,
    );
    if marker_exists {
        assert(steps_view(steps@) =~= want);
        return steps;
    }
    let live = active_data_dir(home);
    let live_dot = active_dot_cursor_dir(home);
    match active_env_id {
        Some(id) => {
            if legacy_exists {
                if live_data_exists && !park_data_exists {
                    steps.push(
                        FsStep::Rename(owned(live.as_str()), inactive_data_dir(home, park_id)),
                    );
                }
                let dot_parked = live_dot_exists && !park_dot_exists;
                if dot_parked {
                    steps.push(
                        FsStep::Rename(
                            owned(live_dot.as_str()),
                            inactive_dot_cursor_dir(home, park_id),
                        ),
                    );
                }
                steps.push(FsStep::Rename(legacy_env_dir(home, id), owned(live.as_str())));
                steps.push(FsStep::MakeDirs(owned(live_dot.as_str())));
                if nested_ext_exists {
                    if dest_ext_exists && !dot_parked {
                        steps.push(FsStep::Trash(join(live_dot.as_str(), "extensions")));
                    }
                    steps.push(
                        FsStep::Rename(
                            join(live.as_str(), "extensions"),
                            join(live_dot.as_str(), "extensions"),
                        ),
                    );
                }
            }
        },
        None => {},
    }
    steps.push(FsStep::WriteMarker(storage_v2_marker(home)));
    assert(steps_view(steps@) =~= want);
    steps
}

/// The legacy move happens once: when every step of its plan succeeds,
/// the storage marker exists afterwards, and with the marker present the
/// plan is empty whatever else is found.
pub proof fn lemma_migration_runs_once<V>(
    home: Seq<char>,
    active_env_id: Option<Seq<char>>,
    legacy_exists: bool,
    live_data_exists: bool,
    live_dot_exists: bool,
    park_data_exists: bool,
    park_dot_exists: bool,
    nested_ext_exists: bool,
    dest_ext_exists: bool,
    park_id: Seq<char>,
    fs: Map<Seq<char>, V>,
    fresh: V,
)
    requires
        run_steps(
            fs,
            spec_legacy_migration_plan(
                home,
                false,
                active_env_id,
                legacy_exists,
                live_data_exists,
                live_dot_exists,
                park_data_exists,
                park_dot_exists,
                nested_ext_exists,
                dest_ext_exists,
                park_id,
            ),
            fresh,
        ) is Some,
    ensures
        run_steps(
            fs,
            spec_legacy_migration_plan(
                home,
                false,
                active_env_id,
                legacy_exists,
                live_data_exists,
                live_dot_exists,
                park_data_exists,
                park_dot_exists,
                nested_ext_exists,
                dest_ext_exists,
                park_id,
            ),
            fresh,
        )->Some_0.contains_key(spec_storage_v2_marker(home)),
        spec_legacy_migration_plan(
            home,
            true,
            active_env_id,
            legacy_exists,
            live_data_exists,
            live_dot_exists,
            park_data_exists,
            park_dot_exists,
            nested_ext_exists,
            dest_ext_exists,
            park_id,
        ) == Seq::<StepView>::empty(),
{
    let plan = spec_legacy_migration_plan(
        home,
        false,
        active_env_id,
        legacy_exists,
        live_data_exists,
        live_dot_exists,
        park_data_exists,
        park_dot_exists,
        nested_ext_exists,
        dest_ext_exists,
        park_id,
    );
    let marker = StepView::WriteMarker(spec_storage_v2_marker(home));
    let moves = plan.drop_last();
    assert(plan =~= moves + seq![marker]);
    lemma_run_concat(fs, moves, seq![marker], fresh);
    let m = run_steps(fs, moves, fresh)->Some_0;
    lemma_run_one(m, marker, fresh);
}

/// The steps that give one configured environment its folders.
///
/// Its saved-login folder is always made. The active environment owns the
/// live folders and needs nothing more, nor does one whose two pool
/// folders exist. Otherwise a legacy folder, when there is one, is copied
/// into the missing pool folders (its `extensions` into the `~/.cursor`
/// one); without it, empty pool folders are made.
pub open spec fn spec_pool_entry_plan(
    home: Seq<char>,
    env_id: Seq<char>,
    is_active: bool,
    data_exists: bool,
    dot_exists: bool,
    legacy_exists: bool,
    legacy_ext_exists: bool,
) -> Seq<StepView> {
    let accounts = StepView::MakeDirs(spec_accounts_dir(home, env_id));
    let data = spec_inactive_data_dir(home, env_id);
    let dot = spec_inactive_dot_cursor_dir(home, env_id);
    let legacy = spec_legacy_env_dir(home, env_id);
    if is_active || (data_exists && dot_exists) {
        seq![accounts]
    } else if legacy_exists {
        let copy_data = if !data_exists {
            seq![StepView::Copy(legacy, data)]
        } else {
            Seq::empty()
        };
        let copy_dot = if !dot_exists {
            let ext = if legacy_ext_exists {
                seq![
                    StepView::Copy(
                        join_path(legacy, "extensions"@),
                        join_path(dot, "extensions"@),
                    ),
                ]
            } else {
                Seq::empty()
            };
            seq![StepView::MakeDirs(dot)] + ext
        } else {
            Seq::empty()
        };
        seq![accounts] + copy_data + copy_dot
    } else {
        seq![
            accounts,
            StepView::MakeDirs(spec_global_storage_dir(data)),
            StepView::MakeDirs(dot),
            accounts,
        ]
    }
}

/// Decide the steps that give the environment `env_id` its folders.
pub fn pool_entry_plan(
    home: &str,
    env_id: &str,
    is_active: bool,
    data_exists: bool,
    dot_exists: bool,
    legacy_exists: bool,
    legacy_ext_exists: bool,
) -> (r: Vec<FsStep>)
    ensures
        steps_view(r@) == spec_pool_entry_plan(
            home@,
            env_id@,
            is_active,
            data_exists,
            dot_exists,
            legacy_exists,
            legacy_ext_exists,
        ),
{
    let ghost want = spec_pool_entry_plan(
        home@,
        env_id@,
        is_active,
        data_exists,
        dot_exists,
        legacy_exists,
        legacy_ext_exists,
    );
    let mut steps: Vec<FsStep> = Vec::new();
    steps.push(FsStep::MakeDirs(accounts_dir(home, env_id)));
    if is_active || (data_exists && dot_exists) {
        assert(steps_view(steps@) =~= want);
        return steps;
    }
    let data = inactive_data_dir(home, env_id);
    let dot = inactive_dot_cursor_dir(home, env_id);
    if legacy_exists {
        let legacy = legacy_env_dir(home, env_id);
        if !data_exists {
            steps.push(FsStep::Copy(owned(legacy.as_str()), data));
        }
        if !dot_exists {
            steps.push(FsStep::MakeDirs(owned(dot.as_str())));
            if legacy_ext_exists {
                steps.push(
                    FsStep::Copy(join(legacy.as_str(), "extensions"), join(dot.as_str(), "extensions")),
                );
            }
        }
    } else {
        steps.push(FsStep::MakeDirs(global_storage_dir(data.as_str())));
        steps.push(FsStep::MakeDirs(dot));
        steps.push(FsStep::MakeDirs(accounts_dir(home, env_id)));
    }
    assert(steps_view(steps@) =~= want);
    steps
}

/// The path a step creates or fills, for the steps that do.
pub open spec fn step_target(step: StepView) -> Seq<char> {
    match step {
        StepView::MakeDirs(p) => p,
        StepView::Copy(_, b) => b,
        StepView::Rename(_, b) => b,
        StepView::Trash(p) => p,
        StepView::WriteMarker(p) => p,
    }
}

/// Steps that only make folders, or copy from folders that exist at the
/// start, all succeed, keep every path, and leave each target in place.
proof fn lemma_additive_run<V>(fs: Map<Seq<char>, V>, steps: Seq<StepView>, fresh: V)
    requires
        forall|i: int|
            0 <= i < steps.len() ==> (#[trigger] steps[i] is MakeDirs || (steps[i] is Copy
                && fs.contains_key(steps[i]->Copy_0))),
    ensures
        run_steps(fs, steps, fresh) is Some,
        forall|k: Seq<char>|
            fs.contains_key(k) ==> #[trigger] run_steps(fs, steps, fresh)->Some_0.contains_key(k),
        forall|i: int|
            0 <= i < steps.len() ==> run_steps(fs, steps, fresh)->Some_0.contains_key(
                step_target(#[trigger] steps[i]),
            ),
    decreases steps.len(),
{
    if steps.len() > 0 {
        let first = steps[0];
        let m = run_step(fs, first, fresh)->Some_0;
        assert(run_step(fs, first, fresh) is Some);
        assert(m.contains_key(step_target(first)));
        let rest = steps.drop_first();
        assert forall|i: int| 0 <= i < rest.len() implies (#[trigger] rest[i] is MakeDirs || (
        rest[i] is Copy && m.contains_key(rest[i]->Copy_0))) by {
            assert(rest[i] == steps[i + 1]);
        }
        lemma_additive_run(m, rest, fresh);
        let after = run_steps(fs, steps, fresh)->Some_0;
        assert forall|i: int| 0 <= i < steps.len() implies after.contains_key(
            step_target(#[trigger] steps[i]),
        ) by {
            if i > 0 {
                assert(steps[i] == rest[i - 1]);
            }
        }
    }
}

/// Every inactive environment ends up with its pool folders: performing
/// its plan, made from what `fs` shows, succeeds, removes nothing, and
/// leaves its saved-login folder and both pool folders in place (a new
/// data folder is made through its `User/globalStorage` folder, which the
/// model records as a path of its own).
pub proof fn lemma_pool_entry_complete<V>(
    home: Seq<char>,
    env_id: Seq<char>,
    fs: Map<Seq<char>, V>,
    fresh: V,
)
    ensures
        ({
            let data = spec_inactive_data_dir(home, env_id);
            let dot = spec_inactive_dot_cursor_dir(home, env_id);
            let legacy = spec_legacy_env_dir(home, env_id);
            let plan = spec_pool_entry_plan(
                home,
                env_id,
                false,
                fs.contains_key(data),
                fs.contains_key(dot),
                fs.contains_key(legacy),
                fs.contains_key(join_path(legacy, "extensions"@)),
            );
            &&& run_steps(fs, plan, fresh) is Some
            &&& forall|k: Seq<char>|
                fs.contains_key(k) ==> #[trigger] run_steps(fs, plan, fresh)->Some_0.contains_key(
                    k,
                )
            &&& run_steps(fs, plan, fresh)->Some_0.contains_key(data) || run_steps(
                fs,
                plan,
                fresh,
            )->Some_0.contains_key(spec_global_storage_dir(data))
            &&& run_steps(fs, plan, fresh)->Some_0.contains_key(dot)
            &&& run_steps(fs, plan, fresh)->Some_0.contains_key(spec_accounts_dir(home, env_id))
        }),
{
    let data = spec_inactive_data_dir(home, env_id);
    let dot = spec_inactive_dot_cursor_dir(home, env_id);
    let legacy = spec_legacy_env_dir(home, env_id);
    let de = fs.contains_key(data);
    let te = fs.contains_key(dot);
    let le = fs.contains_key(legacy);
    let xe = fs.contains_key(join_path(legacy, "extensions"@));
    let plan = spec_pool_entry_plan(home, env_id, false, de, te, le, xe);
    lemma_additive_run(fs, plan, fresh);
    let after = run_steps(fs, plan, fresh)->Some_0;
    assert(plan[0] == StepView::MakeDirs(spec_accounts_dir(home, env_id)));
    assert(after.contains_key(step_target(plan[0])));
    if !(de && te) {
        if le {
            let copy_data: Seq<StepView> = if !de {
                seq![StepView::Copy(legacy, data)]
            } else {
                Seq::empty()
            };
            if !de {
                assert(plan[1] == StepView::Copy(legacy, data));
                assert(after.contains_key(step_target(plan[1])));
            }
            if !te {
                let j: int = 1 + copy_data.len() as int;
                assert(plan[j] == StepView::MakeDirs(dot));
                assert(after.contains_key(step_target(plan[j])));
            }
        } else {
            assert(plan[2] == StepView::MakeDirs(dot));
            assert(after.contains_key(step_target(plan[2])));
            assert(plan[1] == StepView::MakeDirs(spec_global_storage_dir(data)));
            assert(after.contains_key(step_target(plan[1])));
        }
    }
}

/// Switching back undoes a switch: from `a` to `b` and then from `b` to
/// `a` leaves every folder as it was, when both live folders and `b`'s
/// pool folders exist and `a`'s pool names are free.
pub proof fn lemma_switch_back_restores<V>(
    home: Seq<char>,
    a: Seq<char>,
    b: Seq<char>,
    fs: Map<Seq<char>, V>,
    fresh: V,
)
    requires
        a != b,
        fs.contains_key(spec_active_data_dir(home)),
        fs.contains_key(spec_active_dot_cursor_dir(home)),
        fs.contains_key(spec_inactive_data_dir(home, b)),
        fs.contains_key(spec_inactive_dot_cursor_dir(home, b)),
        !fs.contains_key(spec_inactive_data_dir(home, a)),
        !fs.contains_key(spec_inactive_dot_cursor_dir(home, a)),
    ensures
        activation_plan_on(home, a, b, fs) is Ok,
        run_steps(fs, activation_plan_on(home, a, b, fs)->Ok_0, fresh) matches Some(m) && (
        activation_plan_on(home, b, a, m) is Ok && run_steps(
            m,
            activation_plan_on(home, b, a, m)->Ok_0,
            fresh,
        ) == Some(fs)),
{
    let ld = spec_active_data_dir(home);
    let lt = spec_active_dot_cursor_dir(home);
    let ad = spec_inactive_data_dir(home, a);
    let at = spec_inactive_dot_cursor_dir(home, a);
    let bd = spec_inactive_data_dir(home, b);
    let bt = spec_inactive_dot_cursor_dir(home, b);
    lemma_swap_names_distinct(home, a, b);
    lemma_swap_names_distinct(home, b, a);
    let there = activation_plan_on(home, a, b, fs)->Ok_0;
    assert(there =~= seq![StepView::Rename(ld, ad), StepView::Rename(lt, at)] + seq![
        StepView::Rename(bd, ld),
        StepView::Rename(bt, lt),
    ]);
    lemma_run_concat(
        fs,
        seq![StepView::Rename(ld, ad), StepView::Rename(lt, at)],
        seq![StepView::Rename(bd, ld), StepView::Rename(bt, lt)],
        fresh,
    );
    lemma_run_two(fs, StepView::Rename(ld, ad), StepView::Rename(lt, at), fresh);
    let m1 = fs.remove(ld).insert(ad, fs[ld]).remove(lt).insert(at, fs[lt]);
    lemma_run_two(m1, StepView::Rename(bd, ld), StepView::Rename(bt, lt), fresh);
    let m = m1.remove(bd).insert(ld, fs[bd]).remove(bt).insert(lt, fs[bt]);
    assert(run_steps(fs, there, fresh) == Some(m));
    let back = activation_plan_on(home, b, a, m)->Ok_0;
    assert(back =~= seq![StepView::Rename(ld, bd), StepView::Rename(lt, bt)] + seq![
        StepView::Rename(ad, ld),
        StepView::Rename(at, lt),
    ]);
    lemma_run_concat(
        m,
        seq![StepView::Rename(ld, bd), StepView::Rename(lt, bt)],
        seq![StepView::Rename(ad, ld), StepView::Rename(at, lt)],
        fresh,
    );
    lemma_run_two(m, StepView::Rename(ld, bd), StepView::Rename(lt, bt), fresh);
    let m2 = m.remove(ld).insert(bd, fs[bd]).remove(lt).insert(bt, fs[bt]);
    lemma_run_two(m2, StepView::Rename(ad, ld), StepView::Rename(at, lt), fresh);
    let last = m2.remove(ad).insert(ld, fs[ld]).remove(at).insert(lt, fs[lt]);
    assert(last =~= fs);
}

} // verus!
