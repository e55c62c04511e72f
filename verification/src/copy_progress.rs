//! The decisions of copying and trashing environment folders: which entries
//! a copy skips, how progress maps onto the bar, what counts as a failed
//! copy, and the messages shown. The traversal itself is the caller's.
use vstd::prelude::*;

use crate::text::{
    occurs_at,    cat, cat3, contains, contains_seq, decimal, is_prefix_of, is_white, owned, parse_u64,
    parse_u64_spec, starts_with, str_eq, trim_start, trim_start_index, u64_to_string,
    char_is_white,
};

verus! {

/// One update of the progress bar.
#[derive(Debug, Clone)]
pub struct CopyProgressEvent {
    pub percent: u8,
    pub label: String,
}

/// The event sent for `percent` and `label`; the percentage is capped at 100.
pub fn progress_event(percent: u8, label: String) -> (r: CopyProgressEvent)
    ensures
        r.percent == if percent < 100 {
            percent
        } else {
            100
        },
        r.label@ == label@,
{
    CopyProgressEvent { percent: if percent < 100 {
        percent
    } else {
        100
    }, label }
}

pub open spec fn min_int(a: int, b: int) -> int {
    if a < b {
        a
    } else {
        b
    }
}

pub open spec fn max_int(a: int, b: int) -> int {
    if a > b {
        a
    } else {
        b
    }
}

/// Lower end of the slice: the start capped at 100.
pub open spec fn slice_lo(range_start: u8) -> int {
    min_int(range_start as int, 100)
}

/// Upper end of the slice: the end capped at 100, but never below the start.
pub open spec fn slice_hi(range_start: u8, range_end: u8) -> int {
    max_int(min_int(range_end as int, 100), range_start as int)
}

/// A local percentage (capped at 100) placed proportionally in the slice.
pub open spec fn spec_map_into_range(local: u8, range_start: u8, range_end: u8) -> int {
    slice_lo(range_start) + min_int(local as int, 100) * (slice_hi(range_start, range_end)
        - slice_lo(range_start)) / 100
}

proof fn lemma_scaled_le(l: int, span: int)
    requires
        0 <= l <= 100,
        0 <= span,
    ensures
        0 <= l * span / 100 <= span,
        l == 0 ==> l * span / 100 == 0,
        l == 100 ==> l * span / 100 == span,
{
    assert(0 <= l * span <= 100 * span) by (nonlinear_arith)
        requires
            0 <= l <= 100,
            0 <= span,
    ;
    assert(l * span / 100 <= span) by (nonlinear_arith)
        requires
            0 <= l * span <= 100 * span,
            0 <= span,
    ;
    if l == 100 {
        assert(100 * span / 100 == span) by (nonlinear_arith);
    }
}

/// Map a local 0–100 value into `[range_start, range_end]` (both capped at 100).
pub fn map_into_range(local: u8, range_start: u8, range_end: u8) -> (r: u8)
    ensures
        r as int == spec_map_into_range(local, range_start, range_end),
        slice_lo(range_start) <= r <= slice_hi(range_start, range_end),
{
    let start: u16 = if range_start < 100 {
        range_start as u16
    } else {
        100
    };
    let end_capped: u16 = if range_end < 100 {
        range_end as u16
    } else {
        100
    };
    let end: u16 = if end_capped > range_start as u16 {
        end_capped
    } else {
        range_start as u16
    };
    let span: u16 = end.saturating_sub(start);
    let l: u16 = if local < 100 {
        local as u16
    } else {
        100
    };
    proof {
        lemma_scaled_le(l as int, span as int);
        assert(l * span <= 25500) by (nonlinear_arith)
            requires
                l <= 100,
                span <= 255,
        ;
    }
    let scaled: u16 = l * span / 100;
    (start + scaled) as u8
}

/// Placing progress into a slice never leaves it: `0` gives the start,
/// `100` (or more) the end, and a larger local value never gives a smaller
/// result.
pub proof fn lemma_map_into_range_bounds(a: u8, b: u8, range_start: u8, range_end: u8)
    requires
        a <= b,
    ensures
        spec_map_into_range(0, range_start, range_end) == slice_lo(range_start),
        spec_map_into_range(100, range_start, range_end) == slice_hi(range_start, range_end),
        spec_map_into_range(a, range_start, range_end) <= spec_map_into_range(
            b,
            range_start,
            range_end,
        ),
{
    let span = slice_hi(range_start, range_end) - slice_lo(range_start);
    lemma_scaled_le(0, span);
    lemma_scaled_le(100, span);
    let la = min_int(a as int, 100);
    let lb = min_int(b as int, 100);
    assert(la * span <= lb * span) by (nonlinear_arith)
        requires
            0 <= la <= lb,
            0 <= span,
    ;
    assert(la * span / 100 <= lb * span / 100) by (nonlinear_arith)
        requires
            la * span <= lb * span,
    ;
}

/// What `str::to_lowercase` makes of `s` (Unicode lower-case mapping).
pub uninterp spec fn lowercase(s: Seq<char>) -> Seq<char>;

/// `str::to_lowercase`; its result is named by `lowercase`.
#[verifier::external_body]
fn to_lowercase(s: &str) -> (r: String)
    ensures
        r@ == lowercase(s@),
{
    s.to_lowercase()
}

pub open spec fn disk_full_message() -> Seq<char> {
    "Not enough disk space to copy the environment. Free some space and try again."@
}

/// The message shown for an I/O error met while copying `path`, given the
/// error's text, that text lower-cased, and its OS error code: out of
/// space (OS error 28, or a message that mentions it), permission denied,
/// or the error's own text.
pub open spec fn copy_error_message(
    msg: Seq<char>,
    lower: Seq<char>,
    raw_os_error: Option<i32>,
    path: Seq<char>,
) -> Seq<char> {
    if raw_os_error == Some(28i32) || contains_seq(lower, "no space"@) {
        disk_full_message()
    } else if contains_seq(lower, "permission denied"@) {
        "Permission denied while copying "@ + path
            + ": check folder permissions and try again."@
    } else {
        "Copy failed at "@ + path + ": "@ + msg
    }
}

pub open spec fn spec_friendly_copy_error(
    msg: Seq<char>,
    raw_os_error: Option<i32>,
    path: Seq<char>,
) -> Seq<char> {
    copy_error_message(msg, lowercase(msg), raw_os_error, path)
}

/// The copy-error message from the error's text, its lower-cased form and
/// its OS error code.
pub fn copy_error_from_lower(msg: &str, lower: &str, raw_os_error: Option<i32>, path: &str) -> (r:
    String)
    ensures
        r@ == copy_error_message(msg@, lower@, raw_os_error, path@),
{
    let is_28 = match raw_os_error {
        Some(code) => code == 28,
        None => false,
    };
    if is_28 || contains(lower, "no space") {
        return owned(
            "Not enough disk space to copy the environment. Free some space and try again.",
        );
    }
    if contains(lower, "permission denied") {
        return cat3(
            "Permission denied while copying ",
            path,
            ": check folder permissions and try again.",
        );
    }
    cat(cat3("Copy failed at ", path, ": ").as_str(), msg)
}

/// A user-facing message for an I/O error (its text and OS error code) met
/// at `path`.
pub fn friendly_copy_error(msg: &str, raw_os_error: Option<i32>, path: &str) -> (r: String)
    ensures
        r@ == spec_friendly_copy_error(msg@, raw_os_error, path@),
{
    let lower = to_lowercase(msg);
    copy_error_from_lower(msg, lower.as_str(), raw_os_error, path)
}

/// Cache and log folders that a copy leaves out.
pub open spec fn excluded_dir_name(name: Seq<char>) -> bool {
    ||| name == "Cache"@
    ||| name == "CachedData"@
    ||| name == "Code Cache"@
    ||| name == "GPUCache"@
    ||| name == "DawnCache"@
    ||| name == "DawnWebGPUCache"@
    ||| name == "DawnGraphiteCache"@
    ||| name == "ShaderCache"@
    ||| name == "logs"@
    ||| name == "Crashpad"@
}

pub fn is_excluded_dir_name(name: &str) -> (r: bool)
    ensures
        r == excluded_dir_name(name@),
{
    str_eq(name, "Cache") || str_eq(name, "CachedData") || str_eq(name, "Code Cache") || str_eq(
        name,
        "GPUCache",
    ) || str_eq(name, "DawnCache") || str_eq(name, "DawnWebGPUCache") || str_eq(
        name,
        "DawnGraphiteCache",
    ) || str_eq(name, "ShaderCache") || str_eq(name, "logs") || str_eq(name, "Crashpad")
}

/// Backup side-files of Cursor's state database.
pub open spec fn excluded_file_name(name: Seq<char>) -> bool {
    ||| name == "state.vscdb.backup"@
    ||| is_prefix_of("state.vscdb.bak-"@, name)
    ||| contains_seq(name, ".bak-"@)
}

pub fn is_excluded_file_name(name: &str) -> (r: bool)
    ensures
        r == excluded_file_name(name@),
{
    str_eq(name, "state.vscdb.backup") || starts_with(name, "state.vscdb.bak-") || contains(
        name,
        ".bak-",
    )
}

/// Whether a copy skips an entry, given the entry's file name and the file
/// name of its parent folder (`None` where the path has none).
pub open spec fn skips_entry(
    name: Option<Seq<char>>,
    parent_name: Option<Seq<char>>,
    is_dir: bool,
) -> bool {
    match name {
        None => false,
        Some(n) => if is_dir {
            excluded_dir_name(n) || (n == "CacheStorage"@ && parent_name == Some(
                "Service Worker"@,
            ))
        } else {
            excluded_file_name(n)
        },
    }
}

/// A folder is left out of a copy exactly when its name is one of the ten
/// cache and log names, or it is `CacheStorage` inside `Service Worker`;
/// every other folder, `User` and `globalStorage` among them, is copied.
pub proof fn lemma_skipped_folders(name: Seq<char>, parent_name: Option<Seq<char>>)
    ensures
        skips_entry(Some(name), parent_name, true) <==> (name == "Cache"@ || name
            == "CachedData"@ || name == "Code Cache"@ || name == "GPUCache"@ || name
            == "DawnCache"@ || name == "DawnWebGPUCache"@ || name == "DawnGraphiteCache"@ || name
            == "ShaderCache"@ || name == "logs"@ || name == "Crashpad"@ || (name
            == "CacheStorage"@ && parent_name == Some("Service Worker"@))),
        skips_entry(None, parent_name, true) == false,
{
}

/// A file is left out of a copy exactly when it is `state.vscdb.backup` or
/// its name holds `.bak-` (as every `state.vscdb.bak-…` does); the state
/// database itself, and every other file, is copied.
pub proof fn lemma_skipped_files(name: Seq<char>, parent_name: Option<Seq<char>>)
    ensures
        skips_entry(Some(name), parent_name, false) <==> (name == "state.vscdb.backup"@ || exists|
            i: int,
        |
            0 <= i && i + 5 <= name.len() && #[trigger] name.subrange(i, i + 5) == ".bak-"@),
        skips_entry(None, parent_name, false) == false,
{
    reveal_strlit("state.vscdb.bak-");
    reveal_strlit(".bak-");
    if is_prefix_of("state.vscdb.bak-"@, name) {
        assert(name.subrange(11, 16) =~= name.subrange(0, 16).subrange(11, 16));
        assert("state.vscdb.bak-"@.subrange(11, 16) =~= ".bak-"@);
        assert(occurs_at(name, ".bak-"@, 11));
    }
    if contains_seq(name, ".bak-"@) {
        let i = choose|i: int| occurs_at(name, ".bak-"@, i);
        assert(name.subrange(i, i + 5) == ".bak-"@);
    }
    if exists|i: int| 0 <= i && i + 5 <= name.len() && #[trigger] name.subrange(i, i + 5) == ".bak-"@ {
        let i = choose|i: int| 0 <= i && i + 5 <= name.len() && #[trigger] name.subrange(i, i + 5) == ".bak-"@;
        assert(occurs_at(name, ".bak-"@, i));
    }
}

/// Skip heavy/cache paths and Cursor DB bak side-files.
pub fn should_skip_entry(name: Option<&str>, parent_name: Option<&str>, is_dir: bool) -> (r: bool)
    ensures
        r == skips_entry(
            crate::paths::opt_str_view(name),
            crate::paths::opt_str_view(parent_name),
            is_dir,
        ),
{
    let name = match name {
        Some(n) => n,
        None => return false,
    };
    if is_dir {
        if is_excluded_dir_name(name) {
            return true;
        }
        if str_eq(name, "CacheStorage") {
            return crate::paths::opt_str_is(parent_name, "Service Worker");
        }
        return false;
    }
    is_excluded_file_name(name)
}

/// Number of leading characters of `t` that are not white space.
pub open spec fn leading_token_len(t: Seq<char>) -> nat
    decreases t.len(),
{
    if t.len() > 0 && !is_white(t[0]) {
        1 + leading_token_len(t.drop_first())
    } else {
        0
    }
}

/// The first white-space-separated word of `s` (empty when there is none).
pub open spec fn first_word(s: Seq<char>) -> Seq<char> {
    trim_start(s).take(leading_token_len(trim_start(s)) as int)
}

pub open spec fn sat_mul(a: nat, b: nat) -> u64 {
    if a * b <= u64::MAX {
        (a * b) as u64
    } else {
        u64::MAX
    }
}

/// `a * b`, or `u64::MAX` when that overflows.
pub fn saturating_mul(a: u64, b: u64) -> (r: u64)
    ensures
        r == sat_mul(a as nat, b as nat),
{
    match a.checked_mul(b) {
        Some(p) => p,
        None => u64::MAX,
    }
}

/// Size in bytes reported by `du -sk`: its first word read as kibibytes
/// (0 when that is not a number), saturating at `u64::MAX`.
pub open spec fn spec_du_bytes(stdout: Seq<char>) -> u64 {
    match parse_u64_spec(first_word(stdout)) {
        Some(kb) => sat_mul(kb as nat, 1024),
        None => 0,
    }
}

/// The byte count in the output of `du -sk <path>`.
pub fn du_output_bytes(stdout: &str) -> (r: u64)
    ensures
        r == spec_du_bytes(stdout@),
{
    let i = trim_start_index(stdout);
    let n = stdout.unicode_len();
    let mut j: usize = i;
    assert(stdout@.skip(i as int).take(0) =~= Seq::<char>::empty());
    while j < n && !char_is_white(stdout.get_char(j))
        invariant
            n == stdout@.len(),
            i <= j <= n,
            leading_token_len(stdout@.skip(i as int)) == (j - i) + leading_token_len(
                stdout@.skip(j as int),
            ),
        decreases n - j,
    {
        assert(stdout@.skip(j as int).drop_first() =~= stdout@.skip(j + 1));
        j += 1;
    }
    assert(leading_token_len(stdout@.skip(j as int)) == 0);
    assert(stdout@.subrange(i as int, j as int) =~= stdout@.skip(i as int).take(
        (j - i) as int,
    ));
    let word = stdout.substring_char(i, j);
    match parse_u64(word) {
        Some(kb) => {
            saturating_mul(kb, 1024)
        },
        None => 0,
    }
}

/// `"<label> (<done> / <total> files)"`.
pub open spec fn spec_files_label(label: Seq<char>, done: u64, total: u64) -> Seq<char> {
    label + " ("@ + decimal(done as nat) + " / "@ + decimal(total as nat) + " files)"@
}

pub fn files_label(label: &str, done: u64, total: u64) -> (r: String)
    ensures
        r@ == spec_files_label(label@, done, total),
{
    let d = u64_to_string(done);
    let t = u64_to_string(total);
    let a = cat3(label, " (", d.as_str());
    cat(cat3(a.as_str(), " / ", t.as_str()).as_str(), " files)")
}

/// The copy is refused when the source holds less than 100 000 bytes.
pub fn nearly_empty_source_error(src_size: u64, src: &str) -> (r: Option<String>)
    ensures
        src_size >= 100_000 ==> r is None,
        src_size < 100_000 ==> (r matches Some(m) && m@ == "Source looks nearly empty ("@
            + decimal(src_size as nat) + " bytes): "@ + src@ + ". Nothing useful to copy."@),
{
    if src_size < 100_000 {
        let n = u64_to_string(src_size);
        let a = cat3("Source looks nearly empty (", n.as_str(), " bytes): ");
        Some(cat3(a.as_str(), src, ". Nothing useful to copy."))
    } else {
        None
    }
}

/// Copying a new environment from the live one is refused when the live
/// data folder does not exist.
pub fn nothing_to_copy_error(src_exists: bool, src: &str) -> (r: Option<String>)
    ensures
        src_exists ==> r is None,
        !src_exists ==> (r matches Some(m) && m@ == "Nothing to copy: "@ + src@
            + " does not exist"@),
{
    if src_exists {
        None
    } else {
        Some(cat3("Nothing to copy: ", src, " does not exist"))
    }
}

/// A folder copy is refused when its source does not exist.
pub fn source_missing_error(src_exists: bool, src: &str) -> (r: Option<String>)
    ensures
        src_exists ==> r is None,
        !src_exists ==> (r matches Some(m) && m@ == "Source does not exist: "@ + src@),
{
    if src_exists {
        None
    } else {
        Some(cat("Source does not exist: ", src))
    }
}

/// The copy is refused when no file is left to copy.
pub fn no_files_error(total_files: u64, src: &str) -> (r: Option<String>)
    ensures
        total_files > 0 ==> r is None,
        total_files == 0 ==> (r matches Some(m) && m@ == "No files to copy from "@ + src@
            + " (everything excluded or empty)."@),
{
    if total_files == 0 {
        Some(cat3("No files to copy from ", src, " (everything excluded or empty)."))
    } else {
        None
    }
}

/// The least a finished copy must weigh: a fiftieth of the source, at
/// least 1 000 000 bytes, but never more than the source itself.
pub open spec fn spec_min_copied(src_size: u64) -> int {
    min_int(max_int(src_size as int / 50, 1_000_000), src_size as int)
}

pub fn min_copied_bytes(src_size: u64) -> (r: u64)
    ensures
        r as int == spec_min_copied(src_size),
{
    let a = src_size / 50;
    let b = if a > 1_000_000 {
        a
    } else {
        1_000_000
    };
    if b < src_size {
        b
    } else {
        src_size
    }
}

/// A finished copy that weighs less than `min_copied_bytes` is rejected.
pub fn copied_too_small_error(copied: u64, src_size: u64) -> (r: Option<String>)
    ensures
        copied >= spec_min_copied(src_size) ==> r is None,
        copied < spec_min_copied(src_size) ==> (r matches Some(m) && m@
            == "Copy finished but destination is too small ("@ + decimal(copied as nat)
            + " bytes vs source "@ + decimal(src_size as nat) + "). Try again."@),
{
    if copied < min_copied_bytes(src_size) {
        let c = u64_to_string(copied);
        let s = u64_to_string(src_size);
        let a = cat3("Copy finished but destination is too small (", c.as_str(), " bytes vs source ");
        Some(cat3(a.as_str(), s.as_str(), "). Try again."))
    } else {
        None
    }
}

/// `done` out of `total` as a percentage below 100, with the product
/// saturating.
pub open spec fn spec_partial_percent(done: u64, total: u64) -> int
    recommends
        total > 0,
{
    min_int(sat_mul(done as nat, 100) as int / total as int, 99)
}

/// The bar position while copying: `done` of `total` files, below 100,
/// placed in the copy's slice.
pub fn copy_ticker_percent(done: u64, total: u64, range_start: u8, range_end: u8) -> (r: u8)
    requires
        total > 0,
    ensures
        r as int == spec_map_into_range(
            spec_partial_percent(done, total) as u8,
            range_start,
            range_end,
        ),
{
    let p = saturating_mul(done, 100);
    let q = p / total;
    let local: u8 = if q < 99 {
        q as u8
    } else {
        99
    };
    map_into_range(local, range_start, range_end)
}

/// Progress never goes back: with the same total, more files done never
/// gives a smaller share, nor a smaller position in the copy's slice.
pub proof fn lemma_progress_never_goes_back(
    d1: u64,
    d2: u64,
    total: u64,
    range_start: u8,
    range_end: u8,
)
    requires
        d1 <= d2,
        total > 0,
    ensures
        spec_partial_percent(d1, total) <= spec_partial_percent(d2, total),
        spec_map_into_range(spec_partial_percent(d1, total) as u8, range_start, range_end)
            <= spec_map_into_range(spec_partial_percent(d2, total) as u8, range_start, range_end),
{
    let p1 = sat_mul(d1 as nat, 100) as int;
    let p2 = sat_mul(d2 as nat, 100) as int;
    assert(d1 * 100 <= d2 * 100);
    assert(p1 <= p2);
    vstd::arithmetic::div_mod::lemma_div_is_ordered(p1, p2, total as int);
    assert(0 <= p1 / total as int) by (nonlinear_arith)
        requires
            0 <= p1,
            total > 0,
    ;
    let a = spec_partial_percent(d1, total);
    let b = spec_partial_percent(d2, total);
    assert(0 <= a <= b <= 99);
    lemma_map_into_range_bounds(a as u8, b as u8, range_start, range_end);
}

/// The label shown while the files of a copy are counted.
pub fn counting_label(label: &str) -> (r: String)
    ensures
        r@ == label@ + " (counting files…)"@,
{
    cat(label, " (counting files…)")
}

/// The events of one folder copy, in order, when the ticker saw the file
/// counts `dones` and `last_done` files were done at the end: the start,
/// the counting notice, the count, one event per tick, and the end.
pub open spec fn copy_events(
    label: Seq<char>,
    dones: Seq<u64>,
    last_done: u64,
    total: u64,
    range_start: u8,
    range_end: u8,
) -> Seq<(int, Seq<char>)> {
    let first = spec_map_into_range(0, range_start, range_end);
    seq![
        (first, label),
        (first, label + " (counting files…)"@),
        (first, spec_files_label(label, 0, total)),
    ] + dones.map_values(
        |d: u64|
            (
                spec_map_into_range(spec_partial_percent(d, total) as u8, range_start, range_end),
                spec_files_label(label, d, total),
            ),
    ) + seq![(spec_map_into_range(100, range_start, range_end), spec_files_label(label, last_done, total))]
}

/// The whole progress stream of a copy stays in its slice, never goes
/// back, and ends at the slice's end with the final file count; for a
/// slice given as `range_start <= range_end <= 100` that is the range
/// itself.
pub proof fn lemma_copy_events(
    label: Seq<char>,
    dones: Seq<u64>,
    last_done: u64,
    total: u64,
    range_start: u8,
    range_end: u8,
)
    requires
        total > 0,
        forall|i: int, j: int| 0 <= i <= j < dones.len() ==> dones[i] <= dones[j],
    ensures
        ({
            let e = copy_events(label, dones, last_done, total, range_start, range_end);
            &&& forall|k: int|
                0 <= k < e.len() ==> slice_lo(range_start) <= #[trigger] e[k].0 <= slice_hi(
                    range_start,
                    range_end,
                )
            &&& forall|i: int, j: int| 0 <= i <= j < e.len() ==> e[i].0 <= e[j].0
            &&& e.last() == (
                slice_hi(range_start, range_end),
                spec_files_label(label, last_done, total),
            )
            &&& range_start <= range_end <= 100 ==> (forall|k: int|
                0 <= k < e.len() ==> range_start <= #[trigger] e[k].0 <= range_end) && e.last().0
                == range_end
        }),
{
    let e = copy_events(label, dones, last_done, total, range_start, range_end);
    let lo = slice_lo(range_start);
    let hi = slice_hi(range_start, range_end);
    let n = dones.len();
    lemma_map_into_range_bounds(0, 0, range_start, range_end);
    assert(e.len() == n + 4);
    assert forall|k: int| 0 <= k < e.len() implies lo <= #[trigger] e[k].0 <= hi by {
        if 3 <= k < n + 3 {
            let d = dones[k - 3];
            let a = spec_partial_percent(d, total);
            lemma_progress_never_goes_back(0, d, total, range_start, range_end);
            assert(0 <= a <= 99) by (nonlinear_arith)
                requires
                    a == min_int(sat_mul(d as nat, 100) as int / total as int, 99),
                    total > 0,
            ;
            lemma_map_into_range_bounds(0, a as u8, range_start, range_end);
            lemma_map_into_range_bounds(a as u8, 100, range_start, range_end);
            assert(e[k].0 == spec_map_into_range(a as u8, range_start, range_end));
        }
    }
    assert forall|i: int, j: int| 0 <= i <= j < e.len() implies e[i].0 <= e[j].0 by {
        assert(lo <= e[j].0 <= hi);
        assert(lo <= e[i].0 <= hi);
        if 3 <= i && j < n + 3 {
            lemma_progress_never_goes_back(dones[i - 3], dones[j - 3], total, range_start, range_end);
            assert(e[i].0 == spec_map_into_range(spec_partial_percent(dones[i - 3], total) as u8, range_start, range_end));
            assert(e[j].0 == spec_map_into_range(spec_partial_percent(dones[j - 3], total) as u8, range_start, range_end));
        } else if i < 3 {
            assert(e[i].0 == lo);
        } else {
            assert(j == n + 3);
            assert(e[j].0 == hi);
        }
    }
}

/// The bar position while trashing: 100 when there is nothing to count,
/// else the share done, below 100.
pub fn delete_progress_percent(done: u64, total: u64) -> (r: u8)
    ensures
        total == 0 ==> r == 100,
        total > 0 ==> r as int == spec_partial_percent(done, total),
{
    if total == 0 {
        return 100;
    }
    let p = saturating_mul(done, 100);
    let q = p / total;
    if q < 99 {
        q as u8
    } else {
        99
    }
}

/// The slice of the bar given to one trashed folder: from the share done
/// before it to the share done after it (below 100); the products and the
/// sum saturate, and the lower end is truncated to `u8`.
pub fn trash_slice(done_before: u64, weight: u64, progress_total: u64) -> (r: (u8, u8))
    requires
        progress_total > 0,
    ensures
        r.0 == (sat_mul(done_before as nat, 100) / progress_total) as u8,
        r.1 as int == spec_partial_percent(
            if done_before + weight <= u64::MAX {
                (done_before + weight) as u64
            } else {
                u64::MAX
            },
            progress_total,
        ),
{
    let p = saturating_mul(done_before, 100);
    let lo = (p / progress_total) as u8;
    let after = done_before.saturating_add(weight);
    let p2 = saturating_mul(after, 100);
    let q = p2 / progress_total;
    let hi: u8 = if q < 99 {
        q as u8
    } else {
        99
    };
    (lo, hi)
}

pub open spec fn sat_add(a: u64, b: u64) -> u64 {
    if a + b <= u64::MAX {
        (a + b) as u64
    } else {
        u64::MAX
    }
}

/// The scale of the trash progress bar: the number of files counted, but
/// at least 1, so that empty folders still take their turn.
pub open spec fn spec_trash_progress_total(total: u64) -> u64 {
    if total == 0 {
        1
    } else {
        total
    }
}

pub fn trash_progress_total(total: u64) -> (r: u64)
    ensures
        r == spec_trash_progress_total(total),
{
    if total == 0 {
        1
    } else {
        total
    }
}

/// Where one trashed folder stands on the bar: the files done before it,
/// its slice, and the files done after it.
#[derive(Debug, Clone, Copy, PartialEq, Eq)]
pub struct TrashStage {
    pub done_before: u64,
    pub slice_start: u8,
    pub slice_end: u8,
    pub done_after: u64,
}

/// The files done before the folder at `n`: the saturating sum of the
/// counts of the folders before it that exist (`None` for a missing one).
pub open spec fn trash_done_before(counts: Seq<Option<u64>>, n: nat) -> u64
    decreases n,
{
    if n == 0 || n > counts.len() {
        0
    } else {
        let d = trash_done_before(counts, (n - 1) as nat);
        match counts[n - 1] {
            Some(c) => sat_add(d, c),
            None => d,
        }
    }
}

/// The stage of the folder at `i`, or `None` for a missing folder, which
/// is skipped. A folder weighs its file count, but at least 1, in its
/// slice; the count done moves on by its file count.
pub open spec fn spec_trash_stage(counts: Seq<Option<u64>>, progress_total: u64, i: int) -> Option<
    TrashStage,
> {
    match counts[i] {
        None => None,
        Some(c) => {
            let d = trash_done_before(counts, i as nat);
            Some(
                TrashStage {
                    done_before: d,
                    slice_start: (sat_mul(d as nat, 100) / progress_total) as u8,
                    slice_end: spec_partial_percent(
                        sat_add(
                            d,
                            if c == 0 {
                                1
                            } else {
                                c
                            },
                        ),
                        progress_total,
                    ) as u8,
                    done_after: sat_add(d, c),
                },
            )
        },
    }
}

/// The stages of trashing folders with the given file counts (`None` for
/// a folder that does not exist), on a bar scaled to `total` files.
pub fn trash_stages(counts: &Vec<Option<u64>>, total: u64) -> (r: Vec<Option<TrashStage>>)
    ensures
        r.len() == counts.len(),
        forall|i: int|
            0 <= i < counts.len() ==> r@[i] == spec_trash_stage(
                counts@,
                spec_trash_progress_total(total),
                i,
            ),
{
    let pt = trash_progress_total(total);
    let mut stages: Vec<Option<TrashStage>> = Vec::new();
    let mut done: u64 = 0;
    let mut i: usize = 0;
    while i < counts.len()
        invariant
            i <= counts.len(),
            stages.len() == i,
            pt == spec_trash_progress_total(total),
            done == trash_done_before(counts@, i as nat),
            forall|j: int| 0 <= j < i ==> stages@[j] == spec_trash_stage(counts@, pt, j),
        decreases counts.len() - i,
    {
        match counts[i] {
            None => {
                stages.push(None);
            },
            Some(c) => {
                let w: u64 = if c == 0 {
                    1
                } else {
                    c
                };
                let (lo, hi) = trash_slice(done, w, pt);
                let after = done.saturating_add(c);
                stages.push(
                    Some(TrashStage { done_before: done, slice_start: lo, slice_end: hi, done_after: after }),
                );
                done = after;
            },
        }
        assert(stages@[i as int] == spec_trash_stage(counts@, pt, i as int));
        i += 1;
    }
    stages
}

/// The count of files done never decreases from one folder to the next.
pub proof fn lemma_trash_done_grows(counts: Seq<Option<u64>>, m: nat, n: nat)
    requires
        m <= n <= counts.len(),
    ensures
        trash_done_before(counts, m) <= trash_done_before(counts, n),
    decreases n,
{
    if m < n {
        lemma_trash_done_grows(counts, m, (n - 1) as nat);
    }
}

/// The bar position `step` seconds into trashing one folder: it eases
/// toward 90% of the folder's slice (`step * 90 / (step + 3)`, at most 90),
/// placed in a slice at least one point wide.
pub fn trash_ticker_percent(step: u64, slice_start: u8, slice_end: u8) -> (r: u8)
    requires
        step <= u64::MAX - 3,
        slice_start < 255,
    ensures
        r as int == spec_map_into_range(
            min_int(sat_mul(step as nat, 90) as int / (step + 3), 90) as u8,
            slice_start,
            if slice_end > slice_start + 1 {
                slice_end
            } else {
                (slice_start + 1) as u8
            },
        ),
{
    let p = saturating_mul(step, 90);
    let q = p / (step + 3);
    let local: u8 = if q < 90 {
        q as u8
    } else {
        90
    };
    let end: u8 = if slice_end > slice_start + 1 {
        slice_end
    } else {
        slice_start + 1
    };
    map_into_range(local, slice_start, end)
}

/// The message for a failure to create the destination folder, given the
/// error's text, that text lower-cased, and its OS error code: out of
/// space (OS error 28, or a message that mentions it), else the error's
/// own text.
pub open spec fn folder_error_message(msg: Seq<char>, lower: Seq<char>, raw_os_error: Option<i32>) -> Seq<
    char,
> {
    if raw_os_error == Some(28i32) || contains_seq(lower, "no space"@) {
        "Not enough disk space to create the environment folder."@
    } else {
        msg
    }
}

/// The folder-creation message from the error's text, its lower-cased form
/// and its OS error code.
pub fn folder_error_from_lower(msg: &str, lower: &str, raw_os_error: Option<i32>) -> (r: String)
    ensures
        r@ == folder_error_message(msg@, lower@, raw_os_error),
{
    let is_28 = match raw_os_error {
        Some(code) => code == 28,
        None => false,
    };
    if is_28 || contains(lower, "no space") {
        owned("Not enough disk space to create the environment folder.")
    } else {
        owned(msg)
    }
}

/// The message for a failure to create the destination folder (its text
/// and OS error code).
pub fn create_folder_error(msg: &str, raw_os_error: Option<i32>) -> (r: String)
    ensures
        r@ == folder_error_message(msg@, lowercase(msg@), raw_os_error),
{
    let lower = to_lowercase(msg);
    folder_error_from_lower(msg, lower.as_str(), raw_os_error)
}

/// Backup copies of `state.vscdb` left by older builds, purged to reclaim space.
pub open spec fn vscdb_backup_name(name: Seq<char>) -> bool {
    is_prefix_of("state.vscdb.bak-"@, name) || name == "state.vscdb.backup"@
}

pub fn is_vscdb_backup_name(name: &str) -> (r: bool)
    ensures
        r == vscdb_backup_name(name@),
{
    starts_with(name, "state.vscdb.bak-") || str_eq(name, "state.vscdb.backup")
}

} // verus!
