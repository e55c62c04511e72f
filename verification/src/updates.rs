//! Deciding whether a newer release exists, from the tag of the latest
//! GitHub release and the running version.
use vstd::prelude::*;

use crate::about::REPO_URL;
use crate::text::{
    all_digits, cat, cat3, decimal, first_index_of, is_digit, is_prefix_of, lemma_decimal_digits,
    lemma_decimal_round_trip, lemma_first_index_bounds, owned, parse_u64, parse_u64_spec,
    split_once, split_once_char, starts_with, trim, trim_end, trim_start, trim_str,
};

verus! {

/// The outcome of an update check, as shown to the user.
#[derive(Debug, Clone)]
pub struct UpdateCheckResult {
    pub update_available: bool,
    pub current_version: String,
    pub latest_version: String,
    pub release_url: String,
    pub message: String,
}

/// `s` without any leading `v` or `V`.
pub open spec fn strip_v(s: Seq<char>) -> Seq<char>
    decreases s.len(),
{
    if s.len() > 0 && (s[0] == 'v' || s[0] == 'V') {
        strip_v(s.drop_first())
    } else {
        s
    }
}

/// The version text with surrounding white space and any leading `v`/`V` removed.
pub open spec fn normalized(raw: Seq<char>) -> Seq<char> {
    strip_v(trim(raw))
}

/// `raw.trim().trim_start_matches(['v', 'V'])`.
pub fn normalize_version(raw: &str) -> (r: String)
    ensures
        r@ == normalized(raw@),
{
    let t = trim_str(raw);
    let n = t.as_str().unicode_len();
    let mut i: usize = 0;
    assert(t@.skip(0) =~= t@);
    while i < n && (t.as_str().get_char(i) == 'v' || t.as_str().get_char(i) == 'V')
        invariant
            n == t@.len(),
            i <= n,
            strip_v(t@) == strip_v(t@.skip(i as int)),
        decreases n - i,
    {
        assert(t@.skip(i as int).drop_first() =~= t@.skip(i + 1));
        i += 1;
    }
    assert(t@.subrange(i as int, n as int) =~= t@.skip(i as int));
    owned(t.as_str().substring_char(i, n))
}

/// `major.minor.patch` read as `parse_semver` does: the text is split at
/// dots, a missing minor or patch counts as `0`, parts after the third are
/// ignored, and each part must parse as a `u64`.
pub open spec fn semver_of(raw: Seq<char>) -> Option<(u64, u64, u64)> {
    let s = normalized(raw);
    let p0 = split_once(s, '.').0;
    let r0 = split_once(s, '.').1;
    let p1 = match r0 {
        Some(r) => split_once(r, '.').0,
        None => "0"@,
    };
    let r1 = match r0 {
        Some(r) => split_once(r, '.').1,
        None => None,
    };
    let p2 = match r1 {
        Some(r) => split_once(r, '.').0,
        None => "0"@,
    };
    match (parse_u64_spec(p0), parse_u64_spec(p1), parse_u64_spec(p2)) {
        (Some(a), Some(b), Some(c)) => Some((a, b, c)),
        _ => None,
    }
}

/// `(major, minor, patch)` of a version such as `v1.4.2`.
pub fn parse_semver(raw: &str) -> (r: Option<(u64, u64, u64)>)
    ensures
        r == semver_of(raw@),
{
    proof {
        reveal_strlit("0");
    }
    let s = normalize_version(raw);
    let (p0, r0) = split_once_char(s.as_str(), '.');
    let (p1, r1) = match r0 {
        Some(r) => split_once_char(r.as_str(), '.'),
        None => (owned("0"), None),
    };
    let p2 = match r1 {
        Some(r) => split_once_char(r.as_str(), '.').0,
        None => owned("0"),
    };
    let major = match parse_u64(p0.as_str()) {
        Some(v) => v,
        None => return None,
    };
    let minor = match parse_u64(p1.as_str()) {
        Some(v) => v,
        None => return None,
    };
    let patch = match parse_u64(p2.as_str()) {
        Some(v) => v,
        None => return None,
    };
    Some((major, minor, patch))
}

/// Lexicographic order of version triples.
pub open spec fn triple_gt(a: (u64, u64, u64), b: (u64, u64, u64)) -> bool {
    a.0 > b.0 || (a.0 == b.0 && (a.1 > b.1 || (a.1 == b.1 && a.2 > b.2)))
}

pub open spec fn quoted_error(what: Seq<char>, v: Seq<char>) -> Seq<char> {
    "Could not parse "@ + what + " version \""@ + v + "\""@
}

/// `latest` is a strictly newer version than `current`; an error names the
/// version that does not parse (`latest` first).
pub fn is_newer(latest: &str, current: &str) -> (r: Result<bool, String>)
    ensures
        match (semver_of(latest@), semver_of(current@)) {
            (Some(a), Some(b)) => r matches Ok(x) && x == triple_gt(a, b),
            (None, _) => r matches Err(e) && e@ == quoted_error("latest"@, latest@),
            (Some(_), None) => r matches Err(e) && e@ == quoted_error("current"@, current@),
        },
{
    let a = match parse_semver(latest) {
        Some(v) => v,
        None => {
            return Err(cat3(cat3("Could not parse ", "latest", " version \"").as_str(), latest, "\""));
        },
    };
    let b = match parse_semver(current) {
        Some(v) => v,
        None => {
            return Err(
                cat3(cat3("Could not parse ", "current", " version \"").as_str(), current, "\""),
            );
        },
    };
    Ok(a.0 > b.0 || (a.0 == b.0 && (a.1 > b.1 || (a.1 == b.1 && a.2 > b.2))))
}

pub open spec fn up_to_date_message(current: Seq<char>) -> Seq<char> {
    "You're up to date (version "@ + current + ")."@
}

pub open spec fn available_message(latest: Seq<char>) -> Seq<char> {
    "Version "@ + latest + " is available."@
}

/// The answer when GitHub reports no release at all (HTTP 404): up to date.
pub fn no_release_result(current_version: &str) -> (r: UpdateCheckResult)
    ensures
        !r.update_available,
        r.current_version@ == current_version@,
        r.latest_version@ == current_version@,
        r.release_url@ == REPO_URL@ + "/releases"@,
        r.message@ == up_to_date_message(current_version@),
{
    UpdateCheckResult {
        update_available: false,
        current_version: owned(current_version),
        latest_version: owned(current_version),
        release_url: cat(REPO_URL, "/releases"),
        message: cat3("You're up to date (version ", current_version, ")."),
    }
}

/// The answer for the latest release `tag_name` at `html_url`.
pub fn release_result(current_version: &str, tag_name: &str, html_url: &str) -> (r: Result<
    UpdateCheckResult,
    String,
>)
    ensures
        match (semver_of(normalized(tag_name@)), semver_of(current_version@)) {
            (Some(a), Some(b)) => r matches Ok(u) && u.update_available == triple_gt(a, b)
                && u.current_version@ == current_version@ && u.latest_version@ == normalized(
                tag_name@,
            ) && u.release_url@ == html_url@ && u.message@ == if triple_gt(a, b) {
                available_message(normalized(tag_name@))
            } else {
                up_to_date_message(current_version@)
            },
            (None, _) => r matches Err(e) && e@ == quoted_error(
                "latest"@,
                normalized(tag_name@),
            ),
            (Some(_), None) => r matches Err(e) && e@ == quoted_error(
                "current"@,
                current_version@,
            ),
        },
{
    let latest_version = normalize_version(tag_name);
    let update_available = match is_newer(latest_version.as_str(), current_version) {
        Ok(b) => b,
        Err(e) => return Err(e),
    };
    let message = if update_available {
        cat3("Version ", latest_version.as_str(), " is available.")
    } else {
        cat3("You're up to date (version ", current_version, ").")
    };
    Ok(
        UpdateCheckResult {
            update_available,
            current_version: owned(current_version),
            latest_version,
            release_url: owned(html_url),
            message,
        },
    )
}

/// The error for an unsuccessful HTTP status, given its display text.
pub fn http_status_error(status: &str) -> (r: String)
    ensures
        r@ == "GitHub returned HTTP "@ + status@,
{
    cat("GitHub returned HTTP ", status)
}

/// Checks a URL before it is handed to `open`: it is trimmed, must not be
/// empty, and must start with `https://` or `http://`.
pub fn validate_open_url(url: &str) -> (r: Result<String, String>)
    ensures
        trim(url@).len() == 0 ==> (r matches Err(e) && e@ == "URL is required"@),
        trim(url@).len() > 0 && !is_prefix_of("https://"@, trim(url@)) && !is_prefix_of(
            "http://"@,
            trim(url@),
        ) ==> (r matches Err(e) && e@ == "Only http(s) URLs can be opened"@),
        trim(url@).len() > 0 && (is_prefix_of("https://"@, trim(url@)) || is_prefix_of(
            "http://"@,
            trim(url@),
        )) ==> (r matches Ok(u) && u@ == trim(url@)),
{
    let u = trim_str(url);
    if u.as_str().unicode_len() == 0 {
        return Err(owned("URL is required"));
    }
    if !(starts_with(u.as_str(), "https://") || starts_with(u.as_str(), "http://")) {
        return Err(owned("Only http(s) URLs can be opened"));
    }
    Ok(u)
}

/// "Newer" is a strict order on versions: no version is newer than itself,
/// of two versions at most one is newer than the other, and it is transitive.
pub proof fn lemma_newer_is_strict_order(a: (u64, u64, u64), b: (u64, u64, u64), c: (u64, u64, u64))
    ensures
        !triple_gt(a, a),
        triple_gt(a, b) ==> !triple_gt(b, a),
        triple_gt(a, b) && triple_gt(b, c) ==> triple_gt(a, c),
        a != b ==> triple_gt(a, b) || triple_gt(b, a),
{
}

/// "Newer" is the order of version numbers read as one number: with each
/// part below 2^64, `major.minor.patch` is worth `major * 2^128 + minor *
/// 2^64 + patch`, and a version is newer exactly when it is worth more. In
/// particular, between versions with the same major and minor parts, the
/// larger patch number (as an integer, not as text) is the newer.
pub proof fn lemma_newer_is_numeric_order(a: (u64, u64, u64), b: (u64, u64, u64))
    ensures
        triple_gt(a, b) <==> a.0 * 0x1_0000_0000_0000_0000_0000_0000_0000_0000int + a.1
            * 0x1_0000_0000_0000_0000int + a.2 > b.0 * 0x1_0000_0000_0000_0000_0000_0000_0000_0000int
            + b.1 * 0x1_0000_0000_0000_0000int + b.2,
        a.0 == b.0 && a.1 == b.1 ==> (triple_gt(a, b) <==> a.2 > b.2),
        a.0 == b.0 && a.1 == b.1 && a.2 as int == b.2 + 1 ==> triple_gt(a, b),
{
}

proof fn lemma_split_after_digits(d: Seq<char>, rest: Seq<char>)
    requires
        all_digits(d),
    ensures
        split_once(d + seq!['.'] + rest, '.') == (d, Some(rest)),
        split_once(d, '.') == (d, Option::<Seq<char>>::None),
{
    let s = d + seq!['.'] + rest;
    lemma_first_index_bounds(s, '.');
    assert(s[d.len() as int] == '.');
    match first_index_of(s, '.') {
        Some(i) => {
            if i < d.len() {
                assert(s[i] == d[i]);
                assert(is_digit(d[i]));
            }
            assert(i == d.len());
            assert(s.take(i) =~= d);
            assert(s.skip(i + 1) =~= rest);
        },
        None => {},
    }
    lemma_first_index_bounds(d, '.');
    match first_index_of(d, '.') {
        Some(i) => {
            assert(is_digit(d[i]));
        },
        None => {},
    }
}

proof fn lemma_digit_ends_untrimmed(s: Seq<char>)
    requires
        s.len() > 0,
        is_digit(s[0]) || s[0] == 'v',
        is_digit(s.last()),
    ensures
        trim(s) == s,
{
    assert(trim_start(s) == s);
    assert(trim_end(s) == s);
}

/// Versions read back: `x.y.z` written in decimal, with or without a
/// leading `v`, is read as `(x, y, z)`; a missing patch or minor part
/// counts as 0.
pub proof fn lemma_versions_read_back(x: u64, y: u64, z: u64)
    ensures
        semver_of(decimal(x as nat) + seq!['.'] + decimal(y as nat) + seq!['.'] + decimal(z as nat))
            == Some((x, y, z)),
        semver_of(seq!['v'] + decimal(x as nat) + seq!['.'] + decimal(y as nat) + seq!['.']
            + decimal(z as nat)) == Some((x, y, z)),
        semver_of(decimal(x as nat) + seq!['.'] + decimal(y as nat)) == Some((x, y, 0u64)),
        semver_of(decimal(x as nat)) == Some((x, 0u64, 0u64)),
{
    reveal_strlit("0");
    let dx = decimal(x as nat);
    let dy = decimal(y as nat);
    let dz = decimal(z as nat);
    lemma_decimal_digits(x as nat);
    lemma_decimal_digits(y as nat);
    lemma_decimal_digits(z as nat);
    lemma_decimal_round_trip(x);
    lemma_decimal_round_trip(y);
    lemma_decimal_round_trip(z);
    lemma_decimal_round_trip(0);
    assert(decimal(0) =~= "0"@);
    let yz = dy + seq!['.'] + dz;
    let full = dx + seq!['.'] + yz;
    assert(dx + seq!['.'] + dy + seq!['.'] + dz =~= full);
    lemma_split_after_digits(dx, yz);
    lemma_split_after_digits(dy, dz);
    lemma_split_after_digits(dz, Seq::empty());
    lemma_split_after_digits(dx, dy);
    lemma_split_after_digits(dy, Seq::empty());
    assert(is_digit(dx[0]) && is_digit(dz.last()) && is_digit(dy.last()) && is_digit(dx.last()));
    assert(full[0] == dx[0] && full.last() == dz.last());
    lemma_digit_ends_untrimmed(full);
    assert(strip_v(full) == full);
    let vfull = seq!['v'] + full;
    assert(seq!['v'] + dx + seq!['.'] + dy + seq!['.'] + dz =~= vfull);
    assert(vfull.last() == full.last());
    lemma_digit_ends_untrimmed(vfull);
    assert(vfull.drop_first() =~= full);
    assert(strip_v(vfull) == strip_v(full));
    let xy = dx + seq!['.'] + dy;
    assert(xy[0] == dx[0] && xy.last() == dy.last());
    lemma_digit_ends_untrimmed(xy);
    assert(strip_v(xy) == xy);
    lemma_digit_ends_untrimmed(dx);
    assert(strip_v(dx) == dx);
}

} // verus!
