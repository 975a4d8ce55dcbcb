//! Release-update helpers: normalizing a release tag, deciding whether
//! it names a version newer than the running one, whether the cached
//! answer is still fresh, and the user-facing update instructions.
//! Fetching the tag is the caller's job.

use vstd::prelude::*;
use vstd::string::StrSliceExecFns;
use vstd::string::StringExecFns;
use crate::strutil;

verus! {

/// Whether semver accepts this string as a version: the result of
/// `semver::Version::parse` succeeding, which depends on the string
/// alone.
pub uninterp spec fn semver_valid(s: Seq<char>) -> bool;

/// Whether the version written `a` has higher precedence than the one
/// written `b`, both accepted by semver: the result of parsing both and
/// comparing, which depends on the two strings alone.
pub uninterp spec fn semver_newer(a: Seq<char>, b: Seq<char>) -> bool;

/// Relies on semver's `Version::parse` and `Version`'s ordering: parse
/// accepts exactly the crate's version grammar, and the order is semver
/// precedence (with build metadata as a final tie-break); both are
/// functions of the strings alone.
#[verifier::external_body]
fn compare_versions(latest: &str, current: &str) -> (r: Option<bool>)
    ensures
        r is Some <==> (semver_valid(latest@) && semver_valid(current@)),
        r matches Some(b) ==> b == semver_newer(latest@, current@),
{
    match (semver::Version::parse(latest), semver::Version::parse(current)) {
        (Ok(l), Ok(c)) => Some(l > c),
        _ => None,
    }
}

/// A release tag as it is actually parsed: trimmed, with every leading
/// `v` removed.
pub open spec fn normalized_tag(tag: Seq<char>) -> Seq<char> {
    strutil::drop_front_while(strutil::trim_spaces(tag), strutil::eq_char_pred('v'))
}

/// Whether the fetched release tag names a version newer than the one
/// this process runs; nothing when either side fails to parse.
pub fn is_newer_than_current(latest_tag: &str, current_version: &str) -> (r: Option<bool>)
    ensures
        r is Some <==> semver_valid(normalized_tag(latest_tag@)) && semver_valid(
            current_version@,
        ),
        r matches Some(b) ==> b == semver_newer(normalized_tag(latest_tag@), current_version@),
{
    let trimmed = strutil::trim(latest_tag);
    let stripped = strutil::strip_leading_char(trimmed.as_str(), 'v');
    compare_versions(stripped.as_str(), current_version)
}

/// How long a cached remote answer stays fresh, in seconds: one day.
pub open spec fn check_interval_secs() -> int {
    86400
}

/// Whether the remote must be asked again: the cache was never filled,
/// or the last check lies a full interval (or more) in the past.
pub fn should_refresh_cache(last_checked_unix: i64, now: i64) -> (b: bool)
    ensures
        b == !(last_checked_unix > 0 && now - last_checked_unix < check_interval_secs()),
{
    !(last_checked_unix > 0 && (now as i128) - (last_checked_unix as i128) < 86400)
}

/// What the update instructions say for a given release tag.
pub open spec fn update_instructions_model(tag: Seq<char>) -> Seq<char> {
    "Update to "@ + tag + ":\n\n  # Shows current version\n  dimensions --version\n\n  # Installer (recommended)\n  curl -fsSL https://raw.githubusercontent.com/KarlVM12/Dimensions/"@
        + tag + "/install.sh | sh -s -- --version "@ + tag
        + "\n\nOr download the binary from:\n  https://github.com/KarlVM12/Dimensions/releases/tag/"@
        + tag + "\n"@
}

/// The instructions shown to a user for updating to a release.
pub fn update_instructions(latest_tag: &str) -> (r: String)
    ensures
        r@ == update_instructions_model(latest_tag@),
{
    let mut s: String = "Update to ".to_owned();
    s.append(latest_tag);
    s.append(":\n\n  # Shows current version\n  dimensions --version\n\n  # Installer (recommended)\n  curl -fsSL https://raw.githubusercontent.com/KarlVM12/Dimensions/");
    s.append(latest_tag);
    s.append("/install.sh | sh -s -- --version ");
    s.append(latest_tag);
    s.append("\n\nOr download the binary from:\n  https://github.com/KarlVM12/Dimensions/releases/tag/");
    s.append(latest_tag);
    s.append("\n");
    s
}

} // verus!
