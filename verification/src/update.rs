//! Whether a newer release exists, and the digits-only pattern of integer fields.
use vstd::prelude::*;
use crate::settings::{AppSettings, opt_text};
use crate::workflow::switch_or;

verus! {

/// Setting key for whether to check for updates at startup.
pub const AUTO_UPDATE_KEY: &'static str = "automatic_updates";

/// The manifest attached to the newest published release.
pub const FEED_URL: &'static str =
    "https://github.com/devnull03/islandora_workbench_gui/releases/latest/download/stable.json";

/// Whether `text` is a version that `semver::Version::parse` accepts.
pub uninterp spec fn semver_parses(text: Seq<char>) -> bool;

/// Whether the version `a` orders after the version `b` in `semver`'s `Ord` for `Version`:
/// SemVer precedence, with build metadata compared last to break ties.
pub uninterp spec fn semver_later(a: Seq<char>, b: Seq<char>) -> bool;

/// `semver::Version::parse(text).is_ok()` (semver).
#[verifier::external_body]
fn parses_as_version(text: &str) -> (r: bool)
    ensures
        r == semver_parses(text@),
{
    semver::Version::parse(text).is_ok()
}

/// `candidate > current` on the two parsed versions (semver). `Version`'s order is a total
/// order (derived over its fields, with the pre-release order of `impls.rs`), so a version never
/// orders after itself, and when `candidate` orders after `current`, `current` does not order
/// after `candidate`.
#[verifier::external_body]
fn version_greater(candidate: &str, current: &str) -> (r: bool)
    requires
        semver_parses(candidate@),
        semver_parses(current@),
    ensures
        r == semver_later(candidate@, current@),
        candidate@ == current@ ==> !r,
        r ==> !semver_later(current@, candidate@),
{
    match (semver::Version::parse(candidate), semver::Version::parse(current)) {
        (Ok(a), Ok(b)) => a > b,
        _ => false,
    }
}

/// Whether `candidate` is a later release than `current`. A malformed version on either side
/// never counts as newer, no version is newer than itself, and of two versions at most one is
/// newer than the other.
pub fn is_newer(candidate: &str, current: &str) -> (r: bool)
    ensures
        r == (semver_parses(candidate@) && semver_parses(current@) && semver_later(
            candidate@,
            current@,
        )),
        candidate@ == current@ ==> !r,
        r ==> !(semver_parses(current@) && semver_parses(candidate@) && semver_later(
            current@,
            candidate@,
        )),
{
    if !parses_as_version(candidate) || !parses_as_version(current) {
        return false;
    }
    version_greater(candidate, current)
}

/// Whether the update check runs at startup: on unless switched off.
pub fn automatic_updates(settings: &AppSettings) -> (r: bool)
    ensures
        r == switch_or(settings@.values, AUTO_UPDATE_KEY@, true),
{
    match settings.values.get(AUTO_UPDATE_KEY) {
        Some(v) => v.bool(),
        None => true,
    }
}

/// A release newer than the running build.
pub struct AvailableUpdate {
    pub version: String,
    pub release_notes_url: String,
}

/// What the feed's manifest offers a build at `current`: its release, when that is newer.
pub fn update_offer(version: String, release_notes_url: String, current: &str) -> (r: Option<
    AvailableUpdate,
>)
    ensures
        r is Some <==> (semver_parses(version@) && semver_parses(current@) && semver_later(
            version@,
            current@,
        )),
        r matches Some(u) ==> u.version@ == version@ && u.release_notes_url@ == release_notes_url@,
{
    if is_newer(version.as_str(), current) {
        Some(AvailableUpdate { version, release_notes_url })
    } else {
        None
    }
}

// ---------------------------------------------------------------------------------------------
// The integer field pattern.
// ---------------------------------------------------------------------------------------------

/// What an integer field accepts while it is being typed into: empty, a lone minus, or a number
/// with an optional leading minus.
pub const INTEGER_PATTERN: &'static str = "^-?\\d*$";

/// Whether a character outside ASCII is in the `regex` crate's `\d` class (Unicode's decimal
/// digits, general category Nd).
pub uninterp spec fn unicode_decimal_digit(c: char) -> bool;

/// Whether `t` matches `^-?\d*$`: an optional minus, then digits only, where a digit is, among
/// ASCII characters, exactly `0`–`9`.
pub open spec fn spec_integer_text(t: Seq<char>) -> bool {
    forall|i: int|
        #![trigger integer_body(t)[i]]
        0 <= i < integer_body(t).len() ==> if (integer_body(t)[i] as u32) < 128 {
            '0' <= integer_body(t)[i] && integer_body(t)[i] <= '9'
        } else {
            unicode_decimal_digit(integer_body(t)[i])
        }
}

/// The text after an optional leading minus.
pub open spec fn integer_body(t: Seq<char>) -> Seq<char> {
    if t.len() > 0 && t[0] == '-' {
        t.drop_first()
    } else {
        t
    }
}

/// `Regex::new(pattern)` and `is_match(text)` (regex), for the integer pattern. The crate's
/// syntax documentation gives the answer: `^` and `$` anchor at the ends of the text, `-?` is
/// an optional minus, `\d*` any number of Unicode decimal digits.
#[verifier::external_body]
fn regex_matches(pattern: &str, text: &str) -> (r: bool)
    requires
        pattern@ == INTEGER_PATTERN@,
    ensures
        r == forall|i: int|
            #![trigger integer_body(text@)[i]]
            0 <= i < integer_body(text@).len() ==> if (integer_body(text@)[i] as u32) < 128 {
                '0' <= integer_body(text@)[i] && integer_body(text@)[i] <= '9'
            } else {
                unicode_decimal_digit(integer_body(text@)[i])
            },
{
    match regex::Regex::new(pattern) {
        Ok(re) => re.is_match(text),
        Err(_) => false,
    }
}

/// Whether an integer field accepts `text` as it is typed.
pub fn accepts_integer_input(text: &str) -> (r: bool)
    ensures
        r == spec_integer_text(text@),
{
    regex_matches(INTEGER_PATTERN, text)
}

} // verus!
