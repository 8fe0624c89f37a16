//! The calls this library makes into `globset`, `regex` and into the parts
//! of `std` that vstd gives no specification. Each function here is trusted:
//! its contract is stated, not proved.
use vstd::prelude::*;
use globset::{Glob, GlobSet};
use regex::Regex;

verus! {

/// The message of the error `globset::Glob::new` returns for `pattern`, or
/// `None` when the pattern parses.
pub uninterp spec fn glob_error(pattern: Seq<char>) -> Option<Seq<char>>;

/// The message of the error `globset::GlobSet::new` returns for the set
/// holding just the glob parsed from `pattern` (such as a compiled size over
/// its limit), or `None` when the set builds.
pub uninterp spec fn glob_set_error(pattern: Seq<char>) -> Option<Seq<char>>;

/// Why `pattern` cannot be used as a glob: its parse error, else the error
/// of building its set; `None` when it can be used.
pub open spec fn glob_failure(pattern: Seq<char>) -> Option<Seq<char>> {
    match glob_error(pattern) {
        Some(m) => Some(m),
        None => glob_set_error(pattern),
    }
}

/// Whether the glob set holding just the glob `pattern` matches `path`
/// (`GlobSet::is_match`). The answer is fixed for a given build: on targets
/// other than Unix, globset turns backslashes in the path into slashes
/// before matching, so the same arguments may match differently there.
pub uninterp spec fn glob_match(pattern: Seq<char>, path: Seq<char>) -> bool;

/// The message of the error `regex::Regex::new` returns for `pattern`, or
/// `None` when the expression compiles.
pub uninterp spec fn regex_error(pattern: Seq<char>) -> Option<Seq<char>>;

/// Whether the expression `pattern` matches somewhere in `text`.
pub uninterp spec fn regex_match(pattern: Seq<char>, text: Seq<char>) -> bool;

/// `str::to_lowercase` of `s`.
pub uninterp spec fn lowercase(s: Seq<char>) -> Seq<char>;

/// `str::to_uppercase` of `s`.
pub uninterp spec fn uppercase(s: Seq<char>) -> Seq<char>;

/// What `{:?}` writes for the string `s`: `s` between double quotes, with
/// its characters escaped as `char::escape_debug` escapes them, except that a
/// single quote is written as it is.
pub uninterp spec fn debug_str(s: Seq<char>) -> Seq<char>;

/// Formats `s` with `{:?}`, as `<str as Debug>::fmt` writes it.
#[verifier::external_body]
pub(crate) fn debug_string(s: &str) -> (r: String)
    ensures
        r@ == debug_str(s@),
{
    format!("{:?}", s)
}

/// Calls `globset::Glob::new(pattern)` and, when it parses,
/// `globset::GlobSet::new` on that one glob: `Ok` when both succeed, else the
/// text of the first error. The result is claimed to depend on `pattern`
/// alone.
#[verifier::external_body]
pub(crate) fn check_glob(pattern: &str) -> (r: Result<(), String>)
    ensures
        match r {
            Ok(()) => glob_error(pattern@) is None && glob_set_error(pattern@) is None,
            Err(m) => match glob_error(pattern@) {
                Some(e) => e == m@,
                None => glob_set_error(pattern@) == Some(m@),
            },
        },
{
    match Glob::new(pattern) {
        Ok(g) => match GlobSet::new([&g]) {
            Ok(_) => Ok(()),
            Err(e) => Err(e.to_string()),
        },
        Err(e) => Err(e.to_string()),
    }
}

/// Calls `globset::Glob::new(pattern)`, `globset::GlobSet::new` on that one
/// glob and `GlobSet::is_match(path)`. Both builds succeed on a pattern
/// `check_glob` accepted, so the `false` of a failed build is never given;
/// matching itself reports no error. The result is claimed to depend on the
/// pattern and the path alone.
#[verifier::external_body]
pub(crate) fn glob_is_match(pattern: &str, path: &str) -> (r: bool)
    requires
        glob_error(pattern@) is None,
        glob_set_error(pattern@) is None,
    ensures
        r == glob_match(pattern@, path@),
{
    match Glob::new(pattern) {
        Ok(g) => match GlobSet::new([&g]) {
            Ok(set) => set.is_match(path),
            Err(_) => false,
        },
        Err(_) => false,
    }
}

/// Calls `regex::Regex::new(pattern)`: `Ok` when the expression compiles,
/// else the text of its error. The result is claimed to depend on `pattern`
/// alone.
#[verifier::external_body]
pub(crate) fn check_regex(pattern: &str) -> (r: Result<(), String>)
    ensures
        match r {
            Ok(()) => regex_error(pattern@) is None,
            Err(m) => regex_error(pattern@) == Some(m@),
        },
{
    match Regex::new(pattern) {
        Ok(_) => Ok(()),
        Err(e) => Err(e.to_string()),
    }
}

/// Calls `regex::Regex::new(pattern)` and `Regex::is_match(text)`. The
/// result is claimed to depend on the pattern and the text alone.
#[verifier::external_body]
pub(crate) fn regex_is_match(pattern: &str, text: &str) -> (r: bool)
    requires
        regex_error(pattern@) is None,
    ensures
        r == regex_match(pattern@, text@),
{
    match Regex::new(pattern) {
        Ok(re) => re.is_match(text),
        Err(_) => false,
    }
}

/// Calls `str::to_lowercase`.
#[verifier::external_body]
pub(crate) fn to_lowercase(s: &str) -> (r: String)
    ensures
        r@ == lowercase(s@),
{
    s.to_lowercase()
}

/// Calls `str::to_uppercase`.
#[verifier::external_body]
pub(crate) fn to_uppercase(s: &str) -> (r: String)
    ensures
        r@ == uppercase(s@),
{
    s.to_uppercase()
}

} // verus!
