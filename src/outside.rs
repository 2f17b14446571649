//! The calls this library makes into the `glob` and `unicase` crates and into
//! std's Unicode lowercasing, each with the contract it is trusted to meet.
use vstd::prelude::*;

verus! {

/// Whether `glob::Pattern::new` accepts the pattern text.
pub uninterp spec fn pattern_compiles(pattern: Seq<char>) -> bool;

/// What `glob::Pattern::matches` answers, with default options, for the
/// pattern compiled from `pattern` and the given name.
pub uninterp spec fn glob_match_of(pattern: Seq<char>, name: Seq<char>) -> bool;

/// Whether `unicase::eq` holds the two strings equal up to Unicode case folding.
pub uninterp spec fn caseless_eq_of(a: Seq<char>, b: Seq<char>) -> bool;

/// What `str::to_lowercase` returns for the given characters.
pub uninterp spec fn lower_of(s: Seq<char>) -> Seq<char>;

/// Relies on glob::Pattern::new: whether the text compiles into a pattern.
#[verifier::external_body]
pub(crate) fn pattern_is_valid(pattern: &str) -> (r: bool)
    ensures
        r == pattern_compiles(pattern@),
{
    glob::Pattern::new(pattern).is_ok()
}

/// Relies on glob::Pattern::matches, on the pattern that glob::Pattern::new
/// compiles from the text (which it accepts, by the precondition).
#[verifier::external_body]
pub(crate) fn glob_match(pattern: &str, name: &str) -> (r: bool)
    requires
        pattern_compiles(pattern@),
    ensures
        r == glob_match_of(pattern@, name@),
{
    match glob::Pattern::new(pattern) {
        Ok(p) => p.matches(name),
        Err(_) => false,
    }
}

/// Relies on unicase::eq: equality up to Unicode case folding.
#[verifier::external_body]
pub(crate) fn caseless_eq(a: &str, b: &str) -> (r: bool)
    ensures
        r == caseless_eq_of(a@, b@),
{
    unicase::eq(a, b)
}

/// Relies on str::to_lowercase: the result depends on the characters alone.
#[verifier::external_body]
pub(crate) fn lowercase(s: &str) -> (r: String)
    ensures
        r@ == lower_of(s@),
{
    s.to_lowercase()
}

} // verus!
