//! The boundary to the `regex` crate.  A compiled `regex::Regex` is opaque
//! to verification, so its pattern text and its matching behaviour are given
//! names here, and the two calls the library makes go through trusted
//! wrappers whose contracts speak over those names.
use vstd::prelude::*;

verus! {

#[verifier::external_type_specification]
#[verifier::external_body]
pub struct ExRegex(regex::Regex);

/// The pattern text a `regex::Regex` was compiled from (what `Regex::as_str`
/// returns).  Every regex this crate holds is built by `regex_new` below,
/// with the crate's default configuration, so the pattern text determines
/// the whole matching behaviour of the value.
pub uninterp spec fn regex_pattern(r: regex::Regex) -> Seq<char>;

/// Whether `regex::Regex::new` accepts the pattern: compilation is a
/// function of the pattern text alone.
pub uninterp spec fn pattern_ok(pat: Seq<char>) -> bool;

/// What `regex::Regex::is_match` returns: whether the haystack contains a
/// match of the pattern anywhere.  The result is a function of the pattern
/// and the haystack alone.
pub uninterp spec fn rx_match(pat: Seq<char>, text: Seq<char>) -> bool;

/// Relies on regex::Regex::new: it returns `Ok` exactly on patterns the
/// dialect accepts, and the compiled value carries its pattern text.
#[verifier::external_body]
pub(crate) fn regex_new(pat: &str) -> (r: Option<regex::Regex>)
    ensures
        r is Some <==> pattern_ok(pat@),
        r matches Some(rx) ==> regex_pattern(rx) == pat@,
{
    regex::Regex::new(pat).ok()
}

/// Relies on regex::Regex::is_match: true iff the haystack contains a match
/// of the compiled pattern anywhere.  For a regex built by `Regex::new` —
/// the only way this crate builds one — the result depends on the pattern
/// text and the haystack alone.
#[verifier::external_body]
pub(crate) fn regex_is_match(rx: &regex::Regex, text: &str) -> (b: bool)
    ensures
        b == rx_match(regex_pattern(*rx), text@),
{
    rx.is_match(text)
}

} // verus!
