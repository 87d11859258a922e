//! Regular expressions, as the `regex` crate compiles and runs them.
//!
//! Nothing in this file is proved: each item states what the crate's
//! documentation says of one of its functions.

use regex::Regex;
use vstd::prelude::*;
use vstd::string::StringSliceAdditionalSpecFns;
use vstd::utf8::is_char_boundary;

verus! {

/// A compiled regular expression of the `regex` crate. Nothing of what it
/// holds is visible here.
#[verifier::external_type_specification]
#[verifier::external_body]
pub struct ExRegex(regex::Regex);

/// Whether `Regex::new` accepts `pattern`.
pub uninterp spec fn regex_compiles(pattern: Seq<char>) -> bool;

/// The pattern that a regular expression was compiled from, which is what
/// `Regex::as_str` returns.
pub uninterp spec fn regex_source(re: Regex) -> Seq<char>;

/// What `Regex::find` returns for a pattern and the UTF-8 bytes of a
/// haystack: the byte offsets at which the first match starts and ends, or
/// `None` where the pattern matches nowhere.
pub uninterp spec fn first_match(pattern: Seq<char>, haystack: Seq<u8>) -> Option<(usize, usize)>;

/// What `Regex::replace_all` returns for a pattern, a haystack and a
/// replacement.
pub uninterp spec fn replaced_all(
    pattern: Seq<char>,
    haystack: Seq<char>,
    replacement: Seq<char>,
) -> Seq<char>;

/// `Regex::new`: compiles `pattern`. It fails on a pattern that is invalid or
/// too large, which depends on the pattern alone; the compiled expression
/// remembers the pattern it came from.
#[verifier::external_body]
pub(crate) fn compile(pattern: &str) -> (compiled: Option<Regex>)
    ensures
        compiled is Some <==> regex_compiles(pattern@),
        compiled matches Some(re) ==> regex_source(re) == pattern@,
{
    Regex::new(pattern).ok()
}

/// `Regex::find`: the first match in `haystack`, as the byte offsets of its
/// start and its end. The documentation of `Match` guarantees that the start
/// is not after the end, that both lie within the haystack, and that both
/// fall on UTF-8 character boundaries.
#[verifier::external_body]
pub(crate) fn find_first(re: &Regex, haystack: &str) -> (found: Option<(usize, usize)>)
    ensures
        found == first_match(regex_source(*re), haystack.spec_bytes()),
        found matches Some((start, end)) ==> {
            &&& start <= end <= haystack.spec_bytes().len()
            &&& is_char_boundary(haystack.spec_bytes(), start as int)
            &&& is_char_boundary(haystack.spec_bytes(), end as int)
        },
{
    match re.find(haystack) {
        Some(m) => Some((m.start(), m.end())),
        None => None,
    }
}

/// `Regex::replace_all`: `haystack` with every non-overlapping match
/// replaced. The documentation guarantees that a haystack without a match
/// is returned unchanged.
#[verifier::external_body]
pub(crate) fn replace_all(re: &Regex, haystack: &str, replacement: &str) -> (out: String)
    ensures
        out@ == replaced_all(regex_source(*re), haystack@, replacement@),
        first_match(regex_source(*re), haystack.spec_bytes()) is None ==> out@ == haystack@,
{
    re.replace_all(haystack, replacement).into_owned()
}

} // verus!
