//! Regular expressions, as the `regex` crate matches them.
//!
//! What a pattern matches in a text takes a book to say, so this module
//! does not say it. It gives the answers of `regex` names,
//! [`regex_compiles`], [`regex_split`] and [`regex_groups`], and the
//! function that asks `regex` promises no more than that it returns what
//! those names stand for. Everything that the library does with the
//! answers is stated over the names.

use vstd::prelude::*;

verus! {

/// The error with which `regex` refuses a pattern.
#[verifier::external_type_specification]
#[verifier::external_body]
pub struct ExRegexError(regex::Error);

/// Whether `Regex::new` compiles `pattern`: it does unless the pattern is
/// no regular expression, or is one too large for the limits that `regex`
/// sets by default.
pub uninterp spec fn regex_compiles(pattern: Seq<char>) -> bool;

/// The parts of `haystack` that lie between the successive matches of
/// `pattern`, in their order, as `Regex::split` yields them: the text
/// before the first match, the text between each match and the next, and
/// the text after the last.
pub uninterp spec fn regex_split(pattern: Seq<char>, haystack: Seq<char>) -> Seq<Seq<char>>;

/// For each successive match of `pattern` in `haystack`, in their order,
/// as `Regex::captures_iter` yields them: the text that the first capture
/// group matched and the text that the second matched. A group that the
/// pattern lacks, or that took no part in the match, has no text.
pub uninterp spec fn regex_groups(pattern: Seq<char>, haystack: Seq<char>) -> Seq<
    (Option<Seq<char>>, Option<Seq<char>>),
>;

/// The views of the strings in a sequence.
pub open spec fn string_views(strings: Seq<String>) -> Seq<Seq<char>> {
    strings.map_values(|s: String| s@)
}

/// The view of a string that may be missing.
pub open spec fn option_view(text: Option<String>) -> Option<Seq<char>> {
    match text {
        Some(s) => Some(s@),
        None => None,
    }
}

/// The views of the pairs of group texts in a sequence.
pub open spec fn group_views(groups: Seq<(Option<String>, Option<String>)>) -> Seq<
    (Option<Seq<char>>, Option<Seq<char>>),
> {
    groups.map_values(|g: (Option<String>, Option<String>)| (option_view(g.0), option_view(g.1)))
}

/// What `regex` finds in a text: the parts between the matches, and the
/// texts of the first two capture groups of each match.
pub type Found = (Vec<String>, Vec<(Option<String>, Option<String>)>);

/// Compiles `pattern` once with `Regex::new` and searches `haystack` with
/// it: collects the parts that `Regex::split` yields, and for each match
/// that `Regex::captures_iter` yields the texts of its first and second
/// capture groups, as `Captures::get` gives them.
///
/// Claimed of `regex`: whether `Regex::new` compiles a pattern depends on
/// the pattern alone, and the call fails only where it does not. Where it
/// does, the parts returned are those that `Regex::split` yields and the
/// texts those of the matches that `Regex::captures_iter` yields, both of
/// which depend on the pattern and the haystack alone.
#[verifier::external_body]
pub(crate) fn search(pattern: &str, haystack: &str) -> (r: Result<Found, regex::Error>)
    ensures
        r is Ok == regex_compiles(pattern@),
        r matches Ok(found) ==> string_views(found.0@) == regex_split(pattern@, haystack@),
        r matches Ok(found) ==> group_views(found.1@) == regex_groups(pattern@, haystack@),
{
    let re = regex::Regex::new(pattern)?;
    let parts = re.split(haystack).map(|part| part.to_string()).collect();
    let groups = re.captures_iter(haystack).map(
        |caps| (caps.get(1).map(|m| m.as_str().to_string()), caps.get(2).map(|m| m.as_str().to_string())),
    ).collect();
    Ok((parts, groups))
}

} // verus!
