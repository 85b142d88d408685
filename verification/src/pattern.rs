//! Matching text against regular expressions, done by the `regex` crate.
//!
//! What a match gives is stated by name only: the names stand for what the
//! crate computes and nothing here says what that is on given text.
//!
//! The names of match results take the text of the pattern. They hold of
//! an expression that `compile` made, which is built with the crate's
//! default options, and `compile` is the only source of an expression in
//! this library. The wrappers are therefore private to the crate: an
//! expression built elsewhere with other options is never handed to them.

use vstd::prelude::*;

verus! {

/// A compiled regular expression of the `regex` crate.
#[verifier::external_type_specification]
#[verifier::external_body]
pub struct ExRegex(regex::Regex);

/// The error of the `regex` crate for a pattern that it does not compile.
#[verifier::external_type_specification]
#[verifier::external_body]
pub struct ExRegexError(regex::Error);

/// The groups of one match: the whole match first, then each capture group
/// in the order of its opening bracket, absent where the group took no part.
pub type Groups = Vec<Option<String>>;

/// Whether `Regex::new` compiles `pattern`.
pub uninterp spec fn pattern_compiles(pattern: Seq<char>) -> bool;

/// The pattern that a compiled expression was made from.
pub uninterp spec fn pattern_of(re: regex::Regex) -> Seq<char>;

/// The groups of the leftmost match of `pattern` in `text`, as
/// `Regex::captures` finds it.
pub uninterp spec fn first_match(pattern: Seq<char>, text: Seq<char>) -> Option<
    Seq<Option<Seq<char>>>,
>;

/// The groups of the successive non-overlapping matches of `pattern` in
/// `text`, as `Regex::captures_iter` yields them.
pub uninterp spec fn all_matches(pattern: Seq<char>, text: Seq<char>) -> Seq<
    Seq<Option<Seq<char>>>,
>;

/// What the groups of one match hold.
pub open spec fn groups_view(groups: Seq<Option<String>>) -> Seq<Option<Seq<char>>> {
    Seq::new(
        groups.len(),
        |i: int|
            match groups[i] {
                Some(s) => Some(s@),
                None => None,
            },
    )
}

/// What the groups of a run of matches hold.
pub open spec fn matches_view(all: Seq<Groups>) -> Seq<Seq<Option<Seq<char>>>> {
    Seq::new(all.len(), |i: int| groups_view(all[i]@))
}

/// `Regex::new`: compiles `pattern`. Whether it compiles depends on the
/// pattern alone, and the compiled expression stands for that pattern.
#[verifier::external_body]
pub(crate) fn compile(pattern: &str) -> (r: Result<regex::Regex, regex::Error>)
    ensures
        r is Ok <==> pattern_compiles(pattern@),
        r matches Ok(re) ==> pattern_of(re) == pattern@,
{
    regex::Regex::new(pattern)
}

/// `Regex::captures`: the groups of the leftmost match in `text`, each
/// copied out as a string; `None` where nothing matches. For an expression
/// that `compile` made; private to the crate so that no other is given.
#[verifier::external_body]
pub(crate) fn captures(re: &regex::Regex, text: &str) -> (r: Option<Groups>)
    ensures
        match r {
            Some(groups) => first_match(pattern_of(*re), text@) == Some(groups_view(groups@)),
            None => first_match(pattern_of(*re), text@) is None,
        },
{
    re.captures(text).map(|c| c.iter().map(|g| g.map(|m| m.as_str().to_string())).collect())
}

/// `Regex::captures_iter`: the groups of every match in `text`, in order,
/// each copied out as a string. For an expression that `compile` made;
/// private to the crate so that no other is given.
#[verifier::external_body]
pub(crate) fn captures_all(re: &regex::Regex, text: &str) -> (r: Vec<Groups>)
    ensures
        matches_view(r@) == all_matches(pattern_of(*re), text@),
{
    re.captures_iter(text).map(
        |c| c.iter().map(|g| g.map(|m| m.as_str().to_string())).collect(),
    ).collect()
}

} // verus!
