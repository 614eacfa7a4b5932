//! The regular expressions that recognise markers, references and
//! declarations, and the calls that run them.
//!
//! What a regular expression matches is not defined here: it is whatever the
//! `regex` crate finds. `captures_each` and `captures_all` make the calls and
//! hand the findings over as plain texts, and `regex_captures` and
//! `regex_captures_all` are the names under which the rest of the library
//! speaks of them. A pattern is compiled once for all the texts of a call, so
//! whoever has many lines to search hands them over together.
use vstd::prelude::*;

verus! {

/// A marker that opens a region: `//> name` or `//> Chapter Name name`.
pub const START_PATTERN: &'static str = "^//> ([A-Z][A-Za-z\\s]+\\s+)?([-a-z0-9]+)$";

/// A marker that closes a region: `//< name` or `//< Chapter Name name`.
pub const END_PATTERN: &'static str = "^//< ([A-Z][A-Za-z\\s]+\\s+)?([-a-z0-9]+)$";

/// The first line of a block that one region opens and another removes:
/// `/* Chapter name < Chapter name`.
pub const BLOCK_PATTERN: &'static str =
    "^/\\* ([A-Z][A-Za-z\\s]+) ([-a-z0-9]+) < ([A-Z][A-Za-z\\s]+) ([-a-z0-9]+)$";

/// A constructor's signature.
pub const CONSTRUCTOR_PATTERN: &'static str = "^  ([A-Z][a-z]\\w+)\\(";

/// A function's signature.
pub const FUNCTION_PATTERN: &'static str = "(\\w+)>*\\*? (\\w+)\\(([^)]*)";

/// The declaration of a variable on one line.
pub const VARIABLE_PATTERN: &'static str = "^\\w+\\*? (\\w+)(;| = )";

/// The declaration of a type.
pub const TYPE_PATTERN: &'static str =
    "(public )?(abstract )?(class|enum|interface) ([A-Z]\\w+).*";

/// A reference to a region in the text of a chapter.
pub const REFERENCE_PATTERN: &'static str = "(?m)^\\^code\\s+([a-z-]+)\\s*(?:\\(([^)]*)\\))?";

/// The capture groups of one match: the text of each group, the whole match
/// first, `None` for a group that took no part in the match.
pub type Groups = Vec<Option<String>>;

/// What a search for the regular expression `pattern` in `haystack`
/// captures: `None` where nothing matches, otherwise the groups of the
/// leftmost match.
pub uninterp spec fn regex_captures(pattern: Seq<char>, haystack: Seq<char>) -> Option<
    Seq<Option<Seq<char>>>,
>;

/// The groups of all the matches of `pattern` in `haystack` that do not
/// overlap, from left to right.
pub uninterp spec fn regex_captures_all(pattern: Seq<char>, haystack: Seq<char>) -> Seq<
    Seq<Option<Seq<char>>>,
>;

/// Compiles `pattern` with `regex::Regex::new`, runs `regex::Regex::captures`
/// on each of `haystacks`, and copies the text of each group.
///
/// Trusted: there is one result for each haystack, in their order, and it is
/// the one that `regex_captures` names for the pattern and the haystack. A
/// pattern that `regex::Regex::new` does not accept captures nothing.
#[verifier::external_body]
pub(crate) fn captures_each(pattern: &str, haystacks: &Vec<String>) -> (found: Vec<Option<Groups>>)
    ensures
        found.len() == haystacks.len(),
        forall|i: int|
            0 <= i < found.len() ==> (#[trigger] found[i]).deep_view() == regex_captures(
                pattern@,
                haystacks[i]@,
            ),
{
    match regex::Regex::new(pattern) {
        Ok(re) => haystacks.iter().map(
            |h| re.captures(h).map(
                |c| c.iter().map(|g| g.map(|m| m.as_str().to_string())).collect(),
            ),
        ).collect(),
        Err(_) => haystacks.iter().map(|_| None).collect(),
    }
}

/// What a search for `pattern` captures in `haystack`.
pub fn captures(pattern: &str, haystack: &str) -> (found: Option<Groups>)
    ensures
        found.deep_view() == regex_captures(pattern@, haystack@),
{
    let mut one: Vec<String> = Vec::new();
    one.push(haystack.to_owned());
    let mut each = captures_each(pattern, &one);
    assert(each[0].deep_view() == regex_captures(pattern@, one[0]@));
    match each.pop() {
        Some(found) => found,
        None => None,
    }
}

/// Runs `regex::Regex::captures_iter` for `pattern` on `haystack` and copies
/// the text of each group of each match.
///
/// Trusted: the result is the one that `regex_captures_all` names for the two
/// texts. A pattern that `regex::Regex::new` does not accept has no match.
#[verifier::external_body]
pub(crate) fn captures_all(pattern: &str, haystack: &str) -> (found: Vec<Groups>)
    ensures
        found.deep_view() == regex_captures_all(pattern@, haystack@),
{
    match regex::Regex::new(pattern) {
        Ok(re) => re.captures_iter(haystack).map(
            |c| c.iter().map(|g| g.map(|m| m.as_str().to_string())).collect(),
        ).collect(),
        Err(_) => Vec::new(),
    }
}

/// The text of group `i`, where there is such a group and it took part in
/// the match.
pub open spec fn group_text(groups: Seq<Option<Seq<char>>>, i: int) -> Option<Seq<char>> {
    if 0 <= i < groups.len() {
        groups[i]
    } else {
        None
    }
}

/// The text of group `i`, where there is such a group and it took part in
/// the match.
pub fn group(groups: &Groups, i: usize) -> (text: Option<&String>)
    ensures
        text.deep_view() == group_text(groups.deep_view(), i as int),
{
    if i < groups.len() {
        match &groups[i] {
            Some(text) => Some(text),
            None => None,
        }
    } else {
        None
    }
}

} // verus!
