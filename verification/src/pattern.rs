//! The fixed identity patterns of records, matched with the `regex` crate.

use regex::Regex;
use vstd::prelude::*;

verus! {

/// An upper-case ASCII letter.
pub open spec fn is_upper(c: char) -> bool {
    'A' <= c <= 'Z'
}

/// An ASCII digit.
pub open spec fn is_digit(c: char) -> bool {
    '0' <= c <= '9'
}

/// A character of a project prefix after its first letter.
pub open spec fn is_prefix_char(c: char) -> bool {
    is_upper(c) || is_digit(c) || c == '_'
}

/// `s` is a project prefix (`[A-Z][A-Z0-9_]*`), a dash, `middle`, and three or more digits.
pub open spec fn id_syntax(s: Seq<char>, middle: Seq<char>) -> bool {
    exists|k: int|
        #![trigger s[k]]
        1 <= k && k + 1 + middle.len() + 3 <= s.len() && is_upper(s[0]) && (forall|i: int|
            1 <= i < k ==> is_prefix_char(#[trigger] s[i])) && s[k] == '-' && s.subrange(
            k + 1,
            k + 1 + middle.len(),
        ) == middle && (forall|i: int| k + 1 + middle.len() <= i < s.len() ==> is_digit(#[trigger] s[i]))
}

/// The ticket identity pattern.
pub open spec fn ticket_pattern() -> Seq<char> {
    "^[A-Z][A-Z0-9_]*-[0-9]{3,}$"@
}

/// The epic identity pattern.
pub open spec fn epic_pattern() -> Seq<char> {
    "^[A-Z][A-Z0-9_]*-E-[0-9]{3,}$"@
}

/// A lower-case ASCII letter.
pub open spec fn is_lower(c: char) -> bool {
    'a' <= c <= 'z'
}

/// `s` is a slug: a lower-case letter or digit, then lower-case letters, digits and dashes.
pub open spec fn slug_syntax(s: Seq<char>) -> bool {
    s.len() >= 1 && (is_lower(s[0]) || is_digit(s[0])) && forall|i: int|
        1 <= i < s.len() ==> (is_lower(#[trigger] s[i]) || is_digit(s[i]) || s[i] == '-')
}

/// `s` is a project prefix: an upper-case letter, then upper-case letters, digits and underscores.
pub open spec fn prefix_syntax(s: Seq<char>) -> bool {
    s.len() >= 1 && is_upper(s[0]) && forall|i: int| 1 <= i < s.len() ==> is_prefix_char(#[trigger] s[i])
}

/// The project prefix pattern.
pub open spec fn prefix_pattern() -> Seq<char> {
    "^[A-Z][A-Z0-9_]*$"@
}

/// The strategy identity pattern.
pub open spec fn slug_pattern() -> Seq<char> {
    "^[a-z0-9][a-z0-9-]*$"@
}

/// Whether `text` matches one of the fixed record patterns, with `regex::Regex::is_match`.
/// The contract states each pattern's language: anchored at both ends, ASCII classes.
#[verifier::external_body]
pub(crate) fn pattern_matches(pattern: &str, text: &str) -> (r: bool)
    requires
        pattern@ == ticket_pattern() || pattern@ == epic_pattern() || pattern@ == slug_pattern() || pattern@
            == prefix_pattern(),
    ensures
        pattern@ == ticket_pattern() ==> r == id_syntax(text@, Seq::empty()),
        pattern@ == epic_pattern() ==> r == id_syntax(text@, "E-"@),
        pattern@ == slug_pattern() ==> r == slug_syntax(text@),
        pattern@ == prefix_pattern() ==> r == prefix_syntax(text@),
{
    Regex::new(pattern).expect("record patterns compile").is_match(text)
}


} // verus!
