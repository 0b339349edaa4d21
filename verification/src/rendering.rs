//! Markdown rendered to HTML without trusting embedded HTML or link schemes.

use crate::text::{chars_of, is_space, char_is_space};
use vstd::prelude::*;

verus! {

/// A control character (Unicode general category Cc), as `char::is_control` decides it.
pub open spec fn is_control(c: char) -> bool {
    let n = c as u32;
    n <= 0x1f || (0x7f <= n && n <= 0x9f)
}

/// Whether a character is a control character.
pub fn char_is_control(c: char) -> (b: bool)
    ensures
        b == is_control(c),
{
    let n = c as u32;
    n <= 0x1f || (0x7f <= n && n <= 0x9f)
}

/// `char::to_ascii_lowercase`.
pub open spec fn ascii_lower(c: char) -> char {
    if 'A' <= c <= 'Z' {
        ((c as u32) + 32) as char
    } else {
        c
    }
}

/// `s` starts with `prefix` once ASCII letters are lowered.
pub open spec fn lower_prefix(s: Seq<char>, prefix: Seq<char>) -> bool {
    prefix.len() <= s.len() && forall|i: int| 0 <= i < prefix.len() ==> ascii_lower(#[trigger] s[i]) == prefix[i]
}

/// `s` starts with `prefix`.
pub open spec fn plain_prefix(s: Seq<char>, prefix: Seq<char>) -> bool {
    prefix.len() <= s.len() && s.subrange(0, prefix.len() as int) == prefix
}

/// A link or image destination that may be kept: no control or white-space
/// character, and a fragment, a path, or an `http`, `https` or `mailto` URL.
pub open spec fn safe_destination_spec(v: Seq<char>) -> bool {
    &&& forall|i: int| 0 <= i < v.len() ==> !is_control(#[trigger] v[i]) && !is_space(v[i])
    &&& (plain_prefix(v, "#"@) || plain_prefix(v, "/"@) || plain_prefix(v, "./"@) || plain_prefix(v, "../"@)
        || lower_prefix(v, "http://"@) || lower_prefix(v, "https://"@) || lower_prefix(v, "mailto:"@))
}

fn char_lower(c: char) -> (r: char)
    ensures
        r == ascii_lower(c),
{
    if 'A' <= c && c <= 'Z' {
        let b = (c as u8) + 32;
        b as char
    } else {
        c
    }
}

fn starts_lower(v: &[char], prefix: &str) -> (r: bool)
    ensures
        r == lower_prefix(v@, prefix@),
{
    let p = chars_of(prefix);
    if p.len() > v.len() {
        return false;
    }
    let mut i: usize = 0;
    while i < p.len()
        invariant
            p@ == prefix@,
            p@.len() <= v@.len(),
            i <= p@.len(),
            forall|j: int| 0 <= j < i ==> ascii_lower(#[trigger] v@[j]) == p@[j],
        decreases p.len() - i,
    {
        if char_lower(v[i]) != p[i] {
            return false;
        }
        i = i + 1;
    }
    true
}

fn starts_plain(v: &[char], prefix: &str) -> (r: bool)
    ensures
        r == plain_prefix(v@, prefix@),
{
    let p = chars_of(prefix);
    crate::text::seq_starts_with(v, p.as_slice())
}

/// Whether a link or image destination may be kept.
pub fn safe_destination(value: &str) -> (r: bool)
    ensures
        r == safe_destination_spec(value@),
{
    let v = chars_of(value);
    let mut i: usize = 0;
    while i < v.len()
        invariant
            v@ == value@,
            i <= v@.len(),
            forall|j: int| 0 <= j < i ==> !is_control(#[trigger] v@[j]) && !is_space(v@[j]),
        decreases v.len() - i,
    {
        if char_is_control(v[i]) || char_is_space(v[i]) {
            return false;
        }
        i = i + 1;
    }
    let s = v.as_slice();
    starts_plain(s, "#") || starts_plain(s, "/") || starts_plain(s, "./") || starts_plain(s, "../")
        || starts_lower(s, "http://") || starts_lower(s, "https://") || starts_lower(s, "mailto:")
}

/// The destination kept as it is when safe, or emptied.
pub fn kept_destination(value: &str) -> (r: String)
    ensures
        safe_destination_spec(value@) ==> r@ == value@,
        !safe_destination_spec(value@) ==> r@ == Seq::<char>::empty(),
{
    if safe_destination(value) {
        value.to_owned()
    } else {
        String::new()
    }
}

/// The HTML of a Markdown text: its events cleaned (embedded HTML as text, unsafe
/// destinations emptied) and written by `pulldown-cmark`.
pub open spec fn markdown_html(markdown: Seq<char>) -> Seq<char> {
    crate::html::pushed_html(crate::html::html_events(markdown).map_values(|t: crate::html::TokenView| crate::html::cleaned(t)))
}

/// Renders Markdown to HTML without trusting embedded HTML or link schemes.
pub fn render_markdown_html(markdown: &str) -> (r: String)
    ensures
        r@ == markdown_html(markdown@),
{
    let events = crate::html::markdown_html_events(markdown);
    crate::html::push_html_events(crate::html::sanitized(events))
}

} // verus!
