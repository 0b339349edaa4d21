//! Character-level text operations used throughout the library.

use vstd::prelude::*;

verus! {

/// `prefix` is a prefix of `s`.
pub open spec fn is_prefix(prefix: Seq<char>, s: Seq<char>) -> bool {
    prefix.len() <= s.len() && s.subrange(0, prefix.len() as int) == prefix
}

/// `suffix` is a suffix of `s`.
pub open spec fn is_suffix(suffix: Seq<char>, s: Seq<char>) -> bool {
    suffix.len() <= s.len() && s.subrange(s.len() - suffix.len(), s.len() as int) == suffix
}

/// `needle` occurs in `s` starting at `at`.
pub open spec fn occurs_at(s: Seq<char>, needle: Seq<char>, at: int) -> bool {
    0 <= at && at + needle.len() <= s.len() && s.subrange(at, at + needle.len()) == needle
}

/// `needle` occurs somewhere in `s`.
pub open spec fn contains_seq(s: Seq<char>, needle: Seq<char>) -> bool {
    exists|at: int| occurs_at(s, needle, at)
}

/// The characters of a string.
#[verifier::external_body]
pub(crate) fn chars_of(s: &str) -> (r: Vec<char>)
    ensures
        r@ == s@,
{
    s.chars().collect()
}

/// A string made of the given characters.
#[verifier::external_body]
pub(crate) fn string_of(cs: &[char]) -> (r: String)
    ensures
        r@ == cs@,
{
    cs.iter().collect()
}

/// Appends one character to a string.
#[verifier::external_body]
pub(crate) fn push_char(s: &mut String, c: char)
    ensures
        final(s)@ == old(s)@.push(c),
{
    s.push(c)
}

/// Appends a string slice to a string.
#[verifier::external_body]
pub(crate) fn push_str(s: &mut String, t: &str)
    ensures
        final(s)@ == old(s)@ + t@,
{
    s.push_str(t)
}

/// `p` is a prefix of `s`.
pub fn seq_starts_with(s: &[char], p: &[char]) -> (b: bool)
    ensures
        b == is_prefix(p@, s@),
{
    if p.len() > s.len() {
        return false;
    }
    let mut i: usize = 0;
    while i < p.len()
        invariant
            p.len() <= s.len(),
            i <= p.len(),
            forall|j: int| 0 <= j < i ==> s@[j] == p@[j],
        decreases p.len() - i,
    {
        if s[i] != p[i] {
            assert(s@.subrange(0, p@.len() as int)[i as int] != p@[i as int]);
            return false;
        }
        i = i + 1;
    }
    assert(s@.subrange(0, p@.len() as int) =~= p@);
    true
}

/// `needle` occurs in `s` at position `at`.
pub fn seq_occurs_at(s: &[char], needle: &[char], at: usize) -> (b: bool)
    ensures
        b == occurs_at(s@, needle@, at as int),
{
    if at > s.len() || needle.len() > s.len() - at {
        return false;
    }
    let mut i: usize = 0;
    while i < needle.len()
        invariant
            at + needle.len() <= s.len(),
            i <= needle.len(),
            forall|j: int| 0 <= j < i ==> s@[at + j] == needle@[j],
        decreases needle.len() - i,
    {
        if s[at + i] != needle[i] {
            assert(s@.subrange(at as int, at + needle@.len())[i as int] != needle@[i as int]);
            return false;
        }
        i = i + 1;
    }
    assert(s@.subrange(at as int, at + needle@.len()) =~= needle@);
    true
}

/// The first position at which `needle` occurs in `s`, if any.
pub fn seq_find(s: &[char], needle: &[char]) -> (r: Option<usize>)
    ensures
        r is None ==> !contains_seq(s@, needle@),
        r matches Some(at) ==> occurs_at(s@, needle@, at as int) && forall|k: int|
            0 <= k < at ==> !occurs_at(s@, needle@, k),
{
    if needle.len() > s.len() {
        return None;
    }
    let mut at: usize = 0;
    while at <= s.len() - needle.len()
        invariant
            needle.len() <= s.len(),
            at <= s.len() - needle.len() + 1,
            forall|k: int| 0 <= k < at ==> !occurs_at(s@, needle@, k),
        decreases s.len() - needle.len() + 1 - at,
    {
        if seq_occurs_at(s, needle, at) {
            return Some(at);
        }
        if at == s.len() - needle.len() {
            return None;
        }
        at = at + 1;
    }
    None
}

/// `needle` occurs in `s`.
pub fn seq_contains(s: &[char], needle: &[char]) -> (b: bool)
    ensures
        b == contains_seq(s@, needle@),
{
    match seq_find(s, needle) {
        Some(at) => true,
        None => false,
    }
}

/// Whether two strings hold the same characters.
pub fn str_eq(a: &str, b: &str) -> (r: bool)
    ensures
        r == (a@ == b@),
{
    let av = chars_of(a);
    let bv = chars_of(b);
    if av.len() != bv.len() {
        return false;
    }
    let r = seq_starts_with(av.as_slice(), bv.as_slice());
    assert(av@.subrange(0, bv@.len() as int) =~= av@);
    r
}

/// `prefix` is a prefix of string `s`.
pub fn starts_with(s: &str, prefix: &str) -> (b: bool)
    ensures
        b == is_prefix(prefix@, s@),
{
    let sv = chars_of(s);
    let pv = chars_of(prefix);
    seq_starts_with(sv.as_slice(), pv.as_slice())
}

/// `suffix` is a suffix of string `s`.
pub fn ends_with(s: &str, suffix: &str) -> (b: bool)
    ensures
        b == is_suffix(suffix@, s@),
{
    let sv = chars_of(s);
    let pv = chars_of(suffix);
    if pv.len() > sv.len() {
        return false;
    }
    let r = seq_occurs_at(sv.as_slice(), pv.as_slice(), sv.len() - pv.len());
    r
}

/// `needle` occurs in `s`.
pub fn contains(s: &str, needle: &str) -> (b: bool)
    ensures
        b == contains_seq(s@, needle@),
{
    let sv = chars_of(s);
    let nv = chars_of(needle);
    seq_contains(sv.as_slice(), nv.as_slice())
}

/// `char::is_whitespace`: the Unicode White_Space property.
pub open spec fn is_space(c: char) -> bool {
    let n = c as u32;
    (0x9 <= n <= 0xd) || n == 0x20 || n == 0x85 || n == 0xa0 || n == 0x1680 || (0x2000 <= n
        <= 0x200a) || n == 0x2028 || n == 0x2029 || n == 0x202f || n == 0x205f || n == 0x3000
}

/// Whether a character is Unicode white space, as `char::is_whitespace` decides it.
pub fn char_is_space(c: char) -> (b: bool)
    ensures
        b == is_space(c),
{
    let n = c as u32;
    (0x9 <= n && n <= 0xd) || n == 0x20 || n == 0x85 || n == 0xa0 || n == 0x1680 || (0x2000 <= n
        && n <= 0x200a) || n == 0x2028 || n == 0x2029 || n == 0x202f || n == 0x205f || n == 0x3000
}

/// The number of leading white-space characters.
pub open spec fn leading_space(s: Seq<char>) -> nat
    decreases s.len(),
{
    if s.len() > 0 && is_space(s[0]) {
        1 + leading_space(s.drop_first())
    } else {
        0
    }
}

/// The number of trailing white-space characters.
pub open spec fn trailing_space(s: Seq<char>) -> nat
    decreases s.len(),
{
    if s.len() > 0 && is_space(s.last()) {
        1 + trailing_space(s.drop_last())
    } else {
        0
    }
}

/// `str::trim`: the text without leading and trailing white space.
pub open spec fn trim_seq(s: Seq<char>) -> Seq<char> {
    let front = s.skip(leading_space(s) as int);
    front.take(front.len() - trailing_space(front))
}

/// The text holds only white space.
pub open spec fn is_blank(s: Seq<char>) -> bool {
    forall|i: int| 0 <= i < s.len() ==> is_space(#[trigger] s[i])
}

proof fn lemma_leading_space(s: Seq<char>, i: int)
    requires
        0 <= i <= s.len(),
        forall|j: int| 0 <= j < i ==> is_space(#[trigger] s[j]),
        i == s.len() || !is_space(s[i]),
    ensures
        leading_space(s) == i,
    decreases i,
{
    if i > 0 {
        lemma_leading_space(s.drop_first(), i - 1);
    }
}

proof fn lemma_trailing_space(s: Seq<char>, k: int)
    requires
        0 <= k <= s.len(),
        forall|j: int| s.len() - k <= j < s.len() ==> is_space(#[trigger] s[j]),
        k == s.len() || !is_space(s[s.len() - k - 1]),
    ensures
        trailing_space(s) == k,
    decreases k,
{
    if k > 0 {
        lemma_trailing_space(s.drop_last(), k - 1);
    }
}

proof fn lemma_trailing_bounded(s: Seq<char>)
    ensures
        trailing_space(s) <= s.len(),
    decreases s.len(),
{
    if s.len() > 0 && is_space(s.last()) {
        lemma_trailing_bounded(s.drop_last());
    }
}

/// `str::trim` on characters.
pub fn trim_chars(s: &[char]) -> (r: Vec<char>)
    ensures
        r@ == trim_seq(s@),
{
    let mut start: usize = 0;
    while start < s.len() && char_is_space(s[start])
        invariant
            start <= s.len(),
            forall|j: int| 0 <= j < start ==> is_space(#[trigger] s@[j]),
        decreases s.len() - start,
    {
        start = start + 1;
    }
    proof {
        lemma_leading_space(s@, start as int);
    }
    let mut end: usize = s.len();
    while end > start && char_is_space(s[end - 1])
        invariant
            start <= end <= s.len(),
            forall|j: int| end <= j < s.len() ==> is_space(#[trigger] s@[j]),
        decreases end,
    {
        end = end - 1;
    }
    let ghost front = s@.skip(start as int);
    proof {
        lemma_trailing_space(front, (s.len() - end) as int);
    }
    let mut r: Vec<char> = Vec::new();
    let mut i: usize = start;
    while i < end
        invariant
            start <= i <= end <= s.len(),
            r@ == s@.subrange(start as int, i as int),
        decreases end - i,
    {
        r.push(s[i]);
        i = i + 1;
        assert(r@ =~= s@.subrange(start as int, i as int));
    }
    assert(r@ =~= front.take(front.len() - trailing_space(front)));
    r
}

proof fn lemma_trim_empty_iff_blank(s: Seq<char>)
    ensures
        (trim_seq(s).len() == 0) == is_blank(s),
    decreases s.len(),
{
    let l = leading_space(s);
    lemma_leading_bounds(s);
    let front = s.skip(l as int);
    lemma_trailing_bounded(front);
    if front.len() > 0 {
        assert(!is_space(front[0]));
        if trailing_space(front) == front.len() {
            lemma_trailing_all(front);
        }
        assert(!is_blank(s)) by {
            assert(!is_space(s[l as int]));
        }
    } else {
        lemma_leading_all(s);
    }
}

proof fn lemma_leading_bounds(s: Seq<char>)
    ensures
        leading_space(s) <= s.len(),
        leading_space(s) < s.len() ==> !is_space(s[leading_space(s) as int]),
    decreases s.len(),
{
    if s.len() > 0 && is_space(s[0]) {
        lemma_leading_bounds(s.drop_first());
    }
}

proof fn lemma_leading_all(s: Seq<char>)
    ensures
        forall|j: int| 0 <= j < leading_space(s) ==> is_space(#[trigger] s[j]),
    decreases s.len(),
{
    lemma_leading_bounds(s);
    if s.len() > 0 && is_space(s[0]) {
        lemma_leading_all(s.drop_first());
        assert forall|j: int| 0 <= j < leading_space(s) implies is_space(#[trigger] s[j]) by {
            if j > 0 {
                assert(s[j] == s.drop_first()[j - 1]);
            }
        }
    }
}

proof fn lemma_trailing_all(s: Seq<char>)
    requires
        trailing_space(s) == s.len(),
        s.len() > 0,
    ensures
        is_space(s[0]),
    decreases s.len(),
{
    if s.len() > 1 {
        lemma_trailing_all(s.drop_last());
    }
}

/// The text is empty or white space only, as `s.trim().is_empty()` decides it.
pub fn is_blank_str(s: &str) -> (b: bool)
    ensures
        b == is_blank(s@),
        b == (trim_seq(s@).len() == 0),
{
    let cs = chars_of(s);
    let t = trim_chars(cs.as_slice());
    proof {
        lemma_trim_empty_iff_blank(s@);
    }
    t.len() == 0
}

/// `str::trim` on a string.
pub fn trim(s: &str) -> (r: String)
    ensures
        r@ == trim_seq(s@),
{
    let cs = chars_of(s);
    let t = trim_chars(cs.as_slice());
    string_of(t.as_slice())
}

/// The pieces of `s` between occurrences of `sep`, as `str::split` yields them.
pub open spec fn split_seq(s: Seq<char>, sep: char) -> Seq<Seq<char>>
    decreases s.len(),
{
    if s.len() == 0 {
        seq![Seq::empty()]
    } else {
        let rest = split_seq(s.drop_last(), sep);
        if s.last() == sep {
            rest.push(Seq::empty())
        } else {
            rest.update(rest.len() - 1, rest.last().push(s.last()))
        }
    }
}

pub proof fn lemma_split_nonempty(s: Seq<char>, sep: char)
    ensures
        split_seq(s, sep).len() >= 1,
    decreases s.len(),
{
    if s.len() > 0 {
        lemma_split_nonempty(s.drop_last(), sep);
    }
}

/// The last piece of a split is what follows the last separator.
pub proof fn lemma_split_last_piece(s: Seq<char>, sep: char)
    ensures
        exists|a: Seq<char>|
            s == a + split_seq(s, sep).last() && (a.len() == 0 || a.last() == sep),
        !split_seq(s, sep).last().contains(sep),
    decreases s.len(),
{
    lemma_split_nonempty(s, sep);
    if s.len() == 0 {
        assert(s == Seq::<char>::empty() + split_seq(s, sep).last());
    } else {
        let rest = split_seq(s.drop_last(), sep);
        lemma_split_nonempty(s.drop_last(), sep);
        lemma_split_last_piece(s.drop_last(), sep);
        let a = choose|a: Seq<char>| s.drop_last() == a + rest.last() && (a.len() == 0 || a.last() == sep);
        if s.last() == sep {
            assert(s == s + split_seq(s, sep).last());
        } else {
            assert(split_seq(s, sep).last() == rest.last().push(s.last()));
            assert(s =~= s.drop_last().push(s.last()));
            assert(s =~= a + split_seq(s, sep).last());
            assert forall|k: int| 0 <= k < split_seq(s, sep).last().len() implies split_seq(s, sep).last()[k] != sep by {
                if k < rest.last().len() {
                    assert(split_seq(s, sep).last()[k] == rest.last()[k]);
                }
            }
        }
    }
}

/// The next-to-last piece of a split of at least two pieces sits between the last two
/// separators (or at the start).
pub open spec fn next_to_last_placed(s: Seq<char>, sep: char, piece: Seq<char>) -> bool {
    &&& exists|a: Seq<char>, n: Seq<char>|
        s == a + piece + seq![sep] + n && (a.len() == 0 || a.last() == sep) && !n.contains(sep)
    &&& !piece.contains(sep)
}

proof fn lemma_next_to_last_after_sep(s: Seq<char>, sep: char)
    requires
        s.len() > 0,
        s.last() == sep,
    ensures
        split_seq(s, sep).len() >= 2,
        next_to_last_placed(s, sep, split_seq(s, sep)[split_seq(s, sep).len() - 2]),
{
    let rest = split_seq(s.drop_last(), sep);
    lemma_split_nonempty(s.drop_last(), sep);
    assert(split_seq(s, sep) == rest.push(Seq::<char>::empty()));
    lemma_split_last_piece(s.drop_last(), sep);
    let a = choose|a: Seq<char>| s.drop_last() == a + rest.last() && (a.len() == 0 || a.last() == sep);
    assert(s =~= s.drop_last().push(s.last()));
    assert(s =~= a + rest.last() + seq![sep] + Seq::<char>::empty());
}

proof fn lemma_next_to_last_after_char(s: Seq<char>, sep: char)
    requires
        s.len() > 0,
        s.last() != sep,
        split_seq(s.drop_last(), sep).len() >= 2,
        next_to_last_placed(
            s.drop_last(),
            sep,
            split_seq(s.drop_last(), sep)[split_seq(s.drop_last(), sep).len() - 2],
        ),
    ensures
        split_seq(s, sep).len() >= 2,
        next_to_last_placed(s, sep, split_seq(s, sep)[split_seq(s, sep).len() - 2]),
{
    let rest = split_seq(s.drop_last(), sep);
    let parts = split_seq(s, sep);
    lemma_split_nonempty(s.drop_last(), sep);
    assert(parts == rest.update(rest.len() - 1, rest.last().push(s.last())));
    let piece = rest[rest.len() - 2];
    assert(parts[parts.len() - 2] == piece);
    let (a, n) = choose|a: Seq<char>, n: Seq<char>|
        s.drop_last() == a + piece + seq![sep] + n && (a.len() == 0 || a.last() == sep) && !n.contains(sep);
    assert(s =~= s.drop_last().push(s.last()));
    assert(s =~= a + piece + seq![sep] + n.push(s.last()));
    assert forall|k: int| 0 <= k < n.push(s.last()).len() implies n.push(s.last())[k] != sep by {
        if k < n.len() {
            assert(n.push(s.last())[k] == n[k]);
        }
    }
}

/// The next-to-last piece of a split of at least two pieces sits between the last two
/// separators (or at the start), and holds no separator.
pub proof fn lemma_split_next_to_last_piece(s: Seq<char>, sep: char)
    requires
        split_seq(s, sep).len() >= 2,
    ensures
        next_to_last_placed(s, sep, split_seq(s, sep)[split_seq(s, sep).len() - 2]),
    decreases s.len(),
{
    if s.len() > 0 {
        if s.last() == sep {
            lemma_next_to_last_after_sep(s, sep);
        } else {
            let rest = split_seq(s.drop_last(), sep);
            lemma_split_nonempty(s.drop_last(), sep);
            assert(split_seq(s, sep) == rest.update(rest.len() - 1, rest.last().push(s.last())));
            lemma_split_next_to_last_piece(s.drop_last(), sep);
            lemma_next_to_last_after_char(s, sep);
        }
    }
}

/// `str::split` by one character.
pub fn split_chars(s: &[char], sep: char) -> (r: Vec<Vec<char>>)
    ensures
        r@.len() == split_seq(s@, sep).len(),
        forall|i: int| 0 <= i < r@.len() ==> #[trigger] r@[i]@ == split_seq(s@, sep)[i],
{
    let mut r: Vec<Vec<char>> = Vec::new();
    let mut current: Vec<char> = Vec::new();
    let mut i: usize = 0;
    while i < s.len()
        invariant
            i <= s.len(),
            r@.len() + 1 == split_seq(s@.take(i as int), sep).len(),
            forall|k: int| 0 <= k < r@.len() ==> #[trigger] r@[k]@ == split_seq(s@.take(i as int), sep)[k],
            current@ == split_seq(s@.take(i as int), sep).last(),
        decreases s.len() - i,
    {
        proof {
            lemma_split_nonempty(s@.take(i as int), sep);
            assert(s@.take(i + 1).drop_last() =~= s@.take(i as int));
        }
        if s[i] == sep {
            r.push(current);
            current = Vec::new();
        } else {
            current.push(s[i]);
        }
        i = i + 1;
        assert(current@ == split_seq(s@.take(i as int), sep).last());
    }
    assert(s@.take(i as int) =~= s@);
    proof {
        lemma_split_nonempty(s@, sep);
    }
    r.push(current);
    r
}

/// The text after `prefix`, when it starts with it.
pub open spec fn strip_prefix_seq(s: Seq<char>, prefix: Seq<char>) -> Option<Seq<char>> {
    if is_prefix(prefix, s) {
        Some(s.skip(prefix.len() as int))
    } else {
        None
    }
}

/// The text before `suffix`, when it ends with it.
pub open spec fn strip_suffix_seq(s: Seq<char>, suffix: Seq<char>) -> Option<Seq<char>> {
    if is_suffix(suffix, s) {
        Some(s.take(s.len() - suffix.len()))
    } else {
        None
    }
}

/// Copies a range of characters.
pub fn copy_range(s: &[char], from: usize, to: usize) -> (r: Vec<char>)
    requires
        from <= to <= s.len(),
    ensures
        r@ == s@.subrange(from as int, to as int),
{
    let mut r: Vec<char> = Vec::new();
    let mut i = from;
    while i < to
        invariant
            from <= i <= to <= s.len(),
            r@ == s@.subrange(from as int, i as int),
        decreases to - i,
    {
        r.push(s[i]);
        i = i + 1;
        assert(r@ =~= s@.subrange(from as int, i as int));
    }
    r
}

/// `str::strip_prefix` on strings.
pub fn strip_prefix(s: &str, prefix: &str) -> (r: Option<String>)
    ensures
        match r {
            Some(v) => strip_prefix_seq(s@, prefix@) == Some(v@),
            None => strip_prefix_seq(s@, prefix@) is None,
        },
{
    let cs = chars_of(s);
    let ps = chars_of(prefix);
    if seq_starts_with(cs.as_slice(), ps.as_slice()) {
        let rest = copy_range(cs.as_slice(), ps.len(), cs.len());
        assert(rest@ =~= s@.skip(prefix@.len() as int));
        Some(string_of(rest.as_slice()))
    } else {
        None
    }
}

/// `str::strip_suffix` on strings.
pub fn strip_suffix(s: &str, suffix: &str) -> (r: Option<String>)
    ensures
        match r {
            Some(v) => strip_suffix_seq(s@, suffix@) == Some(v@),
            None => strip_suffix_seq(s@, suffix@) is None,
        },
{
    let cs = chars_of(s);
    if !ends_with(s, suffix) {
        return None;
    }
    let n = chars_of(suffix).len();
    let rest = copy_range(cs.as_slice(), 0, cs.len() - n);
    assert(rest@ =~= s@.take(s@.len() - suffix@.len()));
    Some(string_of(rest.as_slice()))
}

/// The text after the last `sep`, or all of it when there is none, as
/// `rsplit(sep).next()` yields it.
pub open spec fn last_segment_seq(s: Seq<char>, sep: char) -> Seq<char>
    decreases s.len(),
{
    if s.len() == 0 {
        s
    } else if s.last() == sep {
        Seq::empty()
    } else {
        last_segment_seq(s.drop_last(), sep).push(s.last())
    }
}

/// The last segment of a text that ends in a separator-free tail after a separator is
/// that tail.
pub proof fn lemma_last_segment_after(x: Seq<char>, n: Seq<char>, sep: char)
    requires
        !n.contains(sep),
    ensures
        last_segment_seq(x + seq![sep] + n, sep) == n,
    decreases n.len(),
{
    let s = x + seq![sep] + n;
    if n.len() == 0 {
        assert(s =~= x.push(sep));
    } else {
        assert(s.drop_last() =~= x + seq![sep] + n.drop_last());
        assert forall|k: int| 0 <= k < n.drop_last().len() implies n.drop_last()[k] != sep by {
            assert(n.drop_last()[k] == n[k]);
        }
        lemma_last_segment_after(x, n.drop_last(), sep);
        assert(s.last() == n.last());
        assert(n.drop_last().push(n.last()) =~= n);
    }
}

/// The text after the last `sep`, or all of it when there is none.
pub fn last_segment(s: &str, sep: char) -> (r: String)
    ensures
        r@ == last_segment_seq(s@, sep),
{
    let cs = chars_of(s);
    let mut start: usize = cs.len();
    assert(s@.take(start as int) =~= s@);
    assert(s@.skip(start as int) =~= Seq::<char>::empty());
    assert(s@ + Seq::<char>::empty() =~= s@);
    while start > 0 && cs[start - 1] != sep
        invariant
            start <= cs@.len(),
            last_segment_seq(s@, sep) == last_segment_seq(s@.take(start as int), sep) + s@.skip(start as int),
            cs@ == s@,
        decreases start,
    {
        proof {
            let t = s@.take(start as int);
            assert(t.drop_last() =~= s@.take(start - 1));
            assert(t.last() == s@[start - 1]);
            assert(last_segment_seq(t, sep) == last_segment_seq(s@.take(start - 1), sep).push(s@[start - 1]));
            assert(last_segment_seq(s@.take(start - 1), sep).push(s@[start - 1]) + s@.skip(start as int)
                =~= last_segment_seq(s@.take(start - 1), sep) + s@.skip(start - 1));
        }
        start = start - 1;
    }
    proof {
        let t = s@.take(start as int);
        if start > 0 {
            assert(t.last() == s@[start - 1]);
            assert(last_segment_seq(t, sep) == Seq::<char>::empty());
        } else {
            assert(t =~= Seq::<char>::empty());
        }
        assert(last_segment_seq(s@, sep) =~= s@.skip(start as int));
    }
    assert(cs@.subrange(start as int, cs@.len() as int) =~= s@.skip(start as int));
    let r = copy_range(cs.as_slice(), start, cs.len());
    string_of(r.as_slice())
}

} // verus!
