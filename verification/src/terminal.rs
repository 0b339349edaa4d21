//! Text made safe to show on a terminal: control characters escaped the way
//! `char::escape_default` writes them, so that record content cannot drive the terminal.

use crate::rendering::{char_is_control, is_control};
use crate::text::{chars_of, push_char, push_str};
use vstd::prelude::*;

verus! {

/// The lower-case hexadecimal digit of a value below sixteen.
pub open spec fn hex_digit(d: nat) -> char {
    if d < 10 {
        (('0' as u32) + d) as char
    } else {
        (('a' as u32) + (d - 10)) as char
    }
}

/// The lower-case hexadecimal digits of a number, without leading zeros.
pub open spec fn hex(n: nat) -> Seq<char>
    decreases n,
{
    if n < 16 {
        seq![hex_digit(n)]
    } else {
        hex(n / 16).push(hex_digit(n % 16))
    }
}

/// `char::escape_default` of a control character.
pub open spec fn escape_control(c: char) -> Seq<char> {
    if c == '\t' {
        seq!['\\', 't']
    } else if c == '\r' {
        seq!['\\', 'r']
    } else if c == '\n' {
        seq!['\\', 'n']
    } else {
        seq!['\\', 'u', '{'] + hex(c as nat) + seq!['}']
    }
}

fn hex_char(d: u32) -> (r: char)
    requires
        d < 16,
    ensures
        r == hex_digit(d as nat),
{
    let digits: [char; 16] = ['0', '1', '2', '3', '4', '5', '6', '7', '8', '9', 'a', 'b', 'c', 'd', 'e', 'f'];
    let r = digits[d as usize];
    proof {
        if d < 10 {
            assert(r == (('0' as u32) + d) as char) by {
                assert(digits@[d as int] == r);
            }
        }
    }
    r
}

fn push_hex(out: &mut String, n: u32)
    ensures
        final(out)@ == old(out)@ + hex(n as nat),
    decreases n,
{
    if n < 16 {
        push_char(out, hex_char(n));
        assert(hex(n as nat) =~= seq![hex_digit(n as nat)]);
    } else {
        push_hex(out, n / 16);
        push_char(out, hex_char(n % 16));
        assert(old(out)@ + hex(n as nat) =~= old(out)@ + hex((n / 16) as nat) + seq![hex_digit((n % 16) as nat)]);
    }
}

fn push_escaped(out: &mut String, c: char)
    ensures
        final(out)@ == old(out)@ + escape_control(c),
{
    if c == '\t' {
        push_char(out, '\\');
        push_char(out, 't');
    } else if c == '\r' {
        push_char(out, '\\');
        push_char(out, 'r');
    } else if c == '\n' {
        push_char(out, '\\');
        push_char(out, 'n');
    } else {
        push_char(out, '\\');
        push_char(out, 'u');
        push_char(out, '{');
        push_hex(out, c as u32);
        push_char(out, '}');
    }
    assert(final(out)@ =~= old(out)@ + escape_control(c));
}

/// A text on one line with its control characters escaped.
pub open spec fn inline_text(s: Seq<char>) -> Seq<char>
    decreases s.len(),
{
    if s.len() == 0 {
        Seq::empty()
    } else {
        inline_text(s.drop_last()) + if is_control(s.last()) {
            escape_control(s.last())
        } else {
            seq![s.last()]
        }
    }
}

/// Escapes the control characters of a text.
pub fn safe_inline(text: &str) -> (r: String)
    ensures
        r@ == inline_text(text@),
{
    let cs = chars_of(text);
    let mut out = String::new();
    let mut i: usize = 0;
    assert(cs@.take(0) =~= Seq::<char>::empty());
    while i < cs.len()
        invariant
            cs@ == text@,
            i <= cs@.len(),
            out@ == inline_text(cs@.take(i as int)),
        decreases cs.len() - i,
    {
        let c = cs[i];
        assert(cs@.take(i + 1).drop_last() =~= cs@.take(i as int));
        if char_is_control(c) {
            push_escaped(&mut out, c);
        } else {
            push_char(&mut out, c);
            assert(out@ =~= inline_text(cs@.take(i as int)) + seq![c]);
        }
        i = i + 1;
    }
    assert(cs@.take(i as int) =~= cs@);
    out
}

/// What one character of a multi-line text becomes: a line feed stays, a tab
/// becomes four spaces, a carriage return before a line feed goes, and other
/// control characters are escaped.
pub open spec fn multiline_char(c: char, next: Option<char>) -> Seq<char> {
    if c == '\r' && next == Some('\n') {
        Seq::empty()
    } else if c == '\n' {
        seq!['\n']
    } else if c == '\t' {
        seq![' ', ' ', ' ', ' ']
    } else if is_control(c) {
        escape_control(c)
    } else {
        seq![c]
    }
}

/// The first `n` characters of a text made safe for several lines.
pub open spec fn multiline_text(s: Seq<char>, n: int) -> Seq<char>
    decreases n,
{
    if n <= 0 {
        Seq::empty()
    } else {
        multiline_text(s, n - 1) + multiline_char(
            s[n - 1],
            if n < s.len() {
                Some(s[n])
            } else {
                None
            },
        )
    }
}

/// A text made safe for several lines, cut after `limit` characters; whether it was cut.
pub fn safe_multiline(text: &str, limit: usize) -> (r: (String, bool))
    ensures
        r.1 == (text@.len() > limit),
        r.0@ == multiline_text(
            text@,
            if text@.len() > limit {
                limit as int
            } else {
                text@.len() as int
            },
        ),
{
    let cs = chars_of(text);
    let mut out = String::new();
    let mut i: usize = 0;
    while i < cs.len()
        invariant
            cs@ == text@,
            i <= cs@.len(),
            i <= limit,
            out@ == multiline_text(cs@, i as int),
        decreases cs.len() - i,
    {
        if i == limit {
            return (out, true);
        }
        let c = cs[i];
        let next_is_feed = i + 1 < cs.len() && cs[i + 1] == '\n';
        if c == '\r' && next_is_feed {
        } else if c == '\n' {
            push_char(&mut out, '\n');
        } else if c == '\t' {
            push_str(&mut out, "    ");
            proof {
                reveal_strlit("    ");
                assert("    "@ =~= seq![' ', ' ', ' ', ' ']);
            }
        } else if char_is_control(c) {
            push_escaped(&mut out, c);
        } else {
            push_char(&mut out, c);
        }
        proof {
            let next = if i + 1 < cs@.len() {
                Some(cs@[i + 1])
            } else {
                None
            };
            assert(next_is_feed == (next == Some('\n')));
            assert(out@ =~= multiline_text(cs@, i as int) + multiline_char(c, next));
        }
        i = i + 1;
    }
    (out, false)
}


proof fn lemma_hex_is_plain(n: nat)
    ensures
        forall|i: int| 0 <= i < hex(n).len() ==> !is_control(#[trigger] hex(n)[i]),
    decreases n,
{
    if n >= 16 {
        lemma_hex_is_plain(n / 16);
    }
    assert forall|i: int| 0 <= i < hex(n).len() implies !is_control(#[trigger] hex(n)[i]) by {
        if n < 16 {
            assert(hex(n)[i] == hex_digit(n));
        } else if i == hex(n).len() - 1 {
            assert(hex(n)[i] == hex_digit(n % 16));
        } else {
            assert(hex(n)[i] == hex(n / 16)[i]);
        }
    }
}

proof fn lemma_escape_is_plain(c: char)
    ensures
        forall|i: int| 0 <= i < escape_control(c).len() ==> !is_control(#[trigger] escape_control(c)[i]),
{
    lemma_hex_is_plain(c as nat);
    let e = escape_control(c);
    assert forall|i: int| 0 <= i < e.len() implies !is_control(#[trigger] e[i]) by {
        if c != '\t' && c != '\r' && c != '\n' {
            let h = hex(c as nat);
            let pre = seq!['\\', 'u', '{'];
            assert(e == pre + h + seq!['}']);
            if i < 3 {
                assert(e[i] == pre[i]);
            } else if i < 3 + h.len() {
                assert(e[i] == h[i - 3]);
            } else {
                assert(e[i] == '}');
            }
        }
    }
}

/// A text made safe for one line holds no control character at all.
pub proof fn law_inline_text_has_no_controls(s: Seq<char>)
    ensures
        forall|i: int| 0 <= i < inline_text(s).len() ==> !is_control(#[trigger] inline_text(s)[i]),
    decreases s.len(),
{
    if s.len() > 0 {
        law_inline_text_has_no_controls(s.drop_last());
        lemma_escape_is_plain(s.last());
        let prev = inline_text(s.drop_last());
        let tail = if is_control(s.last()) {
            escape_control(s.last())
        } else {
            seq![s.last()]
        };
        assert(inline_text(s) == prev + tail);
        assert forall|i: int| 0 <= i < inline_text(s).len() implies !is_control(#[trigger] inline_text(s)[i]) by {
            if i < prev.len() {
                assert(inline_text(s)[i] == prev[i]);
            } else {
                assert(inline_text(s)[i] == tail[i - prev.len()]);
            }
        }
    }
}

/// A text made safe for several lines holds no control character but line feeds.
pub proof fn law_multiline_text_has_only_line_feeds(s: Seq<char>, n: int)
    ensures
        forall|i: int|
            0 <= i < multiline_text(s, n).len() ==> #[trigger] multiline_text(s, n)[i] == '\n' || !is_control(
                multiline_text(s, n)[i],
            ),
    decreases n,
{
    if n > 0 {
        law_multiline_text_has_only_line_feeds(s, n - 1);
        let c = s[n - 1];
        lemma_escape_is_plain(c);
        let prev = multiline_text(s, n - 1);
        let tail = multiline_char(
            c,
            if n < s.len() {
                Some(s[n])
            } else {
                None
            },
        );
        assert(multiline_text(s, n) == prev + tail);
        assert forall|i: int| 0 <= i < multiline_text(s, n).len() implies #[trigger] multiline_text(s, n)[i] == '\n'
            || !is_control(multiline_text(s, n)[i]) by {
            if i < prev.len() {
                assert(multiline_text(s, n)[i] == prev[i]);
            } else {
                assert(multiline_text(s, n)[i] == tail[i - prev.len()]);
            }
        }
    }
}

} // verus!
