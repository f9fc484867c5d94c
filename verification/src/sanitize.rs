//! File-name fragments from untrusted text: every character outside
//! printable ASCII, and each quote and backslash, is written as an escape
//! sequence of printable ASCII characters.

use crate::text::{lemma_position_is, position};
use vstd::prelude::*;

verus! {

/// The lower-case hexadecimal digit of value `d`.
pub open spec fn hex_digit(d: int) -> char {
    if d < 10 {
        (0x30 + d) as char
    } else {
        (0x57 + d) as char
    }
}

/// `n` in lower-case hexadecimal, without leading zeros (one digit for zero).
pub open spec fn hex(n: int) -> Seq<char>
    decreases n,
{
    if n < 16 {
        seq![hex_digit(n)]
    } else {
        hex(n / 16).push(hex_digit(n % 16))
    }
}

/// Whether `c` is a printable ASCII character: a space, a letter, a digit or
/// a punctuation mark.
pub open spec fn is_printable(c: char) -> bool {
    0x20 <= c as u32 <= 0x7e
}

/// The escaped form of one character. A tab, a carriage return, a line feed,
/// the two quotes and the backslash are a backslash and one character; other
/// printable ASCII stands for itself; anything else is `\u{..}` around its
/// code point in hexadecimal.
pub open spec fn escape_char(c: char) -> Seq<char> {
    if c == '\t' {
        seq!['\\', 't']
    } else if c == '\r' {
        seq!['\\', 'r']
    } else if c == '\n' {
        seq!['\\', 'n']
    } else if c == '\'' {
        seq!['\\', '\'']
    } else if c == '"' {
        seq!['\\', '"']
    } else if c == '\\' {
        seq!['\\', '\\']
    } else if is_printable(c) {
        seq![c]
    } else {
        seq!['\\', 'u', '{'] + hex(c as int) + seq!['}']
    }
}

/// The escaped form of a text: the escaped forms of its characters, in order.
pub open spec fn escape(s: Seq<char>) -> Seq<char>
    decreases s.len(),
{
    if s.len() == 0 {
        Seq::empty()
    } else {
        escape(s.drop_last()) + escape_char(s.last())
    }
}

/// A hexadecimal digit is a decimal digit or one of the letters `a` to `f`.
pub proof fn lemma_hex_digit(d: int)
    requires
        0 <= d < 16,
    ensures
        0x30 <= hex_digit(d) as int <= 0x39 || 0x61 <= hex_digit(d) as int <= 0x66,
        0 <= d < 10 ==> hex_digit(d) as int == 0x30 + d,
        10 <= d < 16 ==> hex_digit(d) as int == 0x57 + d,
{
}

/// A number in hexadecimal has at least one character, and each is a
/// hexadecimal digit.
pub proof fn lemma_hex(n: int)
    requires
        0 <= n,
    ensures
        hex(n).len() >= 1,
        forall|i: int|
            0 <= i < hex(n).len() ==> 0x30 <= (#[trigger] hex(n)[i]) as int <= 0x39 || 0x61 <= hex(
                n,
            )[i] as int <= 0x66,
    decreases n,
{
    if n < 16 {
        lemma_hex_digit(n);
    } else {
        lemma_hex(n / 16);
        lemma_hex_digit(n % 16);
    }
}

/// The escaped form of a character is never empty, is printable throughout,
/// and holds a slash only where the character is one.
pub proof fn lemma_escape_char(c: char)
    ensures
        escape_char(c).len() >= 1,
        forall|i: int| 0 <= i < escape_char(c).len() ==> is_printable(#[trigger] escape_char(c)[i]),
        forall|i: int| 0 <= i < escape_char(c).len() && #[trigger] escape_char(c)[i] == '/' ==> c == '/',
{
    lemma_hex(c as int);
}

/// Escaped text is printable ASCII throughout.
pub proof fn lemma_escape_is_printable(s: Seq<char>)
    ensures
        forall|i: int| 0 <= i < escape(s).len() ==> is_printable(#[trigger] escape(s)[i]),
    decreases s.len(),
{
    if s.len() > 0 {
        let front = escape(s.drop_last());
        let tail = escape_char(s.last());
        lemma_escape_is_printable(s.drop_last());
        lemma_escape_char(s.last());
        assert forall|i: int| 0 <= i < escape(s).len() implies is_printable(
            #[trigger] escape(s)[i],
        ) by {
            if i < front.len() {
                assert(escape(s)[i] == front[i]);
            } else {
                assert(escape(s)[i] == tail[i - front.len()]);
            }
        }
    }
}

/// Escaping brings in no path separator: the escaped text holds a slash
/// exactly where the text itself holds one.
pub proof fn lemma_escape_adds_no_separator(s: Seq<char>)
    ensures
        escape(s).contains('/') <==> s.contains('/'),
    decreases s.len(),
{
    if s.len() > 0 {
        let front = s.drop_last();
        let tail = escape_char(s.last());
        lemma_escape_adds_no_separator(front);
        lemma_escape_char(s.last());
        if escape(s).contains('/') {
            let i = choose|i: int| 0 <= i < escape(s).len() && escape(s)[i] == '/';
            if i < escape(front).len() {
                assert(escape(front)[i] == '/');
                let k = choose|k: int| 0 <= k < front.len() && front[k] == '/';
                assert(s[k] == '/');
            } else {
                assert(tail[i - escape(front).len()] == '/');
                assert(s[s.len() - 1] == '/');
            }
        }
        if s.contains('/') {
            let k = choose|k: int| 0 <= k < s.len() && s[k] == '/';
            if k < front.len() {
                assert(front[k] == '/');
                let i = choose|i: int| 0 <= i < escape(front).len() && escape(front)[i] == '/';
                assert(escape(s)[i] == '/');
            } else {
                assert(tail =~= seq!['/']);
                assert(escape(s)[escape(front).len() as int] == '/');
            }
        }
    }
}

/// The value of a hexadecimal digit.
pub open spec fn digit_value(c: char) -> int {
    if c as int <= 0x39 {
        c as int - 0x30
    } else {
        c as int - 0x57
    }
}

/// The number that a sequence of hexadecimal digits stands for.
pub open spec fn hex_value(digits: Seq<char>) -> int
    decreases digits.len(),
{
    if digits.len() == 0 {
        0
    } else {
        16 * hex_value(digits.drop_last()) + digit_value(digits.last())
    }
}

/// The character that a backslash and `c` stand for.
pub open spec fn escaped_letter(c: char) -> char {
    if c == 't' {
        '\t'
    } else if c == 'r' {
        '\r'
    } else if c == 'n' {
        '\n'
    } else {
        c
    }
}

/// The text that an escaped text stands for: each escape sequence is read
/// back as its character, and every other character stands for itself.
pub open spec fn unescape(t: Seq<char>) -> Seq<char>
    decreases t.len(),
{
    if t.len() == 0 {
        Seq::empty()
    } else if t[0] != '\\' || t.len() < 2 {
        seq![t[0]] + unescape(t.drop_first())
    } else if t[1] != 'u' {
        seq![escaped_letter(t[1])] + unescape(t.subrange(2, t.len() as int))
    } else {
        let close = position(t, '}');
        if 3 <= close < t.len() {
            seq![hex_value(t.subrange(3, close)) as char] + unescape(
                t.subrange(close + 1, t.len() as int),
            )
        } else {
            seq![t[0]] + unescape(t.drop_first())
        }
    }
}

/// Reading a number's hexadecimal digits gives the number back.
pub proof fn lemma_hex_value(n: int)
    requires
        0 <= n,
    ensures
        hex_value(hex(n)) == n,
    decreases n,
{
    if n < 16 {
        lemma_hex_digit(n);
        assert(hex(n).drop_last() =~= Seq::<char>::empty());
        assert(hex_value(hex(n).drop_last()) == 0);
    } else {
        lemma_hex_value(n / 16);
        lemma_hex_digit(n % 16);
        assert(hex(n).drop_last() =~= hex(n / 16));
        assert(hex(n).last() == hex_digit(n % 16));
    }
}

/// An escaped character at the front of a text is read back as the character.
pub proof fn lemma_unescape_char(c: char, rest: Seq<char>)
    ensures
        unescape(escape_char(c) + rest) == seq![c] + unescape(rest),
{
    let t = escape_char(c) + rest;
    if c == '\t' || c == '\r' || c == '\n' || c == '\'' || c == '"' || c == '\\' {
        assert(t[0] == '\\');
        assert(t[1] == escape_char(c)[1]);
        assert(t.subrange(2, t.len() as int) =~= rest);
    } else if is_printable(c) {
        assert(t[0] == c);
        assert(t.drop_first() =~= rest);
    } else {
        let n = c as int;
        let digits = hex(n);
        lemma_hex(n);
        lemma_hex_value(n);
        let close = digits.len() as int + 3;
        assert(t[0] == '\\');
        assert(t[1] == 'u');
        assert(t[2] == '{');
        assert forall|j: int| 0 <= j < close implies t[j] != '}' by {
            if j >= 3 {
                assert(t[j] == digits[j - 3]);
            }
        }
        assert(t[close] == '}');
        lemma_position_is(t, '}', close);
        assert(t.subrange(3, close) =~= digits);
        assert(t.subrange(close + 1, t.len() as int) =~= rest);
        assert(n as char == c);
    }
}

/// The escaped form of a text is the escaped form of its first character,
/// then that of the rest.
pub proof fn lemma_escape_front(c: char, s: Seq<char>)
    ensures
        escape(seq![c] + s) == escape_char(c) + escape(s),
    decreases s.len(),
{
    let whole = seq![c] + s;
    if s.len() == 0 {
        assert(whole.drop_last() =~= Seq::<char>::empty());
        assert(escape(Seq::<char>::empty()) =~= Seq::<char>::empty());
        assert(whole.last() == c);
        assert(escape(whole) =~= escape_char(c));
        assert(escape_char(c) + escape(s) =~= escape_char(c));
    } else {
        lemma_escape_front(c, s.drop_last());
        assert(whole.drop_last() =~= seq![c] + s.drop_last());
        assert(whole.last() == s.last());
        assert((escape_char(c) + escape(s.drop_last())) + escape_char(s.last()) =~= escape_char(c)
            + (escape(s.drop_last()) + escape_char(s.last())));
    }
}

/// Escaping loses nothing: the escaped form of a text is read back as the
/// text, so escaping what was read back gives the same escaped form again.
pub proof fn lemma_escape_round_trip(s: Seq<char>)
    ensures
        unescape(escape(s)) == s,
        escape(unescape(escape(s))) == escape(s),
    decreases s.len(),
{
    if s.len() == 0 {
        assert(unescape(escape(s)) =~= s);
    } else {
        let rest = s.drop_first();
        assert(s =~= seq![s[0]] + rest);
        lemma_escape_front(s[0], rest);
        lemma_unescape_char(s[0], escape(rest));
        lemma_escape_round_trip(rest);
    }
}

/// Two texts with the same escaped form are the same text.
pub proof fn lemma_escape_is_injective(a: Seq<char>, b: Seq<char>)
    requires
        escape(a) == escape(b),
    ensures
        a == b,
{
    lemma_escape_round_trip(a);
    lemma_escape_round_trip(b);
}

fn hex_digit_of(d: u32) -> (r: char)
    requires
        d < 16,
    ensures
        r == hex_digit(d as int),
{
    let b: u8 = if d < 10 {
        0x30u8 + (d as u8)
    } else {
        0x57u8 + (d as u8)
    };
    b as char
}

fn push_hex(out: &mut String, n: u32)
    ensures
        final(out)@ == old(out)@ + hex(n as int),
    decreases n,
{
    if n >= 16 {
        push_hex(out, n / 16);
    }
    out.push(hex_digit_of(n % 16));
    assert(out@ =~= old(out)@ + hex(n as int));
}

fn push_escaped(out: &mut String, c: char)
    ensures
        final(out)@ == old(out)@ + escape_char(c),
{
    let n: u32 = c as u32;
    if c == '\t' {
        out.push('\\');
        out.push('t');
    } else if c == '\r' {
        out.push('\\');
        out.push('r');
    } else if c == '\n' {
        out.push('\\');
        out.push('n');
    } else if c == '\'' || c == '"' || c == '\\' {
        out.push('\\');
        out.push(c);
    } else if 0x20 <= n && n <= 0x7e {
        out.push(c);
    } else {
        out.push('\\');
        out.push('u');
        out.push('{');
        push_hex(out, n);
        out.push('}');
    }
    assert(out@ =~= old(out)@ + escape_char(c));
}

/// Makes `string` safe to stand in a file name: the result is its escaped
/// form.
pub fn escape_string(string: &str) -> (escaped: String)
    ensures
        escaped@ == escape(string@),
{
    let mut escaped = String::new();
    for c in it: string.chars()
        invariant
            it.seq() == string@,
            escaped@ == escape(it.seq().subrange(0, it.index() as int)),
    {
        let ghost done = it.seq().subrange(0, it.index() as int);
        let ghost next = it.seq().subrange(0, it.index() + 1);
        assert(next.drop_last() =~= done);
        push_escaped(&mut escaped, c);
    }
    assert(string@.subrange(0, string@.len() as int) =~= string@);
    escaped
}

} // verus!
