//! JSON string literals, written byte by byte the way the server's
//! `escape_json` writes them into an output buffer.

use vstd::prelude::*;
use crate::text::{no_nul, lit, lemma_lit_ascii};

verus! {

/// `"`
pub const QUOTE: u8 = 34;
/// `\`
pub const BACKSLASH: u8 = 92;
/// The lowest byte that is written as itself: the space.
pub const SPACE: u8 = 32;

/// The lower-case hexadecimal digit for `d`, which is below sixteen.
pub open spec fn hex_digit(d: nat) -> u8 {
    if d < 10 {
        (48 + d) as u8
    } else {
        (87 + d) as u8
    }
}

/// What one byte of a string becomes inside a JSON string literal:
/// backspace, form feed, newline, carriage return and tab get their short
/// escapes, `"` and `\` are preceded by a backslash, every other byte
/// below the space becomes `\u00XX` with lower-case hex digits, and every
/// other byte stands for itself.
pub open spec fn escape_byte(b: u8) -> Seq<u8> {
    if b == 8 {
        seq![BACKSLASH, 98u8]
    } else if b == 12 {
        seq![BACKSLASH, 102u8]
    } else if b == 10 {
        seq![BACKSLASH, 110u8]
    } else if b == 13 {
        seq![BACKSLASH, 114u8]
    } else if b == 9 {
        seq![BACKSLASH, 116u8]
    } else if b == QUOTE {
        seq![BACKSLASH, QUOTE]
    } else if b == BACKSLASH {
        seq![BACKSLASH, BACKSLASH]
    } else if b < SPACE {
        seq![BACKSLASH, 117u8, 48u8, 48u8, hex_digit(b as nat / 16), hex_digit(b as nat % 16)]
    } else {
        seq![b]
    }
}

/// The escaped form of every byte of `s`, in order.
pub open spec fn escape_body(s: Seq<u8>) -> Seq<u8>
    decreases s.len(),
{
    if s.len() == 0 {
        Seq::empty()
    } else {
        escape_byte(s[0]) + escape_body(s.drop_first())
    }
}

/// The JSON string literal for `s`: the escaped bytes between quotes.
#[verifier::opaque]
pub open spec fn json_string(s: Seq<u8>) -> Seq<u8> {
    seq![QUOTE] + escape_body(s) + seq![QUOTE]
}

/// Escaping distributes over concatenation.
pub proof fn lemma_escape_body_append(a: Seq<u8>, b: Seq<u8>)
    ensures
        escape_body(a + b) == escape_body(a) + escape_body(b),
    decreases a.len(),
{
    if a.len() == 0 {
        assert(a + b =~= b);
        assert(escape_body(a) =~= Seq::<u8>::empty());
        assert(escape_body(a) + escape_body(b) =~= escape_body(b));
    } else {
        assert((a + b).drop_first() =~= a.drop_first() + b);
        lemma_escape_body_append(a.drop_first(), b);
        assert((a + b)[0] == a[0]);
        assert(escape_body(a + b) =~= escape_byte(a[0]) + escape_body(a.drop_first() + b));
        assert(escape_body(a) + escape_body(b) =~= escape_byte(a[0]) + (escape_body(
            a.drop_first(),
        ) + escape_body(b)));
    }
}

/// The escaped form of `s` up to and including its byte at `i`.
proof fn lemma_escape_body_take_step(s: Seq<u8>, i: int)
    requires
        0 <= i < s.len(),
    ensures
        escape_body(s.take(i + 1)) == escape_body(s.take(i)) + escape_byte(s[i]),
{
    assert(s.take(i + 1) =~= s.take(i) + seq![s[i]]);
    lemma_escape_body_append(s.take(i), seq![s[i]]);
    let one = seq![s[i]];
    assert(one.drop_first() =~= Seq::<u8>::empty());
    assert(escape_body(one.drop_first()) =~= Seq::<u8>::empty());
    assert(escape_body(one) =~= escape_byte(s[i]));
}

/// The lower-case hexadecimal digit for `d`, which is below sixteen.
fn hex_digit_exec(d: u8) -> (r: u8)
    requires
        d < 16,
    ensures
        r == hex_digit(d as nat),
{
    if d < 10 {
        48 + d
    } else {
        87 + d
    }
}

/// Appends the escaped form of one byte to `out`.
pub fn append_escaped_byte(out: &mut Vec<u8>, b: u8)
    ensures
        final(out)@ == old(out)@ + escape_byte(b),
{
    let ghost before = out@;
    if b == 8 {
        out.push(BACKSLASH);
        out.push(98);
    } else if b == 12 {
        out.push(BACKSLASH);
        out.push(102);
    } else if b == 10 {
        out.push(BACKSLASH);
        out.push(110);
    } else if b == 13 {
        out.push(BACKSLASH);
        out.push(114);
    } else if b == 9 {
        out.push(BACKSLASH);
        out.push(116);
    } else if b == QUOTE {
        out.push(BACKSLASH);
        out.push(QUOTE);
    } else if b == BACKSLASH {
        out.push(BACKSLASH);
        out.push(BACKSLASH);
    } else if b < SPACE {
        out.push(BACKSLASH);
        out.push(117);
        out.push(48);
        out.push(48);
        let hi = hex_digit_exec(b / 16);
        let lo = hex_digit_exec(b % 16);
        out.push(hi);
        out.push(lo);
    } else {
        out.push(b);
    }
    assert(out@ =~= before + escape_byte(b));
}

/// Appends `s` to `out` as a JSON string literal (the server's
/// `escape_json`). `s` holds the contents of a C string.
pub fn append_json(out: &mut Vec<u8>, s: &[u8])
    requires
        no_nul(s@),
    ensures
        final(out)@ == old(out)@ + json_string(s@),
{
    let ghost before = out@;
    out.push(QUOTE);
    let mut i: usize = 0;
    while i < s.len()
        invariant
            0 <= i <= s.len(),
            out@ == before + seq![QUOTE] + escape_body(s@.take(i as int)),
        decreases s.len() - i,
    {
        proof {
            lemma_escape_body_take_step(s@, i as int);
        }
        append_escaped_byte(out, s[i]);
        i = i + 1;
    }
    assert(s@.take(s.len() as int) =~= s@);
    out.push(QUOTE);
    reveal(json_string);
    assert(out@ =~= before + json_string(s@));
}


/// Every byte of `s` is at least the space: no control byte, and so no
/// line break.
pub open spec fn printable(s: Seq<u8>) -> bool {
    forall|i: int| 0 <= i < s.len() ==> s[i] >= SPACE
}

proof fn lemma_escape_byte_printable(b: u8)
    ensures
        printable(escape_byte(b)),
{
    if b < SPACE && b != 8 && b != 12 && b != 10 && b != 13 && b != 9 {
        assert(b as nat / 16 < 16);
        assert(b as nat % 16 < 16);
    }
}

proof fn lemma_escape_body_printable(s: Seq<u8>)
    ensures
        printable(escape_body(s)),
    decreases s.len(),
{
    if s.len() > 0 {
        lemma_escape_byte_printable(s[0]);
        lemma_escape_body_printable(s.drop_first());
        let a = escape_byte(s[0]);
        let b = escape_body(s.drop_first());
        assert forall|i: int| 0 <= i < (a + b).len() implies (a + b)[i] >= SPACE by {
            if i < a.len() {
                assert((a + b)[i] == a[i]);
            } else {
                assert((a + b)[i] == b[i - a.len()]);
            }
        }
    }
}

/// A JSON string literal never holds a control byte: whatever bytes a
/// name or message carries, its literal stays on one line.
pub proof fn lemma_json_string_printable(s: Seq<u8>)
    ensures
        printable(json_string(s)),
{
    reveal(json_string);
    lemma_escape_body_printable(s);
    let body = escape_body(s);
    let t = json_string(s);
    assert forall|i: int| 0 <= i < t.len() implies t[i] >= SPACE by {
        if i == 0 {
        } else if i < t.len() - 1 {
            assert(t[i] == body[i - 1]);
        } else {
        }
    }
}

/// The value of a hexadecimal digit, either case.
pub open spec fn hex_value(c: u8) -> Option<nat> {
    if 48 <= c <= 57 {
        Some((c - 48) as nat)
    } else if 97 <= c <= 102 {
        Some((c - 87) as nat)
    } else if 65 <= c <= 70 {
        Some((c - 55) as nat)
    } else {
        None
    }
}

/// The first character of the body of a JSON string literal, read as a
/// byte, with the number of bytes it takes up; `None` where the body does
/// not start with a character that stands for a single byte (an unescaped
/// quote or control byte, an unknown escape, or a `\u` escape of a code
/// point past ASCII).
pub open spec fn read_char(t: Seq<u8>) -> Option<(u8, nat)> {
    if t.len() == 0 {
        None
    } else if t[0] == BACKSLASH {
        if t.len() < 2 {
            None
        } else if t[1] == 98 {
            Some((8u8, 2nat))
        } else if t[1] == 102 {
            Some((12u8, 2nat))
        } else if t[1] == 110 {
            Some((10u8, 2nat))
        } else if t[1] == 114 {
            Some((13u8, 2nat))
        } else if t[1] == 116 {
            Some((9u8, 2nat))
        } else if t[1] == QUOTE {
            Some((QUOTE, 2nat))
        } else if t[1] == BACKSLASH {
            Some((BACKSLASH, 2nat))
        } else if t[1] == 47 {
            Some((47u8, 2nat))
        } else if t[1] == 117 && t.len() >= 6 && hex_value(t[2]) == Some(0nat) && hex_value(t[3])
            == Some(0nat) && hex_value(t[4]) is Some && hex_value(t[5]) is Some
            && hex_value(t[4]).unwrap() < 8 {
            Some(((hex_value(t[4]).unwrap() * 16 + hex_value(t[5]).unwrap()) as u8, 6nat))
        } else {
            None
        }
    } else if t[0] == QUOTE || t[0] < SPACE {
        None
    } else {
        Some((t[0], 1nat))
    }
}

/// Reads the body of a JSON string literal back into the bytes it stands
/// for; `None` where some character of it does not stand for one byte.
pub open spec fn unescape_body(t: Seq<u8>) -> Option<Seq<u8>>
    decreases t.len(),
{
    if t.len() == 0 {
        Some(Seq::empty())
    } else {
        match read_char(t) {
            Some((b, n)) => if 1 <= n <= t.len() {
                match unescape_body(t.skip(n as int)) {
                    Some(rest) => Some(seq![b] + rest),
                    None => None,
                }
            } else {
                None
            },
            None => None,
        }
    }
}

proof fn lemma_read_escaped_byte(b: u8, r: Seq<u8>)
    ensures
        read_char(escape_byte(b) + r) == Some((b, escape_byte(b).len())),
        (escape_byte(b) + r).skip(escape_byte(b).len() as int) == r,
        1 <= escape_byte(b).len(),
{
    let e = escape_byte(b);
    let t = e + r;
    assert(t.skip(e.len() as int) =~= r);
    assert(forall|i: int| 0 <= i < e.len() ==> t[i] == e[i]);
    if b < SPACE && b != 8 && b != 12 && b != 10 && b != 13 && b != 9 {
        let hi = b as nat / 16;
        let lo = b as nat % 16;
        assert(hi < 2);
        assert(lo < 16);
        assert(t[4] == hex_digit(hi));
        assert(t[5] == hex_digit(lo));
        assert(hex_value(hex_digit(hi)) == Some(hi));
        assert(hex_value(hex_digit(lo)) == Some(lo));
        assert(hex_value(t[2]) == Some(0nat));
        assert(hex_value(t[3]) == Some(0nat));
        assert(hi * 16 + lo == b as nat);
    }
}

/// Reading back what escaping wrote gives the original bytes.
pub proof fn lemma_unescape_escape_body(s: Seq<u8>)
    ensures
        unescape_body(escape_body(s)) == Some(s),
    decreases s.len(),
{
    if s.len() == 0 {
        assert(escape_body(s) =~= Seq::<u8>::empty());
    } else {
        let e = escape_byte(s[0]);
        let r = escape_body(s.drop_first());
        lemma_read_escaped_byte(s[0], r);
        lemma_unescape_escape_body(s.drop_first());
        assert(escape_body(s) == e + r);
        assert(seq![s[0]] + s.drop_first() =~= s);
    }
}

/// A JSON string literal determines the bytes it was written from: two
/// different names or messages never print the same.
pub proof fn lemma_json_string_injective(a: Seq<u8>, b: Seq<u8>)
    requires
        json_string(a) == json_string(b),
    ensures
        a == b,
{
    reveal(json_string);
    let ta = json_string(a);
    let tb = json_string(b);
    assert(ta.subrange(1, ta.len() - 1) =~= escape_body(a));
    assert(tb.subrange(1, tb.len() - 1) =~= escape_body(b));
    lemma_unescape_escape_body(a);
    lemma_unescape_escape_body(b);
}

/// Reads the characters of the body of a JSON string literal up to its
/// closing quote: the bytes they stand for, and where the closing quote
/// stands; `None` where some character does not stand for one byte or
/// there is no closing quote.
pub open spec fn read_chars(t: Seq<u8>) -> Option<(Seq<u8>, nat)>
    decreases t.len(),
{
    if t.len() == 0 {
        None
    } else if t[0] == QUOTE {
        Some((Seq::empty(), 0nat))
    } else {
        match read_char(t) {
            Some((b, n)) => if 1 <= n <= t.len() {
                match read_chars(t.skip(n as int)) {
                    Some((r, k)) => Some((seq![b] + r, k + n)),
                    None => None,
                }
            } else {
                None
            },
            None => None,
        }
    }
}

/// Reads a JSON string literal at the start of `t`: the bytes it stands
/// for, and how many bytes it takes up, both quotes included.
pub open spec fn read_string(t: Seq<u8>) -> Option<(Seq<u8>, nat)> {
    if t.len() > 0 && t[0] == QUOTE {
        match read_chars(t.drop_first()) {
            Some((s, k)) => if k + 2 <= t.len() {
                Some((s, k + 2))
            } else {
                None
            },
            None => None,
        }
    } else {
        None
    }
}

proof fn lemma_read_chars_escape_body(s: Seq<u8>, rest: Seq<u8>)
    ensures
        read_chars(escape_body(s) + seq![QUOTE] + rest) == Some((s, escape_body(s).len())),
        read_chars(escape_body(s) + seq![QUOTE] + rest).unwrap().1 < (escape_body(s) + seq![
            QUOTE,
        ] + rest).len(),
    decreases s.len(),
{
    let t = escape_body(s) + seq![QUOTE] + rest;
    if s.len() == 0 {
        assert(escape_body(s) =~= Seq::<u8>::empty());
        assert(t[0] == QUOTE);
    } else {
        let e = escape_byte(s[0]);
        let r = escape_body(s.drop_first());
        let tail = r + seq![QUOTE] + rest;
        assert(escape_body(s) == e + r);
        assert(t =~= e + tail);
        lemma_read_escaped_byte(s[0], tail);
        assert(t[0] == e[0]);
        assert(e[0] != QUOTE);
        lemma_read_chars_escape_body(s.drop_first(), rest);
        assert(t.skip(e.len() as int) =~= tail);
        assert(seq![s[0]] + s.drop_first() =~= s);
    }
}

/// Reading a JSON string literal back, whatever follows it, gives the
/// bytes it was written from and its own length.
pub proof fn lemma_read_json_string(s: Seq<u8>, rest: Seq<u8>)
    ensures
        read_string(json_string(s) + rest) == Some((s, json_string(s).len())),
{
    reveal(json_string);
    let t = json_string(s) + rest;
    lemma_read_chars_escape_body(s, rest);
    assert(t.drop_first() =~= escape_body(s) + seq![QUOTE] + rest);
}

/// A byte that stands for itself in a JSON string literal.
pub open spec fn plain_byte(b: u8) -> bool {
    SPACE <= b <= 126 && b != QUOTE && b != BACKSLASH
}

/// Bytes that all stand for themselves are written between quotes as they
/// are.
pub proof fn lemma_json_plain(s: Seq<u8>)
    requires
        forall|i: int| 0 <= i < s.len() ==> plain_byte(#[trigger] s[i]),
    ensures
        json_string(s) == seq![QUOTE] + s + seq![QUOTE],
    decreases s.len(),
{
    lemma_escape_body_plain(s);
    reveal(json_string);
}

proof fn lemma_escape_body_plain(s: Seq<u8>)
    requires
        forall|i: int| 0 <= i < s.len() ==> plain_byte(#[trigger] s[i]),
    ensures
        escape_body(s) == s,
    decreases s.len(),
{
    if s.len() == 0 {
        assert(escape_body(s) =~= s);
    } else {
        assert(plain_byte(s[0]));
        lemma_escape_body_plain(s.drop_first());
        assert(escape_body(s) =~= s);
    }
}

/// A key written in printable ASCII without quotes or backslashes is
/// written between quotes as it is.
pub proof fn lemma_json_key(key: &str)
    requires
        forall|i: int|
            0 <= i < key@.len() ==> ' ' <= #[trigger] key@[i] <= '~' && key@[i] != '"' && key@[i]
                != '\\',
    ensures
        json_string(lit(key)) == seq![QUOTE] + lit(key) + seq![QUOTE],
{
    lemma_lit_ascii(key);
    assert forall|i: int| 0 <= i < lit(key).len() implies plain_byte(#[trigger] lit(key)[i]) by {
        assert(lit(key)[i] == key@[i] as u8);
    }
    lemma_json_plain(lit(key));
}

/// A lower-case hexadecimal digit.
pub open spec fn is_lower_hex(c: u8) -> bool {
    (48 <= c <= 57) || (97 <= c <= 102)
}

/// A control byte without a short escape is written as `\u00` and two
/// lower-case hex digits that denote it; the short escapes, `\"` and `\\`
/// take two bytes; every other byte is written as itself.
pub proof fn lemma_escape_byte_forms(b: u8)
    ensures
        b < SPACE && b != 8 && b != 9 && b != 10 && b != 12 && b != 13 ==> {
            let e = escape_byte(b);
            &&& e.len() == 6
            &&& e.take(4) == seq![BACKSLASH, 117u8, 48u8, 48u8]
            &&& is_lower_hex(e[4]) && is_lower_hex(e[5])
            &&& hex_value(e[4]).unwrap() * 16 + hex_value(e[5]).unwrap() == b
        },
        (b == 8 || b == 9 || b == 10 || b == 12 || b == 13 || b == QUOTE || b == BACKSLASH) ==> {
            &&& escape_byte(b).len() == 2
            &&& escape_byte(b)[0] == BACKSLASH
        },
        b >= SPACE && b != QUOTE && b != BACKSLASH ==> escape_byte(b) == seq![b],
{
    if b < SPACE && b != 8 && b != 9 && b != 10 && b != 12 && b != 13 {
        let e = escape_byte(b);
        let hi = b as nat / 16;
        let lo = b as nat % 16;
        assert(hi < 2);
        assert(e.take(4) =~= seq![BACKSLASH, 117u8, 48u8, 48u8]);
        assert(hex_value(hex_digit(hi)) == Some(hi));
        assert(hex_value(hex_digit(lo)) == Some(lo));
    }
}

} // verus!
