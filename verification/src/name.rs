//! Names as the server stores them (`NameData`: a fixed buffer holding a
//! C string), and their printed form.

use vstd::prelude::*;
use vstd::string::StringExecFns;

verus! {

/// The size of a name buffer, terminator included.
pub const NAMEDATALEN: usize = 64;

/// A name buffer: a C string and whatever follows its terminator.
pub struct NameData {
    pub data: [u8; 64],
}

/// The C string at the start of `s`: its bytes up to the first zero.
pub open spec fn c_string(s: Seq<u8>) -> Seq<u8>
    decreases s.len(),
{
    if s.len() == 0 || s[0] == 0 {
        Seq::empty()
    } else {
        seq![s[0]] + c_string(s.drop_first())
    }
}

/// The lower-case hexadecimal digit for `d`, which is below sixteen.
pub open spec fn hex_char(d: nat) -> char {
    if d < 10 {
        (48 + d) as char
    } else {
        (87 + d) as char
    }
}

/// How `u8::escape_ascii` writes a byte: tab, carriage return and line
/// feed as `\t`, `\r`, `\n`; the single quote, double quote and backslash
/// preceded by a backslash; the other printable ASCII bytes as
/// themselves; every other byte as `\x` and two lower-case hex digits.
pub open spec fn ascii_escape(b: u8) -> Seq<char> {
    if b == 9 {
        seq!['\\', 't']
    } else if b == 13 {
        seq!['\\', 'r']
    } else if b == 10 {
        seq!['\\', 'n']
    } else if b == 39 {
        seq!['\\', '\'']
    } else if b == 34 {
        seq!['\\', '"']
    } else if b == 92 {
        seq!['\\', '\\']
    } else if 32 <= b <= 126 {
        seq![b as char]
    } else {
        seq!['\\', 'x', hex_char(b as nat / 16), hex_char(b as nat % 16)]
    }
}

/// The escaped form of every byte of `s`, in order.
pub open spec fn ascii_escape_all(s: Seq<u8>) -> Seq<char>
    decreases s.len(),
{
    if s.len() == 0 {
        Seq::empty()
    } else {
        ascii_escape(s[0]) + ascii_escape_all(s.drop_first())
    }
}

/// Calls `<[u8]>::escape_ascii` (core) and collects what it yields into a
/// string. Claimed of it, as its documentation says: each byte is
/// escaped as `ascii::escape_default` does (see `ascii_escape`), in order.
#[verifier::external_body]
fn escape_ascii_string(bytes: &[u8]) -> (res: String)
    ensures
        res@ == ascii_escape_all(bytes@),
{
    format!("{}", bytes.escape_ascii())
}

/// The printed form of a name: its C string, escaped, between double
/// quotes (as a C string's debug form prints).
pub open spec fn name_debug(data: Seq<u8>) -> Seq<char> {
    seq!['"'] + ascii_escape_all(c_string(data)) + seq!['"']
}

/// The buffer holds a terminator.
pub open spec fn has_nul(s: Seq<u8>) -> bool {
    exists|i: int| 0 <= i < s.len() && s[i] == 0u8
}

/// The C string at the start of `data`, up to `i`, then from `i` on.
proof fn lemma_c_string_split(s: Seq<u8>, i: int)
    requires
        0 <= i <= s.len(),
        forall|j: int| 0 <= j < i ==> s[j] != 0u8,
    ensures
        c_string(s) == s.take(i) + c_string(s.skip(i)),
    decreases i,
{
    if i == 0 {
        assert(s.take(0) =~= Seq::<u8>::empty());
        assert(s.skip(0) =~= s);
    } else {
        lemma_c_string_split(s.drop_first(), i - 1);
        assert(s.drop_first().take(i - 1) =~= s.take(i).drop_first());
        assert(s.drop_first().skip(i - 1) =~= s.skip(i));
        assert(seq![s[0]] + s.take(i).drop_first() =~= s.take(i));
    }
}

/// Prints a name: its C string, escaped, between double quotes.
pub fn fmt_name(name: NameData) -> (s: String)
    requires
        has_nul(name.data@),
    ensures
        s@ == name_debug(name.data@),
{
    let ghost data = name.data@;
    let mut bytes: Vec<u8> = Vec::new();
    let mut i: usize = 0;
    while i < NAMEDATALEN && name.data[i] != 0
        invariant
            data == name.data@,
            data.len() == NAMEDATALEN,
            0 <= i <= NAMEDATALEN,
            bytes@ == data.take(i as int),
            forall|j: int| 0 <= j < i ==> data[j] != 0u8,
        decreases NAMEDATALEN - i,
    {
        bytes.push(name.data[i]);
        assert(data.take(i + 1) =~= data.take(i as int).push(data[i as int]));
        i = i + 1;
    }
    proof {
        lemma_c_string_split(data, i as int);
        if i < NAMEDATALEN {
            assert(data.skip(i as int)[0] == 0u8);
            assert(c_string(data.skip(i as int)) =~= Seq::<u8>::empty());
        } else {
            let k = choose|k: int| 0 <= k < data.len() && data[k] == 0u8;
            assert(data[k] != 0u8);
        }
        assert(c_string(data) =~= bytes@);
        reveal_strlit("\"");
    }
    let escaped = escape_ascii_string(bytes.as_slice());
    let mut s = String::from_str("\"");
    s.append(escaped.as_str());
    s.append("\"");
    s
}

/// The C string at the start of a buffer is the part before its first
/// zero byte: a prefix of the buffer holding no zero byte, followed by a
/// zero byte unless it is the whole buffer.
pub proof fn lemma_c_string_prefix(s: Seq<u8>)
    ensures
        c_string(s).len() <= s.len(),
        c_string(s) == s.take(c_string(s).len() as int),
        forall|i: int| 0 <= i < c_string(s).len() ==> #[trigger] c_string(s)[i] != 0u8,
        c_string(s).len() < s.len() ==> s[c_string(s).len() as int] == 0u8,
    decreases s.len(),
{
    if s.len() > 0 && s[0] != 0 {
        let r = s.drop_first();
        lemma_c_string_prefix(r);
        let c = c_string(s);
        assert(c == seq![s[0]] + c_string(r));
        assert(c =~= s.take(c.len() as int));
        assert forall|i: int| 0 <= i < c.len() implies #[trigger] c[i] != 0u8 by {
            if i > 0 {
                assert(c[i] == c_string(r)[i - 1]);
            }
        }
        if c.len() < s.len() {
            assert(s[c.len() as int] == r[c_string(r).len() as int]);
        }
    } else {
        assert(c_string(s) =~= s.take(0));
    }
}

} // verus!
