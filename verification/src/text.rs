//! Byte-level helpers: C-string contents, literal fragments and decimal
//! numbers, as the server's string buffers hold them.

use vstd::prelude::*;
use vstd::string::StringSliceAdditionalSpecFns;

verus! {

/// The contents of a C string: no byte of it is the terminator.
pub open spec fn no_nul(s: Seq<u8>) -> bool {
    forall|i: int| 0 <= i < s.len() ==> s[i] != 0u8
}

/// The bytes of a string literal as a buffer holds them.
pub open spec fn lit(s: &str) -> Seq<u8> {
    s.spec_bytes()
}

/// A literal written in printable ASCII is one byte per character, and
/// none of its bytes is the terminator.
pub proof fn lemma_lit_ascii(s: &str)
    requires
        forall|i: int| 0 <= i < s@.len() ==> ' ' <= #[trigger] s@[i] <= '~',
    ensures
        lit(s).len() == s@.len(),
        forall|i: int| 0 <= i < s@.len() ==> #[trigger] lit(s)[i] == s@[i] as u8,
        forall|i: int| 0 <= i < lit(s).len() ==> 32 <= #[trigger] lit(s)[i] <= 126,
        no_nul(lit(s)),
{
    assert(vstd::utf8::is_ascii_chars(s@));
    vstd::utf8::is_ascii_chars_encode_utf8(s@);
    assert forall|i: int| 0 <= i < lit(s).len() implies 32 <= #[trigger] lit(s)[i] <= 126 by {
        assert(s@[i] as u8 == lit(s)[i]);
    }
}

/// Appends the bytes of `s` to `out`.
pub fn append_str(out: &mut Vec<u8>, s: &str)
    ensures
        final(out)@ == old(out)@ + lit(s),
{
    let bytes = s.as_bytes();
    let ghost before = out@;
    out.extend_from_slice(bytes);
    assert(out@ =~= before + lit(s));
}

/// Appends the bytes of `s` to `out`.
pub fn append_bytes(out: &mut Vec<u8>, s: &[u8])
    ensures
        final(out)@ == old(out)@ + s@,
{
    let ghost before = out@;
    out.extend_from_slice(s);
    assert(out@ =~= before + s@);
}

/// The ASCII digit for `d`, which is below ten.
pub open spec fn digit(d: nat) -> u8 {
    (48 + d) as u8
}

/// The decimal notation of `n`, most significant digit first, with no
/// leading zeros (as `%u` prints it).
pub open spec fn decimal(n: nat) -> Seq<u8>
    decreases n,
{
    if n < 10 {
        seq![digit(n)]
    } else {
        decimal(n / 10).push(digit(n % 10))
    }
}

/// Appends the decimal notation of `n` to `out`.
pub fn append_decimal(out: &mut Vec<u8>, n: u32)
    ensures
        final(out)@ == old(out)@ + decimal(n as nat),
    decreases n,
{
    let ghost before = out@;
    if n >= 10 {
        append_decimal(out, n / 10);
    }
    let d: u8 = (n % 10) as u8;
    out.push(48 + d);
    assert(out@ =~= before + decimal(n as nat));
}

/// An ASCII decimal digit.
pub open spec fn is_digit(b: u8) -> bool {
    48 <= b <= 57
}

/// The number that a string of decimal digits denotes, most significant
/// digit first.
pub open spec fn digits_value(s: Seq<u8>) -> nat
    decreases s.len(),
{
    if s.len() == 0 {
        0
    } else {
        digits_value(s.drop_last()) * 10 + (s.last() - 48) as nat
    }
}

/// The decimal notation of `n` is a non-empty string of digits, without a
/// leading zero unless it is `0` itself, that denotes `n`.
pub proof fn lemma_decimal_reads_back(n: nat)
    ensures
        decimal(n).len() > 0,
        forall|i: int| 0 <= i < decimal(n).len() ==> is_digit(#[trigger] decimal(n)[i]),
        digits_value(decimal(n)) == n,
        decimal(n).len() > 1 ==> decimal(n)[0] != 48u8,
    decreases n,
{
    if n >= 10 {
        let prev = decimal(n / 10);
        lemma_decimal_reads_back(n / 10);
        let d = decimal(n);
        assert(d == prev.push(digit(n % 10)));
        assert(d.drop_last() =~= prev);
        assert forall|i: int| 0 <= i < d.len() implies is_digit(#[trigger] d[i]) by {
            if i < prev.len() {
                assert(d[i] == prev[i]);
            }
        }
        assert(d[0] == prev[0]);
        assert(d.last() == digit(n % 10));
        assert(digits_value(d) == digits_value(prev) * 10 + (d.last() - 48) as nat);
        assert((n / 10) * 10 + n % 10 == n);
        if prev.len() == 1 {
            assert(digits_value(prev) == digits_value(prev.drop_last()) * 10 + (prev.last() - 48) as nat);
            assert(prev.drop_last().len() == 0);
            assert(prev[0] == prev.last());
        }
    } else {
        let d = decimal(n);
        assert(d.drop_last().len() == 0);
        assert(digits_value(d.drop_last()) == 0);
        assert(d.last() == digit(n));
    }
}

} // verus!
