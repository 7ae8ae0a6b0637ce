//! Byte and text helpers shared by the decoders: big-endian fields,
//! hexadecimal and decimal renderings.

use vstd::prelude::*;

verus! {

/// The value of a big-endian 16-bit field whose first byte is `hi`.
pub open spec fn be16(hi: u8, lo: u8) -> int {
    hi * 256 + lo
}

/// Reads a big-endian 16-bit field.
pub fn read_be16(hi: u8, lo: u8) -> (v: u16)
    ensures
        v == be16(hi, lo),
{
    (hi as u16) * 256 + (lo as u16)
}

/// The lower-case hexadecimal digit of `d` (for `0 <= d < 16`).
pub open spec fn hex_digit(d: int) -> char {
    if d < 10 {
        (d + 48) as char
    } else {
        (d + 87) as char
    }
}

/// The decimal digit of `d` (for `0 <= d < 10`).
pub open spec fn dec_digit(d: int) -> char {
    (d + 48) as char
}

/// Two lower-case hexadecimal digits of a byte.
pub open spec fn hex2(b: u8) -> Seq<char> {
    seq![hex_digit(b as int / 16), hex_digit(b as int % 16)]
}

/// Four lower-case hexadecimal digits of a 16-bit value, zero-padded.
pub open spec fn hex4(v: u16) -> Seq<char> {
    seq![
        hex_digit(v as int / 4096),
        hex_digit((v as int / 256) % 16),
        hex_digit((v as int / 16) % 16),
        hex_digit(v as int % 16),
    ]
}

/// The decimal rendering of `n`, without leading zeros.
pub open spec fn decimal(n: nat) -> Seq<char>
    decreases n,
{
    if n < 10 {
        seq![dec_digit(n as int)]
    } else {
        decimal(n / 10).push(dec_digit(n as int % 10))
    }
}

/// Appends `c` to `s` through `String::push`, which appends one character
/// at the end of the string.
#[verifier::external_body]
pub(crate) fn push_char(s: &mut String, c: char)
    ensures
        final(s)@ == old(s)@.push(c),
{
    s.push(c);
}

/// Appends the hexadecimal digit of `d`.
pub(crate) fn push_hex_digit(s: &mut String, d: u8)
    requires
        d < 16,
    ensures
        final(s)@ == old(s)@.push(hex_digit(d as int)),
{
    if d < 10 {
        push_char(s, (d + 48) as char);
    } else {
        push_char(s, (d + 87) as char);
    }
}

/// Appends the two hexadecimal digits of `b`.
pub(crate) fn push_hex2(s: &mut String, b: u8)
    ensures
        final(s)@ == old(s)@ + hex2(b),
{
    push_hex_digit(s, b / 16);
    push_hex_digit(s, b % 16);
}

/// Appends the four hexadecimal digits of `v`.
pub(crate) fn push_hex4(s: &mut String, v: u16)
    ensures
        final(s)@ == old(s)@ + hex4(v),
{
    push_hex_digit(s, (v / 4096) as u8);
    push_hex_digit(s, ((v / 256) % 16) as u8);
    push_hex_digit(s, ((v / 16) % 16) as u8);
    push_hex_digit(s, (v % 16) as u8);
}

/// Appends the decimal rendering of `n`.
pub(crate) fn push_decimal(s: &mut String, n: u32)
    ensures
        final(s)@ == old(s)@ + decimal(n as nat),
    decreases n,
{
    if n >= 10 {
        push_decimal(s, n / 10);
    }
    push_char(s, ((n % 10) as u8 + 48) as char);
}

/// The number that a string of decimal digits reads as.
pub open spec fn decimal_value(s: Seq<char>) -> int
    decreases s.len(),
{
    if s.len() == 0 {
        0
    } else {
        decimal_value(s.drop_last()) * 10 + (s.last() as int - '0' as int)
    }
}

/// The decimal rendering of `n` is made of the digits `0` to `9`, has no
/// leading zero, and reads back as `n`.
pub proof fn lemma_decimal_reads_back(n: nat)
    ensures
        decimal(n).len() >= 1,
        decimal(n).len() > 1 <==> n >= 10,
        forall|i: int| 0 <= i < decimal(n).len() ==> '0' <= #[trigger] decimal(n)[i] <= '9',
        decimal(n).len() > 1 ==> decimal(n)[0] != '0',
        decimal_value(decimal(n)) == n,
    decreases n,
{
    let s = decimal(n);
    if n >= 10 {
        lemma_decimal_reads_back(n / 10);
        let r = decimal(n / 10);
        assert(s == r.push(dec_digit(n as int % 10)));
        assert(s.drop_last() =~= r);
        assert forall|i: int| 0 <= i < s.len() implies '0' <= #[trigger] s[i] <= '9' by {
            if i < r.len() {
                assert(s[i] == r[i]);
                assert('0' <= r[i] <= '9');
            } else {
                assert(s[i] == dec_digit(n as int % 10));
            }
        }
        assert(s[0] == r[0]);
        if r.len() == 1 {
            assert(n / 10 < 10);
            assert(r == seq![dec_digit((n / 10) as int)]);
            assert(n / 10 >= 1);
            assert(r[0] == dec_digit((n / 10) as int));
            assert(r[0] as int == n / 10 + 48);
            assert(r[0] as int != '0' as int);
            assert(r[0] != '0');
        } else {
            assert(r[0] != '0');
        }
        assert(s[0] != '0');
        assert(s.last() == dec_digit(n as int % 10));
        assert(s.last() as int == n as int % 10 + 48);
        assert(decimal_value(s) == decimal_value(r) * 10 + (n as int % 10));
        assert((n as int / 10) * 10 + n as int % 10 == n);
    } else {
        assert(s == seq![dec_digit(n as int)]);
        assert(s[0] == dec_digit(n as int));
        assert(s.drop_last() =~= Seq::<char>::empty());
        assert(s.last() as int == n + 48);
        assert(decimal_value(s.drop_last()) == 0);
        assert(decimal_value(s) == decimal_value(s.drop_last()) * 10 + (s.last() as int - '0' as int));
    }
}

/// The value of a lower-case hexadecimal digit (or of a decimal digit).
pub open spec fn hex_value(c: char) -> int {
    if '0' <= c <= '9' {
        c as int - '0' as int
    } else {
        c as int - 'a' as int + 10
    }
}

/// Whether `c` is a decimal digit or a lower-case letter `a` to `f`.
pub open spec fn is_lower_hex(c: char) -> bool {
    ('0' <= c <= '9') || ('a' <= c <= 'f')
}

/// The hexadecimal renderings are lower-case hexadecimal digits that read
/// back, most significant digit first, as the value rendered.
pub proof fn lemma_hex_reads_back(b: u8, v: u16)
    ensures
        hex2(b).len() == 2,
        is_lower_hex(hex2(b)[0]) && is_lower_hex(hex2(b)[1]),
        hex_value(hex2(b)[0]) * 16 + hex_value(hex2(b)[1]) == b,
        hex4(v).len() == 4,
        forall|i: int| 0 <= i < 4 ==> is_lower_hex(#[trigger] hex4(v)[i]),
        hex_value(hex4(v)[0]) * 4096 + hex_value(hex4(v)[1]) * 256 + hex_value(hex4(v)[2]) * 16
            + hex_value(hex4(v)[3]) == v,
{
    lemma_hex_digit(b as int / 16);
    lemma_hex_digit(b as int % 16);
    lemma_hex_digit(v as int / 4096);
    lemma_hex_digit((v as int / 256) % 16);
    lemma_hex_digit((v as int / 16) % 16);
    lemma_hex_digit(v as int % 16);
    assert(b == (b / 16) * 16 + b % 16) by (bit_vector);
    assert(v == (v / 4096) * 4096 + ((v / 256) % 16) * 256 + ((v / 16) % 16) * 16 + v % 16)
        by (bit_vector);
}

proof fn lemma_hex_digit(d: int)
    requires
        0 <= d < 16,
    ensures
        is_lower_hex(hex_digit(d)),
        hex_value(hex_digit(d)) == d,
{
}

} // verus!
