//! The MQTT v3.1.1 wire grammar, stated as mathematical functions.
//!
//! Every primitive of the codec appears here twice: an *encoding* function
//! that maps a value to its canonical byte sequence, and a *parse* function
//! that maps a byte sequence to the decoded value and the unconsumed rest,
//! or to the error kind the decoder must report.  The executable encoder,
//! decoder and length meter are verified against these functions, and the
//! round-trip and truncation laws are proved about them.

use crate::error::Decoding;
use vstd::prelude::*;

verus! {

// ------------------------------------------------------------------
// Encodings
// ------------------------------------------------------------------

/// The most-significant byte of a big-endian `u16`
pub open spec fn u16_hi(v: u16) -> u8 {
    (v / 256) as u8
}

/// The least-significant byte of a big-endian `u16`
pub open spec fn u16_lo(v: u16) -> u8 {
    (v % 256) as u8
}

/// A `u16` in big-endian byte order
pub open spec fn u16_bytes(v: u16) -> Seq<u8> {
    seq![u16_hi(v), u16_lo(v)]
}

/// The `u16` read from two big-endian bytes
pub open spec fn be_u16(hi: u8, lo: u8) -> u16 {
    (hi * 256 + lo) as u16
}

/// Whether the bit of the given weight (a power of two) is set in `byte`
pub open spec fn bit(byte: u8, weight: int) -> bool {
    (byte as int / weight) % 2 == 1
}

/// A bit as its numeric weight contribution
pub open spec fn bool_bit(b: bool) -> int {
    if b {
        1
    } else {
        0
    }
}

/// A flag octet assembled from eight booleans, MSB first
pub open spec fn bitmap_byte(bits: Seq<bool>) -> u8
    recommends
        bits.len() == 8,
{
    (bool_bit(bits[0]) * 128 + bool_bit(bits[1]) * 64 + bool_bit(bits[2]) * 32 + bool_bit(bits[3])
        * 16 + bool_bit(bits[4]) * 8 + bool_bit(bits[5]) * 4 + bool_bit(bits[6]) * 2 + bool_bit(
        bits[7],
    )) as u8
}

/// The eight booleans of a flag octet, MSB first
pub open spec fn byte_bits(byte: u8) -> Seq<bool> {
    seq![
        bit(byte, 128),
        bit(byte, 64),
        bit(byte, 32),
        bit(byte, 16),
        bit(byte, 8),
        bit(byte, 4),
        bit(byte, 2),
        bit(byte, 1),
    ]
}

/// The header byte: packet type in the high nibble, four flags in the low one
pub open spec fn header_byte(type_: u8, flags: Seq<bool>) -> u8
    recommends
        type_ < 16,
        flags.len() == 4,
{
    (type_ * 16 + bool_bit(flags[0]) * 8 + bool_bit(flags[1]) * 4 + bool_bit(flags[2]) * 2
        + bool_bit(flags[3])) as u8
}

/// The packet type stored in the high nibble of a header byte
pub open spec fn header_type(byte: u8) -> u8 {
    byte / 16
}

/// The four flags stored in the low nibble of a header byte, MSB first
pub open spec fn header_flags(byte: u8) -> Seq<bool> {
    seq![bit(byte, 8), bit(byte, 4), bit(byte, 2), bit(byte, 1)]
}

/// How many bytes the packet-length encoding of `n` takes (1 to 4 heptets)
pub open spec fn packetlen_size(n: int) -> int
    recommends
        0 <= n < 0x10000000,
{
    if n < 0x80 {
        1
    } else if n < 0x4000 {
        2
    } else if n < 0x200000 {
        3
    } else {
        4
    }
}

/// The packet-length encoding of `n`: big-endian heptets, the continuation
/// bit set on every byte but the last
pub open spec fn packetlen_bytes(n: int) -> Seq<u8>
    recommends
        0 <= n < 0x10000000,
{
    if n < 0x80 {
        seq![n as u8]
    } else if n < 0x4000 {
        seq![(0x80 + n / 0x80) as u8, (n % 0x80) as u8]
    } else if n < 0x200000 {
        seq![(0x80 + n / 0x4000) as u8, (0x80 + (n / 0x80) % 0x80) as u8, (n % 0x80) as u8]
    } else {
        seq![
            (0x80 + n / 0x200000) as u8,
            (0x80 + (n / 0x4000) % 0x80) as u8,
            (0x80 + (n / 0x80) % 0x80) as u8,
            (n % 0x80) as u8,
        ]
    }
}

/// A length-prefixed byte field: big-endian `u16` length, then the bytes
pub open spec fn bytes_field(b: Seq<u8>) -> Seq<u8>
    recommends
        b.len() <= 0xFFFF,
{
    u16_bytes(b.len() as u16) + b
}

/// An optional `u16`: two bytes when present, nothing when absent
pub open spec fn opt_u16_bytes(v: Option<u16>) -> Seq<u8> {
    match v {
        Some(x) => u16_bytes(x),
        None => Seq::empty(),
    }
}

/// An optional length-prefixed byte field
pub open spec fn opt_bytes_field(b: Option<Seq<u8>>) -> Seq<u8> {
    match b {
        Some(x) => bytes_field(x),
        None => Seq::empty(),
    }
}

/// A topic sequence: length-prefixed fields concatenated without a count
pub open spec fn topics_bytes(ts: Seq<Seq<u8>>) -> Seq<u8>
    decreases ts.len(),
{
    if ts.len() == 0 {
        Seq::empty()
    } else {
        bytes_field(ts[0]) + topics_bytes(ts.skip(1))
    }
}

/// A topic+QoS sequence: each item a length-prefixed field and one QoS byte
pub open spec fn topics_qos_bytes(ts: Seq<(Seq<u8>, u8)>) -> Seq<u8>
    decreases ts.len(),
{
    if ts.len() == 0 {
        Seq::empty()
    } else {
        bytes_field(ts[0].0) + seq![ts[0].1] + topics_qos_bytes(ts.skip(1))
    }
}

/// Whether every topic of a topic sequence fits a `u16` length prefix
pub open spec fn topics_fit(ts: Seq<Seq<u8>>) -> bool {
    forall|i: int| 0 <= i < ts.len() ==> #[trigger] ts[i].len() <= 0xFFFF
}

/// Whether every topic of a topic+QoS sequence fits a `u16` length prefix
pub open spec fn topics_qos_fit(ts: Seq<(Seq<u8>, u8)>) -> bool {
    forall|i: int| 0 <= i < ts.len() ==> #[trigger] ts[i].0.len() <= 0xFFFF
}

// ------------------------------------------------------------------
// Parsers
// ------------------------------------------------------------------

/// Reads one byte
pub open spec fn parse_u8(s: Seq<u8>) -> Result<(u8, Seq<u8>), Decoding> {
    if s.len() == 0 {
        Err(Decoding::Truncated)
    } else {
        Ok((s[0], s.skip(1)))
    }
}

/// Reads a big-endian `u16`
pub open spec fn parse_u16(s: Seq<u8>) -> Result<(u16, Seq<u8>), Decoding> {
    if s.len() < 2 {
        Err(Decoding::Truncated)
    } else {
        Ok((be_u16(s[0], s[1]), s.skip(2)))
    }
}

/// Reads a flag octet as eight booleans, MSB first
pub open spec fn parse_bitmap(s: Seq<u8>) -> Result<(Seq<bool>, Seq<u8>), Decoding> {
    if s.len() == 0 {
        Err(Decoding::Truncated)
    } else {
        Ok((byte_bits(s[0]), s.skip(1)))
    }
}

/// Reads a header byte as packet type and flag nibble
pub open spec fn parse_header(s: Seq<u8>) -> Result<((u8, Seq<bool>), Seq<u8>), Decoding> {
    if s.len() == 0 {
        Err(Decoding::Truncated)
    } else {
        Ok(((header_type(s[0]), header_flags(s[0])), s.skip(1)))
    }
}

/// One step of the packet-length parse: `pos` heptets are already read and
/// accumulate to `acc`
pub open spec fn parse_packetlen_rec(s: Seq<u8>, pos: int, acc: int) -> Result<
    (int, Seq<u8>),
    Decoding,
>
    decreases s.len(),
{
    if s.len() == 0 {
        Err(Decoding::Truncated)
    } else {
        let byte = s[0];
        let value = acc * 0x80 + (byte as int) % 0x80;
        if byte < 0x80 {
            Ok((value, s.skip(1)))
        } else if byte == 0x80 && value == 0 {
            // a multi-byte encoding still worth 0 must not extend
            Err(Decoding::SpecViolation)
        } else if pos >= 3 {
            // the fourth byte must not have the continuation bit set
            Err(Decoding::SpecViolation)
        } else {
            parse_packetlen_rec(s.skip(1), pos + 1, value)
        }
    }
}

/// Reads a packet-length field of 1 to 4 heptets
pub open spec fn parse_packetlen(s: Seq<u8>) -> Result<(int, Seq<u8>), Decoding> {
    parse_packetlen_rec(s, 0, 0)
}

/// Reads a length-prefixed byte field
pub open spec fn parse_bytes_field(s: Seq<u8>) -> Result<(Seq<u8>, Seq<u8>), Decoding> {
    match parse_u16(s) {
        Ok((len, rest)) => {
            if rest.len() < len {
                Err(Decoding::Truncated)
            } else {
                Ok((rest.take(len as int), rest.skip(len as int)))
            }
        },
        Err(k) => Err(k),
    }
}

/// Reads an optional `u16`: nothing is consumed when `cond` is false
pub open spec fn parse_opt_u16(cond: bool, s: Seq<u8>) -> Result<(Option<u16>, Seq<u8>), Decoding> {
    if cond {
        match parse_u16(s) {
            Ok((v, rest)) => Ok((Some(v), rest)),
            Err(k) => Err(k),
        }
    } else {
        Ok((None, s))
    }
}

/// Reads an optional length-prefixed byte field: nothing is consumed when
/// `cond` is false
pub open spec fn parse_opt_bytes(cond: bool, s: Seq<u8>) -> Result<
    (Option<Seq<u8>>, Seq<u8>),
    Decoding,
> {
    if cond {
        match parse_bytes_field(s) {
            Ok((b, rest)) => Ok((Some(b), rest)),
            Err(k) => Err(k),
        }
    } else {
        Ok((None, s))
    }
}

/// Reads bytes one by one as long as they match the expected constant; a
/// mismatch violates the spec, an early end of input is truncation
pub open spec fn parse_constant(expected: Seq<u8>, s: Seq<u8>) -> Result<Seq<u8>, Decoding>
    decreases expected.len(),
{
    if expected.len() == 0 {
        Ok(s)
    } else {
        match parse_u8(s) {
            Ok((b, rest)) => {
                if b != expected[0] {
                    Err(Decoding::SpecViolation)
                } else {
                    parse_constant(expected.skip(1), rest)
                }
            },
            Err(k) => Err(k),
        }
    }
}

/// A constant read fails only as a spec violation or as truncated input.
pub proof fn lemma_parse_constant_err(expected: Seq<u8>, s: Seq<u8>)
    ensures
        parse_constant(expected, s) matches Err(k) ==> (k == Decoding::Truncated || k
            == Decoding::SpecViolation),
    decreases expected.len(),
{
    if expected.len() > 0 && s.len() > 0 && s[0] == expected[0] {
        lemma_parse_constant_err(expected.skip(1), s.skip(1));
    }
}

/// Reads length-prefixed fields until the region `s` is exhausted
pub open spec fn parse_topics(s: Seq<u8>) -> Result<Seq<Seq<u8>>, Decoding>
    decreases s.len(),
{
    if s.len() == 0 {
        Ok(Seq::empty())
    } else {
        match parse_bytes_field(s) {
            Ok((b, rest)) => match parse_topics(rest) {
                Ok(tail) => Ok(seq![b] + tail),
                Err(k) => Err(k),
            },
            Err(k) => Err(k),
        }
    }
}

/// Reads length-prefixed fields, each followed by a QoS byte, until the
/// region `s` is exhausted
pub open spec fn parse_topics_qos(s: Seq<u8>) -> Result<Seq<(Seq<u8>, u8)>, Decoding>
    decreases s.len(),
{
    if s.len() == 0 {
        Ok(Seq::empty())
    } else {
        match parse_bytes_field(s) {
            Ok((b, rest)) => match parse_u8(rest) {
                Ok((qos, rest2)) => match parse_topics_qos(rest2) {
                    Ok(tail) => Ok(seq![(b, qos)] + tail),
                    Err(k) => Err(k),
                },
                Err(k) => Err(k),
            },
            Err(k) => Err(k),
        }
    }
}

// ------------------------------------------------------------------
// Laws of the primitives
// ------------------------------------------------------------------

/// A big-endian `u16` is rebuilt from its two bytes.
pub proof fn lemma_u16_roundtrip(v: u16)
    ensures
        be_u16(u16_hi(v), u16_lo(v)) == v,
{
}

/// A flag octet yields back the eight booleans it was assembled from.
pub proof fn lemma_bitmap_roundtrip(bits: Seq<bool>)
    requires
        bits.len() == 8,
    ensures
        byte_bits(bitmap_byte(bits)) =~= bits,
{
    let b0: u8 = if bits[0] { 1 } else { 0 };
    let b1: u8 = if bits[1] { 1 } else { 0 };
    let b2: u8 = if bits[2] { 1 } else { 0 };
    let b3: u8 = if bits[3] { 1 } else { 0 };
    let b4: u8 = if bits[4] { 1 } else { 0 };
    let b5: u8 = if bits[5] { 1 } else { 0 };
    let b6: u8 = if bits[6] { 1 } else { 0 };
    let b7: u8 = if bits[7] { 1 } else { 0 };
    let byte = bitmap_byte(bits);
    assert(byte == b0 * 128 + b1 * 64 + b2 * 32 + b3 * 16 + b4 * 8 + b5 * 4 + b6 * 2 + b7);
    assert({
        let y = (b0 * 128 + b1 * 64 + b2 * 32 + b3 * 16 + b4 * 8 + b5 * 4 + b6 * 2 + b7) as u8;
        (y / 128) % 2 == b0 && (y / 64) % 2 == b1 && (y / 32) % 2 == b2 && (y / 16) % 2 == b3 && (y
            / 8) % 2 == b4 && (y / 4) % 2 == b5 && (y / 2) % 2 == b6 && (y / 1) % 2 == b7
    }) by (bit_vector)
        requires
            b0 <= 1 && b1 <= 1 && b2 <= 1 && b3 <= 1 && b4 <= 1 && b5 <= 1 && b6 <= 1 && b7 <= 1,
    ;
}

/// A byte is rebuilt from its eight flag booleans.
pub proof fn lemma_bitmap_byte_roundtrip(byte: u8)
    ensures
        bitmap_byte(byte_bits(byte)) == byte,
{
    assert(((byte / 128) % 2) * 128 + ((byte / 64) % 2) * 64 + ((byte / 32) % 2) * 32 + ((byte
        / 16) % 2) * 16 + ((byte / 8) % 2) * 8 + ((byte / 4) % 2) * 4 + ((byte / 2) % 2) * 2 + (
    byte / 1) % 2 == byte) by (bit_vector);
}

/// A header byte yields back the packet type and flags it was assembled from.
pub proof fn lemma_header_roundtrip(type_: u8, flags: Seq<bool>)
    requires
        type_ < 16,
        flags.len() == 4,
    ensures
        header_type(header_byte(type_, flags)) == type_,
        header_flags(header_byte(type_, flags)) =~= flags,
{
    let byte = header_byte(type_, flags);
    assert(header_flags(byte)[0] == flags[0]);
    assert(header_flags(byte)[1] == flags[1]);
    assert(header_flags(byte)[2] == flags[2]);
    assert(header_flags(byte)[3] == flags[3]);
}

/// A byte is rebuilt from its type nibble and flag nibble.
pub proof fn lemma_header_byte_roundtrip(byte: u8)
    ensures
        header_byte(header_type(byte), header_flags(byte)) == byte,
{
    assert((byte / 16) * 16 + ((byte / 8) % 2) * 8 + ((byte / 4) % 2) * 4 + ((byte / 2) % 2) * 2 + (
    byte / 1) % 2 == byte) by (bit_vector);
}

/// The packet-length encoding takes exactly `packetlen_size(n)` bytes.
pub proof fn lemma_packetlen_len(n: int)
    requires
        0 <= n < 0x10000000,
    ensures
        packetlen_bytes(n).len() == packetlen_size(n),
{
}

/// Bit-exact packet-length round trip: parsing an encoded length yields the
/// encoded value and consumes exactly the encoding, whatever follows it.
#[verifier::rlimit(50)]
pub proof fn lemma_packetlen_roundtrip(n: int, rest: Seq<u8>)
    requires
        0 <= n < 0x10000000,
    ensures
        parse_packetlen(packetlen_bytes(n) + rest) == Ok::<(int, Seq<u8>), Decoding>((n, rest)),
{
    reveal_with_fuel(parse_packetlen_rec, 5);
    let s = packetlen_bytes(n) + rest;
    if n < 0x80 {
        assert(s.skip(1) =~= rest);
    } else if n < 0x4000 {
        let q1: int = n / 0x80;
        assert(1 <= q1 < 0x80);
        assert(s[0] == (0x80 + q1) as u8);
        assert(s.skip(1) =~= seq![(n % 0x80) as u8] + rest);
        assert(s.skip(1).skip(1) =~= rest);
        assert(q1 * 0x80 + n % 0x80 == n);
    } else if n < 0x200000 {
        let q2: int = n / 0x4000;
        let q1: int = (n / 0x80) % 0x80;
        assert(1 <= q2 < 0x80);
        assert(s[0] == (0x80 + q2) as u8);
        assert(s.skip(1) =~= seq![(0x80 + q1) as u8, (n % 0x80) as u8] + rest);
        assert(s.skip(1).skip(1) =~= seq![(n % 0x80) as u8] + rest);
        assert(s.skip(1).skip(1).skip(1) =~= rest);
        assert(n / 0x4000 == (n / 0x80) / 0x80) by {
            vstd::arithmetic::div_mod::lemma_div_denominator(n, 0x80, 0x80);
        }
        assert((q2 * 0x80 + q1) * 0x80 + n % 0x80 == n) by {
            vstd::arithmetic::div_mod::lemma_fundamental_div_mod(n / 0x80, 0x80);
        }
    } else {
        let q3: int = n / 0x200000;
        let q2: int = (n / 0x4000) % 0x80;
        let q1: int = (n / 0x80) % 0x80;
        assert(1 <= q3 < 0x80);
        assert(s[0] == (0x80 + q3) as u8);
        assert(s.skip(1) =~= seq![(0x80 + q2) as u8, (0x80 + q1) as u8, (n % 0x80) as u8] + rest);
        assert(s.skip(1).skip(1) =~= seq![(0x80 + q1) as u8, (n % 0x80) as u8] + rest);
        assert(s.skip(1).skip(1).skip(1) =~= seq![(n % 0x80) as u8] + rest);
        assert(s.skip(1).skip(1).skip(1).skip(1) =~= rest);
        assert(n / 0x200000 == (n / 0x4000) / 0x80) by {
            vstd::arithmetic::div_mod::lemma_div_denominator(n, 0x4000, 0x80);
        }
        assert(n / 0x4000 == (n / 0x80) / 0x80) by {
            vstd::arithmetic::div_mod::lemma_div_denominator(n, 0x80, 0x80);
        }
        assert(q3 * 0x80 + q2 == n / 0x4000) by {
            vstd::arithmetic::div_mod::lemma_fundamental_div_mod(n / 0x4000, 0x80);
        }
        assert((n / 0x4000) * 0x80 + q1 == n / 0x80) by {
            vstd::arithmetic::div_mod::lemma_fundamental_div_mod(n / 0x80, 0x80);
        }
        assert((n / 0x80) * 0x80 + n % 0x80 == n) by {
            vstd::arithmetic::div_mod::lemma_fundamental_div_mod(n, 0x80);
        }
    }
}

/// The packet-length parser accepts only canonical encodings: whenever it
/// succeeds, the consumed bytes are exactly `packetlen_bytes` of the value.
#[verifier::rlimit(80)]
pub proof fn lemma_packetlen_sound(s: Seq<u8>)
    requires
        parse_packetlen(s) is Ok,
    ensures
        parse_packetlen(s) matches Ok(p) ==> 0 <= p.0 < 0x10000000 && s == packetlen_bytes(p.0)
            + p.1 && p.1.len() == s.len() - packetlen_size(p.0),
{
    reveal_with_fuel(parse_packetlen_rec, 5);
    let s0 = s[0] as int;
    if s0 < 0x80 {
        assert(s =~= packetlen_bytes(s0) + s.skip(1));
    } else {
        let a: int = s0 % 0x80;
        assert(a == s0 - 0x80);
        let t1 = s.skip(1);
        let s1 = t1[0] as int;
        if s1 < 0x80 {
            let n: int = a * 0x80 + s1;
            assert(0x80 <= n < 0x4000);
            vstd::arithmetic::div_mod::lemma_fundamental_div_mod_converse(n, 0x80, a, s1);
            assert(packetlen_bytes(n) =~= seq![s[0], t1[0]]);
            assert(s =~= seq![s[0], t1[0]] + t1.skip(1));
        } else {
            let b: int = s1 % 0x80;
            assert(b == s1 - 0x80);
            let t2 = t1.skip(1);
            let s2 = t2[0] as int;
            if s2 < 0x80 {
                let m: int = a * 0x80 + b;
                let n: int = m * 0x80 + s2;
                assert(0x4000 <= n < 0x200000);
                vstd::arithmetic::div_mod::lemma_fundamental_div_mod_converse(n, 0x80, m, s2);
                vstd::arithmetic::div_mod::lemma_fundamental_div_mod_converse(m, 0x80, a, b);
                assert(n / 0x4000 == (n / 0x80) / 0x80) by {
                    vstd::arithmetic::div_mod::lemma_div_denominator(n, 0x80, 0x80);
                }
                assert(packetlen_bytes(n) =~= seq![s[0], t1[0], t2[0]]);
                assert(s =~= seq![s[0], t1[0], t2[0]] + t2.skip(1));
            } else {
                let c: int = s2 % 0x80;
                assert(c == s2 - 0x80);
                let t3 = t2.skip(1);
                let s3 = t3[0] as int;
                let m2: int = a * 0x80 + b;
                let m1: int = m2 * 0x80 + c;
                let n: int = m1 * 0x80 + s3;
                assert(0x200000 <= n < 0x10000000);
                vstd::arithmetic::div_mod::lemma_fundamental_div_mod_converse(n, 0x80, m1, s3);
                vstd::arithmetic::div_mod::lemma_fundamental_div_mod_converse(m1, 0x80, m2, c);
                vstd::arithmetic::div_mod::lemma_fundamental_div_mod_converse(m2, 0x80, a, b);
                assert(n / 0x4000 == (n / 0x80) / 0x80) by {
                    vstd::arithmetic::div_mod::lemma_div_denominator(n, 0x80, 0x80);
                }
                assert(n / 0x200000 == (n / 0x4000) / 0x80) by {
                    vstd::arithmetic::div_mod::lemma_div_denominator(n, 0x4000, 0x80);
                }
                assert(packetlen_bytes(n) =~= seq![s[0], t1[0], t2[0], t3[0]]);
                assert(s =~= seq![s[0], t1[0], t2[0], t3[0]] + t3.skip(1));
            }
        }
    }
}

/// Every strict prefix of a packet-length encoding parses as `Truncated`.
pub proof fn lemma_packetlen_prefix(n: int, i: int)
    requires
        0 <= n < 0x10000000,
        0 <= i < packetlen_bytes(n).len(),
    ensures
        parse_packetlen(packetlen_bytes(n).take(i)) == Err::<(int, Seq<u8>), Decoding>(
            Decoding::Truncated,
        ),
{
    reveal_with_fuel(parse_packetlen_rec, 5);
    let s = packetlen_bytes(n).take(i);
    if i == 0 {
        assert(s.len() == 0);
    } else if i == 1 {
        assert(s =~= seq![packetlen_bytes(n)[0]]);
        assert(s.skip(1) =~= Seq::<u8>::empty());
    } else if i == 2 {
        assert(s =~= seq![packetlen_bytes(n)[0], packetlen_bytes(n)[1]]);
        assert(s.skip(1).skip(1) =~= Seq::<u8>::empty());
    } else {
        assert(s =~= seq![packetlen_bytes(n)[0], packetlen_bytes(n)[1], packetlen_bytes(n)[2]]);
        assert(s.skip(1).skip(1).skip(1) =~= Seq::<u8>::empty());
    }
}

/// Appending a topic extends the encoding of a topic sequence at its end.
pub proof fn lemma_topics_bytes_snoc(ts: Seq<Seq<u8>>, t: Seq<u8>)
    ensures
        topics_bytes(ts.push(t)) == topics_bytes(ts) + bytes_field(t),
    decreases ts.len(),
{
    if ts.len() == 0 {
        assert(ts.push(t).skip(1) =~= Seq::<Seq<u8>>::empty());
        assert(ts.push(t)[0] == t);
        assert(topics_bytes(ts.push(t)) == bytes_field(t) + topics_bytes(
            Seq::<Seq<u8>>::empty(),
        ));
        assert(topics_bytes(ts.push(t)) =~= topics_bytes(ts) + bytes_field(t));
    } else {
        lemma_topics_bytes_snoc(ts.skip(1), t);
        assert(ts.push(t).skip(1) =~= ts.skip(1).push(t));
        assert(ts.push(t)[0] == ts[0]);
        assert(topics_bytes(ts.push(t)) == bytes_field(ts[0]) + topics_bytes(ts.skip(1).push(t)));
        assert(topics_bytes(ts.push(t)) =~= topics_bytes(ts) + bytes_field(t));
    }
}

/// Appending an item extends the encoding of a topic+QoS sequence at its end.
pub proof fn lemma_topics_qos_bytes_snoc(ts: Seq<(Seq<u8>, u8)>, t: (Seq<u8>, u8))
    ensures
        topics_qos_bytes(ts.push(t)) == topics_qos_bytes(ts) + bytes_field(t.0) + seq![t.1],
    decreases ts.len(),
{
    if ts.len() == 0 {
        assert(ts.push(t).skip(1) =~= Seq::<(Seq<u8>, u8)>::empty());
        assert(ts.push(t)[0] == t);
        assert(topics_qos_bytes(ts.push(t)) == bytes_field(t.0) + seq![t.1] + topics_qos_bytes(
            Seq::<(Seq<u8>, u8)>::empty(),
        ));
        assert(topics_qos_bytes(ts.push(t)) =~= topics_qos_bytes(ts) + bytes_field(t.0) + seq![
            t.1,
        ]);
    } else {
        lemma_topics_qos_bytes_snoc(ts.skip(1), t);
        assert(ts.push(t).skip(1) =~= ts.skip(1).push(t));
        assert(ts.push(t)[0] == ts[0]);
        assert(topics_qos_bytes(ts.push(t)) == bytes_field(ts[0].0) + seq![ts[0].1]
            + topics_qos_bytes(ts.skip(1).push(t)));
        assert(topics_qos_bytes(ts.push(t)) =~= topics_qos_bytes(ts) + bytes_field(t.0) + seq![
            t.1,
        ]);
    }
}

/// A length-prefixed byte field round-trips, whatever follows it.
pub proof fn lemma_bytes_field_roundtrip(b: Seq<u8>, rest: Seq<u8>)
    requires
        b.len() <= 0xFFFF,
    ensures
        parse_bytes_field(bytes_field(b) + rest) == Ok::<(Seq<u8>, Seq<u8>), Decoding>((b, rest)),
{
    let s = bytes_field(b) + rest;
    lemma_u16_roundtrip(b.len() as u16);
    assert(s[0] == u16_hi(b.len() as u16));
    assert(s[1] == u16_lo(b.len() as u16));
    assert(s.skip(2) =~= b + rest);
    assert((b + rest).take(b.len() as int) =~= b);
    assert((b + rest).skip(b.len() as int) =~= rest);
}

/// Whenever the byte-field parser succeeds, the consumed bytes are exactly
/// the field's encoding.
pub proof fn lemma_bytes_field_sound(s: Seq<u8>)
    requires
        parse_bytes_field(s) is Ok,
    ensures
        parse_bytes_field(s) matches Ok(p) ==> p.0.len() <= 0xFFFF && s == bytes_field(p.0) + p.1
            && s.len() == 2 + p.0.len() + p.1.len(),
{
    let len: int = be_u16(s[0], s[1]) as int;
    let b = s.skip(2).take(len);
    let rest = s.skip(2).skip(len);
    assert(u16_hi(be_u16(s[0], s[1])) == s[0]);
    assert(u16_lo(be_u16(s[0], s[1])) == s[1]);
    assert(s =~= bytes_field(b) + rest);
}

/// An optional byte field round-trips when its presence flag agrees with
/// its presence, whatever follows it.
pub proof fn lemma_opt_bytes_roundtrip(cond: bool, b: Option<Seq<u8>>, rest: Seq<u8>)
    requires
        cond <==> b is Some,
        b matches Some(x) ==> x.len() <= 0xFFFF,
    ensures
        parse_opt_bytes(cond, opt_bytes_field(b) + rest) == Ok::<
            (Option<Seq<u8>>, Seq<u8>),
            Decoding,
        >((b, rest)),
{
    match b {
        Some(x) => {
            assert(opt_bytes_field(b) + rest =~= bytes_field(x) + rest);
            lemma_bytes_field_roundtrip(x, rest);
        },
        None => {
            assert(opt_bytes_field(b) + rest =~= rest);
        },
    }
}

/// A topic sequence round-trips on its exact region.
#[verifier::rlimit(100)]
pub proof fn lemma_topics_roundtrip(ts: Seq<Seq<u8>>)
    requires
        topics_fit(ts),
    ensures
        parse_topics(topics_bytes(ts)) == Ok::<Seq<Seq<u8>>, Decoding>(ts),
    decreases ts.len(),
{
    if ts.len() == 0 {
        assert(topics_bytes(ts) =~= Seq::<u8>::empty());
        assert(ts =~= Seq::<Seq<u8>>::empty());
    } else {
        let tail = topics_bytes(ts.skip(1));
        lemma_bytes_field_roundtrip(ts[0], tail);
        lemma_topics_roundtrip(ts.skip(1));
        let s = topics_bytes(ts);
        assert(s =~= bytes_field(ts[0]) + tail);
        assert(parse_bytes_field(s) == Ok::<(Seq<u8>, Seq<u8>), Decoding>((ts[0], tail)));
        assert(parse_topics(tail) == Ok::<Seq<Seq<u8>>, Decoding>(ts.skip(1)));
        assert(s.len() > 0);
        assert(seq![ts[0]] + ts.skip(1) =~= ts);
        assert(parse_topics(s) == Ok::<Seq<Seq<u8>>, Decoding>(ts));
    }
}

/// Whenever the topic-sequence parser succeeds on a region, the region is
/// exactly the sequence's encoding.
pub proof fn lemma_topics_sound(s: Seq<u8>)
    requires
        parse_topics(s) is Ok,
    ensures
        parse_topics(s) matches Ok(ts) ==> topics_fit(ts) && s == topics_bytes(ts),
    decreases s.len(),
{
    if s.len() == 0 {
        let ts = parse_topics(s)->Ok_0;
        assert(topics_bytes(ts) =~= s);
    } else {
        let p = parse_bytes_field(s)->Ok_0;
        lemma_bytes_field_sound(s);
        lemma_topics_sound(p.1);
        let tail = parse_topics(p.1)->Ok_0;
        let ts = seq![p.0] + tail;
        assert(ts[0] == p.0);
        assert(ts.skip(1) =~= tail);
        assert(s =~= topics_bytes(ts));
        assert(topics_fit(ts)) by {
            assert(forall|i: int|
                1 <= i < ts.len() ==> #[trigger] ts[i].len() == tail[i - 1].len());
        }
    }
}

/// A topic+QoS sequence round-trips on its exact region.
#[verifier::rlimit(100)]
pub proof fn lemma_topics_qos_roundtrip(ts: Seq<(Seq<u8>, u8)>)
    requires
        topics_qos_fit(ts),
    ensures
        parse_topics_qos(topics_qos_bytes(ts)) == Ok::<Seq<(Seq<u8>, u8)>, Decoding>(ts),
    decreases ts.len(),
{
    if ts.len() == 0 {
        assert(topics_qos_bytes(ts) =~= Seq::<u8>::empty());
        assert(ts =~= Seq::<(Seq<u8>, u8)>::empty());
    } else {
        let tail = topics_qos_bytes(ts.skip(1));
        let mid = seq![ts[0].1] + tail;
        lemma_bytes_field_roundtrip(ts[0].0, mid);
        lemma_topics_qos_roundtrip(ts.skip(1));
        let s = topics_qos_bytes(ts);
        assert(s =~= bytes_field(ts[0].0) + mid);
        assert(parse_bytes_field(s) == Ok::<(Seq<u8>, Seq<u8>), Decoding>((ts[0].0, mid)));
        assert(mid[0] == ts[0].1);
        assert(mid.skip(1) =~= tail);
        assert(parse_u8(mid) == Ok::<(u8, Seq<u8>), Decoding>((ts[0].1, tail)));
        assert(parse_topics_qos(tail) == Ok::<Seq<(Seq<u8>, u8)>, Decoding>(ts.skip(1)));
        assert(s.len() > 0);
        assert(ts[0] == (ts[0].0, ts[0].1));
        assert(seq![ts[0]] + ts.skip(1) =~= ts);
        assert(parse_topics_qos(s) == Ok::<Seq<(Seq<u8>, u8)>, Decoding>(ts));
    }
}

/// Whenever the topic+QoS parser succeeds on a region, the region is exactly
/// the sequence's encoding.
pub proof fn lemma_topics_qos_sound(s: Seq<u8>)
    requires
        parse_topics_qos(s) is Ok,
    ensures
        parse_topics_qos(s) matches Ok(ts) ==> topics_qos_fit(ts) && s == topics_qos_bytes(ts),
    decreases s.len(),
{
    if s.len() == 0 {
        let ts = parse_topics_qos(s)->Ok_0;
        assert(topics_qos_bytes(ts) =~= s);
    } else {
        let p = parse_bytes_field(s)->Ok_0;
        lemma_bytes_field_sound(s);
        let q = parse_u8(p.1)->Ok_0;
        lemma_topics_qos_sound(q.1);
        let tail = parse_topics_qos(q.1)->Ok_0;
        let ts = seq![(p.0, q.0)] + tail;
        assert(ts[0] == (p.0, q.0));
        assert(ts.skip(1) =~= tail);
        assert(p.1 =~= seq![q.0] + q.1);
        assert(s =~= topics_qos_bytes(ts));
        assert(topics_qos_fit(ts)) by {
            assert(forall|i: int|
                1 <= i < ts.len() ==> #[trigger] ts[i].0.len() == tail[i - 1].0.len());
        }
    }
}

} // verus!
