//! MQTT packet types.
//!
//! Every packet type carries two verified operations: `try_from_iter`, whose
//! contract equates its result with the spec-level parse function of the
//! packet's grammar, and `into_vec`, whose contract equates the produced
//! bytes with the packet's canonical encoding.  The helpers in this module
//! state the framing that all fourteen packets share: one header byte, the
//! remaining-length field, then the body.

pub mod acklike;
pub mod connack;
pub mod connect;
pub mod disconnect;
pub mod packet;
pub mod pingreq;
pub mod publish;
pub mod signal;
pub mod subscribe;
pub mod unsubscribe;

use crate::error::Decoding;
use crate::wire::{
    header_byte, header_type, lemma_header_roundtrip, lemma_packetlen_len,
    lemma_packetlen_prefix, lemma_packetlen_roundtrip, lemma_packetlen_sound, packetlen_bytes,
    packetlen_size, parse_header, parse_packetlen,
};
use vstd::prelude::*;

verus! {

/// An all-zero flag nibble
pub open spec fn no_flags() -> Seq<bool> {
    seq![false, false, false, false]
}

/// A framed packet: header byte, remaining length, body
pub open spec fn packet_frame(type_: u8, flags: Seq<bool>, body: Seq<u8>) -> Seq<u8>
    recommends
        type_ < 16,
        flags.len() == 4,
        body.len() < 0x10000000,
{
    seq![header_byte(type_, flags)] + packetlen_bytes(body.len() as int) + body
}

/// Reads the header byte, checks the packet type and (when one is expected)
/// the flag nibble, reads the remaining length, and cuts the body region of
/// exactly that many bytes; a region shorter than announced is truncated
/// input
pub open spec fn parse_frame(type_: u8, flags: Option<Seq<bool>>, s: Seq<u8>) -> Result<
    (Seq<bool>, Seq<u8>),
    Decoding,
> {
    match parse_header(s) {
        Ok((h, s1)) => {
            if h.0 != type_ {
                Err(Decoding::SpecViolation)
            } else if flags matches Some(f) && h.1 != f {
                Err(Decoding::SpecViolation)
            } else {
                match parse_packetlen(s1) {
                    Ok((len, s2)) => {
                        if s2.len() < len {
                            Err(Decoding::Truncated)
                        } else {
                            Ok((h.1, s2.take(len)))
                        }
                    },
                    Err(k) => Err(k),
                }
            }
        },
        Err(k) => Err(k),
    }
}

/// Parsing a framed packet yields its flags and exact body region, whatever
/// follows the frame.
pub proof fn lemma_frame_roundtrip(
    type_: u8,
    flags: Seq<bool>,
    expected: Option<Seq<bool>>,
    body: Seq<u8>,
    rest: Seq<u8>,
)
    requires
        type_ < 16,
        flags.len() == 4,
        body.len() < 0x10000000,
        expected matches Some(f) ==> f == flags,
    ensures
        parse_frame(type_, expected, packet_frame(type_, flags, body) + rest) == Ok::<
            (Seq<bool>, Seq<u8>),
            Decoding,
        >((flags, body)),
{
    let s = packet_frame(type_, flags, body) + rest;
    lemma_header_roundtrip(type_, flags);
    assert(s[0] == header_byte(type_, flags));
    assert(s.skip(1) =~= packetlen_bytes(body.len() as int) + (body + rest));
    lemma_packetlen_roundtrip(body.len() as int, body + rest);
    assert((body + rest).take(body.len() as int) =~= body);
}

/// Every strict prefix of a framed packet is truncated input for the frame
/// reader.
pub proof fn lemma_frame_truncation(
    type_: u8,
    flags: Seq<bool>,
    expected: Option<Seq<bool>>,
    body: Seq<u8>,
    i: int,
)
    requires
        type_ < 16,
        flags.len() == 4,
        body.len() < 0x10000000,
        expected matches Some(f) ==> f == flags,
        0 <= i < packet_frame(type_, flags, body).len(),
    ensures
        parse_frame(type_, expected, packet_frame(type_, flags, body).take(i)) == Err::<
            (Seq<bool>, Seq<u8>),
            Decoding,
        >(Decoding::Truncated),
{
    let frame = packet_frame(type_, flags, body);
    let s = frame.take(i);
    let n = body.len() as int;
    let lensize = packetlen_size(n);
    lemma_packetlen_len(n);
    lemma_header_roundtrip(type_, flags);
    if i == 0 {
        assert(s.len() == 0);
    } else if i < 1 + lensize {
        assert(s[0] == header_byte(type_, flags));
        assert(s.skip(1) =~= packetlen_bytes(n).take(i - 1));
        lemma_packetlen_prefix(n, i - 1);
    } else {
        assert(s[0] == header_byte(type_, flags));
        assert(s.skip(1) =~= packetlen_bytes(n) + body.take(i - 1 - lensize));
        lemma_packetlen_roundtrip(n, body.take(i - 1 - lensize));
        assert(body.take(i - 1 - lensize).len() < n);
    }
}

/// An acknowledgement packet: a frame whose body is exactly one packet
/// identifier; the remaining length must be exactly 2
pub open spec fn acklike_bytes(type_: u8, packet_id: u16) -> Seq<u8> {
    packet_frame(type_, no_flags(), crate::wire::u16_bytes(packet_id))
}

/// Reads an acknowledgement packet of the given type
pub open spec fn parse_acklike(type_: u8, s: Seq<u8>) -> Result<u16, Decoding> {
    match parse_header(s) {
        Ok((h, s1)) => {
            if h.0 != type_ {
                Err(Decoding::SpecViolation)
            } else {
                match parse_packetlen(s1) {
                    Ok((len, s2)) => {
                        if len != 2 {
                            Err(Decoding::SpecViolation)
                        } else {
                            match crate::wire::parse_u16(s2) {
                                Ok((id, _)) => Ok(id),
                                Err(k) => Err(k),
                            }
                        }
                    },
                    Err(k) => Err(k),
                }
            }
        },
        Err(k) => Err(k),
    }
}

/// An acknowledgement packet round-trips, whatever follows it.
pub proof fn lemma_acklike_roundtrip(type_: u8, packet_id: u16, rest: Seq<u8>)
    requires
        type_ < 16,
    ensures
        parse_acklike(type_, acklike_bytes(type_, packet_id) + rest) == Ok::<u16, Decoding>(
            packet_id,
        ),
{
    let s = acklike_bytes(type_, packet_id) + rest;
    lemma_header_roundtrip(type_, no_flags());
    assert(s[0] == header_byte(type_, no_flags()));
    assert(s.skip(1) =~= packetlen_bytes(2) + (crate::wire::u16_bytes(packet_id) + rest));
    lemma_packetlen_roundtrip(2, crate::wire::u16_bytes(packet_id) + rest);
    crate::wire::lemma_u16_roundtrip(packet_id);
}

/// Every strict prefix of an acknowledgement packet is truncated input.
pub proof fn lemma_acklike_truncation(type_: u8, packet_id: u16, i: int)
    requires
        type_ < 16,
        0 <= i < acklike_bytes(type_, packet_id).len(),
    ensures
        parse_acklike(type_, acklike_bytes(type_, packet_id).take(i)) == Err::<u16, Decoding>(
            Decoding::Truncated,
        ),
{
    let frame = acklike_bytes(type_, packet_id);
    let s = frame.take(i);
    lemma_header_roundtrip(type_, no_flags());
    if i == 0 {
        assert(s.len() == 0);
    } else {
        assert(s[0] == header_byte(type_, no_flags()));
        if i == 1 {
            assert(s.skip(1) =~= Seq::<u8>::empty());
        } else {
            assert(s.skip(1) =~= packetlen_bytes(2) + crate::wire::u16_bytes(packet_id).take(
                i - 2,
            ));
            lemma_packetlen_roundtrip(2, crate::wire::u16_bytes(packet_id).take(i - 2));
        }
    }
}

/// A signal packet: a frame with an empty body; the remaining length must be
/// exactly 0
pub open spec fn signal_bytes(type_: u8) -> Seq<u8> {
    packet_frame(type_, no_flags(), Seq::empty())
}

/// Reads a signal packet of the given type
pub open spec fn parse_signal(type_: u8, s: Seq<u8>) -> Result<(), Decoding> {
    match parse_header(s) {
        Ok((h, s1)) => {
            if h.0 != type_ {
                Err(Decoding::SpecViolation)
            } else {
                match parse_packetlen(s1) {
                    Ok((len, _)) => {
                        if len != 0 {
                            Err(Decoding::SpecViolation)
                        } else {
                            Ok(())
                        }
                    },
                    Err(k) => Err(k),
                }
            }
        },
        Err(k) => Err(k),
    }
}

/// A signal packet round-trips, whatever follows it.
pub proof fn lemma_signal_roundtrip(type_: u8, rest: Seq<u8>)
    requires
        type_ < 16,
    ensures
        parse_signal(type_, signal_bytes(type_) + rest) == Ok::<(), Decoding>(()),
{
    let s = signal_bytes(type_) + rest;
    lemma_header_roundtrip(type_, no_flags());
    assert(s[0] == header_byte(type_, no_flags()));
    assert(s.skip(1) =~= packetlen_bytes(0) + rest);
    lemma_packetlen_roundtrip(0, rest);
}

/// Every strict prefix of a signal packet is truncated input.
pub proof fn lemma_signal_truncation(type_: u8, i: int)
    requires
        type_ < 16,
        0 <= i < signal_bytes(type_).len(),
    ensures
        parse_signal(type_, signal_bytes(type_).take(i)) == Err::<(), Decoding>(
            Decoding::Truncated,
        ),
{
    let s = signal_bytes(type_).take(i);
    if i == 0 {
        assert(s.len() == 0);
    } else {
        assert(i == 1);
        lemma_header_roundtrip(type_, no_flags());
        assert(s[0] == header_byte(type_, no_flags()));
        assert(s.skip(1) =~= Seq::<u8>::empty());
    }
}

} // verus!
