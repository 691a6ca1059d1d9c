//! The MQTT CONNACK packet: the server's answer to a connection request.

use crate::coding::{Decoder, Encoder};
use crate::error::{DecoderError, Decoding, Error};
use crate::packets::{no_flags, packet_frame};
use crate::wire::{
    bitmap_byte, lemma_bitmap_roundtrip, lemma_header_roundtrip, lemma_packetlen_roundtrip,
    packetlen_bytes, parse_bitmap, parse_header, parse_packetlen, parse_u8,
};
use vstd::prelude::*;

verus! {

/// The mathematical content of a CONNACK packet
pub struct ConnackView {
    /// Whether a previous session is present
    pub session_present: bool,
    /// The return code
    pub return_code: u8,
}

/// The acknowledgement-flags byte: bit 0 carries `session_present`, the
/// other bits are reserved and zero
pub open spec fn ack_bits(session_present: bool) -> Seq<bool> {
    seq![false, false, false, false, false, false, false, session_present]
}

/// The canonical encoding of a CONNACK packet
pub open spec fn connack_bytes(v: ConnackView) -> Seq<u8> {
    packet_frame(2, no_flags(), seq![bitmap_byte(ack_bits(v.session_present)), v.return_code])
}

/// Reads a CONNACK packet: type 2, remaining length exactly 2, then the
/// acknowledgement flags (only bit 0 is inspected) and the return code
pub open spec fn parse_connack(s: Seq<u8>) -> Result<ConnackView, Decoding> {
    match parse_header(s) {
        Ok((h, s1)) => {
            if h.0 != 2 {
                Err(Decoding::SpecViolation)
            } else {
                match parse_packetlen(s1) {
                    Ok((len, s2)) => {
                        if len != 2 {
                            Err(Decoding::SpecViolation)
                        } else {
                            match parse_bitmap(s2) {
                                Ok((bits, s3)) => match parse_u8(s3) {
                                    Ok((rc, _)) => Ok(
                                        ConnackView { session_present: bits[7], return_code: rc },
                                    ),
                                    Err(k) => Err(k),
                                },
                                Err(k) => Err(k),
                            }
                        }
                    },
                    Err(k) => Err(k),
                }
            }
        },
        Err(k) => Err(k),
    }
}

/// An MQTT CONNACK packet
#[derive(Debug, Clone, PartialEq, Eq)]
pub struct Connack {
    /// Whether a previous session is present or not
    session_present: bool,
    /// The return code
    return_code: u8,
}

impl View for Connack {
    type V = ConnackView;

    closed spec fn view(&self) -> ConnackView {
        ConnackView { session_present: self.session_present, return_code: self.return_code }
    }
}

impl Connack {
    /// The packet type constant
    pub const TYPE: u8 = 2;

    /// Creates a new packet
    pub fn new(session_present: bool, return_code: u8) -> (r: Self)
        ensures
            r@.session_present == session_present,
            r@.return_code == return_code,
    {
        Self { session_present, return_code }
    }

    /// Whether a previous session is present or not
    pub fn session_present(&self) -> (r: bool)
        ensures
            r == self@.session_present,
    {
        self.session_present
    }

    /// The return code
    pub fn return_code(&self) -> (r: u8)
        ensures
            r == self@.return_code,
    {
        self.return_code
    }

    /// Tries to parse a CONNACK packet from the given bytes; bytes past the
    /// packet's remaining length are left untouched
    pub fn try_from_iter(bytes: Vec<u8>) -> (r: Result<Self, DecoderError>)
        ensures
            match parse_connack(bytes@) {
                Ok(v) => r matches Ok(p) && p@ == v,
                Err(k) => r matches Err(e) && e.variant == k,
            },
    {
        let mut decoder = Decoder::new(bytes);
        let header = match decoder.header() {
            Ok(h) => h,
            Err(e) => {
                return Err(e);
            },
        };
        if header.0 != Self::TYPE {
            return Err(Error::new(Decoding::SpecViolation));
        }
        let len = match decoder.packetlen() {
            Ok(l) => l,
            Err(e) => {
                return Err(e);
            },
        };
        if len != 2 {
            return Err(Error::new(Decoding::SpecViolation));
        }
        let flags = match decoder.bitmap() {
            Ok(f) => f,
            Err(e) => {
                return Err(e);
            },
        };
        let return_code = match decoder.u8() {
            Ok(b) => b,
            Err(e) => {
                return Err(e);
            },
        };
        Ok(Self { session_present: flags[7], return_code })
    }

    /// Encodes the packet as its canonical byte sequence
    pub fn into_vec(self) -> (r: Vec<u8>)
        ensures
            r@ == connack_bytes(self@),
    {
        let r = Encoder::default().header(
            Self::TYPE,
            [false, false, false, false],
        ).packetlen(2).bitmap(
            [false, false, false, false, false, false, false, self.session_present],
        ).u8(self.return_code).into_vec();
        proof {
            assert(r@ =~= connack_bytes(self@));
        }
        r
    }
}

/// A CONNACK packet round-trips: parsing its canonical encoding yields the
/// packet back, whatever follows the frame.
pub proof fn lemma_connack_roundtrip(v: ConnackView, rest: Seq<u8>)
    ensures
        parse_connack(connack_bytes(v) + rest) == Ok::<ConnackView, Decoding>(v),
{
    let body = seq![bitmap_byte(ack_bits(v.session_present)), v.return_code];
    let s = connack_bytes(v) + rest;
    lemma_header_roundtrip(2, no_flags());
    assert(s[0] == crate::wire::header_byte(2, no_flags()));
    assert(s.skip(1) =~= packetlen_bytes(2) + (body + rest));
    lemma_packetlen_roundtrip(2, body + rest);
    lemma_bitmap_roundtrip(ack_bits(v.session_present));
    assert((body + rest).skip(1) =~= seq![v.return_code] + rest);
}

/// Every strict prefix of an encoded CONNACK packet is truncated input.
pub proof fn lemma_connack_truncation(v: ConnackView, i: int)
    requires
        0 <= i < connack_bytes(v).len(),
    ensures
        parse_connack(connack_bytes(v).take(i)) == Err::<ConnackView, Decoding>(
            Decoding::Truncated,
        ),
{
    let body = seq![bitmap_byte(ack_bits(v.session_present)), v.return_code];
    let s = connack_bytes(v).take(i);
    lemma_header_roundtrip(2, no_flags());
    if i == 0 {
        assert(s.len() == 0);
    } else {
        assert(s[0] == crate::wire::header_byte(2, no_flags()));
        if i == 1 {
            assert(s.skip(1) =~= Seq::<u8>::empty());
        } else {
            assert(s.skip(1) =~= packetlen_bytes(2) + body.take(i - 2));
            lemma_packetlen_roundtrip(2, body.take(i - 2));
            if i == 3 {
                assert(body.take(1).skip(1) =~= Seq::<u8>::empty());
            }
        }
    }
}

} // verus!
