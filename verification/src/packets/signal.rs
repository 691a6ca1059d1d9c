//! The MQTT signal packets: an empty body and a remaining length of zero.
//! DISCONNECT, PINGREQ and PINGRESP share this shape and differ only in
//! their packet type.

use crate::coding::{Decoder, Encoder};
use crate::error::{DecoderError, Decoding, Error};
use crate::packets::{parse_signal, signal_bytes};
use vstd::prelude::*;

verus! {

/// An MQTT DISCONNECT packet
#[derive(Debug, Clone, PartialEq, Eq)]
pub struct Disconnect {}

impl Disconnect {
    /// The packet type constant
    pub const TYPE: u8 = 14;

    /// Creates a new packet
    pub fn new() -> (r: Self) {
        Self {  }
    }

    /// Tries to parse a DISCONNECT packet from the given bytes; bytes past the
    /// packet's remaining length are left untouched
    pub fn try_from_iter(bytes: Vec<u8>) -> (r: Result<Self, DecoderError>)
        ensures
            match parse_signal(14, bytes@) {
                Ok(u) => r is Ok,
                Err(k) => r matches Err(e) && e.variant == k,
            },
    {
        let mut decoder = Decoder::new(bytes);
        let header = match decoder.header() {
            Ok(h) => h,
            Err(e) => {
                return Err(e);
            },
        };
        if header.0 != Self::TYPE {
            return Err(Error::new(Decoding::SpecViolation));
        }
        let len = match decoder.packetlen() {
            Ok(l) => l,
            Err(e) => {
                return Err(e);
            },
        };
        if len != 0 {
            return Err(Error::new(Decoding::SpecViolation));
        }
        Ok(Self {  })
    }

    /// Encodes the packet as its canonical byte sequence
    pub fn into_vec(self) -> (r: Vec<u8>)
        ensures
            r@ == signal_bytes(14),
    {
        let r = Encoder::default().header(Self::TYPE, [false, false, false, false]).packetlen(
            0,
        ).into_vec();
        proof {
            assert(r@ =~= signal_bytes(14));
        }
        r
    }
}

/// An MQTT PINGREQ packet
#[derive(Debug, Clone, PartialEq, Eq)]
pub struct Pingreq {}

impl Pingreq {
    /// The packet type constant
    pub const TYPE: u8 = 12;

    /// Creates a new packet
    pub fn new() -> (r: Self) {
        Self {  }
    }

    /// Tries to parse a PINGREQ packet from the given bytes; bytes past the
    /// packet's remaining length are left untouched
    pub fn try_from_iter(bytes: Vec<u8>) -> (r: Result<Self, DecoderError>)
        ensures
            match parse_signal(12, bytes@) {
                Ok(u) => r is Ok,
                Err(k) => r matches Err(e) && e.variant == k,
            },
    {
        let mut decoder = Decoder::new(bytes);
        let header = match decoder.header() {
            Ok(h) => h,
            Err(e) => {
                return Err(e);
            },
        };
        if header.0 != Self::TYPE {
            return Err(Error::new(Decoding::SpecViolation));
        }
        let len = match decoder.packetlen() {
            Ok(l) => l,
            Err(e) => {
                return Err(e);
            },
        };
        if len != 0 {
            return Err(Error::new(Decoding::SpecViolation));
        }
        Ok(Self {  })
    }

    /// Encodes the packet as its canonical byte sequence
    pub fn into_vec(self) -> (r: Vec<u8>)
        ensures
            r@ == signal_bytes(12),
    {
        let r = Encoder::default().header(Self::TYPE, [false, false, false, false]).packetlen(
            0,
        ).into_vec();
        proof {
            assert(r@ =~= signal_bytes(12));
        }
        r
    }
}

/// An MQTT PINGRESP packet
#[derive(Debug, Clone, PartialEq, Eq)]
pub struct Pingresp {}

impl Pingresp {
    /// The packet type constant
    pub const TYPE: u8 = 13;

    /// Creates a new packet
    pub fn new() -> (r: Self) {
        Self {  }
    }

    /// Tries to parse a PINGRESP packet from the given bytes; bytes past the
    /// packet's remaining length are left untouched
    pub fn try_from_iter(bytes: Vec<u8>) -> (r: Result<Self, DecoderError>)
        ensures
            match parse_signal(13, bytes@) {
                Ok(u) => r is Ok,
                Err(k) => r matches Err(e) && e.variant == k,
            },
    {
        let mut decoder = Decoder::new(bytes);
        let header = match decoder.header() {
            Ok(h) => h,
            Err(e) => {
                return Err(e);
            },
        };
        if header.0 != Self::TYPE {
            return Err(Error::new(Decoding::SpecViolation));
        }
        let len = match decoder.packetlen() {
            Ok(l) => l,
            Err(e) => {
                return Err(e);
            },
        };
        if len != 0 {
            return Err(Error::new(Decoding::SpecViolation));
        }
        Ok(Self {  })
    }

    /// Encodes the packet as its canonical byte sequence
    pub fn into_vec(self) -> (r: Vec<u8>)
        ensures
            r@ == signal_bytes(13),
    {
        let r = Encoder::default().header(Self::TYPE, [false, false, false, false]).packetlen(
            0,
        ).into_vec();
        proof {
            assert(r@ =~= signal_bytes(13));
        }
        r
    }
}

} // verus!
