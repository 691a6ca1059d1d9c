//! The MQTT acknowledgement packets: a fixed two-byte body holding one
//! packet identifier.  PUBACK, PUBREC, PUBREL, PUBCOMP, SUBACK and UNSUBACK
//! share this shape and differ only in their packet type.

use crate::coding::{Decoder, Encoder};
use crate::error::{DecoderError, Decoding, Error};
use crate::packets::{acklike_bytes, parse_acklike};
use vstd::prelude::*;

verus! {

/// An MQTT PUBACK packet
#[derive(Debug, Clone, PartialEq, Eq)]
pub struct Puback {
    /// The packet identifier
    packet_id: u16,
}

impl View for Puback {
    type V = u16;

    closed spec fn view(&self) -> u16 {
        self.packet_id
    }
}

impl Puback {
    /// The packet type constant
    pub const TYPE: u8 = 4;

    /// Creates a new packet
    pub fn new(packet_id: u16) -> (r: Self)
        ensures
            r@ == packet_id,
    {
        Self { packet_id }
    }

    /// The packet ID
    pub fn packet_id(&self) -> (r: u16)
        ensures
            r == self@,
    {
        self.packet_id
    }

    /// Tries to parse a PUBACK packet from the given bytes; bytes past the
    /// packet's remaining length are left untouched
    pub fn try_from_iter(bytes: Vec<u8>) -> (r: Result<Self, DecoderError>)
        ensures
            match parse_acklike(4, bytes@) {
                Ok(id) => r matches Ok(p) && p@ == id,
                Err(k) => r matches Err(e) && e.variant == k,
            },
    {
        let mut decoder = Decoder::new(bytes);
        let header = match decoder.header() {
            Ok(h) => h,
            Err(e) => {
                return Err(e);
            },
        };
        if header.0 != Self::TYPE {
            return Err(Error::new(Decoding::SpecViolation));
        }
        let len = match decoder.packetlen() {
            Ok(l) => l,
            Err(e) => {
                return Err(e);
            },
        };
        if len != 2 {
            return Err(Error::new(Decoding::SpecViolation));
        }
        let packet_id = match decoder.u16() {
            Ok(v) => v,
            Err(e) => {
                return Err(e);
            },
        };
        Ok(Self { packet_id })
    }

    /// Encodes the packet as its canonical byte sequence
    pub fn into_vec(self) -> (r: Vec<u8>)
        ensures
            r@ == acklike_bytes(4, self@),
    {
        let r = Encoder::default().header(Self::TYPE, [false, false, false, false]).packetlen(
            2,
        ).u16(self.packet_id).into_vec();
        proof {
            assert(r@ =~= acklike_bytes(4, self@));
        }
        r
    }
}

/// An MQTT PUBREC packet
#[derive(Debug, Clone, PartialEq, Eq)]
pub struct Pubrec {
    /// The packet identifier
    packet_id: u16,
}

impl View for Pubrec {
    type V = u16;

    closed spec fn view(&self) -> u16 {
        self.packet_id
    }
}

impl Pubrec {
    /// The packet type constant
    pub const TYPE: u8 = 5;

    /// Creates a new packet
    pub fn new(packet_id: u16) -> (r: Self)
        ensures
            r@ == packet_id,
    {
        Self { packet_id }
    }

    /// The packet ID
    pub fn packet_id(&self) -> (r: u16)
        ensures
            r == self@,
    {
        self.packet_id
    }

    /// Tries to parse a PUBREC packet from the given bytes; bytes past the
    /// packet's remaining length are left untouched
    pub fn try_from_iter(bytes: Vec<u8>) -> (r: Result<Self, DecoderError>)
        ensures
            match parse_acklike(5, bytes@) {
                Ok(id) => r matches Ok(p) && p@ == id,
                Err(k) => r matches Err(e) && e.variant == k,
            },
    {
        let mut decoder = Decoder::new(bytes);
        let header = match decoder.header() {
            Ok(h) => h,
            Err(e) => {
                return Err(e);
            },
        };
        if header.0 != Self::TYPE {
            return Err(Error::new(Decoding::SpecViolation));
        }
        let len = match decoder.packetlen() {
            Ok(l) => l,
            Err(e) => {
                return Err(e);
            },
        };
        if len != 2 {
            return Err(Error::new(Decoding::SpecViolation));
        }
        let packet_id = match decoder.u16() {
            Ok(v) => v,
            Err(e) => {
                return Err(e);
            },
        };
        Ok(Self { packet_id })
    }

    /// Encodes the packet as its canonical byte sequence
    pub fn into_vec(self) -> (r: Vec<u8>)
        ensures
            r@ == acklike_bytes(5, self@),
    {
        let r = Encoder::default().header(Self::TYPE, [false, false, false, false]).packetlen(
            2,
        ).u16(self.packet_id).into_vec();
        proof {
            assert(r@ =~= acklike_bytes(5, self@));
        }
        r
    }
}

/// An MQTT PUBREL packet
#[derive(Debug, Clone, PartialEq, Eq)]
pub struct Pubrel {
    /// The packet identifier
    packet_id: u16,
}

impl View for Pubrel {
    type V = u16;

    closed spec fn view(&self) -> u16 {
        self.packet_id
    }
}

impl Pubrel {
    /// The packet type constant
    pub const TYPE: u8 = 6;

    /// Creates a new packet
    pub fn new(packet_id: u16) -> (r: Self)
        ensures
            r@ == packet_id,
    {
        Self { packet_id }
    }

    /// The packet ID
    pub fn packet_id(&self) -> (r: u16)
        ensures
            r == self@,
    {
        self.packet_id
    }

    /// Tries to parse a PUBREL packet from the given bytes; bytes past the
    /// packet's remaining length are left untouched
    pub fn try_from_iter(bytes: Vec<u8>) -> (r: Result<Self, DecoderError>)
        ensures
            match parse_acklike(6, bytes@) {
                Ok(id) => r matches Ok(p) && p@ == id,
                Err(k) => r matches Err(e) && e.variant == k,
            },
    {
        let mut decoder = Decoder::new(bytes);
        let header = match decoder.header() {
            Ok(h) => h,
            Err(e) => {
                return Err(e);
            },
        };
        if header.0 != Self::TYPE {
            return Err(Error::new(Decoding::SpecViolation));
        }
        let len = match decoder.packetlen() {
            Ok(l) => l,
            Err(e) => {
                return Err(e);
            },
        };
        if len != 2 {
            return Err(Error::new(Decoding::SpecViolation));
        }
        let packet_id = match decoder.u16() {
            Ok(v) => v,
            Err(e) => {
                return Err(e);
            },
        };
        Ok(Self { packet_id })
    }

    /// Encodes the packet as its canonical byte sequence
    pub fn into_vec(self) -> (r: Vec<u8>)
        ensures
            r@ == acklike_bytes(6, self@),
    {
        let r = Encoder::default().header(Self::TYPE, [false, false, false, false]).packetlen(
            2,
        ).u16(self.packet_id).into_vec();
        proof {
            assert(r@ =~= acklike_bytes(6, self@));
        }
        r
    }
}

/// An MQTT PUBCOMP packet
#[derive(Debug, Clone, PartialEq, Eq)]
pub struct Pubcomp {
    /// The packet identifier
    packet_id: u16,
}

impl View for Pubcomp {
    type V = u16;

    closed spec fn view(&self) -> u16 {
        self.packet_id
    }
}

impl Pubcomp {
    /// The packet type constant
    pub const TYPE: u8 = 7;

    /// Creates a new packet
    pub fn new(packet_id: u16) -> (r: Self)
        ensures
            r@ == packet_id,
    {
        Self { packet_id }
    }

    /// The packet ID
    pub fn packet_id(&self) -> (r: u16)
        ensures
            r == self@,
    {
        self.packet_id
    }

    /// Tries to parse a PUBCOMP packet from the given bytes; bytes past the
    /// packet's remaining length are left untouched
    pub fn try_from_iter(bytes: Vec<u8>) -> (r: Result<Self, DecoderError>)
        ensures
            match parse_acklike(7, bytes@) {
                Ok(id) => r matches Ok(p) && p@ == id,
                Err(k) => r matches Err(e) && e.variant == k,
            },
    {
        let mut decoder = Decoder::new(bytes);
        let header = match decoder.header() {
            Ok(h) => h,
            Err(e) => {
                return Err(e);
            },
        };
        if header.0 != Self::TYPE {
            return Err(Error::new(Decoding::SpecViolation));
        }
        let len = match decoder.packetlen() {
            Ok(l) => l,
            Err(e) => {
                return Err(e);
            },
        };
        if len != 2 {
            return Err(Error::new(Decoding::SpecViolation));
        }
        let packet_id = match decoder.u16() {
            Ok(v) => v,
            Err(e) => {
                return Err(e);
            },
        };
        Ok(Self { packet_id })
    }

    /// Encodes the packet as its canonical byte sequence
    pub fn into_vec(self) -> (r: Vec<u8>)
        ensures
            r@ == acklike_bytes(7, self@),
    {
        let r = Encoder::default().header(Self::TYPE, [false, false, false, false]).packetlen(
            2,
        ).u16(self.packet_id).into_vec();
        proof {
            assert(r@ =~= acklike_bytes(7, self@));
        }
        r
    }
}

/// An MQTT SUBACK packet
#[derive(Debug, Clone, PartialEq, Eq)]
pub struct Suback {
    /// The packet identifier
    packet_id: u16,
}

impl View for Suback {
    type V = u16;

    closed spec fn view(&self) -> u16 {
        self.packet_id
    }
}

impl Suback {
    /// The packet type constant
    pub const TYPE: u8 = 9;

    /// Creates a new packet
    pub fn new(packet_id: u16) -> (r: Self)
        ensures
            r@ == packet_id,
    {
        Self { packet_id }
    }

    /// The packet ID
    pub fn packet_id(&self) -> (r: u16)
        ensures
            r == self@,
    {
        self.packet_id
    }

    /// Tries to parse a SUBACK packet from the given bytes; bytes past the
    /// packet's remaining length are left untouched
    pub fn try_from_iter(bytes: Vec<u8>) -> (r: Result<Self, DecoderError>)
        ensures
            match parse_acklike(9, bytes@) {
                Ok(id) => r matches Ok(p) && p@ == id,
                Err(k) => r matches Err(e) && e.variant == k,
            },
    {
        let mut decoder = Decoder::new(bytes);
        let header = match decoder.header() {
            Ok(h) => h,
            Err(e) => {
                return Err(e);
            },
        };
        if header.0 != Self::TYPE {
            return Err(Error::new(Decoding::SpecViolation));
        }
        let len = match decoder.packetlen() {
            Ok(l) => l,
            Err(e) => {
                return Err(e);
            },
        };
        if len != 2 {
            return Err(Error::new(Decoding::SpecViolation));
        }
        let packet_id = match decoder.u16() {
            Ok(v) => v,
            Err(e) => {
                return Err(e);
            },
        };
        Ok(Self { packet_id })
    }

    /// Encodes the packet as its canonical byte sequence
    pub fn into_vec(self) -> (r: Vec<u8>)
        ensures
            r@ == acklike_bytes(9, self@),
    {
        let r = Encoder::default().header(Self::TYPE, [false, false, false, false]).packetlen(
            2,
        ).u16(self.packet_id).into_vec();
        proof {
            assert(r@ =~= acklike_bytes(9, self@));
        }
        r
    }
}

/// An MQTT UNSUBACK packet
#[derive(Debug, Clone, PartialEq, Eq)]
pub struct Unsuback {
    /// The packet identifier
    packet_id: u16,
}

impl View for Unsuback {
    type V = u16;

    closed spec fn view(&self) -> u16 {
        self.packet_id
    }
}

impl Unsuback {
    /// The packet type constant
    pub const TYPE: u8 = 11;

    /// Creates a new packet
    pub fn new(packet_id: u16) -> (r: Self)
        ensures
            r@ == packet_id,
    {
        Self { packet_id }
    }

    /// The packet ID
    pub fn packet_id(&self) -> (r: u16)
        ensures
            r == self@,
    {
        self.packet_id
    }

    /// Tries to parse a UNSUBACK packet from the given bytes; bytes past the
    /// packet's remaining length are left untouched
    pub fn try_from_iter(bytes: Vec<u8>) -> (r: Result<Self, DecoderError>)
        ensures
            match parse_acklike(11, bytes@) {
                Ok(id) => r matches Ok(p) && p@ == id,
                Err(k) => r matches Err(e) && e.variant == k,
            },
    {
        let mut decoder = Decoder::new(bytes);
        let header = match decoder.header() {
            Ok(h) => h,
            Err(e) => {
                return Err(e);
            },
        };
        if header.0 != Self::TYPE {
            return Err(Error::new(Decoding::SpecViolation));
        }
        let len = match decoder.packetlen() {
            Ok(l) => l,
            Err(e) => {
                return Err(e);
            },
        };
        if len != 2 {
            return Err(Error::new(Decoding::SpecViolation));
        }
        let packet_id = match decoder.u16() {
            Ok(v) => v,
            Err(e) => {
                return Err(e);
            },
        };
        Ok(Self { packet_id })
    }

    /// Encodes the packet as its canonical byte sequence
    pub fn into_vec(self) -> (r: Vec<u8>)
        ensures
            r@ == acklike_bytes(11, self@),
    {
        let r = Encoder::default().header(Self::TYPE, [false, false, false, false]).packetlen(
            2,
        ).u16(self.packet_id).into_vec();
        proof {
            assert(r@ =~= acklike_bytes(11, self@));
        }
        r
    }
}

} // verus!
