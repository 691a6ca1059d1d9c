//! The MQTT UNSUBSCRIBE packet: a request to drop a list of topic filters.

use crate::anyvec::{bufs_view, ByteBuf};
use crate::coding::length::Length;
use crate::coding::{Decoder, Encoder};
use crate::error::{DecoderError, Decoding, Error, MemoryError};
use crate::packets::{lemma_frame_roundtrip, lemma_frame_truncation, packet_frame, parse_frame};
use crate::wire::{
    lemma_topics_roundtrip, lemma_topics_sound, lemma_u16_roundtrip, parse_topics,
    parse_u16, topics_bytes, topics_fit, u16_bytes,
};
use vstd::prelude::*;

verus! {

/// The mathematical content of a UNSUBSCRIBE packet
pub struct UnsubscribeView {
    /// The packet identifier
    pub packet_id: u16,
    /// The topic filters to unsubscribe from
    pub topics: Seq<Seq<u8>>,
}

/// A UNSUBSCRIBE value that can be framed: every topic fits its length prefix
/// and the body fits the remaining-length field
pub open spec fn unsubscribe_wf(v: UnsubscribeView) -> bool {
    &&& topics_fit(v.topics)
    &&& unsubscribe_body(v).len() < 0x10000000
}

/// The fixed flag nibble of a UNSUBSCRIBE packet
pub open spec fn unsubscribe_flags() -> Seq<bool> {
    seq![false, false, true, false]
}

/// The body of a UNSUBSCRIBE packet: packet identifier, then the topic+QoS
/// sequence to the end of the region
pub open spec fn unsubscribe_body(v: UnsubscribeView) -> Seq<u8> {
    u16_bytes(v.packet_id) + topics_bytes(v.topics)
}

/// The canonical encoding of a UNSUBSCRIBE packet
pub open spec fn unsubscribe_bytes(v: UnsubscribeView) -> Seq<u8> {
    packet_frame(10, unsubscribe_flags(), unsubscribe_body(v))
}

/// Reads a UNSUBSCRIBE packet: type 8 with the fixed flag nibble `0010`, then
/// within the remaining-length region the packet identifier and the
/// topic+QoS sequence
pub open spec fn parse_unsubscribe(s: Seq<u8>) -> Result<UnsubscribeView, Decoding> {
    match parse_frame(10, Some(unsubscribe_flags()), s) {
        Ok((f, region)) => match parse_u16(region) {
            Ok((packet_id, r1)) => match parse_topics(r1) {
                Ok(topics) => Ok(UnsubscribeView { packet_id, topics }),
                Err(k) => Err(k),
            },
            Err(k) => Err(k),
        },
        Err(k) => Err(k),
    }
}

/// An MQTT UNSUBSCRIBE packet
#[derive(Debug, Clone, PartialEq, Eq)]
pub struct Unsubscribe {
    /// The packet ID
    packet_id: u16,
    /// A list of topic filters
    topics: Vec<ByteBuf>,
}

impl View for Unsubscribe {
    type V = UnsubscribeView;

    closed spec fn view(&self) -> UnsubscribeView {
        UnsubscribeView { packet_id: self.packet_id, topics: bufs_view(self.topics@) }
    }
}

impl Unsubscribe {
    /// The packet type constant
    pub const TYPE: u8 = 10;

    /// Creates a new packet from a list of topic filters
    pub fn new(packet_id: u16, topics: Vec<ByteBuf>) -> (r: Result<Self, MemoryError>)
        ensures
            r matches Ok(p) && p@ == (UnsubscribeView {
                packet_id: packet_id,
                topics: bufs_view(topics@),
            }),
    {
        Ok(Self { packet_id, topics })
    }

    /// The packet ID
    pub fn packet_id(&self) -> (r: u16)
        ensures
            r == self@.packet_id,
    {
        self.packet_id
    }

    /// A list of `(topic, qos)`-tuples
    pub fn topics(&self) -> (r: &Vec<ByteBuf>)
        ensures
            bufs_view(r@) == self@.topics,
    {
        &self.topics
    }

    /// Tries to parse a UNSUBSCRIBE packet from the given bytes; bytes past
    /// the packet's remaining length are left untouched
    pub fn try_from_iter(bytes: Vec<u8>) -> (r: Result<Self, DecoderError>)
        ensures
            match parse_unsubscribe(bytes@) {
                Ok(v) => r matches Ok(p) && p@ == v && unsubscribe_wf(v),
                Err(k) => r matches Err(e) && e.variant == k,
            },
    {
        let mut decoder = Decoder::new(bytes);
        let header = match decoder.header() {
            Ok(h) => h,
            Err(e) => {
                return Err(e);
            },
        };
        if header.0 != Self::TYPE {
            return Err(Error::new(Decoding::SpecViolation));
        }
        if header.1[0] || header.1[1] || !header.1[2] || header.1[3] {
            proof {
                assert(header.1@ != unsubscribe_flags());
            }
            return Err(Error::new(Decoding::SpecViolation));
        }
        proof {
            assert(header.1@ =~= unsubscribe_flags());
        }
        let len = match decoder.packetlen() {
            Ok(l) => l,
            Err(e) => {
                return Err(e);
            },
        };
        if decoder.remaining_len() < len {
            return Err(Error::new(Decoding::Truncated));
        }
        let mut decoder = decoder.limit(len).peekable();
        let packet_id = match decoder.u16() {
            Ok(v) => v,
            Err(e) => {
                return Err(e);
            },
        };
        let topics = match decoder.topics() {
            Ok(v) => v,
            Err(e) => {
                return Err(e);
            },
        };
        proof {
            let region = parse_frame(10, Some(unsubscribe_flags()), bytes@)->Ok_0.1;
            let r1 = parse_u16(region)->Ok_0.1;
            if parse_topics(r1) is Ok {
                let v = parse_unsubscribe(bytes@)->Ok_0;
                lemma_topics_sound(r1);
                assert(region =~= unsubscribe_body(v));
            }
        }
        Ok(Self { packet_id, topics })
    }

    /// Encodes the packet as its canonical byte sequence
    pub fn into_vec(self) -> (r: Vec<u8>)
        requires
            unsubscribe_wf(self@),
        ensures
            r@ == unsubscribe_bytes(self@),
    {
        let len = Length::new().u16(&self.packet_id).topics(&self.topics).finalize();
        proof {
            assert(len as int == unsubscribe_body(self@).len());
        }
        let r = Encoder::default().header(Self::TYPE, [false, false, true, false]).packetlen(
            len,
        ).u16(self.packet_id).topics(self.topics).into_vec();
        proof {
            assert(r@ =~= unsubscribe_bytes(self@));
        }
        r
    }
}

/// A UNSUBSCRIBE packet round-trips: parsing its canonical encoding yields the
/// packet back, whatever follows the frame.
pub proof fn lemma_unsubscribe_roundtrip(v: UnsubscribeView, rest: Seq<u8>)
    requires
        unsubscribe_wf(v),
    ensures
        parse_unsubscribe(unsubscribe_bytes(v) + rest) == Ok::<UnsubscribeView, Decoding>(v),
{
    let body = unsubscribe_body(v);
    lemma_frame_roundtrip(10, unsubscribe_flags(), Some(unsubscribe_flags()), body, rest);
    lemma_u16_roundtrip(v.packet_id);
    assert(body[0] == crate::wire::u16_hi(v.packet_id));
    assert(body[1] == crate::wire::u16_lo(v.packet_id));
    assert(body.skip(2) =~= topics_bytes(v.topics));
    lemma_topics_roundtrip(v.topics);
}

/// Every strict prefix of an encoded UNSUBSCRIBE packet is truncated input.
pub proof fn lemma_unsubscribe_truncation(v: UnsubscribeView, i: int)
    requires
        unsubscribe_wf(v),
        0 <= i < unsubscribe_bytes(v).len(),
    ensures
        parse_unsubscribe(unsubscribe_bytes(v).take(i)) == Err::<UnsubscribeView, Decoding>(
            Decoding::Truncated,
        ),
{
    lemma_frame_truncation(10, unsubscribe_flags(), Some(unsubscribe_flags()), unsubscribe_body(v), i);
}

} // verus!
