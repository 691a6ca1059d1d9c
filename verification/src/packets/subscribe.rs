//! The MQTT SUBSCRIBE packet: a subscription request for a list of topic
//! filters, each with a requested QoS level.

use crate::anyvec::{pairs_view, ByteBuf};
use crate::coding::length::Length;
use crate::coding::{Decoder, Encoder};
use crate::error::{DecoderError, Decoding, Error, MemoryError};
use crate::packets::{lemma_frame_roundtrip, lemma_frame_truncation, packet_frame, parse_frame};
use crate::wire::{
    lemma_topics_qos_roundtrip, lemma_topics_qos_sound, lemma_u16_roundtrip, parse_topics_qos,
    parse_u16, topics_qos_bytes, topics_qos_fit, u16_bytes,
};
use vstd::prelude::*;

verus! {

/// The mathematical content of a SUBSCRIBE packet
pub struct SubscribeView {
    /// The packet identifier
    pub packet_id: u16,
    /// The requested topic filters with their QoS levels
    pub topics_qos: Seq<(Seq<u8>, u8)>,
}

/// A SUBSCRIBE value that can be framed: every topic fits its length prefix
/// and the body fits the remaining-length field
pub open spec fn subscribe_wf(v: SubscribeView) -> bool {
    &&& topics_qos_fit(v.topics_qos)
    &&& subscribe_body(v).len() < 0x10000000
}

/// The fixed flag nibble of a SUBSCRIBE packet
pub open spec fn subscribe_flags() -> Seq<bool> {
    seq![false, false, true, false]
}

/// The body of a SUBSCRIBE packet: packet identifier, then the topic+QoS
/// sequence to the end of the region
pub open spec fn subscribe_body(v: SubscribeView) -> Seq<u8> {
    u16_bytes(v.packet_id) + topics_qos_bytes(v.topics_qos)
}

/// The canonical encoding of a SUBSCRIBE packet
pub open spec fn subscribe_bytes(v: SubscribeView) -> Seq<u8> {
    packet_frame(8, subscribe_flags(), subscribe_body(v))
}

/// Reads a SUBSCRIBE packet: type 8 with the fixed flag nibble `0010`, then
/// within the remaining-length region the packet identifier and the
/// topic+QoS sequence
pub open spec fn parse_subscribe(s: Seq<u8>) -> Result<SubscribeView, Decoding> {
    match parse_frame(8, Some(subscribe_flags()), s) {
        Ok((f, region)) => match parse_u16(region) {
            Ok((packet_id, r1)) => match parse_topics_qos(r1) {
                Ok(topics_qos) => Ok(SubscribeView { packet_id, topics_qos }),
                Err(k) => Err(k),
            },
            Err(k) => Err(k),
        },
        Err(k) => Err(k),
    }
}

/// An MQTT SUBSCRIBE packet
#[derive(Debug, Clone, PartialEq, Eq)]
pub struct Subscribe {
    /// The packet ID
    packet_id: u16,
    /// A list of `(topic, qos)`-tuples
    topics_qos: Vec<(ByteBuf, u8)>,
}

impl View for Subscribe {
    type V = SubscribeView;

    closed spec fn view(&self) -> SubscribeView {
        SubscribeView { packet_id: self.packet_id, topics_qos: pairs_view(self.topics_qos@) }
    }
}

impl Subscribe {
    /// The packet type constant
    pub const TYPE: u8 = 8;

    /// Creates a new packet from `(topic, qos)` pairs
    pub fn new(packet_id: u16, topics: Vec<(ByteBuf, u8)>) -> (r: Result<Self, MemoryError>)
        ensures
            r matches Ok(p) && p@ == (SubscribeView {
                packet_id: packet_id,
                topics_qos: pairs_view(topics@),
            }),
    {
        Ok(Self { packet_id, topics_qos: topics })
    }

    /// The packet ID
    pub fn packet_id(&self) -> (r: u16)
        ensures
            r == self@.packet_id,
    {
        self.packet_id
    }

    /// A list of `(topic, qos)`-tuples
    pub fn topics_qos(&self) -> (r: &Vec<(ByteBuf, u8)>)
        ensures
            pairs_view(r@) == self@.topics_qos,
    {
        &self.topics_qos
    }

    /// Tries to parse a SUBSCRIBE packet from the given bytes; bytes past
    /// the packet's remaining length are left untouched
    #[verifier::rlimit(100)]
    pub fn try_from_iter(bytes: Vec<u8>) -> (r: Result<Self, DecoderError>)
        ensures
            match parse_subscribe(bytes@) {
                Ok(v) => r matches Ok(p) && p@ == v && subscribe_wf(v),
                Err(k) => r matches Err(e) && e.variant == k,
            },
    {
        let mut decoder = Decoder::new(bytes);
        let header = match decoder.header() {
            Ok(h) => h,
            Err(e) => {
                return Err(e);
            },
        };
        if header.0 != Self::TYPE {
            return Err(Error::new(Decoding::SpecViolation));
        }
        if header.1[0] || header.1[1] || !header.1[2] || header.1[3] {
            proof {
                assert(header.1@ != subscribe_flags());
            }
            return Err(Error::new(Decoding::SpecViolation));
        }
        proof {
            assert(header.1@ =~= subscribe_flags());
        }
        let len = match decoder.packetlen() {
            Ok(l) => l,
            Err(e) => {
                return Err(e);
            },
        };
        if decoder.remaining_len() < len {
            return Err(Error::new(Decoding::Truncated));
        }
        let mut decoder = decoder.limit(len).peekable();
        let packet_id = match decoder.u16() {
            Ok(v) => v,
            Err(e) => {
                return Err(e);
            },
        };
        let topics_qos = match decoder.topics_qos() {
            Ok(v) => v,
            Err(e) => {
                return Err(e);
            },
        };
        proof {
            let region = parse_frame(8, Some(subscribe_flags()), bytes@)->Ok_0.1;
            let r1 = parse_u16(region)->Ok_0.1;
            if parse_topics_qos(r1) is Ok {
                let v = parse_subscribe(bytes@)->Ok_0;
                lemma_topics_qos_sound(r1);
                assert(region =~= subscribe_body(v));
            }
        }
        Ok(Self { packet_id, topics_qos })
    }

    /// Encodes the packet as its canonical byte sequence
    pub fn into_vec(self) -> (r: Vec<u8>)
        requires
            subscribe_wf(self@),
        ensures
            r@ == subscribe_bytes(self@),
    {
        let len = Length::new().u16(&self.packet_id).topics_qos(&self.topics_qos).finalize();
        proof {
            assert(len as int == subscribe_body(self@).len());
        }
        let r = Encoder::default().header(Self::TYPE, [false, false, true, false]).packetlen(
            len,
        ).u16(self.packet_id).topics_qos(self.topics_qos).into_vec();
        proof {
            assert(r@ =~= subscribe_bytes(self@));
        }
        r
    }
}

/// A SUBSCRIBE packet round-trips: parsing its canonical encoding yields the
/// packet back, whatever follows the frame.
pub proof fn lemma_subscribe_roundtrip(v: SubscribeView, rest: Seq<u8>)
    requires
        subscribe_wf(v),
    ensures
        parse_subscribe(subscribe_bytes(v) + rest) == Ok::<SubscribeView, Decoding>(v),
{
    let body = subscribe_body(v);
    lemma_frame_roundtrip(8, subscribe_flags(), Some(subscribe_flags()), body, rest);
    lemma_u16_roundtrip(v.packet_id);
    assert(body[0] == crate::wire::u16_hi(v.packet_id));
    assert(body[1] == crate::wire::u16_lo(v.packet_id));
    assert(body.skip(2) =~= topics_qos_bytes(v.topics_qos));
    lemma_topics_qos_roundtrip(v.topics_qos);
}

/// Every strict prefix of an encoded SUBSCRIBE packet is truncated input.
pub proof fn lemma_subscribe_truncation(v: SubscribeView, i: int)
    requires
        subscribe_wf(v),
        0 <= i < subscribe_bytes(v).len(),
    ensures
        parse_subscribe(subscribe_bytes(v).take(i)) == Err::<SubscribeView, Decoding>(
            Decoding::Truncated,
        ),
{
    lemma_frame_truncation(8, subscribe_flags(), Some(subscribe_flags()), subscribe_body(v), i);
}

} // verus!
