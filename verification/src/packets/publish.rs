//! The MQTT PUBLISH packet: an application message for a topic.

use crate::anyvec::ByteBuf;
use crate::coding::length::Length;
use crate::coding::{Decoder, Encoder};
use crate::error::{DecoderError, Decoding, Error, MemoryError};
use crate::packets::{lemma_frame_roundtrip, lemma_frame_truncation, packet_frame, parse_frame};
use crate::wire::{
    bit, bool_bit, bytes_field, lemma_bytes_field_roundtrip, lemma_bytes_field_sound,
    lemma_u16_roundtrip, opt_u16_bytes, parse_bytes_field, parse_opt_u16, u16_bytes,
};
use vstd::prelude::*;

verus! {

/// The mathematical content of a PUBLISH packet
pub struct PublishView {
    /// Whether this packet is a redelivery
    pub dup: bool,
    /// The quality-of-service level
    pub qos: u8,
    /// Whether the message should be retained
    pub retain: bool,
    /// The message topic
    pub topic: Seq<u8>,
    /// The packet identifier, present exactly when the QoS is above 0
    pub packet_id: Option<u16>,
    /// The payload
    pub payload: Seq<u8>,
}

/// A PUBLISH value that can be framed: the QoS fits its two flag bits, the
/// packet identifier is present exactly when the QoS asks for one, and the
/// topic fits its length prefix
pub open spec fn publish_wf(v: PublishView) -> bool {
    &&& v.qos <= 3
    &&& (v.packet_id is Some <==> v.qos > 0)
    &&& v.topic.len() <= 0xFFFF
}

/// The header flag nibble of a PUBLISH packet
pub open spec fn publish_flags(v: PublishView) -> Seq<bool> {
    seq![v.dup, bit(v.qos, 2), bit(v.qos, 1), v.retain]
}

/// The body of a PUBLISH packet: topic, optional packet identifier, payload
pub open spec fn publish_body(v: PublishView) -> Seq<u8> {
    bytes_field(v.topic) + opt_u16_bytes(v.packet_id) + v.payload
}

/// The canonical encoding of a PUBLISH packet
pub open spec fn publish_bytes(v: PublishView) -> Seq<u8> {
    packet_frame(3, publish_flags(v), publish_body(v))
}

/// Reads a PUBLISH packet: type 3, then within the remaining-length region
/// the topic, the packet identifier when the QoS flags are set, and the rest
/// of the region as payload
pub open spec fn parse_publish(s: Seq<u8>) -> Result<PublishView, Decoding> {
    match parse_frame(3, None, s) {
        Ok((f, region)) => match parse_bytes_field(region) {
            Ok((topic, r1)) => match parse_opt_u16(f[1] || f[2], r1) {
                Ok((pid, payload)) => Ok(
                    PublishView {
                        dup: f[0],
                        qos: (bool_bit(f[1]) * 2 + bool_bit(f[2])) as u8,
                        retain: f[3],
                        topic: topic,
                        packet_id: pid,
                        payload: payload,
                    },
                ),
                Err(k) => Err(k),
            },
            Err(k) => Err(k),
        },
        Err(k) => Err(k),
    }
}

/// An MQTT PUBLISH packet
#[derive(Debug, Clone, PartialEq, Eq)]
pub struct Publish {
    /// Whether this packet is a redelivery or not
    dup: bool,
    /// The packet QoS
    qos: u8,
    /// Whether the message should be retained
    retain: bool,
    /// The message topic
    topic: ByteBuf,
    /// The packet ID
    packet_id: Option<u16>,
    /// The payload
    payload: ByteBuf,
}

impl View for Publish {
    type V = PublishView;

    closed spec fn view(&self) -> PublishView {
        PublishView {
            dup: self.dup,
            qos: self.qos,
            retain: self.retain,
            topic: self.topic@,
            packet_id: self.packet_id,
            payload: self.payload@,
        }
    }
}

impl Publish {
    /// The packet type constant
    pub const TYPE: u8 = 3;

    /// Creates a new packet with QoS 0 and no packet identifier
    pub fn new(topic: &[u8], payload: &[u8], retain: bool) -> (r: Result<Self, MemoryError>)
        requires
            topic@.len() <= 0xFFFF,
        ensures
            r matches Ok(p) && p@ == (PublishView {
                dup: false,
                qos: 0,
                retain: retain,
                topic: topic@,
                packet_id: None,
                payload: payload@,
            }),
            r matches Ok(p) && publish_wf(p@),
    {
        let topic = match ByteBuf::new(topic) {
            Ok(b) => b,
            Err(e) => {
                return Err(e);
            },
        };
        let payload = match ByteBuf::new(payload) {
            Ok(b) => b,
            Err(e) => {
                return Err(e);
            },
        };
        Ok(Self { dup: false, qos: 0, retain, topic, packet_id: None, payload })
    }

    /// Configures the QoS level, the packet identifier that the
    /// acknowledgement exchange uses, and the redelivery flag
    pub fn with_qos(self, qos: u8, packet_id: u16, dup: bool) -> (r: Self)
        requires
            1 <= qos <= 2,
        ensures
            r@ == (PublishView {
                dup: dup,
                qos: qos,
                retain: self@.retain,
                topic: self@.topic,
                packet_id: Some(packet_id),
                payload: self@.payload,
            }),
            publish_wf(self@) ==> publish_wf(r@),
    {
        Self { dup, qos, packet_id: Some(packet_id), ..self }
    }

    /// The message topic
    pub fn topic(&self) -> (r: &[u8])
        ensures
            r@ == self@.topic,
    {
        self.topic.as_slice()
    }

    /// The payload
    pub fn payload(&self) -> (r: &[u8])
        ensures
            r@ == self@.payload,
    {
        self.payload.as_slice()
    }

    /// Whether the message should be retained
    pub fn retain(&self) -> (r: bool)
        ensures
            r == self@.retain,
    {
        self.retain
    }

    /// Whether this packet is a redelivery or not
    pub fn dup(&self) -> (r: bool)
        ensures
            r == self@.dup,
    {
        self.dup
    }

    /// The packet QoS
    pub fn qos(&self) -> (r: u8)
        ensures
            r == self@.qos,
    {
        self.qos
    }

    /// The packet ID
    pub fn packet_id(&self) -> (r: Option<u16>)
        ensures
            r == self@.packet_id,
    {
        self.packet_id
    }

    /// Tries to parse a PUBLISH packet from the given bytes; bytes past the
    /// packet's remaining length are left untouched
    pub fn try_from_iter(bytes: Vec<u8>) -> (r: Result<Self, DecoderError>)
        ensures
            match parse_publish(bytes@) {
                Ok(v) => r matches Ok(p) && p@ == v && publish_wf(v) && publish_body(v).len()
                    < 0x10000000,
                Err(k) => r matches Err(e) && e.variant == k,
            },
    {
        let mut decoder = Decoder::new(bytes);
        let header = match decoder.header() {
            Ok(h) => h,
            Err(e) => {
                return Err(e);
            },
        };
        if header.0 != Self::TYPE {
            return Err(Error::new(Decoding::SpecViolation));
        }
        let len = match decoder.packetlen() {
            Ok(l) => l,
            Err(e) => {
                return Err(e);
            },
        };
        if decoder.remaining_len() < len {
            return Err(Error::new(Decoding::Truncated));
        }
        let mut decoder = decoder.limit(len);
        let dup = header.1[0];
        let qos_hi = header.1[1];
        let qos_lo = header.1[2];
        let retain = header.1[3];
        let topic = match decoder.bytes() {
            Ok(b) => b,
            Err(e) => {
                return Err(e);
            },
        };
        let packet_id = match decoder.optional_u16(qos_hi || qos_lo) {
            Ok(v) => v,
            Err(e) => {
                return Err(e);
            },
        };
        let payload = match decoder.raw_remainder() {
            Ok(b) => b,
            Err(e) => {
                return Err(e);
            },
        };
        let qos: u8 = (if qos_hi {
            2
        } else {
            0
        }) + (if qos_lo {
            1
        } else {
            0
        });
        proof {
            let region = parse_frame(3, None, bytes@)->Ok_0.1;
            lemma_bytes_field_sound(region);
            let tp = parse_bytes_field(region)->Ok_0;
            let po = parse_opt_u16(qos_hi || qos_lo, tp.1);
            if po is Ok {
                let v = parse_publish(bytes@)->Ok_0;
                match v.packet_id {
                    Some(x) => {
                        assert(tp.1.len() >= 2);
                        assert(x == crate::wire::be_u16(tp.1[0], tp.1[1]));
                        assert(u16_bytes(x)[0] == tp.1[0] && u16_bytes(x)[1] == tp.1[1]);
                        assert(tp.1 =~= u16_bytes(x) + v.payload);
                    },
                    None => {
                        assert(tp.1 =~= v.payload);
                    },
                }
                assert(region =~= publish_body(v));
            }
        }
        Ok(Self { dup, qos, retain, topic, packet_id, payload })
    }

    /// Encodes the packet as its canonical byte sequence
    pub fn into_vec(self) -> (r: Vec<u8>)
        requires
            publish_wf(self@),
            publish_body(self@).len() < 0x10000000,
        ensures
            r@ == publish_bytes(self@),
    {
        let flags: [bool; 4] = [self.dup, self.qos / 2 % 2 == 1, self.qos % 2 == 1, self.retain];
        let len = Length::new().bytes(&self.topic).optional_u16(&self.packet_id).raw(
            &self.payload,
        ).finalize();
        proof {
            assert(flags@ =~= publish_flags(self@));
            assert(len as int == publish_body(self@).len());
        }
        let r = Encoder::default().header(Self::TYPE, flags).packetlen(len).bytes(
            self.topic.as_slice(),
        ).optional_u16(self.packet_id).raw(self.payload.as_slice()).into_vec();
        proof {
            assert(r@ =~= publish_bytes(self@));
        }
        r
    }
}

/// A PUBLISH packet round-trips: parsing its canonical encoding yields the
/// packet back, whatever follows the frame.
pub proof fn lemma_publish_roundtrip(v: PublishView, rest: Seq<u8>)
    requires
        publish_wf(v),
        publish_body(v).len() < 0x10000000,
    ensures
        parse_publish(publish_bytes(v) + rest) == Ok::<PublishView, Decoding>(v),
{
    let body = publish_body(v);
    lemma_frame_roundtrip(3, publish_flags(v), None, body, rest);
    let tail = opt_u16_bytes(v.packet_id) + v.payload;
    assert(body =~= bytes_field(v.topic) + tail);
    lemma_bytes_field_roundtrip(v.topic, tail);
    let flags = publish_flags(v);
    assert(flags[1] == bit(v.qos, 2) && flags[2] == bit(v.qos, 1));
    assert((flags[1] || flags[2]) <==> v.qos > 0) by {
        assert(v.qos <= 3);
    }
    match v.packet_id {
        Some(pid) => {
            assert(tail =~= u16_bytes(pid) + v.payload);
            lemma_u16_roundtrip(pid);
            assert(tail[0] == crate::wire::u16_hi(pid) && tail[1] == crate::wire::u16_lo(pid));
            assert(tail.skip(2) =~= v.payload);
        },
        None => {
            assert(tail =~= v.payload);
        },
    }
    assert(bool_bit(bit(v.qos, 2)) * 2 + bool_bit(bit(v.qos, 1)) == v.qos);
}

/// Every strict prefix of an encoded PUBLISH packet is truncated input.
pub proof fn lemma_publish_truncation(v: PublishView, i: int)
    requires
        publish_wf(v),
        publish_body(v).len() < 0x10000000,
        0 <= i < publish_bytes(v).len(),
    ensures
        parse_publish(publish_bytes(v).take(i)) == Err::<PublishView, Decoding>(
            Decoding::Truncated,
        ),
{
    lemma_frame_truncation(3, publish_flags(v), None, publish_body(v), i);
}

} // verus!
