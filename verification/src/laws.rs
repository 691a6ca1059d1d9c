//! The laws of the codec, stated over the wire grammar of [`crate::wire`]
//! and the packet encodings of [`crate::packets`].
//!
//! Together with the per-packet round-trip and truncation lemmas these say:
//! decoding inverts encoding, every strict prefix of an encoded packet is
//! rejected as truncated, re-encoding a decoded packet reproduces the bytes,
//! and the encoded length is the metered body length plus the header and
//! remaining-length field.

use crate::error::Decoding;
use crate::packets::connack::{lemma_connack_roundtrip, lemma_connack_truncation};
use crate::packets::connect::{connect_body, lemma_connect_roundtrip, lemma_connect_truncation};
use crate::packets::packet::{packet_bytes, packet_wf, parse_packet, PacketView};
use crate::packets::publish::{lemma_publish_roundtrip, lemma_publish_truncation, publish_body};
use crate::packets::subscribe::{
    lemma_subscribe_roundtrip, lemma_subscribe_truncation, subscribe_body,
};
use crate::packets::unsubscribe::{
    lemma_unsubscribe_roundtrip, lemma_unsubscribe_truncation, unsubscribe_body,
};
use crate::packets::{
    lemma_acklike_roundtrip, lemma_acklike_truncation, lemma_signal_roundtrip,
    lemma_signal_truncation, no_flags, packet_frame,
};
use crate::wire::{
    header_byte, header_type, lemma_header_roundtrip, lemma_packetlen_len, packetlen_size,
    u16_bytes,
};
use vstd::prelude::*;

verus! {

/// The body of a type-erased packet: everything after the remaining-length
/// field
pub open spec fn packet_body(v: PacketView) -> Seq<u8> {
    match v {
        PacketView::Connect(c) => connect_body(c),
        PacketView::Connack(c) => seq![
            crate::wire::bitmap_byte(crate::packets::connack::ack_bits(c.session_present)),
            c.return_code,
        ],
        PacketView::Publish(p) => publish_body(p),
        PacketView::Puback(id) => u16_bytes(id),
        PacketView::Pubrec(id) => u16_bytes(id),
        PacketView::Pubrel(id) => u16_bytes(id),
        PacketView::Pubcomp(id) => u16_bytes(id),
        PacketView::Subscribe(s) => subscribe_body(s),
        PacketView::Suback(id) => u16_bytes(id),
        PacketView::Unsubscribe(u) => unsubscribe_body(u),
        PacketView::Unsuback(id) => u16_bytes(id),
        PacketView::Pingreq => Seq::empty(),
        PacketView::Pingresp => Seq::empty(),
        PacketView::Disconnect => Seq::empty(),
    }
}

/// The packet type code of a type-erased packet
pub open spec fn packet_type(v: PacketView) -> u8 {
    match v {
        PacketView::Connect(_) => 1,
        PacketView::Connack(_) => 2,
        PacketView::Publish(_) => 3,
        PacketView::Puback(_) => 4,
        PacketView::Pubrec(_) => 5,
        PacketView::Pubrel(_) => 6,
        PacketView::Pubcomp(_) => 7,
        PacketView::Subscribe(_) => 8,
        PacketView::Suback(_) => 9,
        PacketView::Unsubscribe(_) => 10,
        PacketView::Unsuback(_) => 11,
        PacketView::Pingreq => 12,
        PacketView::Pingresp => 13,
        PacketView::Disconnect => 14,
    }
}

/// Round trip: decoding the canonical encoding of any well-formed packet
/// yields the packet back, whatever bytes follow the frame.
pub proof fn lemma_packet_roundtrip(v: PacketView, rest: Seq<u8>)
    requires
        packet_wf(v),
    ensures
        parse_packet(packet_bytes(v) + rest) == Ok::<PacketView, Decoding>(v),
{
    let s = packet_bytes(v) + rest;
    lemma_packet_first_byte(v);
    assert(s[0] == packet_bytes(v)[0]);
    match v {
        PacketView::Connect(c) => lemma_connect_roundtrip(c, rest),
        PacketView::Connack(c) => lemma_connack_roundtrip(c, rest),
        PacketView::Publish(p) => lemma_publish_roundtrip(p, rest),
        PacketView::Puback(id) => lemma_acklike_roundtrip(4, id, rest),
        PacketView::Pubrec(id) => lemma_acklike_roundtrip(5, id, rest),
        PacketView::Pubrel(id) => lemma_acklike_roundtrip(6, id, rest),
        PacketView::Pubcomp(id) => lemma_acklike_roundtrip(7, id, rest),
        PacketView::Subscribe(sub) => lemma_subscribe_roundtrip(sub, rest),
        PacketView::Suback(id) => lemma_acklike_roundtrip(9, id, rest),
        PacketView::Unsubscribe(u) => lemma_unsubscribe_roundtrip(u, rest),
        PacketView::Unsuback(id) => lemma_acklike_roundtrip(11, id, rest),
        PacketView::Pingreq => lemma_signal_roundtrip(12, rest),
        PacketView::Pingresp => lemma_signal_roundtrip(13, rest),
        PacketView::Disconnect => lemma_signal_roundtrip(14, rest),
    }
}

/// Truncation: every strict prefix of the canonical encoding of any
/// well-formed packet is rejected as truncated input.
pub proof fn lemma_packet_truncation(v: PacketView, i: int)
    requires
        packet_wf(v),
        0 <= i < packet_bytes(v).len(),
    ensures
        parse_packet(packet_bytes(v).take(i)) == Err::<PacketView, Decoding>(Decoding::Truncated),
{
    let s = packet_bytes(v).take(i);
    if i == 0 {
        assert(s.len() == 0);
    } else {
        lemma_packet_first_byte(v);
        assert(s[0] == packet_bytes(v)[0]);
        match v {
            PacketView::Connect(c) => lemma_connect_truncation(c, i),
            PacketView::Connack(c) => lemma_connack_truncation(c, i),
            PacketView::Publish(p) => lemma_publish_truncation(p, i),
            PacketView::Puback(id) => lemma_acklike_truncation(4, id, i),
            PacketView::Pubrec(id) => lemma_acklike_truncation(5, id, i),
            PacketView::Pubrel(id) => lemma_acklike_truncation(6, id, i),
            PacketView::Pubcomp(id) => lemma_acklike_truncation(7, id, i),
            PacketView::Subscribe(sub) => lemma_subscribe_truncation(sub, i),
            PacketView::Suback(id) => lemma_acklike_truncation(9, id, i),
            PacketView::Unsubscribe(u) => lemma_unsubscribe_truncation(u, i),
            PacketView::Unsuback(id) => lemma_acklike_truncation(11, id, i),
            PacketView::Pingreq => lemma_signal_truncation(12, i),
            PacketView::Pingresp => lemma_signal_truncation(13, i),
            PacketView::Disconnect => lemma_signal_truncation(14, i),
        }
    }
}

/// Idempotence: re-encoding the packet decoded from a canonical encoding
/// reproduces the encoding, byte for byte.
pub proof fn lemma_packet_idempotent(v: PacketView)
    requires
        packet_wf(v),
    ensures
        parse_packet(packet_bytes(v)) matches Ok(w) && packet_bytes(w) == packet_bytes(v),
{
    lemma_packet_roundtrip(v, Seq::empty());
    assert(packet_bytes(v) + Seq::<u8>::empty() =~= packet_bytes(v));
}

/// Length agreement: an encoded packet is exactly its body (the length the
/// meter computes) plus one header byte plus the remaining-length field.
pub proof fn lemma_packet_length(v: PacketView)
    requires
        packet_wf(v),
    ensures
        packet_body(v).len() < 0x10000000,
        packet_bytes(v).len() == 1 + packetlen_size(packet_body(v).len() as int) + packet_body(
            v,
        ).len(),
{
    lemma_packet_shape(v);
    lemma_packetlen_len(packet_body(v).len() as int);
}

/// Every packet encoding is a frame around its body.
proof fn lemma_packet_shape(v: PacketView)
    requires
        packet_wf(v),
    ensures
        packet_body(v).len() < 0x10000000,
        exists|flags: Seq<bool>|
            #[trigger] packet_frame(packet_type(v), flags, packet_body(v)) == packet_bytes(v)
                && flags.len() == 4,
{
    match v {
        PacketView::Connect(c) => {
            assert(packet_frame(1, no_flags(), packet_body(v)) == packet_bytes(v));
        },
        PacketView::Connack(c) => {
            assert(packet_frame(2, no_flags(), packet_body(v)) == packet_bytes(v));
        },
        PacketView::Publish(p) => {
            assert(packet_frame(
                3,
                crate::packets::publish::publish_flags(p),
                packet_body(v),
            ) == packet_bytes(v));
        },
        PacketView::Subscribe(s) => {
            assert(packet_frame(
                8,
                crate::packets::subscribe::subscribe_flags(),
                packet_body(v),
            ) == packet_bytes(v));
        },
        PacketView::Unsubscribe(u) => {
            assert(packet_frame(
                10,
                crate::packets::unsubscribe::unsubscribe_flags(),
                packet_body(v),
            ) == packet_bytes(v));
        },
        _ => {
            assert(packet_frame(packet_type(v), no_flags(), packet_body(v)) == packet_bytes(v));
        },
    }
}

/// The first byte of every packet encoding carries the packet's type code in
/// its high nibble.
proof fn lemma_packet_first_byte(v: PacketView)
    requires
        packet_wf(v),
    ensures
        packet_bytes(v).len() > 0,
        header_type(packet_bytes(v)[0]) == packet_type(v),
{
    lemma_packet_shape(v);
    let flags = choose|flags: Seq<bool>|
        #[trigger] packet_frame(packet_type(v), flags, packet_body(v)) == packet_bytes(v)
            && flags.len() == 4;
    assert(packet_bytes(v)[0] == header_byte(packet_type(v), flags));
    lemma_header_roundtrip(packet_type(v), flags);
}

} // verus!
