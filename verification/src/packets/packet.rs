//! A type-erased MQTT packet: the tagged union over the fourteen control
//! packets.  Decoding inspects the type nibble of the first byte and
//! dispatches to the packet's own decoder; encoding forwards to the selected
//! packet's encoder.

use crate::error::{DecoderError, Decoding, Error};
use crate::packets::acklike::{Puback, Pubcomp, Pubrec, Pubrel, Suback, Unsuback};
use crate::packets::connack::{connack_bytes, parse_connack, Connack, ConnackView};
use crate::packets::connect::{connect_bytes, connect_wf, parse_connect, Connect, ConnectView};
use crate::packets::publish::{
    parse_publish, publish_body, publish_bytes, publish_wf, Publish, PublishView,
};
use crate::packets::signal::{Disconnect, Pingreq, Pingresp};
use crate::packets::subscribe::{
    parse_subscribe, subscribe_bytes, subscribe_wf, Subscribe, SubscribeView,
};
use crate::packets::unsubscribe::{
    parse_unsubscribe, unsubscribe_bytes, unsubscribe_wf, Unsubscribe, UnsubscribeView,
};
use crate::packets::{acklike_bytes, parse_acklike, parse_signal, signal_bytes};
use crate::wire::header_type;
use vstd::prelude::*;

verus! {

/// The mathematical content of a type-erased packet
pub enum PacketView {
    /// A CONNECT packet
    Connect(ConnectView),
    /// A CONNACK packet
    Connack(ConnackView),
    /// A PUBLISH packet
    Publish(PublishView),
    /// A PUBACK packet
    Puback(u16),
    /// A PUBREC packet
    Pubrec(u16),
    /// A PUBREL packet
    Pubrel(u16),
    /// A PUBCOMP packet
    Pubcomp(u16),
    /// A SUBSCRIBE packet
    Subscribe(SubscribeView),
    /// A SUBACK packet
    Suback(u16),
    /// An UNSUBSCRIBE packet
    Unsubscribe(UnsubscribeView),
    /// An UNSUBACK packet
    Unsuback(u16),
    /// A PINGREQ packet
    Pingreq,
    /// A PINGRESP packet
    Pingresp,
    /// A DISCONNECT packet
    Disconnect,
}

/// A packet value that can be framed
pub open spec fn packet_wf(v: PacketView) -> bool {
    match v {
        PacketView::Connect(c) => connect_wf(c),
        PacketView::Publish(p) => publish_wf(p) && publish_body(p).len() < 0x10000000,
        PacketView::Subscribe(s) => subscribe_wf(s),
        PacketView::Unsubscribe(u) => unsubscribe_wf(u),
        _ => true,
    }
}

/// The canonical encoding of a type-erased packet
pub open spec fn packet_bytes(v: PacketView) -> Seq<u8> {
    match v {
        PacketView::Connect(c) => connect_bytes(c),
        PacketView::Connack(c) => connack_bytes(c),
        PacketView::Publish(p) => publish_bytes(p),
        PacketView::Puback(id) => acklike_bytes(4, id),
        PacketView::Pubrec(id) => acklike_bytes(5, id),
        PacketView::Pubrel(id) => acklike_bytes(6, id),
        PacketView::Pubcomp(id) => acklike_bytes(7, id),
        PacketView::Subscribe(s) => subscribe_bytes(s),
        PacketView::Suback(id) => acklike_bytes(9, id),
        PacketView::Unsubscribe(u) => unsubscribe_bytes(u),
        PacketView::Unsuback(id) => acklike_bytes(11, id),
        PacketView::Pingreq => signal_bytes(12),
        PacketView::Pingresp => signal_bytes(13),
        PacketView::Disconnect => signal_bytes(14),
    }
}

/// Reads any MQTT packet: the type nibble of the first byte selects the
/// packet's own grammar; an unknown type nibble violates the spec
pub open spec fn parse_packet(s: Seq<u8>) -> Result<PacketView, Decoding> {
    if s.len() == 0 {
        Err(Decoding::Truncated)
    } else {
        let t = header_type(s[0]);
        if t == 1 {
            match parse_connect(s) {
                Ok(v) => Ok(PacketView::Connect(v)),
                Err(k) => Err(k),
            }
        } else if t == 2 {
            match parse_connack(s) {
                Ok(v) => Ok(PacketView::Connack(v)),
                Err(k) => Err(k),
            }
        } else if t == 3 {
            match parse_publish(s) {
                Ok(v) => Ok(PacketView::Publish(v)),
                Err(k) => Err(k),
            }
        } else if t == 4 {
            match parse_acklike(4, s) {
                Ok(id) => Ok(PacketView::Puback(id)),
                Err(k) => Err(k),
            }
        } else if t == 5 {
            match parse_acklike(5, s) {
                Ok(id) => Ok(PacketView::Pubrec(id)),
                Err(k) => Err(k),
            }
        } else if t == 6 {
            match parse_acklike(6, s) {
                Ok(id) => Ok(PacketView::Pubrel(id)),
                Err(k) => Err(k),
            }
        } else if t == 7 {
            match parse_acklike(7, s) {
                Ok(id) => Ok(PacketView::Pubcomp(id)),
                Err(k) => Err(k),
            }
        } else if t == 8 {
            match parse_subscribe(s) {
                Ok(v) => Ok(PacketView::Subscribe(v)),
                Err(k) => Err(k),
            }
        } else if t == 9 {
            match parse_acklike(9, s) {
                Ok(id) => Ok(PacketView::Suback(id)),
                Err(k) => Err(k),
            }
        } else if t == 10 {
            match parse_unsubscribe(s) {
                Ok(v) => Ok(PacketView::Unsubscribe(v)),
                Err(k) => Err(k),
            }
        } else if t == 11 {
            match parse_acklike(11, s) {
                Ok(id) => Ok(PacketView::Unsuback(id)),
                Err(k) => Err(k),
            }
        } else if t == 12 {
            match parse_signal(12, s) {
                Ok(_) => Ok(PacketView::Pingreq),
                Err(k) => Err(k),
            }
        } else if t == 13 {
            match parse_signal(13, s) {
                Ok(_) => Ok(PacketView::Pingresp),
                Err(k) => Err(k),
            }
        } else if t == 14 {
            match parse_signal(14, s) {
                Ok(_) => Ok(PacketView::Disconnect),
                Err(k) => Err(k),
            }
        } else {
            Err(Decoding::SpecViolation)
        }
    }
}

/// A type-erased MQTT packet
#[derive(Debug, Clone, PartialEq, Eq)]
pub enum Packet {
    /// A [`Connack`] packet
    Connack(Connack),
    /// A [`Connect`] packet
    Connect(Connect),
    /// A [`Disconnect`] packet
    Disconnect(Disconnect),
    /// A [`Pingreq`] packet
    Pingreq(Pingreq),
    /// A [`Pingresp`] packet
    Pingresp(Pingresp),
    /// A [`Puback`] packet
    Puback(Puback),
    /// A [`Pubcomp`] packet
    Pubcomp(Pubcomp),
    /// A [`Publish`] packet
    Publish(Publish),
    /// A [`Pubrec`] packet
    Pubrec(Pubrec),
    /// A [`Pubrel`] packet
    Pubrel(Pubrel),
    /// A [`Suback`] packet
    Suback(Suback),
    /// A [`Subscribe`] packet
    Subscribe(Subscribe),
    /// An [`Unsuback`] packet
    Unsuback(Unsuback),
    /// An [`Unsubscribe`] packet
    Unsubscribe(Unsubscribe),
}

impl View for Packet {
    type V = PacketView;

    closed spec fn view(&self) -> PacketView {
        match self {
            Packet::Connack(p) => PacketView::Connack(p@),
            Packet::Connect(p) => PacketView::Connect(p@),
            Packet::Disconnect(_) => PacketView::Disconnect,
            Packet::Pingreq(_) => PacketView::Pingreq,
            Packet::Pingresp(_) => PacketView::Pingresp,
            Packet::Puback(p) => PacketView::Puback(p@),
            Packet::Pubcomp(p) => PacketView::Pubcomp(p@),
            Packet::Publish(p) => PacketView::Publish(p@),
            Packet::Pubrec(p) => PacketView::Pubrec(p@),
            Packet::Pubrel(p) => PacketView::Pubrel(p@),
            Packet::Suback(p) => PacketView::Suback(p@),
            Packet::Subscribe(p) => PacketView::Subscribe(p@),
            Packet::Unsuback(p) => PacketView::Unsuback(p@),
            Packet::Unsubscribe(p) => PacketView::Unsubscribe(p@),
        }
    }
}

impl Packet {
    /// Tries to parse any MQTT packet from the given bytes: the type nibble
    /// of the first byte selects the packet's decoder
    pub fn try_from_iter(bytes: Vec<u8>) -> (r: Result<Self, DecoderError>)
        ensures
            match parse_packet(bytes@) {
                Ok(v) => r matches Ok(p) && p@ == v && packet_wf(v),
                Err(k) => r matches Err(e) && e.variant == k,
            },
    {
        if bytes.len() == 0 {
            return Err(Error::new(Decoding::Truncated));
        }
        let t = bytes[0] / 16;
        if t == Connect::TYPE {
            match Connect::try_from_iter(bytes) {
                Ok(p) => Ok(Packet::Connect(p)),
                Err(e) => Err(e),
            }
        } else if t == Connack::TYPE {
            match Connack::try_from_iter(bytes) {
                Ok(p) => Ok(Packet::Connack(p)),
                Err(e) => Err(e),
            }
        } else if t == Publish::TYPE {
            match Publish::try_from_iter(bytes) {
                Ok(p) => Ok(Packet::Publish(p)),
                Err(e) => Err(e),
            }
        } else if t == Puback::TYPE {
            match Puback::try_from_iter(bytes) {
                Ok(p) => Ok(Packet::Puback(p)),
                Err(e) => Err(e),
            }
        } else if t == Pubrec::TYPE {
            match Pubrec::try_from_iter(bytes) {
                Ok(p) => Ok(Packet::Pubrec(p)),
                Err(e) => Err(e),
            }
        } else if t == Pubrel::TYPE {
            match Pubrel::try_from_iter(bytes) {
                Ok(p) => Ok(Packet::Pubrel(p)),
                Err(e) => Err(e),
            }
        } else if t == Pubcomp::TYPE {
            match Pubcomp::try_from_iter(bytes) {
                Ok(p) => Ok(Packet::Pubcomp(p)),
                Err(e) => Err(e),
            }
        } else if t == Subscribe::TYPE {
            match Subscribe::try_from_iter(bytes) {
                Ok(p) => Ok(Packet::Subscribe(p)),
                Err(e) => Err(e),
            }
        } else if t == Suback::TYPE {
            match Suback::try_from_iter(bytes) {
                Ok(p) => Ok(Packet::Suback(p)),
                Err(e) => Err(e),
            }
        } else if t == Unsubscribe::TYPE {
            match Unsubscribe::try_from_iter(bytes) {
                Ok(p) => Ok(Packet::Unsubscribe(p)),
                Err(e) => Err(e),
            }
        } else if t == Unsuback::TYPE {
            match Unsuback::try_from_iter(bytes) {
                Ok(p) => Ok(Packet::Unsuback(p)),
                Err(e) => Err(e),
            }
        } else if t == Pingreq::TYPE {
            match Pingreq::try_from_iter(bytes) {
                Ok(p) => Ok(Packet::Pingreq(p)),
                Err(e) => Err(e),
            }
        } else if t == Pingresp::TYPE {
            match Pingresp::try_from_iter(bytes) {
                Ok(p) => Ok(Packet::Pingresp(p)),
                Err(e) => Err(e),
            }
        } else if t == Disconnect::TYPE {
            match Disconnect::try_from_iter(bytes) {
                Ok(p) => Ok(Packet::Disconnect(p)),
                Err(e) => Err(e),
            }
        } else {
            Err(Error::new(Decoding::SpecViolation))
        }
    }

    /// Encodes the packet as its canonical byte sequence
    pub fn into_vec(self) -> (r: Vec<u8>)
        requires
            packet_wf(self@),
        ensures
            r@ == packet_bytes(self@),
    {
        match self {
            Packet::Connack(p) => p.into_vec(),
            Packet::Connect(p) => p.into_vec(),
            Packet::Disconnect(p) => p.into_vec(),
            Packet::Pingreq(p) => p.into_vec(),
            Packet::Pingresp(p) => p.into_vec(),
            Packet::Puback(p) => p.into_vec(),
            Packet::Pubcomp(p) => p.into_vec(),
            Packet::Publish(p) => p.into_vec(),
            Packet::Pubrec(p) => p.into_vec(),
            Packet::Pubrel(p) => p.into_vec(),
            Packet::Suback(p) => p.into_vec(),
            Packet::Subscribe(p) => p.into_vec(),
            Packet::Unsuback(p) => p.into_vec(),
            Packet::Unsubscribe(p) => p.into_vec(),
        }
    }
}

} // verus!
