//! The MQTT CONNECT packet: a client's connection request.

use crate::anyvec::{opt_buf_view, ByteBuf};
use crate::coding::length::Length;
use crate::coding::{Decoder, Encoder};
use crate::error::{DecoderError, Decoding, Error, MemoryError};
use crate::packets::{
    lemma_frame_roundtrip, lemma_frame_truncation, no_flags, packet_frame, parse_frame,
};
use crate::wire::{
    bit, bitmap_byte, bool_bit, bytes_field, lemma_bitmap_roundtrip, lemma_bytes_field_roundtrip,
    lemma_opt_bytes_roundtrip, lemma_u16_roundtrip, opt_bytes_field, parse_bitmap,
    parse_bytes_field, parse_opt_bytes, parse_u16, parse_u8, u16_bytes,
};
use vstd::prelude::*;

verus! {

/// The mathematical content of a CONNECT packet
pub struct ConnectView {
    /// The seconds to keep the connection alive
    pub keep_alive_secs: u16,
    /// Whether client and server may drop session state
    pub clean_session: bool,
    /// Whether the will message is to be retained when it is published
    pub will_retain: bool,
    /// The QoS level for publishing the will message
    pub will_qos: u8,
    /// The client identifier
    pub client_id: Seq<u8>,
    /// The will topic; present exactly together with the will message
    pub will_topic: Option<Seq<u8>>,
    /// The will message; present exactly together with the will topic
    pub will_message: Option<Seq<u8>>,
    /// The username
    pub username: Option<Seq<u8>>,
    /// The password
    pub password: Option<Seq<u8>>,
}

/// The fixed protocol-name field: a length-prefixed `MQTT`
pub open spec fn protocol_name() -> Seq<u8> {
    seq![0x00, 0x04, 0x4D, 0x51, 0x54, 0x54]
}

/// A CONNECT value that can be framed: the will topic and message appear
/// together, the will QoS fits its two flag bits, and every byte field fits
/// its length prefix
pub open spec fn connect_wf(v: ConnectView) -> bool {
    &&& (v.will_topic is Some <==> v.will_message is Some)
    &&& v.will_qos <= 3
    &&& v.client_id.len() <= 0xFFFF
    &&& (v.will_topic matches Some(x) ==> x.len() <= 0xFFFF)
    &&& (v.will_message matches Some(x) ==> x.len() <= 0xFFFF)
    &&& (v.username matches Some(x) ==> x.len() <= 0xFFFF)
    &&& (v.password matches Some(x) ==> x.len() <= 0xFFFF)
}

/// The connect-flags byte, MSB first: username, password, will-retain, the
/// two will-QoS bits, will presence, clean session, and a reserved zero bit
pub open spec fn connect_flags(v: ConnectView) -> Seq<bool> {
    seq![
        v.username is Some,
        v.password is Some,
        v.will_retain,
        bit(v.will_qos, 2),
        bit(v.will_qos, 1),
        v.will_topic is Some,
        v.clean_session,
        false,
    ]
}

/// The body of a CONNECT packet
pub open spec fn connect_body(v: ConnectView) -> Seq<u8> {
    protocol_name() + seq![0x04u8, bitmap_byte(connect_flags(v))] + u16_bytes(v.keep_alive_secs)
        + bytes_field(v.client_id) + opt_bytes_field(v.will_topic) + opt_bytes_field(
        v.will_message,
    ) + opt_bytes_field(v.username) + opt_bytes_field(v.password)
}

/// The canonical encoding of a CONNECT packet
pub open spec fn connect_bytes(v: ConnectView) -> Seq<u8> {
    packet_frame(1, no_flags(), connect_body(v))
}

/// Reads a CONNECT packet: type 1, then within the remaining-length region
/// the fixed protocol name (else the spec is violated) and level (else the
/// version is unsupported), the connect flags, the keep-alive time, the
/// client identifier, and the optional fields that the flags announce; the
/// region must be consumed exactly
pub open spec fn parse_connect(s: Seq<u8>) -> Result<ConnectView, Decoding> {
    match parse_frame(1, None, s) {
        Ok((_f, region)) => {
            if region.len() < 6 {
                Err(Decoding::Truncated)
            } else if region.take(6) != protocol_name() {
                Err(Decoding::SpecViolation)
            } else {
                match parse_u8(region.skip(6)) {
                    Ok((level, r2)) => {
                        if level != 0x04 {
                            Err(Decoding::UnsupportedVersion)
                        } else {
                            parse_connect_fields(r2)
                        }
                    },
                    Err(k) => Err(k),
                }
            }
        },
        Err(k) => Err(k),
    }
}

/// Reads the fields of a CONNECT packet after the protocol name and level
#[verifier::opaque]
pub open spec fn parse_connect_fields(s: Seq<u8>) -> Result<ConnectView, Decoding> {
    match parse_bitmap(s) {
        Ok((cf, r3)) => match parse_u16(r3) {
            Ok((keep_alive_secs, r4)) => match parse_bytes_field(r4) {
                Ok((client_id, r5)) => parse_connect_options(cf, keep_alive_secs, client_id, r5),
                Err(k) => Err(k),
            },
            Err(k) => Err(k),
        },
        Err(k) => Err(k),
    }
}

/// Reads the optional fields that the connect flags announce; the region
/// must be consumed exactly
#[verifier::opaque]
pub open spec fn parse_connect_options(
    cf: Seq<bool>,
    keep_alive_secs: u16,
    client_id: Seq<u8>,
    s: Seq<u8>,
) -> Result<ConnectView, Decoding> {
    match parse_opt_bytes(cf[5], s) {
        Ok((will_topic, r6)) => match parse_opt_bytes(cf[5], r6) {
            Ok((will_message, r7)) => match parse_opt_bytes(cf[0], r7) {
                Ok((username, r8)) => match parse_opt_bytes(cf[1], r8) {
                    Ok((password, r9)) => {
                        if r9.len() != 0 {
                            Err(Decoding::SpecViolation)
                        } else {
                            Ok(
                                ConnectView {
                                    keep_alive_secs,
                                    clean_session: cf[6],
                                    will_retain: cf[2],
                                    will_qos: (bool_bit(cf[3]) * 2 + bool_bit(cf[4])) as u8,
                                    client_id,
                                    will_topic,
                                    will_message,
                                    username,
                                    password,
                                },
                            )
                        }
                    },
                    Err(k) => Err(k),
                },
                Err(k) => Err(k),
            },
            Err(k) => Err(k),
        },
        Err(k) => Err(k),
    }
}

/// An MQTT CONNECT packet
#[derive(Debug, Clone, PartialEq, Eq)]
pub struct Connect {
    /// The seconds to keep the connection alive
    keep_alive_secs: u16,
    /// When set, client and server need not keep session state
    clean_session: bool,
    /// Whether the will message is to be retained when it is published
    will_retain: bool,
    /// The QoS level to be used when publishing the will message
    will_qos: u8,
    /// The client identifier
    client_id: ByteBuf,
    /// The will topic
    will_topic: Option<ByteBuf>,
    /// The will message
    will_message: Option<ByteBuf>,
    /// The username
    username: Option<ByteBuf>,
    /// The password
    password: Option<ByteBuf>,
}

impl View for Connect {
    type V = ConnectView;

    closed spec fn view(&self) -> ConnectView {
        ConnectView {
            keep_alive_secs: self.keep_alive_secs,
            clean_session: self.clean_session,
            will_retain: self.will_retain,
            will_qos: self.will_qos,
            client_id: self.client_id@,
            will_topic: opt_buf_view(self.will_topic),
            will_message: opt_buf_view(self.will_message),
            username: opt_buf_view(self.username),
            password: opt_buf_view(self.password),
        }
    }
}

impl Connect {
    /// The packet type constant
    pub const TYPE: u8 = 1;

    /// The protocol constant for the supported protocol version
    pub const PROTOCOL_LEVEL: u8 = 0x04;

    /// Creates a new packet without a will and without credentials
    pub fn new(keep_alive_secs: u16, clean_session: bool, client_id: &[u8]) -> (r: Result<
        Self,
        MemoryError,
    >)
        requires
            client_id@.len() <= 0xFFFF,
        ensures
            r matches Ok(p) && p@ == (ConnectView {
                keep_alive_secs: keep_alive_secs,
                clean_session: clean_session,
                will_retain: false,
                will_qos: 0,
                client_id: client_id@,
                will_topic: None,
                will_message: None,
                username: None,
                password: None,
            }),
            r matches Ok(p) && connect_wf(p@),
    {
        let client_id = match ByteBuf::new(client_id) {
            Ok(b) => b,
            Err(e) => {
                return Err(e);
            },
        };
        Ok(
            Self {
                keep_alive_secs,
                clean_session,
                will_retain: false,
                will_qos: 0,
                client_id,
                will_topic: None,
                will_message: None,
                username: None,
                password: None,
            },
        )
    }

    /// Configures a last-will topic and message
    pub fn with_will(self, topic: &[u8], message: &[u8], qos: u8, retain: bool) -> (r: Result<
        Self,
        MemoryError,
    >)
        requires
            topic@.len() <= 0xFFFF,
            message@.len() <= 0xFFFF,
            qos <= 2,
        ensures
            r matches Ok(p) && p@ == (ConnectView {
                will_retain: retain,
                will_qos: qos,
                will_topic: Some(topic@),
                will_message: Some(message@),
                ..self@
            }),
            connect_wf(self@) ==> (r matches Ok(p) && connect_wf(p@)),
    {
        let topic = match ByteBuf::new(topic) {
            Ok(b) => b,
            Err(e) => {
                return Err(e);
            },
        };
        let message = match ByteBuf::new(message) {
            Ok(b) => b,
            Err(e) => {
                return Err(e);
            },
        };
        Ok(
            Self {
                will_topic: Some(topic),
                will_message: Some(message),
                will_retain: retain,
                will_qos: qos,
                ..self
            },
        )
    }

    /// Configures a username and password
    pub fn with_username_password(self, username: &[u8], password: &[u8]) -> (r: Result<
        Self,
        MemoryError,
    >)
        requires
            username@.len() <= 0xFFFF,
            password@.len() <= 0xFFFF,
        ensures
            r matches Ok(p) && p@ == (ConnectView {
                username: Some(username@),
                password: Some(password@),
                ..self@
            }),
            connect_wf(self@) ==> (r matches Ok(p) && connect_wf(p@)),
    {
        let username = match ByteBuf::new(username) {
            Ok(b) => b,
            Err(e) => {
                return Err(e);
            },
        };
        let password = match ByteBuf::new(password) {
            Ok(b) => b,
            Err(e) => {
                return Err(e);
            },
        };
        Ok(Self { username: Some(username), password: Some(password), ..self })
    }

    /// Gets the seconds to keep the connection alive
    pub fn keep_alive_secs(&self) -> (r: u16)
        ensures
            r == self@.keep_alive_secs,
    {
        self.keep_alive_secs
    }

    /// Gets the clean-session bit
    pub fn clean_session(&self) -> (r: bool)
        ensures
            r == self@.clean_session,
    {
        self.clean_session
    }

    /// Gets the client identifier
    pub fn client_id(&self) -> (r: &[u8])
        ensures
            r@ == self@.client_id,
    {
        self.client_id.as_slice()
    }

    /// Gets the will-retain bit
    pub fn will_retain(&self) -> (r: bool)
        ensures
            r == self@.will_retain,
    {
        self.will_retain
    }

    /// Gets the QoS level to be used when publishing the will message
    pub fn will_qos(&self) -> (r: u8)
        ensures
            r == self@.will_qos,
    {
        self.will_qos
    }

    /// Gets the will topic
    pub fn will_topic(&self) -> (r: Option<&[u8]>)
        ensures
            match r {
                Some(x) => self@.will_topic matches Some(y) && x@ == y,
                None => self@.will_topic is None,
            },
    {
        match &self.will_topic {
            Some(b) => Some(b.as_slice()),
            None => None,
        }
    }

    /// Gets the will message
    pub fn will_message(&self) -> (r: Option<&[u8]>)
        ensures
            match r {
                Some(x) => self@.will_message matches Some(y) && x@ == y,
                None => self@.will_message is None,
            },
    {
        match &self.will_message {
            Some(b) => Some(b.as_slice()),
            None => None,
        }
    }

    /// Gets the username
    pub fn username(&self) -> (r: Option<&[u8]>)
        ensures
            match r {
                Some(x) => self@.username matches Some(y) && x@ == y,
                None => self@.username is None,
            },
    {
        match &self.username {
            Some(b) => Some(b.as_slice()),
            None => None,
        }
    }

    /// Gets the password
    pub fn password(&self) -> (r: Option<&[u8]>)
        ensures
            match r {
                Some(x) => self@.password matches Some(y) && x@ == y,
                None => self@.password is None,
            },
    {
        match &self.password {
            Some(b) => Some(b.as_slice()),
            None => None,
        }
    }

    /// Tries to parse a CONNECT packet from the given bytes; bytes past the
    /// packet's remaining length are left untouched
    #[verifier::rlimit(100)]
    pub fn try_from_iter(bytes: Vec<u8>) -> (r: Result<Self, DecoderError>)
        ensures
            match parse_connect(bytes@) {
                Ok(v) => r matches Ok(p) && p@ == v && connect_wf(v),
                Err(k) => r matches Err(e) && e.variant == k,
            },
    {
        proof {
            reveal(parse_connect_fields);
            reveal(parse_connect_options);
        }
        let mut decoder = Decoder::new(bytes);
        let header = match decoder.header() {
            Ok(h) => h,
            Err(e) => {
                return Err(e);
            },
        };
        if header.0 != Self::TYPE {
            return Err(Error::new(Decoding::SpecViolation));
        }
        let len = match decoder.packetlen() {
            Ok(l) => l,
            Err(e) => {
                return Err(e);
            },
        };
        if decoder.remaining_len() < len {
            return Err(Error::new(Decoding::Truncated));
        }
        let mut decoder = decoder.limit(len);
        let ghost region = parse_frame(1, None, bytes@)->Ok_0.1;
        let name = match decoder.raw(6) {
            Ok(v) => v,
            Err(e) => {
                return Err(e);
            },
        };
        if !(name[0] == 0x00 && name[1] == 0x04 && name[2] == 0x4D && name[3] == 0x51 && name[4]
            == 0x54 && name[5] == 0x54) {
            proof {
                assert(region.take(6) != protocol_name());
            }
            return Err(Error::new(Decoding::SpecViolation));
        }
        proof {
            assert(region.take(6) =~= protocol_name());
        }
        let level = match decoder.u8() {
            Ok(b) => b,
            Err(e) => {
                return Err(e);
            },
        };
        if level != Self::PROTOCOL_LEVEL {
            return Err(Error::new(Decoding::UnsupportedVersion));
        }
        let cf = match decoder.bitmap() {
            Ok(f) => f,
            Err(e) => {
                return Err(e);
            },
        };
        let keep_alive_secs = match decoder.u16() {
            Ok(v) => v,
            Err(e) => {
                return Err(e);
            },
        };
        let client_id = match decoder.bytes() {
            Ok(b) => b,
            Err(e) => {
                return Err(e);
            },
        };
        let will_topic = match decoder.optional_bytes(cf[5]) {
            Ok(b) => b,
            Err(e) => {
                return Err(e);
            },
        };
        let will_message = match decoder.optional_bytes(cf[5]) {
            Ok(b) => b,
            Err(e) => {
                return Err(e);
            },
        };
        let username = match decoder.optional_bytes(cf[0]) {
            Ok(b) => b,
            Err(e) => {
                return Err(e);
            },
        };
        let password = match decoder.optional_bytes(cf[1]) {
            Ok(b) => b,
            Err(e) => {
                return Err(e);
            },
        };
        if !decoder.is_empty() {
            return Err(Error::new(Decoding::SpecViolation));
        }
        let will_qos: u8 = (if cf[3] {
            2
        } else {
            0
        }) + (if cf[4] {
            1
        } else {
            0
        });
        Ok(
            Self {
                keep_alive_secs,
                clean_session: cf[6],
                will_retain: cf[2],
                will_qos,
                client_id,
                will_topic,
                will_message,
                username,
                password,
            },
        )
    }

    /// The connect-flags byte of this packet as a bitmap
    fn flag_bits(&self) -> (r: [bool; 8])
        ensures
            r@ == connect_flags(self@),
    {
        let flags: [bool; 8] = [
            matches!(self.username, Some(_)),
            matches!(self.password, Some(_)),
            self.will_retain,
            self.will_qos / 2 % 2 == 1,
            self.will_qos % 2 == 1,
            matches!(self.will_topic, Some(_)),
            self.clean_session,
            false,
        ];
        proof {
            assert(flags@ =~= connect_flags(self@));
        }
        flags
    }

    /// Pre-computes the body length with the length meter
    fn body_len(&self, flags: &[bool; 8]) -> (r: usize)
        requires
            connect_wf(self@),
            flags@ == connect_flags(self@),
        ensures
            r as int == connect_body(self@).len(),
    {
        let len = Length::new().u8(&0x00).u8(&0x04).u8(&0x4D).u8(&0x51).u8(&0x54).u8(&0x54).u8(
            &Self::PROTOCOL_LEVEL,
        ).bitmap(flags).u16(&self.keep_alive_secs).bytes(&self.client_id).optional_bytes(
            &self.will_topic,
        ).optional_bytes(&self.will_message).optional_bytes(&self.username).optional_bytes(
            &self.password,
        ).finalize();
        proof {
            assert(len as int == connect_body(self@).len());
        }
        len
    }

    /// Writes the body fields after the protocol name and level
    fn encode_fields(self, e: Encoder, flags: [bool; 8]) -> (r: Encoder)
        requires
            connect_wf(self@),
            flags@ == connect_flags(self@),
        ensures
            r@ == e@ + seq![bitmap_byte(connect_flags(self@))] + u16_bytes(self@.keep_alive_secs)
                + bytes_field(self@.client_id) + opt_bytes_field(self@.will_topic)
                + opt_bytes_field(self@.will_message) + opt_bytes_field(self@.username)
                + opt_bytes_field(self@.password),
    {
        let ghost head = e@;
        let r = e.bitmap(flags).u16(self.keep_alive_secs).bytes(
            self.client_id.as_slice(),
        ).optional_bytes(&self.will_topic).optional_bytes(&self.will_message).optional_bytes(
            &self.username,
        ).optional_bytes(&self.password);
        proof {
            assert(r@ =~= head + seq![bitmap_byte(connect_flags(self@))] + u16_bytes(
                self@.keep_alive_secs,
            ) + bytes_field(self@.client_id) + opt_bytes_field(self@.will_topic) + opt_bytes_field(
                self@.will_message,
            ) + opt_bytes_field(self@.username) + opt_bytes_field(self@.password));
        }
        r
    }

    /// Encodes the packet as its canonical byte sequence; the protocol name
    /// and level fields are the fixed literal bytes of the supported version
    #[verifier::rlimit(100)]
    pub fn into_vec(self) -> (r: Vec<u8>)
        requires
            connect_wf(self@),
        ensures
            r@ == connect_bytes(self@),
    {
        let flags = self.flag_bits();
        let len = self.body_len(&flags);
        let zero: [bool; 4] = [false, false, false, false];
        proof {
            assert(zero@ =~= no_flags());
        }
        let e = Encoder::default().header(Self::TYPE, zero).packetlen(len);
        proof {
            assert(e@ =~= seq![crate::wire::header_byte(1, no_flags())]
                + crate::wire::packetlen_bytes(len as int));
        }
        let ghost head = e@;
        let e = e.u8(0x00).u8(0x04).u8(0x4D).u8(0x51).u8(0x54).u8(0x54).u8(Self::PROTOCOL_LEVEL);
        proof {
            assert(e@ =~= head + protocol_name() + seq![0x04u8]);
        }
        let ghost mid = e@;
        let e = self.encode_fields(e, flags);
        proof {
            assert(e@ =~= head + connect_body(self@));
            assert(e@ =~= connect_bytes(self@));
        }
        e.into_vec()
    }
}

/// The optional fields of a CONNECT packet round-trip.
#[verifier::rlimit(100)]
proof fn lemma_connect_options_roundtrip(v: ConnectView)
    requires
        connect_wf(v),
    ensures
        parse_connect_options(
            connect_flags(v),
            v.keep_alive_secs,
            v.client_id,
            opt_bytes_field(v.will_topic) + opt_bytes_field(v.will_message) + opt_bytes_field(
                v.username,
            ) + opt_bytes_field(v.password),
        ) == Ok::<ConnectView, Decoding>(v),
{
    reveal(parse_connect_options);
    let cf = connect_flags(v);
    let t8 = opt_bytes_field(v.password);
    let t7 = opt_bytes_field(v.username) + t8;
    let t6 = opt_bytes_field(v.will_message) + t7;
    let t5 = opt_bytes_field(v.will_topic) + t6;
    assert(opt_bytes_field(v.will_topic) + opt_bytes_field(v.will_message) + opt_bytes_field(
        v.username,
    ) + opt_bytes_field(v.password) =~= t5);
    assert(cf[5] <==> v.will_topic is Some);
    assert(cf[0] <==> v.username is Some);
    assert(cf[1] <==> v.password is Some);
    lemma_opt_bytes_roundtrip(cf[5], v.will_topic, t6);
    assert(cf[5] <==> v.will_message is Some);
    lemma_opt_bytes_roundtrip(cf[5], v.will_message, t7);
    lemma_opt_bytes_roundtrip(cf[0], v.username, t8);
    assert(t8 =~= opt_bytes_field(v.password) + Seq::<u8>::empty());
    lemma_opt_bytes_roundtrip(cf[1], v.password, Seq::empty());
    assert(bool_bit(bit(v.will_qos, 2)) * 2 + bool_bit(bit(v.will_qos, 1)) == v.will_qos);
    assert(parse_connect_options(cf, v.keep_alive_secs, v.client_id, t5) == Ok::<
        ConnectView,
        Decoding,
    >(v));
}

/// The field section of a CONNECT packet round-trips.
#[verifier::rlimit(100)]
proof fn lemma_connect_fields_roundtrip(v: ConnectView)
    requires
        connect_wf(v),
    ensures
        parse_connect_fields(connect_field_bytes(v)) == Ok::<ConnectView, Decoding>(v),
{
    reveal(parse_connect_fields);
    let cf = connect_flags(v);
    let t5 = opt_bytes_field(v.will_topic) + opt_bytes_field(v.will_message) + opt_bytes_field(
        v.username,
    ) + opt_bytes_field(v.password);
    let t4 = bytes_field(v.client_id) + t5;
    let t3 = u16_bytes(v.keep_alive_secs) + t4;
    let t2 = seq![bitmap_byte(cf)] + t3;
    assert(connect_field_bytes(v) =~= t2);
    assert(t2[0] == bitmap_byte(cf));
    assert(t2.skip(1) =~= t3);
    lemma_bitmap_roundtrip(cf);
    assert(parse_bitmap(t2) == Ok::<(Seq<bool>, Seq<u8>), Decoding>((cf, t3)));
    lemma_u16_roundtrip(v.keep_alive_secs);
    assert(t3[0] == crate::wire::u16_hi(v.keep_alive_secs));
    assert(t3[1] == crate::wire::u16_lo(v.keep_alive_secs));
    assert(t3.skip(2) =~= t4);
    assert(parse_u16(t3) == Ok::<(u16, Seq<u8>), Decoding>((v.keep_alive_secs, t4)));
    lemma_bytes_field_roundtrip(v.client_id, t5);
    assert(parse_bytes_field(t4) == Ok::<(Seq<u8>, Seq<u8>), Decoding>((v.client_id, t5)));
    lemma_connect_options_roundtrip(v);
    assert(t5 =~= opt_bytes_field(v.will_topic) + opt_bytes_field(v.will_message)
        + opt_bytes_field(v.username) + opt_bytes_field(v.password));
    assert(parse_connect_fields(t2) == Ok::<ConnectView, Decoding>(v));
}

/// The byte sequence of the CONNECT field section
pub open spec fn connect_field_bytes(v: ConnectView) -> Seq<u8> {
    seq![bitmap_byte(connect_flags(v))] + u16_bytes(v.keep_alive_secs) + bytes_field(v.client_id)
        + opt_bytes_field(v.will_topic) + opt_bytes_field(v.will_message) + opt_bytes_field(
        v.username,
    ) + opt_bytes_field(v.password)
}

/// The CONNECT body opens with the protocol name and level, followed by the
/// field section.
#[verifier::rlimit(100)]
proof fn lemma_connect_body_shape(v: ConnectView)
    requires
        connect_wf(v),
    ensures
        connect_body(v).len() >= 8,
        connect_body(v).take(6) == protocol_name(),
        parse_u8(connect_body(v).skip(6)) == Ok::<(u8, Seq<u8>), Decoding>(
            (0x04, connect_field_bytes(v)),
        ),
{
    let body = connect_body(v);
    let t2 = connect_field_bytes(v);
    let t1 = seq![0x04u8] + t2;
    assert(body =~= protocol_name() + t1);
    assert(body.take(6) =~= protocol_name());
    assert(body.skip(6) =~= t1);
    assert(t1[0] == 0x04);
    assert(t1.skip(1) =~= t2);
}

/// A CONNECT packet round-trips: parsing its canonical encoding yields the
/// packet back, whatever follows the frame.
#[verifier::rlimit(100)]
pub proof fn lemma_connect_roundtrip(v: ConnectView, rest: Seq<u8>)
    requires
        connect_wf(v),
    ensures
        parse_connect(connect_bytes(v) + rest) == Ok::<ConnectView, Decoding>(v),
{
    let body = connect_body(v);
    lemma_frame_roundtrip(1, no_flags(), None, body, rest);
    let s = connect_bytes(v) + rest;
    assert(parse_frame(1, None, s) == Ok::<(Seq<bool>, Seq<u8>), Decoding>((no_flags(), body)));
    lemma_connect_body_shape(v);
    lemma_connect_fields_roundtrip(v);
    assert(parse_connect_fields(connect_field_bytes(v)) == Ok::<ConnectView, Decoding>(v));
    assert(parse_connect(s) == Ok::<ConnectView, Decoding>(v));
}

/// Optional-field discipline: a decoded CONNECT holds a will topic exactly
/// when it holds a will message, since both travel under the one will flag
/// of the connect-flags byte; credentials follow their own two flags.
pub proof fn lemma_connect_will_discipline(s: Seq<u8>)
    requires
        parse_connect(s) is Ok,
    ensures
        parse_connect(s) matches Ok(v) ==> (v.will_topic is Some <==> v.will_message is Some),
{
    reveal(parse_connect_fields);
    reveal(parse_connect_options);
}

/// Every strict prefix of an encoded CONNECT packet is truncated input.
pub proof fn lemma_connect_truncation(v: ConnectView, i: int)
    requires
        connect_wf(v),
        0 <= i < connect_bytes(v).len(),
    ensures
        parse_connect(connect_bytes(v).take(i)) == Err::<ConnectView, Decoding>(
            Decoding::Truncated,
        ),
{
    lemma_frame_truncation(1, no_flags(), None, connect_body(v), i);
}

} // verus!
