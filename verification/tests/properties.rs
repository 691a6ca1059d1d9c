//! End-to-end scenarios, boundary behaviors and error-kind checks.

use mqtt_tiny::anyvec::ByteBuf;
use mqtt_tiny::coding::{Decoder, Encoder, Reader};
use mqtt_tiny::error::{Decoding, ErrorKind};
use mqtt_tiny::{Connack, Connect, Disconnect, Packet, Puback, Publish, Subscribe};

/// A remaining length of zero is one zero byte
#[test]
fn packetlen_boundary_zero() {
    let read = Decoder::new(vec![0x00]).packetlen();
    assert_eq!(read.unwrap(), 0);
}

/// A multi-byte remaining length with a leading zero heptet is rejected
#[test]
fn packetlen_boundary_leading_zero() {
    let read = Decoder::new(vec![0x80, 0x00]).packetlen();
    assert_eq!(read.unwrap_err().variant, Decoding::SpecViolation);
}

/// The largest remaining length is accepted and round-trips
#[test]
fn packetlen_boundary_max() {
    let read = Decoder::new(vec![0xFF, 0xFF, 0xFF, 0x7F]).packetlen();
    assert_eq!(read.unwrap(), 268435455);
    let written = Encoder::default().packetlen(268435455).into_vec();
    assert_eq!(written, vec![0xFF, 0xFF, 0xFF, 0x7F]);
}

/// A remaining length of 2^28 or more is rejected
#[test]
fn packetlen_boundary_too_large() {
    let read = Decoder::new(vec![0xFF, 0xFF, 0xFF, 0xFF]).packetlen();
    assert_eq!(read.unwrap_err().variant, Decoding::SpecViolation);
}

/// A byte field of the maximum length 0xFFFF round-trips
#[test]
fn bytes_boundary_max_len() {
    let payload = vec![0x2A; 0xFFFF];
    let encoded = Encoder::default().bytes(&payload).into_vec();
    assert_eq!(encoded.len(), 2 + 0xFFFF);
    let decoded = Decoder::new(encoded).bytes().unwrap();
    assert_eq!(decoded.as_slice(), payload.as_slice());
}

/// An empty region yields an empty topic sequence
#[test]
fn topics_boundary_empty_region() {
    let topics = Decoder::new(Vec::new()).peekable().topics().unwrap();
    assert!(topics.is_empty());
    let topics_qos = Decoder::new(Vec::new()).peekable().topics_qos().unwrap();
    assert!(topics_qos.is_empty());
}

/// PUBACK round-trips through its reference bytes
#[test]
fn scenario_puback() {
    let decoded = Puback::try_from_iter(b"\x40\x02\x04\x07".to_vec()).unwrap();
    assert_eq!(decoded.packet_id(), 0x0407);
    assert_eq!(decoded.into_vec(), b"\x40\x02\x04\x07".to_vec());
}

/// DISCONNECT round-trips through its reference bytes
#[test]
fn scenario_disconnect() {
    let decoded = Disconnect::try_from_iter(b"\xE0\x00".to_vec()).unwrap();
    assert_eq!(decoded.into_vec(), b"\xE0\x00".to_vec());
}

/// A basic CONNECT round-trips through its reference bytes
#[test]
fn scenario_connect_basic() {
    let bytes = b"\x10\x10\x00\x04\x4D\x51\x54\x54\x04\x00\x00\x1E\x00\x04\x74\x65\x73\x74";
    let decoded = Connect::try_from_iter(bytes.to_vec()).unwrap();
    assert_eq!(decoded.keep_alive_secs(), 30);
    assert_eq!(decoded.clean_session(), false);
    assert_eq!(decoded.client_id(), b"test");
    assert_eq!(decoded.will_topic(), None);
    assert_eq!(decoded.will_message(), None);
    assert_eq!(decoded.username(), None);
    assert_eq!(decoded.password(), None);
    assert_eq!(decoded.into_vec(), bytes.to_vec());
}

/// A full CONNECT round-trips through its reference bytes
#[test]
fn scenario_connect_full() {
    let bytes =
        b"\x10\x3D\x00\x04MQTT\x04\xEE\xFF\xFF\x00\x08clientid\x00\x08lastwill\x00\x09testolope\x00\x08username\x00\x08password";
    let decoded = Connect::try_from_iter(bytes.to_vec()).unwrap();
    assert_eq!(decoded.keep_alive_secs(), 65535);
    assert_eq!(decoded.clean_session(), true);
    assert_eq!(decoded.will_retain(), true);
    assert_eq!(decoded.will_qos(), 1);
    assert_eq!(decoded.client_id(), b"clientid");
    assert_eq!(decoded.will_topic(), Some(&b"lastwill"[..]));
    assert_eq!(decoded.will_message(), Some(&b"testolope"[..]));
    assert_eq!(decoded.username(), Some(&b"username"[..]));
    assert_eq!(decoded.password(), Some(&b"password"[..]));
    assert_eq!(decoded.into_vec(), bytes.to_vec());
}

/// A PUBLISH with QoS 2 round-trips through its reference bytes
#[test]
fn scenario_publish_qos2() {
    let bytes = b"\x34\x0D\x00\x04Test\x04\x07Olope";
    let decoded = Publish::try_from_iter(bytes.to_vec()).unwrap();
    assert_eq!(decoded.topic(), b"Test");
    assert_eq!(decoded.payload(), b"Olope");
    assert_eq!(decoded.dup(), false);
    assert_eq!(decoded.qos(), 2);
    assert_eq!(decoded.retain(), false);
    assert_eq!(decoded.packet_id(), Some(0x0407));
    assert_eq!(decoded.into_vec(), bytes.to_vec());
}

/// A two-topic SUBSCRIBE round-trips through its reference bytes
#[test]
fn scenario_subscribe_two_topics() {
    let bytes = b"\x82\x11\x04\x07\x00\x04test\x01\x00\x05olope\x02";
    let decoded = Subscribe::try_from_iter(bytes.to_vec()).unwrap();
    assert_eq!(decoded.packet_id(), 0x0407);
    let topics: Vec<(Vec<u8>, u8)> =
        decoded.topics_qos().iter().map(|(t, q)| (t.as_slice().to_vec(), *q)).collect();
    assert_eq!(topics, vec![(b"test".to_vec(), 1), (b"olope".to_vec(), 2)]);
    assert_eq!(decoded.into_vec(), bytes.to_vec());
}

/// A CONNACK with remaining length 1 violates the spec
#[test]
fn scenario_connack_bad_length() {
    let decoded = Connack::try_from_iter(b"\x20\x01\x00".to_vec());
    assert_eq!(decoded.unwrap_err().variant, Decoding::SpecViolation);
}

/// A CONNECT with a wrong protocol name violates the spec
#[test]
fn scenario_connect_bad_name() {
    let decoded = Connect::try_from_iter(b"\x10\x10\x00\x04MQTP\x04\x00\x00\x1E\x00\x04test".to_vec());
    assert_eq!(decoded.unwrap_err().variant, Decoding::SpecViolation);
}

/// A CONNECT with a wrong protocol level is an unsupported version
#[test]
fn scenario_connect_bad_level() {
    let decoded = Connect::try_from_iter(b"\x10\x10\x00\x04MQTT\x05\x00\x00\x1E\x00\x04test".to_vec());
    assert_eq!(decoded.unwrap_err().variant, Decoding::UnsupportedVersion);
}

/// A SUBSCRIBE with a zero flag nibble violates the spec
#[test]
fn scenario_subscribe_bad_flags() {
    let decoded = Subscribe::try_from_iter(b"\x80\x0E\x04\x07\x00\x09testolope\x01".to_vec());
    assert_eq!(decoded.unwrap_err().variant, Decoding::SpecViolation);
}

/// An unknown packet type violates the spec
#[test]
fn scenario_unknown_type() {
    let decoded = Packet::try_from_iter(b"\xF0\x00".to_vec());
    assert_eq!(decoded.unwrap_err().variant, Decoding::SpecViolation);
}

/// Every strict prefix of an encoded packet is truncated input
#[test]
fn truncation_every_prefix() {
    let packets: Vec<Vec<u8>> = vec![
        b"\x40\x02\x04\x07".to_vec(),
        b"\xE0\x00".to_vec(),
        b"\x10\x10\x00\x04MQTT\x04\x00\x00\x1E\x00\x04test".to_vec(),
        b"\x34\x0D\x00\x04Test\x04\x07Olope".to_vec(),
        b"\x82\x11\x04\x07\x00\x04test\x01\x00\x05olope\x02".to_vec(),
        b"\xA2\x0D\x04\x07\x00\x09testolope".to_vec(),
    ];
    for encoded in packets {
        for cut in 0..encoded.len() {
            let prefix = encoded[..cut].to_vec();
            let decoded = Packet::try_from_iter(prefix);
            assert_eq!(decoded.unwrap_err().variant, Decoding::Truncated, "prefix of length {cut} not truncated");
        }
    }
}

/// Re-encoding a decoded packet reproduces the bytes
#[test]
fn idempotent_reencode() {
    let packets: Vec<Vec<u8>> = vec![
        b"\x20\x02\x01\x00".to_vec(),
        b"\x40\x02\x04\x07".to_vec(),
        b"\xE0\x00".to_vec(),
        b"\x10\x25\x00\x04MQTT\x04\x04\x00\x1E\x00\x04test\x00\x08lastwill\x00\x09testolope".to_vec(),
        b"\x3B\x0D\x00\x04Test\x04\x07Olope".to_vec(),
        b"\x82\x0E\x04\x07\x00\x09testolope\x01".to_vec(),
    ];
    for encoded in packets {
        let decoded = Packet::try_from_iter(encoded.clone()).unwrap();
        assert_eq!(decoded.into_vec(), encoded);
    }
}

/// The encoded packet is the metered body plus header and length field
#[test]
fn length_agreement() {
    // CONNACK: body 2, one length byte, one header byte
    assert_eq!(Connack::new(true, 0).into_vec().len(), 2 + 1 + 1);
    // PUBLISH: body 2 + 4 + 2 + 5 = 13, one length byte, one header byte
    let publish = Publish::new(b"Test", b"Olope", false).unwrap().with_qos(2, 0x0407, false);
    assert_eq!(publish.into_vec().len(), 13 + 1 + 1);
    // A publish whose body needs a two-byte length field
    let publish = Publish::new(b"Test", &[0x2A; 0x80], false).unwrap();
    assert_eq!(publish.into_vec().len(), (2 + 4 + 0x80) + 2 + 1);
}

/// A bounded buffer reports exhaustion and keeps its contents unchanged
#[test]
fn bounded_buffer_capacity() {
    let mut buf = ByteBuf::with_capacity(2);
    assert_eq!(buf.capacity(), 2);
    buf.push(1).unwrap();
    buf.push(2).unwrap();
    assert!(buf.push(3).is_err());
    assert_eq!(buf.as_slice(), &[1, 2]);

    // A failed extend is atomic
    let mut buf = ByteBuf::with_capacity(3);
    buf.push(1).unwrap();
    assert!(buf.extend(&[2, 3, 4]).is_err());
    assert_eq!(buf.as_slice(), &[1]);
    buf.extend(&[2, 3]).unwrap();
    assert_eq!(buf.as_slice(), &[1, 2, 3]);
}

/// An insert past the end of a buffer is treated as an append
#[test]
fn buffer_insert_clamped() {
    let mut buf = ByteBuf::new(&[1, 2]).unwrap();
    buf.insert(7, 3).unwrap();
    assert_eq!(buf.as_slice(), &[1, 2, 3]);
    buf.insert(0, 0).unwrap();
    assert_eq!(buf.as_slice(), &[0, 1, 2, 3]);
}

/// A length-prefixed field that is not valid UTF-8 is not a string
#[test]
fn string_requires_utf8() {
    // The bytes decode fine as a raw field
    let read = Reader::new(b"\x00\x02\xFF\xFE".to_vec()).read_bytes();
    assert_eq!(read.unwrap(), vec![0xFF, 0xFE]);

    // The same bytes are rejected as a string
    let read = Reader::new(b"\x00\x02\xFF\xFE".to_vec()).read_string();
    assert_eq!(read.unwrap_err().kind(), &ErrorKind::InvalidValue);
}

/// The reader-based DISCONNECT round-trips through its reference bytes
#[test]
fn legacy_disconnect_roundtrip() {
    let mut reader = Reader::new(b"\xE0\x00".to_vec());
    let decoded = mqtt_tiny::MqttDisconnect::read(&mut reader).unwrap();
    assert_eq!(decoded.write(Vec::new()).unwrap(), b"\xE0\x00".to_vec());

    let mut reader = Reader::new(b"\xE0\x01".to_vec());
    assert!(mqtt_tiny::MqttDisconnect::read(&mut reader).is_err());
}

/// The reader-based PINGREQ round-trips through its reference bytes
#[test]
fn legacy_pingreq_roundtrip() {
    let mut reader = Reader::new(b"\xC0\x00".to_vec());
    let decoded = mqtt_tiny::MqttPingreq::read(&mut reader).unwrap();
    assert_eq!(decoded.write(Vec::new()).unwrap(), b"\xC0\x00".to_vec());

    let mut reader = Reader::new(b"\xD0\x00".to_vec());
    assert!(mqtt_tiny::MqttPingreq::read(&mut reader).is_err());
}
