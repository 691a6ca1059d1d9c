//! Tests for the fourteen packet types and the type-erased packet.

use mqtt_tiny::anyvec::ByteBuf;
use mqtt_tiny::{
    Connack, Connect, Disconnect, Packet, Pingreq, Pingresp, Puback, Pubcomp, Publish, Pubrec,
    Pubrel, Suback, Subscribe, Unsuback, Unsubscribe,
};

/// Wraps the given bytes in an unbounded buffer
fn buf(bytes: &[u8]) -> ByteBuf {
    ByteBuf::new(bytes).expect("failed to create byte buffer")
}

/// Known-good encoded/decoded CONNACK pairs
fn connack_vectors() -> Vec<(&'static [u8], Connack)> {
    vec![
        (b"\x20\x02\x00\x00", Connack::new(false, 0)),
        (b"\x20\x02\x01\x00", Connack::new(true, 0)),
        (b"\x20\x02\x00\x05", Connack::new(false, 5)),
    ]
}

/// Tests successful CONNACK decoding
#[test]
pub fn connack_decode() {
    for (encoded, expected) in connack_vectors() {
        let decoded = Connack::try_from_iter(encoded.to_vec()).expect("Failed to decode valid packet");
        assert_eq!(decoded, expected, "Invalid decoded packet")
    }
}

/// Tests successful CONNACK encoding
#[test]
pub fn connack_encode() {
    for (encoded, expected) in connack_vectors() {
        let written = expected.clone().into_vec();
        assert_eq!(written, encoded.to_vec(), "Invalid encoded packet");
    }
}

/// Tests failing CONNACK decoding
#[test]
pub fn connack_decode_invalid() {
    let bad: [&[u8]; 4] = [b"", b"\x20", b"\x20\x01\x00", b"\x20\x02\x00"];
    for encoded in bad {
        let decoded = Connack::try_from_iter(encoded.to_vec());
        assert!(decoded.is_err(), "Unexpected success when decoding invalid packet");
    }
}

/// Known-good encoded/decoded CONNECT pairs
fn connect_vectors() -> Vec<(&'static [u8], Connect)> {
    vec![
        // A basic packet
        (
            b"\x10\x10\x00\x04MQTT\x04\x00\x00\x1E\x00\x04test",
            Connect::new(30, false, b"test").expect("failed to create packet"),
        ),
        // A packet with a last-will
        (
            b"\x10\x25\x00\x04MQTT\x04\x04\x00\x1E\x00\x04test\x00\x08lastwill\x00\x09testolope",
            Connect::new(30, false, b"test")
                .expect("failed to create packet")
                .with_will(b"lastwill", b"testolope", 0x00, false)
                .expect("failed to configure last will"),
        ),
        // A packet with login data
        (
            b"\x10\x24\x00\x04MQTT\x04\xC0\x00\x1E\x00\x04test\x00\x08username\x00\x08password",
            Connect::new(30, false, b"test")
                .expect("failed to create packet")
                .with_username_password(b"username", b"password")
                .expect("failed to configure login data"),
        ),
        // A packet with everything and clean session
        (
            b"\x10\x3D\x00\x04MQTT\x04\xEE\xFF\xFF\x00\x08clientid\x00\x08lastwill\x00\x09testolope\x00\x08username\x00\x08password",
            Connect::new(65535, true, b"clientid")
                .expect("failed to create packet")
                .with_will(b"lastwill", b"testolope", 0x01, true)
                .expect("failed to configure last will")
                .with_username_password(b"username", b"password")
                .expect("failed to configure login data"),
        ),
    ]
}

/// Tests successful CONNECT decoding
#[test]
pub fn connect_decode() {
    for (encoded, expected) in connect_vectors() {
        let decoded = Connect::try_from_iter(encoded.to_vec()).expect("Failed to decode valid packet");
        assert_eq!(decoded, expected, "Invalid decoded packet")
    }
}

/// Tests successful CONNECT encoding
#[test]
pub fn connect_encode() {
    for (encoded, expected) in connect_vectors() {
        let written = expected.clone().into_vec();
        assert_eq!(written, encoded.to_vec(), "Invalid encoded packet");
    }
}

/// Tests failing CONNECT decoding
#[test]
pub fn connect_decode_invalid() {
    let bad: [&[u8]; 6] = [
        // Packet with invalid packet type
        b"\x20\x10\x00\x04MQTT\x04\x00\x00\x1E\x00\x04test",
        // Packet with invalid protocol name
        b"\x10\x10\x00\x04MQTP\x04\x00\x00\x1E\x00\x04test",
        // Packet with invalid protocol version
        b"\x10\x10\x00\x04MQTT\x05\x00\x00\x1E\x00\x04test",
        // Packet with indicated last will but missing topic/message
        b"\x10\x1A\x00\x04MQTT\x04\x04\x00\x1E\x00\x04test\x00\x08lastwill",
        // Packet with indicated but missing username
        b"\x10\x10\x00\x04MQTT\x04\xC0\x00\x1E\x00\x04test",
        // Packet with indicated but missing password
        b"\x10\x10\x00\x04MQTT\x04\xC0\x00\x1E\x00\x04test",
    ];
    for encoded in bad {
        let decoded = Connect::try_from_iter(encoded.to_vec());
        assert!(decoded.is_err(), "Unexpected success when decoding invalid packet");
    }
}

/// Tests successful PINGRESP decoding
#[test]
pub fn pingresp_decode() {
    let decoded = Pingresp::try_from_iter(b"\xD0\x00".to_vec()).expect("Failed to decode valid packet");
    assert_eq!(decoded, Pingresp::new(), "Invalid decoded packet")
}

/// Tests successful PINGRESP encoding
#[test]
pub fn pingresp_encode() {
    let written = Pingresp::new().into_vec();
    assert_eq!(written, b"\xD0\x00".to_vec(), "Invalid encoded packet");
}

/// Tests failing PINGRESP decoding
#[test]
pub fn pingresp_decode_invalid() {
    // Packet with invalid packet type
    let decoded = Pingresp::try_from_iter(b"\xC0\x00".to_vec());
    assert!(decoded.is_err(), "Unexpected success when decoding invalid packet");
}

/// Tests successful PUBACK decoding
#[test]
pub fn puback_decode() {
    let decoded = Puback::try_from_iter(b"\x40\x02\x04\x07".to_vec()).expect("Failed to decode valid packet");
    assert_eq!(decoded, Puback::new(0x0407), "Invalid decoded packet")
}

/// Tests successful PUBACK encoding
#[test]
pub fn puback_encode() {
    let written = Puback::new(0x0407).into_vec();
    assert_eq!(written, b"\x40\x02\x04\x07".to_vec(), "Invalid encoded packet");
}

/// Tests failing PUBACK decoding
#[test]
pub fn puback_decode_invalid() {
    let bad: [&[u8]; 2] = [
        // Packet with invalid packet type
        b"\x50\x02\x04\x07",
        // Packet with invalid length
        b"\x40\x00",
    ];
    for encoded in bad {
        let decoded = Puback::try_from_iter(encoded.to_vec());
        assert!(decoded.is_err(), "Unexpected success when decoding invalid packet");
    }
}

/// Known-good encoded/decoded PUBLISH pairs
fn publish_vectors() -> Vec<(&'static [u8], Publish)> {
    vec![
        // A basic packet
        (
            b"\x30\x0B\x00\x04TestOlope",
            Publish::new(b"Test", b"Olope", false).expect("failed to create packet"),
        ),
        // A packet with QoS
        (
            b"\x34\x0D\x00\x04Test\x04\x07Olope",
            Publish::new(b"Test", b"Olope", false).expect("failed to create packet").with_qos(2, 0x0407, false),
        ),
        // A packet with everything enabled
        (
            b"\x3B\x0D\x00\x04Test\x04\x07Olope",
            Publish::new(b"Test", b"Olope", true).expect("failed to create packet").with_qos(1, 0x0407, true),
        ),
    ]
}

/// Tests successful PUBLISH decoding
#[test]
pub fn publish_decode() {
    for (encoded, expected) in publish_vectors() {
        let decoded = Publish::try_from_iter(encoded.to_vec()).expect("Failed to decode valid packet");
        assert_eq!(decoded, expected, "Invalid decoded packet")
    }
}

/// Tests successful PUBLISH encoding
#[test]
pub fn publish_encode() {
    for (encoded, expected) in publish_vectors() {
        let written = expected.clone().into_vec();
        assert_eq!(written, encoded.to_vec(), "Invalid encoded packet");
    }
}

/// Tests failing PUBLISH decoding
#[test]
pub fn publish_decode_invalid() {
    let bad: [&[u8]; 2] = [
        // Packet with invalid packet type
        b"\x40\x0B\x00\x04TestOlope",
        // Packet with non-zero QoS but missing/truncated packet ID
        b"\x34\x07\x00\x04TestO",
    ];
    for encoded in bad {
        let decoded = Publish::try_from_iter(encoded.to_vec());
        assert!(decoded.is_err(), "Unexpected success when decoding invalid packet");
    }
}

/// Known-good encoded/decoded SUBSCRIBE pairs
fn subscribe_vectors() -> Vec<(&'static [u8], Subscribe)> {
    vec![
        // Single topic subscription
        (
            b"\x82\x0E\x04\x07\x00\x09testolope\x01",
            Subscribe::new(0x0407, vec![(buf(b"testolope"), 1)]).expect("failed to create packet"),
        ),
        // Multiple topic subscription
        (
            b"\x82\x11\x04\x07\x00\x04test\x01\x00\x05olope\x02",
            Subscribe::new(0x0407, vec![(buf(b"test"), 1), (buf(b"olope"), 2)])
                .expect("failed to create packet"),
        ),
    ]
}

/// Tests successful SUBSCRIBE decoding
#[test]
pub fn subscribe_decode() {
    for (encoded, expected) in subscribe_vectors() {
        let decoded = Subscribe::try_from_iter(encoded.to_vec()).expect("Failed to decode valid packet");
        assert_eq!(decoded, expected, "Invalid decoded packet")
    }
}

/// Tests successful SUBSCRIBE encoding
#[test]
pub fn subscribe_encode() {
    for (encoded, expected) in subscribe_vectors() {
        let written = expected.clone().into_vec();
        assert_eq!(written, encoded.to_vec(), "Invalid encoded packet");
    }
}

/// Tests failing SUBSCRIBE decoding
#[test]
pub fn subscribe_decode_invalid() {
    let bad: [&[u8]; 2] = [
        // Packet with invalid packet type
        b"\x92\x0E\x04\x07\x00\x09testolope\x01",
        // Packet with invalid header flags
        b"\x80\x0E\x04\x07\x00\x09testolope\x01",
    ];
    for encoded in bad {
        let decoded = Subscribe::try_from_iter(encoded.to_vec());
        assert!(decoded.is_err(), "Unexpected success when decoding invalid packet");
    }
}

/// Known-good encoded/decoded UNSUBSCRIBE pairs
fn unsubscribe_vectors() -> Vec<(&'static [u8], Unsubscribe)> {
    vec![
        // Single topic
        (
            b"\xA2\x0D\x04\x07\x00\x09testolope",
            Unsubscribe::new(0x0407, vec![buf(b"testolope")]).expect("failed to create packet"),
        ),
        // Multiple topics
        (
            b"\xA2\x0F\x04\x07\x00\x04test\x00\x05olope",
            Unsubscribe::new(0x0407, vec![buf(b"test"), buf(b"olope")]).expect("failed to create packet"),
        ),
    ]
}

/// Tests successful UNSUBSCRIBE decoding
#[test]
pub fn unsubscribe_decode() {
    for (encoded, expected) in unsubscribe_vectors() {
        let decoded = Unsubscribe::try_from_iter(encoded.to_vec()).expect("Failed to decode valid packet");
        assert_eq!(decoded, expected, "Invalid decoded packet")
    }
}

/// Tests successful UNSUBSCRIBE encoding
#[test]
pub fn unsubscribe_encode() {
    for (encoded, expected) in unsubscribe_vectors() {
        let written = expected.clone().into_vec();
        assert_eq!(written, encoded.to_vec(), "Invalid encoded packet");
    }
}

/// Tests failing UNSUBSCRIBE decoding
#[test]
pub fn unsubscribe_decode_invalid() {
    let bad: [&[u8]; 2] = [
        // Packet with invalid packet type
        b"\x92\x0D\x04\x07\x00\x09testolope",
        // Packet with invalid header flags
        b"\xA0\x0D\x04\x07\x00\x09testolope",
    ];
    for encoded in bad {
        let decoded = Unsubscribe::try_from_iter(encoded.to_vec());
        assert!(decoded.is_err(), "Unexpected success when decoding invalid packet");
    }
}

/// Known-good encoded/decoded type-erased packet pairs
fn packet_vectors() -> Vec<(&'static [u8], Packet)> {
    vec![
        (b"\x20\x02\x00\x00", Packet::Connack(Connack::new(false, 0))),
        (
            b"\x10\x10\x00\x04MQTT\x04\x00\x00\x1E\x00\x04test",
            Packet::Connect(Connect::new(30, false, b"test").expect("failed to create packet")),
        ),
        (b"\xE0\x00", Packet::Disconnect(Disconnect::new())),
        (b"\xC0\x00", Packet::Pingreq(Pingreq::new())),
        (b"\xD0\x00", Packet::Pingresp(Pingresp::new())),
        (b"\x40\x02\x04\x07", Packet::Puback(Puback::new(0x0407))),
        (b"\x70\x02\x04\x07", Packet::Pubcomp(Pubcomp::new(0x0407))),
        (
            b"\x30\x0B\x00\x04TestOlope",
            Packet::Publish(Publish::new(b"Test", b"Olope", false).expect("failed to create packet")),
        ),
        (b"\x50\x02\x04\x07", Packet::Pubrec(Pubrec::new(0x0407))),
        (b"\x60\x02\x04\x07", Packet::Pubrel(Pubrel::new(0x0407))),
        (b"\x90\x02\x04\x07", Packet::Suback(Suback::new(0x0407))),
        (
            b"\x82\x0E\x04\x07\x00\x09testolope\x01",
            Packet::Subscribe(
                Subscribe::new(0x0407, vec![(buf(b"testolope"), 1)]).expect("failed to create packet"),
            ),
        ),
        (b"\xB0\x02\x04\x07", Packet::Unsuback(Unsuback::new(0x0407))),
        (
            b"\xA2\x0D\x04\x07\x00\x09testolope",
            Packet::Unsubscribe(
                Unsubscribe::new(0x0407, vec![buf(b"testolope")]).expect("failed to create packet"),
            ),
        ),
    ]
}

/// Tests successful type-erased decoding
#[test]
pub fn packet_decode() {
    for (encoded, expected) in packet_vectors() {
        let decoded = Packet::try_from_iter(encoded.to_vec()).expect("Failed to decode valid packet");
        assert_eq!(decoded, expected, "Invalid decoded packet")
    }
}

/// Tests successful type-erased encoding
#[test]
pub fn packet_encode() {
    for (encoded, expected) in packet_vectors() {
        let written = expected.clone().into_vec();
        assert_eq!(written, encoded.to_vec(), "Invalid encoded packet");
    }
}

/// Tests failing type-erased decoding
#[test]
pub fn packet_decode_invalid() {
    // Packet with invalid packet type
    let decoded = Disconnect::try_from_iter(b"\xF0\x00".to_vec());
    assert!(decoded.is_err(), "Unexpected success when decoding invalid packet");
}
