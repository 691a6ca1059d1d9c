//! Tests for the buffered writer.

use mqtt_tiny::coding::Writer;

/// Writes a raw buffer directly as-is to the underlying sink
#[test]
pub fn write_raw() {
    let written = Writer::new(Vec::new()).write_raw(b"Testolope").and_then(|w| w.finalize());
    assert_eq!(written.unwrap(), b"Testolope".to_vec())
}

/// Writes a byte
#[test]
fn write_u8() {
    let written = Writer::new(Vec::new()).write_u8(0x07).and_then(|w| w.finalize());
    assert_eq!(written.unwrap(), vec![0x07])
}

/// Writes a packet header
#[test]
fn write_header() {
    let written = Writer::new(Vec::new())
        .write_header(0x04, [false, false, true, false])
        .and_then(|w| w.finalize());
    assert_eq!(written.unwrap(), vec![0x42])
}

/// Writes a flag-octet
#[test]
fn write_flags() {
    let written = Writer::new(Vec::new())
        .write_flags([false, true, true, true, false, true, false, false])
        .and_then(|w| w.finalize());
    assert_eq!(written.unwrap(), vec![0x74])
}

/// Writes a packet length
#[test]
fn write_packetlen() {
    // Short length
    let written = Writer::new(Vec::new()).write_packetlen(7).and_then(|w| w.finalize());
    assert_eq!(written.unwrap(), vec![0x07]);

    // Long length
    let written = Writer::new(Vec::new()).write_packetlen(268435423).and_then(|w| w.finalize());
    assert_eq!(written.unwrap(), vec![0xff, 0xff, 0xff, 0x5f]);
}

/// Writes a packet length that does not fit the four heptets
#[test]
#[should_panic]
fn write_packetlen_panic() {
    let _ = Writer::new(Vec::new()).write_packetlen(268435456).and_then(|w| w.finalize()).unwrap();
}

/// Writes an array
#[test]
fn write_array() {
    let written = Writer::new(Vec::new()).write_array(b"\xde\xad\xbe\xef").and_then(|w| w.finalize());
    assert_eq!(written.unwrap(), vec![0xde, 0xad, 0xbe, 0xef]);
}

/// Writes a `u16`
#[test]
fn write_u16() {
    let written = Writer::new(Vec::new()).write_u16(0xbeef).and_then(|w| w.finalize());
    assert_eq!(written.unwrap(), vec![0xbe, 0xef]);
}

/// Writes an optional `u16`
#[test]
pub fn write_optional_u16() {
    // Some
    let written = Writer::new(Vec::new()).write_optional_u16(Some(0xbeef)).and_then(|w| w.finalize());
    assert_eq!(written.unwrap(), vec![0xbe, 0xef]);

    // None
    let written = Writer::new(Vec::new()).write_optional_u16(None).and_then(|w| w.finalize());
    assert_eq!(written.unwrap(), vec![]);
}

/// Writes a length-prefixed byte field
#[test]
fn write_bytes() {
    let written =
        Writer::new(Vec::new()).write_bytes(vec![0xde, 0xad, 0xbe, 0xef]).and_then(|w| w.finalize());
    assert_eq!(written.unwrap(), vec![0x00, 0x04, 0xde, 0xad, 0xbe, 0xef]);
}

/// Writes a length-prefixed byte field that does not fit its length prefix
#[test]
#[should_panic]
fn write_bytes_panic() {
    let very_long_vec = vec![0x07; (u16::MAX as usize) + 1];
    let _ = Writer::new(Vec::new()).write_bytes(very_long_vec).and_then(|w| w.finalize()).unwrap();
}

/// Writes a length-prefixed string
#[test]
fn write_string() {
    let written =
        Writer::new(Vec::new()).write_string("Testolope".to_string()).and_then(|w| w.finalize());
    assert_eq!(written.unwrap(), b"\x00\x09Testolope".to_vec());
}

/// Writes a length-prefixed string that does not fit its length prefix
#[test]
#[should_panic]
fn write_string_panic() {
    let very_long_vec = vec![b'x'; (u16::MAX as usize) + 1];
    let very_long_string = String::from_utf8(very_long_vec).unwrap();
    let _ = Writer::new(Vec::new()).write_string(very_long_string).and_then(|w| w.finalize()).unwrap();
}

/// Writes an optional length-prefixed byte field
#[test]
fn write_optional_bytes() {
    // Some
    let written = Writer::new(Vec::new())
        .write_optional_bytes(Some(vec![0xde, 0xad, 0xbe, 0xef]))
        .and_then(|w| w.finalize());
    assert_eq!(written.unwrap(), vec![0x00, 0x04, 0xde, 0xad, 0xbe, 0xef]);

    // None
    let written = Writer::new(Vec::new()).write_optional_bytes(None).and_then(|w| w.finalize());
    assert_eq!(written.unwrap(), vec![]);
}

/// Writes an optional length-prefixed string
#[test]
fn write_optional_string() {
    // Some
    let written = Writer::new(Vec::new())
        .write_optional_string(Some("Testolope".to_string()))
        .and_then(|w| w.finalize());
    assert_eq!(written.unwrap(), vec![0x00, 0x09, b'T', b'e', b's', b't', b'o', b'l', b'o', b'p', b'e']);

    // None
    let written = Writer::new(Vec::new()).write_optional_string(None).and_then(|w| w.finalize());
    assert_eq!(written.unwrap(), vec![]);
}

/// Writes a topic list as concatenated `16-bit-length || topic`-blobs
#[test]
fn write_topic_seq() {
    let seq = vec!["Test".to_string(), "olope".to_string()];
    let written = Writer::new(Vec::new()).write_topic_seq(seq).and_then(|w| w.finalize());
    assert_eq!(written.unwrap(), b"\x00\x04Test\x00\x05olope".to_vec())
}

/// Writes a topic list as concatenated `16-bit-length || topic || qos`-blobs
#[test]
fn write_topic_qos_seq() {
    let seq = vec![("Test".to_string(), 1), ("olope".to_string(), 2)];
    let written = Writer::new(Vec::new()).write_topic_qos_seq(seq).and_then(|w| w.finalize());
    assert_eq!(written.unwrap(), b"\x00\x04Test\x01\x00\x05olope\x02".to_vec())
}
