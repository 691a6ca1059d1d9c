//! Tests for the buffered reader.

use mqtt_tiny::coding::Reader;
use mqtt_tiny::error::ErrorKind;

/// Creates a buffered reader over the given bytes
fn reader(bytes: &[u8]) -> Reader {
    Reader::new(bytes.to_vec()).buffered()
}

/// Gets a byte
#[test]
fn read_u8() {
    // Success
    let read = reader(b"Testolope").read_u8();
    assert_eq!(read.unwrap(), b'T');

    // Error
    let read = reader(b"").read_u8();
    assert_eq!(read.unwrap_err().kind(), &ErrorKind::TruncatedData);
}

/// Reads the packet header and validates the expected packet type and returns the flags
#[test]
fn read_header() {
    // Success
    let read = reader(b"\x42").read_header(&4);
    assert_eq!(read.unwrap(), [false, false, true, false]);

    // Error (invalid type)
    let read = reader(b"\x42").read_header(&7);
    assert_eq!(read.unwrap_err().kind(), &ErrorKind::InvalidValue);

    // Error (truncated)
    let read = reader(b"").read_header(&4);
    assert_eq!(read.unwrap_err().kind(), &ErrorKind::TruncatedData);
}

/// Gets a flag-octet
#[test]
fn read_flags() {
    // Success
    let read = reader(b"\x74").read_flags();
    assert_eq!(read.unwrap(), [false, true, true, true, false, true, false, false]);

    // Error
    let read = reader(b"").read_flags();
    assert_eq!(read.unwrap_err().kind(), &ErrorKind::TruncatedData);
}

/// Gets the packet length
#[test]
fn read_packetlen() {
    // Success
    let read = reader(b"\x07").read_packetlen();
    assert_eq!(read.unwrap(), 7);

    // Success
    let read = reader(b"\xff\xff\xff\x5f").read_packetlen();
    assert_eq!(read.unwrap(), 268435423);

    // Error (too long)
    let read = reader(b"\xff\xff\xff\xff").read_packetlen();
    assert_eq!(read.unwrap_err().kind(), &ErrorKind::InvalidValue);

    // Error (truncated)
    let read = reader(b"").read_packetlen();
    assert_eq!(read.unwrap_err().kind(), &ErrorKind::TruncatedData);
}

/// Gets an array
#[test]
fn read_array() {
    // Success
    let read = reader(b"\xde\xad\xbe\xef").read_array(4);
    assert_eq!(read.unwrap(), [0xde, 0xad, 0xbe, 0xef]);

    // Error
    let read = reader(b"").read_array(1);
    assert_eq!(read.unwrap_err().kind(), &ErrorKind::TruncatedData);
}

/// Gets an `u16`
#[test]
fn read_u16() {
    // Success
    let read = reader(b"\xbe\xef").read_u16();
    assert_eq!(read.unwrap(), 0xbeef);

    // Error
    let read = reader(b"\xde").read_u16();
    assert_eq!(read.unwrap_err().kind(), &ErrorKind::TruncatedData);
}

/// Gets an optional `u16` field if the condition is true
#[test]
pub fn read_optional_u16() {
    // Some
    let read = reader(b"\xbe\xef").read_optional_u16(true);
    assert_eq!(read.unwrap(), Some(0xbeef));

    // None
    let read = reader(b"\xbe\xef").read_optional_u16(false);
    assert_eq!(read.unwrap(), None);
}

/// Gets a length-prefixed byte field
#[test]
fn read_bytes() {
    // Success
    let read = reader(b"\x00\x04\xde\xad\xbe\xef").read_bytes();
    assert_eq!(read.unwrap(), vec![0xde, 0xad, 0xbe, 0xef]);

    // Error (truncated length)
    let read = reader(b"\x00").read_bytes();
    assert_eq!(read.unwrap_err().kind(), &ErrorKind::TruncatedData);

    // Error (truncated)
    let read = reader(b"\x00\x04\xde\xad\xbe").read_bytes();
    assert_eq!(read.unwrap_err().kind(), &ErrorKind::TruncatedData);
}

/// Gets a length-prefixed string
#[test]
fn read_string() {
    // Success
    let read = reader(b"\x00\x09Testolope").read_string();
    assert_eq!(read.unwrap(), "Testolope".to_string());

    // Error (truncated length)
    let read = reader(b"\x00").read_string();
    assert_eq!(read.unwrap_err().kind(), &ErrorKind::TruncatedData);

    // Error (truncated)
    let read = reader(b"\x00\x09Testolop").read_string();
    assert_eq!(read.unwrap_err().kind(), &ErrorKind::TruncatedData);
}

/// Gets an optional length-prefixed byte field if the condition is true
#[test]
fn read_optional_bytes() {
    // Some
    let read = reader(b"\x00\x04\xde\xad\xbe\xef").read_optional_bytes(true);
    assert_eq!(read.unwrap(), Some(vec![0xde, 0xad, 0xbe, 0xef]));

    // None
    let read = reader(b"\x00\x04\xde\xad\xbe\xef").read_optional_bytes(false);
    assert_eq!(read.unwrap(), None);
}

/// Gets an optional length-prefixed string if the condition is true
#[test]
fn read_optional_string() {
    // Some
    let read = reader(b"\x00\x09Testolope").read_optional_string(true);
    assert_eq!(read.unwrap(), Some("Testolope".to_string()));

    // None
    let read = reader(b"\x00\x09Testolope").read_optional_string(false);
    assert_eq!(read.unwrap(), None);
}

/// Reads an expected constant value and ensures that the input matches the expectation
#[test]
fn read_constant() {
    // Success
    let read = reader(b"\x07").read_constant(b"\x07");
    assert_eq!(read.unwrap(), ());

    // Error
    let read = reader(b"\x07").read_constant(b"\x04");
    assert_eq!(read.unwrap_err().kind(), &ErrorKind::InvalidValue);
}

/// Reads an expected version constant and ensures that the input matches the expectation
///
/// # Note
/// An unsupported protocol might require graceful handling, so this function returns an
/// `ErrorKind::UnsupportedVersion` on mismatch
#[test]
fn read_version_constant() {
    // Success
    let read = reader(b"\x07").read_version_constant(b"\x07");
    assert_eq!(read.unwrap(), ());

    // Error
    let read = reader(b"\x07").read_version_constant(b"\x04");
    assert_eq!(read.unwrap_err().kind(), &ErrorKind::UnsupportedVersion);
}

/// Reads the remaining bytes
#[test]
pub fn read_remaining() {
    let read = reader(b"Testolope").read_remaining();
    assert_eq!(read.unwrap(), b"Testolope".to_vec());
}

/// Peeks at the next pending byte without consuming it from the source
#[test]
pub fn peek_u8() {
    // Create reader
    let mut r = reader(b"Testolope");
    let read = r.peek_u8();
    assert_eq!(read.unwrap(), b'T');

    // Ensure the reader still contains the entire message
    let read = r.read_remaining();
    assert_eq!(read.unwrap(), b"Testolope".to_vec());
}

/// Tests whether the reader is exhausted or not
#[test]
pub fn is_empty() {
    // Non-empty
    let status = reader(b"Testolope").is_empty();
    assert_eq!(status.unwrap(), false);

    // Empty
    let status = reader(b"").is_empty();
    assert_eq!(status.unwrap(), true);
}

/// Reads concatenated `16-bit-length || topic` topic-filter-blobs until the source is exhausted
#[test]
fn read_topic_seq() {
    // Success
    let read = reader(b"\x00\x04Test\x00\x05olope").read_topic_seq();
    assert_eq!(read.unwrap(), vec!["Test".to_string(), "olope".to_string()]);

    // Error (truncated length)
    let invalid = reader(b"\x00\x04Test\x00").read_topic_seq();
    assert_eq!(invalid.unwrap_err().kind(), &ErrorKind::TruncatedData);

    // Error (truncated)
    let invalid = reader(b"\x00\x04Test\x00\x05olop").read_topic_seq();
    assert_eq!(invalid.unwrap_err().kind(), &ErrorKind::TruncatedData);
}

/// Reads concatenated `16-bit-length || topic || qos` topic-filter-blobs until the source is
/// exhausted (`(filter, qos)`)
#[test]
fn read_topic_qos_seq() {
    // Success
    let read = reader(b"\x00\x04Test\x01\x00\x05olope\x02").read_topic_qos_seq();
    assert_eq!(read.unwrap(), vec![("Test".to_string(), 1), ("olope".to_string(), 2)]);

    // Error (truncated tuple)
    let invalid = reader(b"\x00\x04Test\x01\x00\x05olope").read_topic_qos_seq();
    assert_eq!(invalid.unwrap_err().kind(), &ErrorKind::TruncatedData);

    // Error (truncated length)
    let invalid = reader(b"\x00\x04Test\x01\x00").read_topic_qos_seq();
    assert_eq!(invalid.unwrap_err().kind(), &ErrorKind::TruncatedData);

    // Error (truncated)
    let invalid = reader(b"\x00\x04Test\x01\x00\x05olop").read_topic_qos_seq();
    assert_eq!(invalid.unwrap_err().kind(), &ErrorKind::TruncatedData);
}
