//! Tests for the length counter that mirrors the buffered writer.

use mqtt_tiny::coding::Length;

/// Adds a raw buffer directly as-is
#[test]
pub fn add_raw() {
    let len = Length::new().add_raw(b"Testolope").finalize();
    assert_eq!(len, 9);
}

/// Adds a `u8`
#[test]
fn add_u8() {
    let len = Length::new().add_u8(&0x07).finalize();
    assert_eq!(len, 1);
}

/// Adds a flag field
#[test]
fn add_flags() {
    let len = Length::new().add_flags(&[false, true, true, true, false, true, false, false]).finalize();
    assert_eq!(len, 1);
}

/// Adds an array
#[test]
fn add_array() {
    let len = Length::new().add_array(b"Testolope").finalize();
    assert_eq!(len, 9);
}

/// Adds a `u16`
#[test]
fn add_u16() {
    let len = Length::new().add_u16(&0xbeef).finalize();
    assert_eq!(len, 2);
}

/// Adds an optional `u16`
#[test]
pub fn add_optional_u16() {
    // Some
    let len = Length::new().add_optional_u16(&Some(0xbeef)).finalize();
    assert_eq!(len, 2);

    // None
    let len = Length::new().add_optional_u16(&None).finalize();
    assert_eq!(len, 0);
}

/// Adds a length-prefixed byte field
#[test]
fn add_bytes() {
    let len = Length::new().add_bytes(&vec![0xde, 0xad, 0xbe, 0xef]).finalize();
    assert_eq!(len, 6);
}

/// Adds a length-prefixed string
#[test]
fn add_string() {
    let len = Length::new().add_string(&"Testolope".to_string()).finalize();
    assert_eq!(len, 11);
}

/// Adds an optional length-prefixed byte field
#[test]
fn add_optional_bytes() {
    // Some
    let len = Length::new().add_optional_bytes(&Some(vec![0xde, 0xad, 0xbe, 0xef])).finalize();
    assert_eq!(len, 6);

    // None
    let len = Length::new().add_optional_bytes(&None).finalize();
    assert_eq!(len, 0);
}

/// Adds an optional length-prefixed string
#[test]
fn add_optional_string() {
    // Some
    let len = Length::new().add_optional_string(&Some("Testolope".to_string())).finalize();
    assert_eq!(len, 11);

    // None
    let len = Length::new().add_optional_string(&None).finalize();
    assert_eq!(len, 0);
}

/// Adds a topic list as concatenated `16-bit-length || topic`-blobs
#[test]
fn add_topic_seq() {
    let seq = vec!["Test".to_string(), "olope".to_string()];
    let len = Length::new().add_topic_seq(&seq).finalize();
    assert_eq!(len, 13);
}

/// Adds a topic list as concatenated `16-bit-length || topic || qos`-blobs
#[test]
fn add_topic_qos_seq() {
    let seq = vec![("Test".to_string(), 1), ("olope".to_string(), 2)];
    let len = Length::new().add_topic_qos_seq(&seq).finalize();
    assert_eq!(len, 15)
}
