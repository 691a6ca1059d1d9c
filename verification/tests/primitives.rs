//! Tests for the pull decoder, the push encoder and the length meter.

use mqtt_tiny::anyvec::ByteBuf;
use mqtt_tiny::coding::length::Length;
use mqtt_tiny::coding::{Decoder, Encoder};

/// Tests successful `u8` decoding
#[test]
pub fn u8_decode() {
    for (encoded, decoded) in [(&[0x00u8][..], 0x00u8), (&[0x04], 0x04), (&[0x07], 0x07), (&[0xFF], 0xFF)] {
        let read = Decoder::new(encoded.to_vec()).u8().expect("Failed to decode valid byte");
        assert_eq!(read, decoded, "Invalid decoded byte")
    }
}

/// Tests successful `u8` encoding
#[test]
pub fn u8_encode() {
    for (encoded, decoded) in [(&[0x00u8][..], 0x00u8), (&[0x04], 0x04), (&[0x07], 0x07), (&[0xFF], 0xFF)] {
        let length = Length::new().u8(&decoded).finalize();
        let written = Encoder::default().u8(decoded).into_vec();
        assert_eq!(written, encoded.to_vec(), "Invalid encoded byte");
        assert_eq!(length, encoded.len(), "Invalid encoded length");
    }
}

/// Tests failing `u8` decoding
#[test]
pub fn u8_decode_invalid() {
    let decoded = Decoder::new(Vec::new()).u8();
    assert!(decoded.is_err(), "Unexpected success when decoding invalid byte");
}

/// Tests successful `u16` decoding
#[test]
pub fn u16_decode() {
    for (encoded, decoded) in
        [(&[0x00u8, 0x00][..], 0x00_00u16), (&[0x00, 0x04], 0x00_04), (&[0x07, 0x00], 0x07_00), (&[0xFF, 0xFF], 0xFF_FF)]
    {
        let read = Decoder::new(encoded.to_vec()).u16().expect("Failed to decode valid short");
        assert_eq!(read, decoded, "Invalid decoded short")
    }
}

/// Tests successful optional-`u16` decoding
#[test]
pub fn u16_decode_optional() {
    for (encoded, decoded) in
        [(&[0x00u8, 0x00][..], 0x00_00u16), (&[0x00, 0x04], 0x00_04), (&[0x07, 0x00], 0x07_00), (&[0xFF, 0xFF], 0xFF_FF)]
    {
        // Decode and validate None
        let read = Decoder::new(encoded.to_vec()).optional_u16(false).expect("Failed to decode valid short");
        assert!(read.is_none(), "Invalid decoded short");

        // Decode and validate Some
        let read = Decoder::new(encoded.to_vec())
            .optional_u16(true)
            .expect("Failed to decode valid short")
            .expect("Failed to unwrap valid short");
        assert_eq!(read, decoded, "Invalid decoded short")
    }
}

/// Tests successful `u16` encoding
#[test]
pub fn u16_encode() {
    for (encoded, decoded) in
        [(&[0x00u8, 0x00][..], 0x00_00u16), (&[0x00, 0x04], 0x00_04), (&[0x07, 0x00], 0x07_00), (&[0xFF, 0xFF], 0xFF_FF)]
    {
        let length = Length::new().u16(&decoded).finalize();
        let written = Encoder::default().u16(decoded).into_vec();
        assert_eq!(written, encoded.to_vec(), "Invalid encoded short");
        assert_eq!(length, encoded.len(), "Invalid encoded length");
    }
}

/// Tests successful optional-`u16` encoding
#[test]
pub fn u16_encode_optional() {
    for (encoded, decoded) in
        [(&[0x00u8, 0x00][..], 0x00_00u16), (&[0x00, 0x04], 0x00_04), (&[0x07, 0x00], 0x07_00), (&[0xFF, 0xFF], 0xFF_FF)]
    {
        // Encode and validate None
        let written = Encoder::default().optional_u16(None).into_vec();
        assert_eq!(written, b"", "Invalid encoded short");

        // Encode and validate Some
        let written = Encoder::default().optional_u16(Some(decoded)).into_vec();
        assert_eq!(written, encoded.to_vec(), "Invalid encoded short");
    }
}

/// Tests failing `u16` decoding
#[test]
pub fn u16_decode_invalid() {
    for encoded in [&[][..], &[0x04]] {
        let decoded = Decoder::new(encoded.to_vec()).u16();
        assert!(decoded.is_err(), "Unexpected success when decoding invalid short");
    }
}

/// Tests successful header decoding
#[test]
pub fn header_decode() {
    for (encoded, type_, flags) in [
        (&[0b0000_0000u8][..], 0b0000u8, [false; 4]),
        (&[0b1010_1010], 0b1010, [true, false, true, false]),
        (&[0b0101_0101], 0b0101, [false, true, false, true]),
        (&[0b1111_1111], 0b1111, [true; 4]),
    ] {
        let read = Decoder::new(encoded.to_vec()).header().expect("Failed to decode valid header");
        assert_eq!(read.0, type_, "Invalid decoded header");
        assert_eq!(read.1, flags, "Invalid decoded header");
    }
}

/// Tests successful header encoding
#[test]
pub fn header_encode() {
    for (encoded, type_, flags) in [
        (&[0b0000_0000u8][..], 0b0000u8, [false; 4]),
        (&[0b1010_1010], 0b1010, [true, false, true, false]),
        (&[0b0101_0101], 0b0101, [false, true, false, true]),
        (&[0b1111_1111], 0b1111, [true; 4]),
    ] {
        let length = Length::new().header(&type_, &flags).finalize();
        let written = Encoder::default().header(type_, flags).into_vec();
        assert_eq!(written, encoded.to_vec(), "Invalid encoded header");
        assert_eq!(length, encoded.len(), "Invalid encoded length");
    }
}

/// Tests failing header decoding
#[test]
pub fn header_decode_invalid() {
    let decoded = Decoder::new(Vec::new()).header();
    assert!(decoded.is_err(), "Unexpected success when decoding invalid header");
}

/// Tests successful packet-length decoding
#[test]
pub fn packetlen_decode() {
    for (encoded, decoded) in packetlen_vectors() {
        let read = Decoder::new(encoded.clone()).packetlen().expect("Failed to decode valid length");
        assert_eq!(read, decoded, "Invalid decoded length")
    }
}

/// Tests successful packet-length encoding
#[test]
pub fn packetlen_encode() {
    for (encoded, decoded) in packetlen_vectors() {
        let length = Length::new().packetlen(&decoded).finalize();
        let written = Encoder::default().packetlen(decoded).into_vec();
        assert_eq!(written, encoded, "Invalid encoded length field");
        assert_eq!(length, encoded.len(), "Invalid encoded length");
    }
}

/// Tests failing packet-length decoding
#[test]
pub fn packetlen_decode_invalid() {
    let bad: [&[u8]; 3] = [
        // Truncated length
        &[0b1_1000000],
        // Length that is too long
        &[0b1_1000000, 0b1_0000000, 0b1_0000000, 0b1_0000000, 0b0_0000000],
        // Multibyte length with leading zero byte
        &[0b1_0000000, 0b0_0000000],
    ];
    for encoded in bad {
        let decoded = Decoder::new(encoded.to_vec()).packetlen();
        assert!(decoded.is_err(), "Unexpected success when decoding invalid length");
    }
}

/// Known-good encoded/decoded packet-length pairs
fn packetlen_vectors() -> Vec<(Vec<u8>, usize)> {
    vec![
        // 1-byte lengths
        (vec![0b0_0000000], 0b0000000),
        (vec![0b0_1010101], 0b1010101),
        (vec![0b0_1111111], 0b1111111),
        // 2-byte lengths
        (vec![0b1_1000000, 0b0_0000000], 0b1000000_0000000),
        (vec![0b1_1010101, 0b0_1010101], 0b1010101_1010101),
        (vec![0b1_1111111, 0b0_1111111], 0b1111111_1111111),
        // 3-byte lengths
        (vec![0b1_1000000, 0b1_0000000, 0b0_0000000], 0b1000000_0000000_0000000),
        (vec![0b1_1010101, 0b1_1010101, 0b0_1010101], 0b1010101_1010101_1010101),
        (vec![0b1_1111111, 0b1_1111111, 0b0_1111111], 0b1111111_1111111_1111111),
        // 4-byte lengths
        (vec![0b1_1000000, 0b1_0000000, 0b1_0000000, 0b0_0000000], 0b1000000_0000000_0000000_0000000),
        (vec![0b1_1010101, 0b1_1010101, 0b1_1010101, 0b0_1010101], 0b1010101_1010101_1010101_1010101),
        (vec![0b1_1111111, 0b1_1111111, 0b1_1111111, 0b0_1111111], 0b1111111_1111111_1111111_1111111),
    ]
}

/// Known-good encoded/decoded byte-field pairs
fn bytes_vectors() -> Vec<(Vec<u8>, Vec<u8>)> {
    let mut pairs = vec![
        // An empty byte field
        (vec![0x00, 0x00], Vec::new()),
        // A 1-byte field
        (vec![0x00, 0x01, 0x01], vec![0x01]),
        // An example field
        (b"\x00\x09Testolope".to_vec(), b"Testolope".to_vec()),
    ];
    // A 255-byte field
    let mut encoded = vec![0x00, 0xFF];
    encoded.extend(vec![0x04; 255]);
    pairs.push((encoded, vec![0x04; 255]));
    // A max-length byte field
    let mut encoded = vec![0xFF, 0xFF];
    encoded.extend(vec![0x07; 65_535]);
    pairs.push((encoded, vec![0x07; 65_535]));
    pairs
}

/// Tests successful byte-field decoding
#[test]
pub fn bytes_decode() {
    for (encoded, decoded) in bytes_vectors() {
        let read = Decoder::new(encoded).bytes().expect("Failed to decode valid byte field");
        assert_eq!(read.as_slice(), decoded.as_slice(), "Invalid decoded byte field")
    }
}

/// Tests successful optional byte-field decoding
#[test]
pub fn bytes_decode_optional() {
    for (encoded, decoded) in bytes_vectors() {
        // Decode and validate None
        let read = Decoder::new(encoded.clone())
            .optional_bytes(false)
            .expect("Failed to decode valid byte field");
        assert!(read.is_none(), "Invalid decoded byte field");

        // Decode and validate Some
        let read = Decoder::new(encoded)
            .optional_bytes(true)
            .expect("Failed to decode valid byte field")
            .expect("Failed to unwrap valid byte field");
        assert_eq!(read.as_slice(), decoded.as_slice(), "Invalid decoded byte field")
    }
}

/// Tests successful byte-field encoding
#[test]
pub fn bytes_encode() {
    for (encoded, decoded) in bytes_vectors() {
        let buf = ByteBuf::new(&decoded).expect("Failed to create byte buffer");
        let length = Length::new().bytes(&buf).finalize();
        let written = Encoder::default().bytes(&decoded).into_vec();
        assert_eq!(written, encoded, "Invalid encoded byte field");
        assert_eq!(length, encoded.len(), "Invalid encoded length");
    }
}

/// Tests successful optional byte-field encoding
#[test]
pub fn bytes_encode_optional() {
    for (encoded, decoded) in bytes_vectors() {
        // Encode and validate None
        let written = Encoder::default().optional_bytes(&None).into_vec();
        assert_eq!(written, b"", "Invalid encoded byte field");

        // Encode and validate Some
        let buf = ByteBuf::new(&decoded).expect("Failed to create byte buffer");
        let written = Encoder::default().optional_bytes(&Some(buf)).into_vec();
        assert_eq!(written, encoded, "Invalid encoded byte field");
    }
}

/// Tests failing byte-field decoding
#[test]
pub fn bytes_decode_invalid() {
    let bad: [&[u8]; 2] = [
        // A truncated header
        &[0x00],
        // A truncated data field
        &[0x00, 0x02, 0x01],
    ];
    for encoded in bad {
        let decoded = Decoder::new(encoded.to_vec()).bytes();
        assert!(decoded.is_err(), "Unexpected success when decoding invalid byte field");
    }
}

/// Known-good raw blobs (encoded and decoded are the same)
fn raw_vectors() -> Vec<Vec<u8>> {
    vec![
        // An empty blob
        Vec::new(),
        // A 1-byte blob
        vec![0x01],
        // An example blob
        b"Testolope".to_vec(),
        // A 255-byte blob
        vec![0x04; 255],
        // A very long blob
        vec![0x07; 65_535],
    ]
}

/// Tests successful raw decoding
#[test]
pub fn raw_decode() {
    for raw in raw_vectors() {
        let buf = ByteBuf::new(&raw).expect("Failed to create byte buffer");
        let length = Length::new().raw(&buf).finalize();
        let read = Decoder::new(raw.clone()).raw_remainder().expect("Failed to decode valid raw data");
        assert_eq!(read.as_slice(), raw.as_slice(), "Invalid decoded raw data");
        assert_eq!(length, raw.len(), "Invalid encoded length");
    }
}

/// Tests successful raw encoding
#[test]
pub fn raw_encode() {
    for raw in raw_vectors() {
        let written = Encoder::default().raw(&raw).into_vec();
        assert_eq!(written, raw, "Invalid encoded raw data")
    }
}

/// Known-good encoded/decoded topic-sequence pairs
fn topics_vectors() -> Vec<(Vec<u8>, Vec<Vec<u8>>)> {
    vec![
        // An empty topic
        (vec![0x00, 0x00], vec![Vec::new()]),
        // Two empty topics
        (vec![0x00, 0x00, 0x00, 0x00], vec![Vec::new(), Vec::new()]),
        // An example field
        (b"\x00\x09Testolope".to_vec(), vec![b"Testolope".to_vec()]),
        // Two example fields
        (b"\x00\x04Test\x00\x05olope".to_vec(), vec![b"Test".to_vec(), b"olope".to_vec()]),
    ]
}

/// Tests successful topic-sequence decoding
#[test]
pub fn topics_decode() {
    for (encoded, decoded) in topics_vectors() {
        let read: Vec<ByteBuf> =
            Decoder::new(encoded).peekable().topics().expect("Failed to decode valid topics sequence");
        let read: Vec<Vec<u8>> = read.into_iter().map(|b| b.into_vec()).collect();
        assert_eq!(read, decoded, "Invalid decoded topics sequence")
    }
}

/// Tests successful topic-sequence encoding
#[test]
pub fn topics_encode() {
    for (encoded, decoded) in topics_vectors() {
        let bufs: Vec<ByteBuf> =
            decoded.iter().map(|t| ByteBuf::new(t).expect("Failed to create byte buffer")).collect();
        let length = Length::new().topics(&bufs).finalize();
        let written = Encoder::default().topics(bufs).into_vec();
        assert_eq!(written, encoded, "Invalid encoded topics sequence");
        assert_eq!(length, encoded.len(), "Invalid encoded length");
    }
}

/// Tests failing topic-sequence decoding
#[test]
pub fn topics_decode_invalid() {
    let bad: [&[u8]; 3] = [
        // A truncated header
        &[0x00],
        // A truncated data field
        &[0x00, 0x02, 0x01],
        // A truncated data field sequence
        &[0x00, 0x01, 0xFF, 0x00, 0x04, 0xFF],
    ];
    for encoded in bad {
        let decoded = Decoder::new(encoded.to_vec()).peekable().topics();
        assert!(decoded.is_err(), "Unexpected success when decoding invalid topics sequence");
    }
}

/// Known-good encoded/decoded topic+QoS pairs
fn topics_qos_vectors() -> Vec<(Vec<u8>, Vec<(Vec<u8>, u8)>)> {
    vec![
        // An empty topic
        (vec![0x00, 0x00, 0x00], vec![(Vec::new(), 0)]),
        // Two empty topics
        (vec![0x00, 0x00, 0x00, 0x00, 0x00, 0x00], vec![(Vec::new(), 0), (Vec::new(), 0)]),
        // An example field
        (b"\x00\x09Testolope\x07".to_vec(), vec![(b"Testolope".to_vec(), 7)]),
        // Two example fields
        (b"\x00\x04Test\x04\x00\x05olope\x07".to_vec(), vec![(b"Test".to_vec(), 4), (b"olope".to_vec(), 7)]),
    ]
}

/// Tests successful topic+QoS decoding
#[test]
pub fn topicsqos_decode() {
    for (encoded, decoded) in topics_qos_vectors() {
        let read: Vec<(ByteBuf, u8)> = Decoder::new(encoded)
            .peekable()
            .topics_qos()
            .expect("Failed to decode valid topics+QoS sequence");
        let read: Vec<(Vec<u8>, u8)> = read.into_iter().map(|(b, q)| (b.into_vec(), q)).collect();
        assert_eq!(read, decoded, "Invalid decoded topics+QoS sequence")
    }
}

/// Tests successful topic+QoS encoding
#[test]
pub fn topicsqos_encode() {
    for (encoded, decoded) in topics_qos_vectors() {
        let bufs: Vec<(ByteBuf, u8)> = decoded
            .iter()
            .map(|(t, q)| (ByteBuf::new(t).expect("Failed to create byte buffer"), *q))
            .collect();
        let length = Length::new().topics_qos(&bufs).finalize();
        let written = Encoder::default().topics_qos(bufs).into_vec();
        assert_eq!(written, encoded, "Invalid encoded topics+QoS sequence");
        assert_eq!(length, encoded.len(), "Invalid encoded length");
    }
}

/// Tests failing topic+QoS decoding
#[test]
pub fn topicsqos_decode_invalid() {
    let bad: [&[u8]; 3] = [
        // A truncated header
        &[0x00],
        // A truncated data field
        &[0x00, 0x02, 0x01],
        // A truncated data field sequence
        &[0x00, 0x01, 0xFF, 0x00, 0x04, 0xFF],
    ];
    for encoded in bad {
        let decoded = Decoder::new(encoded.to_vec()).peekable().topics();
        assert!(decoded.is_err(), "Unexpected success when decoding invalid topics+QoS sequence");
    }
}
