//! A buffered writer that appends encoded fields to an owned byte sink.
//!
//! The writer offers the same wire primitives as the push encoder and
//! reports the flat [`MqttError`].  Values that cannot be represented on the
//! wire (a field longer than a `u16` length prefix can say, a packet length
//! of 2^28 or more, a packet type above 15) are rejected with a typed error
//! rather than written truncated.

use crate::error::{ErrorKind, MqttError};
use crate::text::{string_pairs_view, string_topics_bytes, strings_view, utf8_of};
use vstd::string::StrSliceExecFns;
use crate::wire::{
    bitmap_byte, bytes_field, header_byte, lemma_topics_bytes_snoc, lemma_topics_qos_bytes_snoc,
    opt_u16_bytes, packetlen_bytes, topics_qos_bytes, u16_bytes,
};
use vstd::prelude::*;

verus! {

/// The wire bytes of a list of string topics with their QoS bytes
pub open spec fn string_topics_qos_bytes(ts: Seq<(Seq<char>, u8)>) -> Seq<u8> {
    topics_qos_bytes(ts.map_values(|p: (Seq<char>, u8)| (utf8_of(p.0), p.1)))
}

/// A buffered writer over an owned byte sink
#[derive(Debug)]
pub struct Writer {
    /// The sink to write to
    sink: Vec<u8>,
}

impl View for Writer {
    type V = Seq<u8>;

    closed spec fn view(&self) -> Seq<u8> {
        self.sink@
    }
}

impl Writer {
    /// Creates a new writer over the given sink
    pub fn new(sink: Vec<u8>) -> (r: Self)
        ensures
            r@ == sink@,
    {
        Self { sink }
    }

    /// Finalizes the writer, yielding the underlying sink
    pub fn finalize(self) -> (r: Result<Vec<u8>, MqttError>)
        ensures
            r matches Ok(v) && v@ == self@,
    {
        Ok(self.sink)
    }

    /// Writes a raw buffer directly as-is to the underlying sink
    pub fn write_raw(self, raw: &[u8]) -> (r: Result<Self, MqttError>)
        ensures
            r matches Ok(w) && w@ == self@ + raw@,
    {
        let mut this = self;
        let n = raw.len();
        for i in 0..n
            invariant
                n == raw@.len(),
                this@ == self@ + raw@.take(i as int),
        {
            this.sink.push(raw[i]);
            proof {
                assert(this@ =~= self@ + raw@.take(i + 1));
            }
        }
        proof {
            assert(self@ + raw@.take(n as int) =~= self@ + raw@);
        }
        Ok(this)
    }

    /// Writes a byte
    pub fn write_u8(self, byte: u8) -> (r: Result<Self, MqttError>)
        ensures
            r matches Ok(w) && w@ == self@.push(byte),
    {
        let mut this = self;
        this.sink.push(byte);
        Ok(this)
    }

    /// Writes a packet header; a packet type above 15 does not fit its
    /// nibble and is rejected
    pub fn write_header(self, type_: u8, bits: [bool; 4]) -> (r: Result<Self, MqttError>)
        ensures
            type_ <= 15 ==> (r matches Ok(w) && w@ == self@.push(header_byte(type_, bits@))),
            type_ > 15 ==> (r matches Err(e) && e.kind == ErrorKind::InvalidValue),
    {
        if type_ > 15 {
            return Err(MqttError::new(ErrorKind::InvalidValue));
        }
        let byte: u8 = type_ * 16 + (if bits[0] {
            8
        } else {
            0
        }) + (if bits[1] {
            4
        } else {
            0
        }) + (if bits[2] {
            2
        } else {
            0
        }) + (if bits[3] {
            1
        } else {
            0
        });
        self.write_u8(byte)
    }

    /// Writes a flag octet, MSB first
    pub fn write_flags(self, bits: [bool; 8]) -> (r: Result<Self, MqttError>)
        ensures
            r matches Ok(w) && w@ == self@.push(bitmap_byte(bits@)),
    {
        let byte: u8 = (if bits[0] {
            128
        } else {
            0
        }) + (if bits[1] {
            64
        } else {
            0
        }) + (if bits[2] {
            32
        } else {
            0
        }) + (if bits[3] {
            16
        } else {
            0
        }) + (if bits[4] {
            8
        } else {
            0
        }) + (if bits[5] {
            4
        } else {
            0
        }) + (if bits[6] {
            2
        } else {
            0
        }) + (if bits[7] {
            1
        } else {
            0
        });
        self.write_u8(byte)
    }

    /// Writes a packet length of 1 to 4 heptets; a length of 2^28 or more
    /// cannot be encoded and is rejected
    pub fn write_packetlen(self, len: usize) -> (r: Result<Self, MqttError>)
        ensures
            len < 0x10000000 ==> (r matches Ok(w) && w@ == self@ + packetlen_bytes(len as int)),
            len >= 0x10000000 ==> (r matches Err(e) && e.kind == ErrorKind::InvalidValue),
    {
        if len >= 0x10000000 {
            return Err(MqttError::new(ErrorKind::InvalidValue));
        }
        let mut this = self;
        if len < 0x80 {
            this.sink.push(len as u8);
        } else if len < 0x4000 {
            this.sink.push((0x80 + len / 0x80) as u8);
            this.sink.push((len % 0x80) as u8);
        } else if len < 0x200000 {
            this.sink.push((0x80 + len / 0x4000) as u8);
            this.sink.push((0x80 + (len / 0x80) % 0x80) as u8);
            this.sink.push((len % 0x80) as u8);
        } else {
            this.sink.push((0x80 + len / 0x200000) as u8);
            this.sink.push((0x80 + (len / 0x4000) % 0x80) as u8);
            this.sink.push((0x80 + (len / 0x80) % 0x80) as u8);
            this.sink.push((len % 0x80) as u8);
        }
        proof {
            assert(this@ =~= self@ + packetlen_bytes(len as int));
        }
        Ok(this)
    }

    /// Writes an array of raw bytes as-is
    pub fn write_array(self, array: &[u8]) -> (r: Result<Self, MqttError>)
        ensures
            r matches Ok(w) && w@ == self@ + array@,
    {
        self.write_raw(array)
    }

    /// Writes a big-endian `u16`
    pub fn write_u16(self, value: u16) -> (r: Result<Self, MqttError>)
        ensures
            r matches Ok(w) && w@ == self@ + u16_bytes(value),
    {
        let mut this = self;
        this.sink.push((value / 256) as u8);
        this.sink.push((value % 256) as u8);
        proof {
            assert(this@ =~= self@ + u16_bytes(value));
        }
        Ok(this)
    }

    /// Writes an optional `u16`: nothing when it is absent
    pub fn write_optional_u16(self, value: Option<u16>) -> (r: Result<Self, MqttError>)
        ensures
            r matches Ok(w) && w@ == self@ + opt_u16_bytes(value),
    {
        let ghost pre = self@;
        match value {
            Some(v) => self.write_u16(v),
            None => {
                proof {
                    assert(pre + opt_u16_bytes(value) =~= pre);
                }
                Ok(self)
            },
        }
    }

    /// Writes a length-prefixed byte field; a field longer than 65535 bytes
    /// does not fit its length prefix and is rejected
    pub fn write_bytes(self, bytes: Vec<u8>) -> (r: Result<Self, MqttError>)
        ensures
            bytes@.len() <= 0xFFFF ==> (r matches Ok(w) && w@ == self@ + bytes_field(bytes@)),
            bytes@.len() > 0xFFFF ==> (r matches Err(e) && e.kind == ErrorKind::InvalidValue),
    {
        if bytes.len() > 0xFFFF {
            return Err(MqttError::new(ErrorKind::InvalidValue));
        }
        let ghost pre = self@;
        let this = match self.write_u16(bytes.len() as u16) {
            Ok(w) => w,
            Err(e) => {
                return Err(e);
            },
        };
        let this = match this.write_raw(bytes.as_slice()) {
            Ok(w) => w,
            Err(e) => {
                return Err(e);
            },
        };
        proof {
            assert(this@ =~= pre + bytes_field(bytes@));
        }
        Ok(this)
    }

    /// Writes a length-prefixed string; a string longer than 65535 UTF-8
    /// bytes does not fit its length prefix and is rejected
    pub fn write_string(self, string: String) -> (r: Result<Self, MqttError>)
        ensures
            utf8_of(string@).len() <= 0xFFFF ==> (r matches Ok(w) && w@ == self@ + bytes_field(
                utf8_of(string@),
            )),
            utf8_of(string@).len() > 0xFFFF ==> (r matches Err(e) && e.kind
                == ErrorKind::InvalidValue),
    {
        let bytes = string.as_str().as_bytes_vec();
        self.write_bytes(bytes)
    }

    /// Writes an optional length-prefixed byte field: nothing when absent
    pub fn write_optional_bytes(self, bytes: Option<Vec<u8>>) -> (r: Result<Self, MqttError>)
        ensures
            match bytes {
                Some(b) => {
                    &&& b@.len() <= 0xFFFF ==> (r matches Ok(w) && w@ == self@ + bytes_field(b@))
                    &&& b@.len() > 0xFFFF ==> (r matches Err(e) && e.kind
                        == ErrorKind::InvalidValue)
                },
                None => r matches Ok(w) && w@ == self@,
            },
    {
        match bytes {
            Some(b) => self.write_bytes(b),
            None => Ok(self),
        }
    }

    /// Writes an optional length-prefixed string: nothing when absent
    pub fn write_optional_string(self, string: Option<String>) -> (r: Result<Self, MqttError>)
        ensures
            match string {
                Some(s) => {
                    &&& utf8_of(s@).len() <= 0xFFFF ==> (r matches Ok(w) && w@ == self@
                        + bytes_field(utf8_of(s@)))
                    &&& utf8_of(s@).len() > 0xFFFF ==> (r matches Err(e) && e.kind
                        == ErrorKind::InvalidValue)
                },
                None => r matches Ok(w) && w@ == self@,
            },
    {
        match string {
            Some(s) => self.write_string(s),
            None => Ok(self),
        }
    }

    /// Writes a topic list as concatenated length-prefixed strings; a topic
    /// longer than 65535 UTF-8 bytes is rejected
    pub fn write_topic_seq(self, topics: Vec<String>) -> (r: Result<Self, MqttError>)
        ensures
            (forall|i: int|
                0 <= i < topics@.len() ==> #[trigger] utf8_of(topics@[i]@).len() <= 0xFFFF)
                ==> (r matches Ok(w) && w@ == self@ + string_topics_bytes(strings_view(topics@))),
            r matches Err(e) ==> e.kind == ErrorKind::InvalidValue,
    {
        let ghost all = strings_view(topics@).map_values(|cs: Seq<char>| utf8_of(cs));
        let mut this = self;
        let n = topics.len();
        let mut i: usize = 0;
        while i < n
            invariant
                n == topics@.len(),
                all == strings_view(topics@).map_values(|cs: Seq<char>| utf8_of(cs)),
                this@ == self@ + crate::wire::topics_bytes(all.take(i as int)),
                i <= n,
            decreases n - i,
        {
            let ghost pre = this@;
            this = match this.write_string(topics[i].clone()) {
                Ok(w) => w,
                Err(e) => {
                    return Err(e);
                },
            };
            proof {
                assert(all[i as int] == utf8_of(topics@[i as int]@));
                lemma_topics_bytes_snoc(all.take(i as int), all[i as int]);
                assert(all.take(i + 1) =~= all.take(i as int).push(all[i as int]));
                assert(this@ =~= self@ + crate::wire::topics_bytes(all.take(i + 1)));
            }
            i = i + 1;
        }
        proof {
            assert(all.take(n as int) =~= all);
        }
        Ok(this)
    }

    /// Writes a topic list as concatenated length-prefixed strings, each
    /// followed by its QoS byte; a topic longer than 65535 UTF-8 bytes is
    /// rejected
    pub fn write_topic_qos_seq(self, topics: Vec<(String, u8)>) -> (r: Result<Self, MqttError>)
        ensures
            (forall|i: int|
                0 <= i < topics@.len() ==> #[trigger] utf8_of(topics@[i].0@).len() <= 0xFFFF)
                ==> (r matches Ok(w) && w@ == self@ + string_topics_qos_bytes(
                string_pairs_view(topics@),
            )),
            r matches Err(e) ==> e.kind == ErrorKind::InvalidValue,
    {
        let ghost all = string_pairs_view(topics@).map_values(
            |p: (Seq<char>, u8)| (utf8_of(p.0), p.1),
        );
        let mut this = self;
        let n = topics.len();
        let mut i: usize = 0;
        while i < n
            invariant
                n == topics@.len(),
                all == string_pairs_view(topics@).map_values(
                    |p: (Seq<char>, u8)| (utf8_of(p.0), p.1),
                ),
                this@ == self@ + topics_qos_bytes(all.take(i as int)),
                i <= n,
            decreases n - i,
        {
            this = match this.write_string(topics[i].0.clone()) {
                Ok(w) => w,
                Err(e) => {
                    return Err(e);
                },
            };
            this = match this.write_u8(topics[i].1) {
                Ok(w) => w,
                Err(e) => {
                    return Err(e);
                },
            };
            proof {
                assert(all[i as int] == (utf8_of(topics@[i as int].0@), topics@[i as int].1));
                lemma_topics_qos_bytes_snoc(all.take(i as int), all[i as int]);
                assert(all.take(i + 1) =~= all.take(i as int).push(all[i as int]));
                assert(this@ =~= self@ + topics_qos_bytes(all.take(i + 1)));
            }
            i = i + 1;
        }
        proof {
            assert(all.take(n as int) =~= all);
        }
        Ok(this)
    }
}

} // verus!
