//! A buffered reader over an owned byte buffer.
//!
//! The reader offers the same wire primitives as the pull decoder, reports
//! the flat [`MqttError`], and adds the string conveniences that a
//! heap-enabled caller expects.  Every read is specified against the parse
//! functions of [`crate::wire`] and [`crate::text`].

use crate::error::{kind_of, ErrorKind, MqttError};
use crate::text::{
    bytes_to_string, parse_string_topics, parse_string_topics_qos, string_pairs_view, strings_view,
};
use vstd::utf8::{decode_utf8, valid_utf8};
use crate::wire::{
    byte_bits, header_flags, parse_bitmap, parse_bytes_field, parse_constant,
    parse_header, parse_opt_u16, parse_packetlen, parse_packetlen_rec, parse_u16, parse_u8,
};
use crate::error::Decoding;
use vstd::prelude::*;

verus! {

/// A buffered reader over an owned byte buffer
#[derive(Debug)]
pub struct Reader {
    /// The bytes to read
    buf: Vec<u8>,
    /// The next unread position
    pos: usize,
    /// The position one past the last readable byte
    end: usize,
}

impl Reader {
    /// The reader's positions lie within its buffer
    pub closed spec fn wf(&self) -> bool {
        self.pos <= self.end <= self.buf@.len()
    }

    /// The bytes that are still readable
    pub closed spec fn remaining(&self) -> Seq<u8> {
        self.buf@.subrange(self.pos as int, self.end as int)
    }

    /// Creates a new reader over the given bytes
    pub fn new(source: Vec<u8>) -> (r: Reader)
        ensures
            r.wf(),
            r.remaining() == source@,
    {
        let end = source.len();
        let r = Reader { buf: source, pos: 0, end };
        proof {
            assert(r.remaining() =~= r.buf@);
        }
        r
    }

    /// Creates a length-limited variant of `self`: bytes past the limit are
    /// no longer readable
    pub fn limit(self, len: usize) -> (r: Reader)
        requires
            self.wf(),
        ensures
            r.wf(),
            len <= self.remaining().len() ==> r.remaining() == self.remaining().take(len as int),
            len > self.remaining().len() ==> r.remaining() == self.remaining(),
    {
        if len <= self.end - self.pos {
            let r = Reader { buf: self.buf, pos: self.pos, end: self.pos + len };
            proof {
                assert(r.remaining() =~= self.remaining().take(len as int));
            }
            r
        } else {
            self
        }
    }

    /// Creates a buffered and subsequently peekable variant of `self`; every
    /// reader of this crate holds its bytes in memory, so this is the
    /// identity
    pub fn buffered(self) -> (r: Reader)
        requires
            self.wf(),
        ensures
            r.wf(),
            r.remaining() == self.remaining(),
    {
        self
    }

    /// Gets a byte
    pub fn read_u8(&mut self) -> (r: Result<u8, MqttError>)
        requires
            old(self).wf(),
        ensures
            (*final(self)).wf(),
            match parse_u8(old(self).remaining()) {
                Ok(p) => r == Ok::<u8, MqttError>(p.0) && (*final(self)).remaining() == p.1,
                Err(k) => (r matches Err(e) && e.kind == kind_of(k)) && *final(self) == *old(self),
            },
    {
        if self.pos < self.end {
            let b = self.buf[self.pos];
            self.pos = self.pos + 1;
            proof {
                assert(self.remaining() =~= old(self).remaining().skip(1));
            }
            Ok(b)
        } else {
            Err(MqttError::new(ErrorKind::TruncatedData))
        }
    }

    /// Reads the packet header, validates the expected packet type and
    /// returns the flag nibble
    pub fn read_header(&mut self, expected: &u8) -> (r: Result<[bool; 4], MqttError>)
        requires
            old(self).wf(),
        ensures
            (*final(self)).wf(),
            match parse_header(old(self).remaining()) {
                Ok(p) => if p.0.0 == *expected {
                    (r matches Ok(flags) && flags@ == p.0.1) && (*final(self)).remaining() == p.1
                } else {
                    r matches Err(e) && e.kind == ErrorKind::InvalidValue
                },
                Err(k) => (r matches Err(e) && e.kind == kind_of(k)) && *final(self) == *old(self),
            },
    {
        let byte = match self.read_u8() {
            Ok(b) => b,
            Err(e) => {
                return Err(e);
            },
        };
        if byte / 16 != *expected {
            return Err(MqttError::new(ErrorKind::InvalidValue));
        }
        let flags: [bool; 4] = [
            byte / 8 % 2 == 1,
            byte / 4 % 2 == 1,
            byte / 2 % 2 == 1,
            byte % 2 == 1,
        ];
        proof {
            assert(flags@ =~= header_flags(byte));
        }
        Ok(flags)
    }

    /// Gets a flag octet as eight booleans, MSB first
    pub fn read_flags(&mut self) -> (r: Result<[bool; 8], MqttError>)
        requires
            old(self).wf(),
        ensures
            (*final(self)).wf(),
            match parse_bitmap(old(self).remaining()) {
                Ok(p) => (r matches Ok(flags) && flags@ == p.0) && (*final(self)).remaining()
                    == p.1,
                Err(k) => (r matches Err(e) && e.kind == kind_of(k)) && *final(self) == *old(self),
            },
    {
        let byte = match self.read_u8() {
            Ok(b) => b,
            Err(e) => {
                return Err(e);
            },
        };
        let flags: [bool; 8] = [
            byte / 128 % 2 == 1,
            byte / 64 % 2 == 1,
            byte / 32 % 2 == 1,
            byte / 16 % 2 == 1,
            byte / 8 % 2 == 1,
            byte / 4 % 2 == 1,
            byte / 2 % 2 == 1,
            byte % 2 == 1,
        ];
        proof {
            assert(flags@ =~= byte_bits(byte));
        }
        Ok(flags)
    }

    /// Gets the packet length
    pub fn read_packetlen(&mut self) -> (r: Result<usize, MqttError>)
        requires
            old(self).wf(),
        ensures
            (*final(self)).wf(),
            match parse_packetlen(old(self).remaining()) {
                Ok(p) => (r matches Ok(v) && v as int == p.0 && v < 0x10000000) && (*final(self)).remaining() == p.1,
                Err(k) => r matches Err(e) && e.kind == kind_of(k),
            },
    {
        let ghost orig = self.remaining();
        let mut value: usize = 0;
        let mut count: usize = 0;
        loop
            invariant
                self.wf(),
                orig == old(self).remaining(),
                count <= 3,
                count == 0 ==> value == 0,
                count == 1 ==> value < 0x80,
                count == 2 ==> value < 0x4000,
                count == 3 ==> value < 0x200000,
                parse_packetlen(orig) == parse_packetlen_rec(
                    self.remaining(),
                    count as int,
                    value as int,
                ),
            decreases self.end - self.pos,
        {
            let byte = match self.read_u8() {
                Ok(byte) => byte,
                Err(e) => {
                    return Err(e);
                },
            };
            let next: usize = value * 0x80 + (byte % 0x80) as usize;
            if byte < 0x80 {
                proof {
                    crate::wire::lemma_packetlen_sound(orig);
                }
                return Ok(next);
            } else if byte == 0x80 && next == 0 {
                return Err(MqttError::new(ErrorKind::InvalidValue));
            } else if count >= 3 {
                return Err(MqttError::new(ErrorKind::InvalidValue));
            }
            value = next;
            count = count + 1;
        }
    }

    /// Gets exactly `size` raw bytes
    pub fn read_array(&mut self, size: usize) -> (r: Result<Vec<u8>, MqttError>)
        requires
            old(self).wf(),
        ensures
            (*final(self)).wf(),
            old(self).remaining().len() >= size ==> (r matches Ok(v) && v@ == old(self).remaining().take(size as int)) && (*final(self)).remaining() == old(self).remaining().skip(size as int),
            old(self).remaining().len() < size ==> (r matches Err(e) && e.kind
                == ErrorKind::TruncatedData) && *final(self) == *old(self),
    {
        if size <= self.end - self.pos {
            let mut v: Vec<u8> = Vec::new();
            let mut i: usize = 0;
            while i < size
                invariant
                    self == old(self),
                    self.wf(),
                    i <= size,
                    size <= self.end - self.pos,
                    v@ == old(self).remaining().take(i as int),
                decreases size - i,
            {
                v.push(self.buf[self.pos + i]);
                i = i + 1;
                proof {
                    assert(v@ =~= old(self).remaining().take(i as int));
                }
            }
            self.pos = self.pos + size;
            proof {
                assert(self.remaining() =~= old(self).remaining().skip(size as int));
            }
            Ok(v)
        } else {
            Err(MqttError::new(ErrorKind::TruncatedData))
        }
    }

    /// Gets a big-endian `u16`
    pub fn read_u16(&mut self) -> (r: Result<u16, MqttError>)
        requires
            old(self).wf(),
        ensures
            (*final(self)).wf(),
            match parse_u16(old(self).remaining()) {
                Ok(p) => r == Ok::<u16, MqttError>(p.0) && (*final(self)).remaining() == p.1,
                Err(k) => (r matches Err(e) && e.kind == kind_of(k)) && *final(self) == *old(self),
            },
    {
        if 2 <= self.end - self.pos {
            let hi = self.buf[self.pos];
            let lo = self.buf[self.pos + 1];
            self.pos = self.pos + 2;
            proof {
                assert(self.remaining() =~= old(self).remaining().skip(2));
            }
            Ok((hi as u16) * 256 + (lo as u16))
        } else {
            Err(MqttError::new(ErrorKind::TruncatedData))
        }
    }

    /// Gets an optional `u16` field if the condition is true
    pub fn read_optional_u16(&mut self, condition: bool) -> (r: Result<Option<u16>, MqttError>)
        requires
            old(self).wf(),
        ensures
            (*final(self)).wf(),
            match parse_opt_u16(condition, old(self).remaining()) {
                Ok(p) => r == Ok::<Option<u16>, MqttError>(p.0) && (*final(self)).remaining()
                    == p.1,
                Err(k) => (r matches Err(e) && e.kind == kind_of(k)) && *final(self) == *old(self),
            },
    {
        if condition {
            match self.read_u16() {
                Ok(v) => Ok(Some(v)),
                Err(e) => Err(e),
            }
        } else {
            Ok(None)
        }
    }

    /// Gets a length-prefixed byte field
    pub fn read_bytes(&mut self) -> (r: Result<Vec<u8>, MqttError>)
        requires
            old(self).wf(),
        ensures
            (*final(self)).wf(),
            match parse_bytes_field(old(self).remaining()) {
                Ok(p) => (r matches Ok(v) && v@ == p.0) && (*final(self)).remaining() == p.1,
                Err(k) => r matches Err(e) && e.kind == kind_of(k),
            },
    {
        let len = match self.read_u16() {
            Ok(len) => len,
            Err(e) => {
                return Err(e);
            },
        };
        self.read_array(len as usize)
    }

    /// Gets a length-prefixed UTF-8 string
    pub fn read_string(&mut self) -> (r: Result<String, MqttError>)
        requires
            old(self).wf(),
        ensures
            (*final(self)).wf(),
            match parse_bytes_field(old(self).remaining()) {
                Ok(p) => if valid_utf8(p.0) {
                    (r matches Ok(s) && s@ == decode_utf8(p.0)) && (*final(self)).remaining()
                        == p.1
                } else {
                    r matches Err(e) && e.kind == ErrorKind::InvalidValue
                },
                Err(k) => r matches Err(e) && e.kind == kind_of(k),
            },
    {
        let bytes = match self.read_bytes() {
            Ok(b) => b,
            Err(e) => {
                return Err(e);
            },
        };
        match bytes_to_string(bytes) {
            Some(s) => Ok(s),
            None => Err(MqttError::new(ErrorKind::InvalidValue)),
        }
    }

    /// Gets an optional length-prefixed byte field if the condition is true
    pub fn read_optional_bytes(&mut self, condition: bool) -> (r: Result<
        Option<Vec<u8>>,
        MqttError,
    >)
        requires
            old(self).wf(),
        ensures
            (*final(self)).wf(),
            !condition ==> r == Ok::<Option<Vec<u8>>, MqttError>(None) && *final(self) == *old(self),
            condition ==> match parse_bytes_field(old(self).remaining()) {
                Ok(p) => (r matches Ok(v) && v matches Some(v) && v@ == p.0) && (*final(self)).remaining() == p.1,
                Err(k) => r matches Err(e) && e.kind == kind_of(k),
            },
    {
        if condition {
            match self.read_bytes() {
                Ok(v) => Ok(Some(v)),
                Err(e) => Err(e),
            }
        } else {
            Ok(None)
        }
    }

    /// Gets an optional length-prefixed string if the condition is true
    pub fn read_optional_string(&mut self, condition: bool) -> (r: Result<Option<String>, MqttError>)
        requires
            old(self).wf(),
        ensures
            (*final(self)).wf(),
            !condition ==> r == Ok::<Option<String>, MqttError>(None) && *final(self) == *old(self),
            condition ==> match parse_bytes_field(old(self).remaining()) {
                Ok(p) => if valid_utf8(p.0) {
                    (r matches Ok(s) && s matches Some(s) && s@ == decode_utf8(p.0)) && (*final(self)).remaining() == p.1

                } else {
                    r matches Err(e) && e.kind == ErrorKind::InvalidValue
                },
                Err(k) => r matches Err(e) && e.kind == kind_of(k),
            },
    {
        if condition {
            match self.read_string() {
                Ok(v) => Ok(Some(v)),
                Err(e) => Err(e),
            }
        } else {
            Ok(None)
        }
    }

    /// Reads an expected constant value and checks that the input matches it
    pub fn read_constant(&mut self, expected: &[u8]) -> (r: Result<(), MqttError>)
        requires
            old(self).wf(),
        ensures
            (*final(self)).wf(),
            match parse_constant(expected@, old(self).remaining()) {
                Ok(rest) => r == Ok::<(), MqttError>(()) && (*final(self)).remaining() == rest,
                Err(k) => r matches Err(e) && e.kind == kind_of(k),
            },
    {
        let ghost orig = self.remaining();
        let n = expected.len();
        let mut i: usize = 0;
        proof {
            assert(expected@.skip(0) =~= expected@);
        }
        while i < n
            invariant
                self.wf(),
                orig == old(self).remaining(),
                i <= n,
                n == expected@.len(),
                parse_constant(expected@, orig) == parse_constant(
                    expected@.skip(i as int),
                    self.remaining(),
                ),
            decreases n - i,
        {
            let next = match self.read_u8() {
                Ok(b) => b,
                Err(e) => {
                    return Err(e);
                },
            };
            if next != expected[i] {
                return Err(MqttError::new(ErrorKind::InvalidValue));
            }
            i = i + 1;
            proof {
                assert(expected@.skip(i - 1).skip(1) =~= expected@.skip(i as int));
            }
        }
        proof {
            assert(expected@.skip(n as int) =~= Seq::<u8>::empty());
        }
        Ok(())
    }

    /// Reads an expected version constant; a mismatching value is reported
    /// as an unsupported version, so a server can answer gracefully
    pub fn read_version_constant(&mut self, expected: &[u8]) -> (r: Result<(), MqttError>)
        requires
            old(self).wf(),
        ensures
            (*final(self)).wf(),
            match parse_constant(expected@, old(self).remaining()) {
                Ok(rest) => r == Ok::<(), MqttError>(()) && (*final(self)).remaining() == rest,
                Err(k) => r matches Err(e) && e.kind == (if k == Decoding::SpecViolation {
                    ErrorKind::UnsupportedVersion
                } else {
                    kind_of(k)
                }),
            },
    {
        proof {
            crate::wire::lemma_parse_constant_err(expected@, old(self).remaining());
        }
        match self.read_constant(expected) {
            Ok(_) => Ok(()),
            Err(e) => {
                let is_invalid = match e.kind() {
                    ErrorKind::InvalidValue => true,
                    _ => false,
                };
                if is_invalid {
                    Err(MqttError::new(ErrorKind::UnsupportedVersion))
                } else {
                    Err(e)
                }
            },
        }
    }

    /// Reads the remaining readable bytes
    pub fn read_remaining(&mut self) -> (r: Result<Vec<u8>, MqttError>)
        requires
            old(self).wf(),
        ensures
            (*final(self)).wf(),
            r matches Ok(v) && v@ == old(self).remaining(),
            (*final(self)).remaining().len() == 0,
    {
        let n = self.end - self.pos;
        match self.read_array(n) {
            Ok(v) => Ok(v),
            Err(e) => {
                proof {
                    assert(false);
                }
                Err(e)
            },
        }
    }

    /// Peeks at the next pending byte without consuming it
    pub fn peek_u8(&mut self) -> (r: Result<u8, MqttError>)
        requires
            old(self).wf(),
        ensures
            *final(self) == *old(self),
            (*final(self)).wf(),
            (*final(self)).remaining().len() == 0 ==> (r matches Err(e) && e.kind
                == ErrorKind::TruncatedData),
            (*final(self)).remaining().len() > 0 ==> r == Ok::<u8, MqttError>(
                (*final(self)).remaining()[0],
            ),
    {
        if self.pos < self.end {
            Ok(self.buf[self.pos])
        } else {
            Err(MqttError::new(ErrorKind::TruncatedData))
        }
    }

    /// Tests whether the reader is exhausted or not
    pub fn is_empty(&mut self) -> (r: Result<bool, MqttError>)
        requires
            old(self).wf(),
        ensures
            *final(self) == *old(self),
            (*final(self)).wf(),
            r == Ok::<bool, MqttError>((*final(self)).remaining().len() == 0),
    {
        Ok(self.pos >= self.end)
    }

    /// Reads concatenated length-prefixed topics until the readable region
    /// is exhausted
    pub fn read_topic_seq(&mut self) -> (r: Result<Vec<String>, MqttError>)
        requires
            old(self).wf(),
        ensures
            (*final(self)).wf(),
            match parse_string_topics(old(self).remaining()) {
                Ok(ts) => (r matches Ok(v) && strings_view(v@) == ts) && (*final(self)).remaining().len() == 0,
                Err(k) => r matches Err(e) && e.kind == kind_of(k),
            },
    {
        let ghost orig = self.remaining();
        let mut filters: Vec<String> = Vec::new();
        while self.pos < self.end
            invariant
                self.wf(),
                orig == old(self).remaining(),
                parse_string_topics(orig) == (match parse_string_topics(self.remaining()) {
                    Ok(tail) => Ok::<Seq<Seq<char>>, Decoding>(strings_view(filters@) + tail),
                    Err(k) => Err(k),
                }),
            decreases self.end - self.pos,
        {
            let filter = match self.read_string() {
                Ok(s) => s,
                Err(e) => {
                    return Err(e);
                },
            };
            let ghost prev = filters@;
            filters.push(filter);
            proof {
                assert(strings_view(filters@) =~= strings_view(prev) + seq![filters@.last()@]);
                if parse_string_topics(self.remaining()) is Ok {
                    let tail = parse_string_topics(self.remaining())->Ok_0;
                    assert(strings_view(prev) + (seq![filters@.last()@] + tail) =~= strings_view(
                        filters@,
                    ) + tail);
                }
            }
        }
        proof {
            assert(strings_view(filters@) + Seq::<Seq<char>>::empty() =~= strings_view(filters@));
        }
        Ok(filters)
    }

    /// Reads concatenated length-prefixed topics, each followed by a QoS
    /// byte, until the readable region is exhausted
    pub fn read_topic_qos_seq(&mut self) -> (r: Result<Vec<(String, u8)>, MqttError>)
        requires
            old(self).wf(),
        ensures
            (*final(self)).wf(),
            match parse_string_topics_qos(old(self).remaining()) {
                Ok(ts) => (r matches Ok(v) && string_pairs_view(v@) == ts) && (*final(self)).remaining().len() == 0,
                Err(k) => r matches Err(e) && e.kind == kind_of(k),
            },
    {
        let ghost orig = self.remaining();
        let mut filters: Vec<(String, u8)> = Vec::new();
        while self.pos < self.end
            invariant
                self.wf(),
                orig == old(self).remaining(),
                parse_string_topics_qos(orig) == (match parse_string_topics_qos(self.remaining()) {
                    Ok(tail) => Ok::<Seq<(Seq<char>, u8)>, Decoding>(
                        string_pairs_view(filters@) + tail,
                    ),
                    Err(k) => Err(k),
                }),
            decreases self.end - self.pos,
        {
            let filter = match self.read_string() {
                Ok(s) => s,
                Err(e) => {
                    return Err(e);
                },
            };
            let qos = match self.read_u8() {
                Ok(b) => b,
                Err(e) => {
                    return Err(e);
                },
            };
            let ghost prev = filters@;
            filters.push((filter, qos));
            proof {
                assert(string_pairs_view(filters@) =~= string_pairs_view(prev) + seq![
                    (filters@.last().0@, filters@.last().1),
                ]);
                if parse_string_topics_qos(self.remaining()) is Ok {
                    let tail = parse_string_topics_qos(self.remaining())->Ok_0;
                    assert(string_pairs_view(prev) + (seq![(filters@.last().0@, filters@.last().1)]
                        + tail) =~= string_pairs_view(filters@) + tail);
                }
            }
        }
        proof {
            assert(string_pairs_view(filters@) + Seq::<(Seq<char>, u8)>::empty()
                =~= string_pairs_view(filters@));
        }
        Ok(filters)
    }
}

} // verus!
