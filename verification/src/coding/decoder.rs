//! A pull decoder over an owned byte buffer.
//!
//! Every read is specified against the parse functions of [`crate::wire`]:
//! on success the method returns exactly the parsed value and consumes
//! exactly the parsed bytes; on failure it reports exactly the error kind the
//! grammar assigns to the input.

use crate::anyvec::{bufs_view, pairs_view, ByteBuf};
use crate::error::{Decoding, Error};
use crate::error::DecoderError;
use crate::wire::{
    byte_bits, header_flags, header_type, parse_bitmap, parse_bytes_field, parse_header,
    parse_opt_bytes, parse_opt_u16, parse_packetlen, parse_packetlen_rec, parse_topics,
    parse_topics_qos, parse_u16, parse_u8,
};
use vstd::prelude::*;

verus! {

/// A pull decoder over an owned byte buffer
#[derive(Debug)]
pub struct Decoder {
    /// The bytes to decode
    buf: Vec<u8>,
    /// The next unread position
    pos: usize,
    /// The position one past the last readable byte
    end: usize,
}

impl Decoder {
    /// The decoder's positions lie within its buffer
    pub closed spec fn wf(&self) -> bool {
        self.pos <= self.end <= self.buf@.len()
    }

    /// The bytes that are still readable
    pub closed spec fn remaining(&self) -> Seq<u8> {
        self.buf@.subrange(self.pos as int, self.end as int)
    }

    /// Creates a new decoder over the given bytes
    pub fn new(source: Vec<u8>) -> (r: Decoder)
        ensures
            r.wf(),
            r.remaining() == source@,
    {
        let end = source.len();
        let r = Decoder { buf: source, pos: 0, end };
        proof {
            assert(r.remaining() =~= r.buf@);
        }
        r
    }

    /// Upgrades the decoder to one that can also peek; every decoder of this
    /// crate holds its bytes in memory, so this is the identity
    pub fn peekable(self) -> (r: Decoder)
        requires
            self.wf(),
        ensures
            r.wf(),
            r.remaining() == self.remaining(),
    {
        self
    }

    /// Limits the decoder to the given number of bytes; bytes past the limit
    /// are no longer readable
    pub fn limit(self, limit: usize) -> (r: Decoder)
        requires
            self.wf(),
        ensures
            r.wf(),
            limit <= self.remaining().len() ==> r.remaining() == self.remaining().take(
                limit as int,
            ),
            limit > self.remaining().len() ==> r.remaining() == self.remaining(),
    {
        if limit <= self.end - self.pos {
            let r = Decoder { buf: self.buf, pos: self.pos, end: self.pos + limit };
            proof {
                assert(r.remaining() =~= self.remaining().take(limit as int));
            }
            r
        } else {
            self
        }
    }

    /// The number of bytes that are still readable
    pub fn remaining_len(&self) -> (r: usize)
        requires
            self.wf(),
        ensures
            r == self.remaining().len(),
    {
        self.end - self.pos
    }

    /// Checks if the underlying source is empty
    pub fn is_empty(&mut self) -> (r: bool)
        requires
            old(self).wf(),
        ensures
            *final(self) == *old(self),
            (*final(self)).wf(),
            r == ((*final(self)).remaining().len() == 0),
    {
        self.pos >= self.end
    }

    /// Peeks at the next byte without consuming it
    pub fn peek_u8(&mut self) -> (r: Option<u8>)
        requires
            old(self).wf(),
        ensures
            *final(self) == *old(self),
            (*final(self)).wf(),
            (*final(self)).remaining().len() == 0 ==> r is None,
            (*final(self)).remaining().len() > 0 ==> r == Some((*final(self)).remaining()[0]),
    {
        if self.pos < self.end {
            Some(self.buf[self.pos])
        } else {
            None
        }
    }

    /// Reads a `u8`
    pub fn u8(&mut self) -> (r: Result<u8, DecoderError>)
        requires
            old(self).wf(),
        ensures
            (*final(self)).wf(),
            match parse_u8(old(self).remaining()) {
                Ok(p) => r == Ok::<u8, DecoderError>(p.0) && (*final(self)).remaining() == p.1,
                Err(k) => (r matches Err(e) && e.variant == k) && *final(self) == *old(self),
            },
    {
        if self.pos < self.end {
            let b = self.buf[self.pos];
            self.pos = self.pos + 1;
            proof {
                assert(self.remaining() =~= old(self).remaining().skip(1));
            }
            Ok(b)
        } else {
            Err(Error::new(Decoding::Truncated))
        }
    }

    /// Reads exactly `n` raw bytes
    pub fn raw(&mut self, n: usize) -> (r: Result<Vec<u8>, DecoderError>)
        requires
            old(self).wf(),
        ensures
            (*final(self)).wf(),
            old(self).remaining().len() >= n ==> (r matches Ok(v) && v@ == old(self).remaining().take(n as int))
                && (*final(self)).remaining() == old(self).remaining().skip(n as int),
            old(self).remaining().len() < n ==> (r matches Err(e) && e.variant
                == Decoding::Truncated) && *final(self) == *old(self),
    {
        if n <= self.end - self.pos {
            let mut v: Vec<u8> = Vec::new();
            let mut i: usize = 0;
            while i < n
                invariant
                    self == old(self),
                    self.wf(),
                    i <= n,
                    n <= self.end - self.pos,
                    v@ == old(self).remaining().take(i as int),
                decreases n - i,
            {
                v.push(self.buf[self.pos + i]);
                i = i + 1;
                proof {
                    assert(v@ =~= old(self).remaining().take(i as int));
                }
            }
            self.pos = self.pos + n;
            proof {
                assert(self.remaining() =~= old(self).remaining().skip(n as int));
            }
            Ok(v)
        } else {
            Err(Error::new(Decoding::Truncated))
        }
    }

    /// Reads a big-endian `u16`
    pub fn u16(&mut self) -> (r: Result<u16, DecoderError>)
        requires
            old(self).wf(),
        ensures
            (*final(self)).wf(),
            match parse_u16(old(self).remaining()) {
                Ok(p) => r == Ok::<u16, DecoderError>(p.0) && (*final(self)).remaining() == p.1,
                Err(k) => (r matches Err(e) && e.variant == k) && *final(self) == *old(self),
            },
    {
        if 2 <= self.end - self.pos {
            let hi = self.buf[self.pos];
            let lo = self.buf[self.pos + 1];
            self.pos = self.pos + 2;
            proof {
                assert(self.remaining() =~= old(self).remaining().skip(2));
            }
            Ok((hi as u16) * 256 + (lo as u16))
        } else {
            Err(Error::new(Decoding::Truncated))
        }
    }

    /// Reads a byte as a bitmap of eight booleans, MSB first
    pub fn bitmap(&mut self) -> (r: Result<[bool; 8], DecoderError>)
        requires
            old(self).wf(),
        ensures
            (*final(self)).wf(),
            match parse_bitmap(old(self).remaining()) {
                Ok(p) => (r matches Ok(bits) && bits@ == p.0) && (*final(self)).remaining() == p.1,
                Err(k) => (r matches Err(e) && e.variant == k) && *final(self) == *old(self),
            },
    {
        let byte = match self.u8() {
            Ok(byte) => byte,
            Err(e) => {
                return Err(e);
            },
        };
        let bits: [bool; 8] = [
            byte / 128 % 2 == 1,
            byte / 64 % 2 == 1,
            byte / 32 % 2 == 1,
            byte / 16 % 2 == 1,
            byte / 8 % 2 == 1,
            byte / 4 % 2 == 1,
            byte / 2 % 2 == 1,
            byte % 2 == 1,
        ];
        proof {
            assert(bits@ =~= byte_bits(byte));
        }
        Ok(bits)
    }

    /// Reads a header byte as packet type and flag nibble, MSB first
    pub fn header(&mut self) -> (r: Result<(u8, [bool; 4]), DecoderError>)
        requires
            old(self).wf(),
        ensures
            (*final(self)).wf(),
            match parse_header(old(self).remaining()) {
                Ok(p) => (r matches Ok(h) && h.0 == p.0.0 && h.1@ == p.0.1) && (*final(self)).remaining()
                    == p.1,
                Err(k) => (r matches Err(e) && e.variant == k) && *final(self) == *old(self),
            },
    {
        let byte = match self.u8() {
            Ok(byte) => byte,
            Err(e) => {
                return Err(e);
            },
        };
        let flags: [bool; 4] = [
            byte / 8 % 2 == 1,
            byte / 4 % 2 == 1,
            byte / 2 % 2 == 1,
            byte % 2 == 1,
        ];
        proof {
            assert(flags@ =~= header_flags(byte));
            assert(byte / 16 == header_type(byte));
        }
        Ok((byte / 16, flags))
    }

    /// Reads a packet-length field of 1 to 4 heptets
    pub fn packetlen(&mut self) -> (r: Result<usize, DecoderError>)
        requires
            old(self).wf(),
        ensures
            (*final(self)).wf(),
            match parse_packetlen(old(self).remaining()) {
                Ok(p) => (r matches Ok(v) && v as int == p.0 && v < 0x10000000) && (*final(self)).remaining()
                    == p.1,
                Err(k) => (r matches Err(e) && e.variant == k),
            },
    {
        let ghost orig = self.remaining();
        let mut value: usize = 0;
        let mut count: usize = 0;
        loop
            invariant
                self.wf(),
                orig == old(self).remaining(),
                count <= 3,
                count == 0 ==> value == 0,
                count == 1 ==> value < 0x80,
                count == 2 ==> value < 0x4000,
                count == 3 ==> value < 0x200000,
                parse_packetlen(orig) == parse_packetlen_rec(
                    self.remaining(),
                    count as int,
                    value as int,
                ),
            decreases self.end - self.pos,
        {
            let byte = match self.u8() {
                Ok(byte) => byte,
                Err(e) => {
                    return Err(e);
                },
            };
            let next: usize = value * 0x80 + (byte % 0x80) as usize;
            if byte < 0x80 {
                proof {
                    crate::wire::lemma_packetlen_sound(orig);
                }
                return Ok(next);
            } else if byte == 0x80 && next == 0 {
                return Err(Error::new(Decoding::SpecViolation));
            } else if count >= 3 {
                return Err(Error::new(Decoding::SpecViolation));
            }
            value = next;
            count = count + 1;
        }
    }

    /// Reads a length-prefixed byte field
    pub fn bytes(&mut self) -> (r: Result<ByteBuf, DecoderError>)
        requires
            old(self).wf(),
        ensures
            (*final(self)).wf(),
            match parse_bytes_field(old(self).remaining()) {
                Ok(p) => (r matches Ok(b) && b@ == p.0) && (*final(self)).remaining() == p.1,
                Err(k) => (r matches Err(e) && e.variant == k),
            },
    {
        let len = match self.u16() {
            Ok(len) => len,
            Err(e) => {
                return Err(e);
            },
        };
        match self.raw(len as usize) {
            Ok(v) => Ok(ByteBuf::from_vec(v)),
            Err(e) => Err(e),
        }
    }

    /// Reads an optional `u16`: nothing is consumed when `condition` is false
    pub fn optional_u16(&mut self, condition: bool) -> (r: Result<Option<u16>, DecoderError>)
        requires
            old(self).wf(),
        ensures
            (*final(self)).wf(),
            match parse_opt_u16(condition, old(self).remaining()) {
                Ok(p) => r == Ok::<Option<u16>, DecoderError>(p.0) && (*final(self)).remaining() == p.1,
                Err(k) => (r matches Err(e) && e.variant == k) && *final(self) == *old(self),
            },
    {
        if condition {
            match self.u16() {
                Ok(v) => Ok(Some(v)),
                Err(e) => Err(e),
            }
        } else {
            Ok(None)
        }
    }

    /// Reads an optional length-prefixed byte field: nothing is consumed when
    /// `condition` is false
    pub fn optional_bytes(&mut self, condition: bool) -> (r: Result<Option<ByteBuf>, DecoderError>)
        requires
            old(self).wf(),
        ensures
            (*final(self)).wf(),
            match parse_opt_bytes(condition, old(self).remaining()) {
                Ok(p) => (r matches Ok(b) && match (b, p.0) {
                    (Some(b), Some(v)) => b@ == v,
                    (None, None) => true,
                    _ => false,
                }) && (*final(self)).remaining() == p.1,
                Err(k) => (r matches Err(e) && e.variant == k),
            },
    {
        if condition {
            match self.bytes() {
                Ok(b) => Ok(Some(b)),
                Err(e) => Err(e),
            }
        } else {
            Ok(None)
        }
    }

    /// Reads the remaining readable bytes as-is
    pub fn raw_remainder(&mut self) -> (r: Result<ByteBuf, DecoderError>)
        requires
            old(self).wf(),
        ensures
            (*final(self)).wf(),
            r matches Ok(b) && b@ == old(self).remaining(),
            (*final(self)).remaining().len() == 0,
    {
        let n = self.end - self.pos;
        match self.raw(n) {
            Ok(v) => Ok(ByteBuf::from_vec(v)),
            Err(e) => {
                proof {
                    assert(false);
                }
                Err(e)
            },
        }
    }

    /// Reads length-prefixed topics until the readable region is exhausted
    pub fn topics(&mut self) -> (r: Result<Vec<ByteBuf>, DecoderError>)
        requires
            old(self).wf(),
        ensures
            (*final(self)).wf(),
            match parse_topics(old(self).remaining()) {
                Ok(ts) => (r matches Ok(v) && bufs_view(v@) == ts) && (*final(self)).remaining().len() == 0,
                Err(k) => (r matches Err(e) && e.variant == k),
            },
    {
        let ghost orig = self.remaining();
        let mut topics: Vec<ByteBuf> = Vec::new();
        while self.pos < self.end
            invariant
                self.wf(),
                orig == old(self).remaining(),
                parse_topics(orig) == (match parse_topics(self.remaining()) {
                    Ok(tail) => Ok::<Seq<Seq<u8>>, Decoding>(bufs_view(topics@) + tail),
                    Err(k) => Err(k),
                }),
            decreases self.end - self.pos,
        {
            let topic = match self.bytes() {
                Ok(topic) => topic,
                Err(e) => {
                    return Err(e);
                },
            };
            let ghost prev = topics@;
            topics.push(topic);
            proof {
                assert(bufs_view(topics@) =~= bufs_view(prev) + seq![topic@]);
                if parse_topics(self.remaining()) is Ok {
                    let tail = parse_topics(self.remaining())->Ok_0;
                    assert(bufs_view(prev) + (seq![topic@] + tail) =~= bufs_view(topics@) + tail);
                }
            }
        }
        proof {
            assert(bufs_view(topics@) + Seq::<Seq<u8>>::empty() =~= bufs_view(topics@));
        }
        Ok(topics)
    }

    /// Reads length-prefixed topics, each followed by a QoS byte, until the
    /// readable region is exhausted
    pub fn topics_qos(&mut self) -> (r: Result<Vec<(ByteBuf, u8)>, DecoderError>)
        requires
            old(self).wf(),
        ensures
            (*final(self)).wf(),
            match parse_topics_qos(old(self).remaining()) {
                Ok(ts) => (r matches Ok(v) && pairs_view(v@) == ts) && (*final(self)).remaining().len() == 0,
                Err(k) => (r matches Err(e) && e.variant == k),
            },
    {
        let ghost orig = self.remaining();
        let mut topics: Vec<(ByteBuf, u8)> = Vec::new();
        while self.pos < self.end
            invariant
                self.wf(),
                orig == old(self).remaining(),
                parse_topics_qos(orig) == (match parse_topics_qos(self.remaining()) {
                    Ok(tail) => Ok::<Seq<(Seq<u8>, u8)>, Decoding>(pairs_view(topics@) + tail),
                    Err(k) => Err(k),
                }),
            decreases self.end - self.pos,
        {
            let topic = match self.bytes() {
                Ok(topic) => topic,
                Err(e) => {
                    return Err(e);
                },
            };
            let qos = match self.u8() {
                Ok(qos) => qos,
                Err(e) => {
                    return Err(e);
                },
            };
            let ghost prev = topics@;
            topics.push((topic, qos));
            proof {
                assert(pairs_view(topics@) =~= pairs_view(prev) + seq![(topic@, qos)]);
                if parse_topics_qos(self.remaining()) is Ok {
                    let tail = parse_topics_qos(self.remaining())->Ok_0;
                    assert(pairs_view(prev) + (seq![(topic@, qos)] + tail) =~= pairs_view(topics@)
                        + tail);
                }
            }
        }
        proof {
            assert(pairs_view(topics@) + Seq::<(Seq<u8>, u8)>::empty() =~= pairs_view(topics@));
        }
        Ok(topics)
    }
}

} // verus!
