//! A push encoder that accumulates the encoded bytes of a packet.
//!
//! Every write is specified against the encoding functions of
//! [`crate::wire`]: the new encoder holds exactly the prior bytes followed by
//! the canonical encoding of the written field.  Writes whose values cannot
//! be represented on the wire (a field longer than a `u16` length prefix can
//! say, a packet length of 2^28 or more, a packet type above 15) are ruled
//! out by preconditions.

use crate::anyvec::{bufs_view, opt_buf_view, pairs_view, ByteBuf};
use crate::wire::{
    bitmap_byte, bytes_field, header_byte, lemma_topics_bytes_snoc, lemma_topics_qos_bytes_snoc,
    opt_bytes_field, opt_u16_bytes, packetlen_bytes, topics_bytes, topics_fit, topics_qos_bytes,
    topics_qos_fit, u16_bytes,
};
use vstd::prelude::*;

verus! {

/// A push encoder that accumulates encoded bytes
#[derive(Debug)]
pub struct Encoder {
    /// The bytes written so far
    data: Vec<u8>,
}

impl View for Encoder {
    type V = Seq<u8>;

    closed spec fn view(&self) -> Seq<u8> {
        self.data@
    }
}

impl Default for Encoder {
    /// An encoder that has written nothing yet
    fn default() -> (r: Self)
        ensures
            r@ =~= Seq::<u8>::empty(),
    {
        Encoder { data: Vec::new() }
    }
}

impl Encoder {
    /// Consumes the encoder, yielding the written bytes in order
    pub fn into_vec(self) -> (r: Vec<u8>)
        ensures
            r@ == self@,
    {
        self.data
    }

    /// Writes some raw bytes as-is
    pub fn raw(self, raw: &[u8]) -> (r: Encoder)
        ensures
            r@ == self@ + raw@,
    {
        let mut this = self;
        let n = raw.len();
        for i in 0..n
            invariant
                n == raw@.len(),
                this@ == self@ + raw@.take(i as int),
        {
            this.data.push(raw[i]);
            proof {
                assert(this@ =~= self@ + raw@.take(i + 1));
            }
        }
        proof {
            assert(self@ + raw@.take(n as int) =~= self@ + raw@);
        }
        this
    }

    /// Writes a `u8`
    pub fn u8(self, u8_: u8) -> (r: Encoder)
        ensures
            r@ == self@.push(u8_),
    {
        let mut this = self;
        this.data.push(u8_);
        this
    }

    /// Writes a big-endian `u16`
    pub fn u16(self, u16_: u16) -> (r: Encoder)
        ensures
            r@ == self@ + u16_bytes(u16_),
    {
        let mut this = self;
        this.data.push((u16_ / 256) as u8);
        this.data.push((u16_ % 256) as u8);
        proof {
            assert(this@ =~= self@ + u16_bytes(u16_));
        }
        this
    }

    /// Writes a length-prefixed byte field
    pub fn bytes(self, bytes: &[u8]) -> (r: Encoder)
        requires
            bytes@.len() <= 0xFFFF,
        ensures
            r@ == self@ + bytes_field(bytes@),
    {
        let ghost pre = self@;
        let this = self.u16(bytes.len() as u16);
        let this = this.raw(bytes);
        proof {
            assert(this@ =~= pre + bytes_field(bytes@));
        }
        this
    }

    /// Writes a bitmap as one byte, MSB first
    pub fn bitmap(self, bits: [bool; 8]) -> (r: Encoder)
        ensures
            r@ == self@.push(bitmap_byte(bits@)),
    {
        let byte: u8 = (if bits[0] {
            128
        } else {
            0
        }) + (if bits[1] {
            64
        } else {
            0
        }) + (if bits[2] {
            32
        } else {
            0
        }) + (if bits[3] {
            16
        } else {
            0
        }) + (if bits[4] {
            8
        } else {
            0
        }) + (if bits[5] {
            4
        } else {
            0
        }) + (if bits[6] {
            2
        } else {
            0
        }) + (if bits[7] {
            1
        } else {
            0
        });
        self.u8(byte)
    }

    /// Writes a packet type and its flag nibble as one header byte
    pub fn header(self, type_: u8, flags: [bool; 4]) -> (r: Encoder)
        requires
            type_ <= 15,
        ensures
            r@ == self@.push(header_byte(type_, flags@)),
    {
        let byte: u8 = type_ * 16 + (if flags[0] {
            8
        } else {
            0
        }) + (if flags[1] {
            4
        } else {
            0
        }) + (if flags[2] {
            2
        } else {
            0
        }) + (if flags[3] {
            1
        } else {
            0
        });
        self.u8(byte)
    }

    /// Writes a packet-length field of 1 to 4 heptets
    pub fn packetlen(self, len: usize) -> (r: Encoder)
        requires
            len < 0x10000000,
        ensures
            r@ == self@ + packetlen_bytes(len as int),
    {
        let mut this = self;
        if len < 0x80 {
            this.data.push(len as u8);
        } else if len < 0x4000 {
            this.data.push((0x80 + len / 0x80) as u8);
            this.data.push((len % 0x80) as u8);
        } else if len < 0x200000 {
            this.data.push((0x80 + len / 0x4000) as u8);
            this.data.push((0x80 + (len / 0x80) % 0x80) as u8);
            this.data.push((len % 0x80) as u8);
        } else {
            this.data.push((0x80 + len / 0x200000) as u8);
            this.data.push((0x80 + (len / 0x4000) % 0x80) as u8);
            this.data.push((0x80 + (len / 0x80) % 0x80) as u8);
            this.data.push((len % 0x80) as u8);
        }
        proof {
            assert(this@ =~= self@ + packetlen_bytes(len as int));
        }
        this
    }

    /// Writes an optional `u16`: nothing when it is absent
    pub fn optional_u16(self, u16_: Option<u16>) -> (r: Encoder)
        ensures
            r@ == self@ + opt_u16_bytes(u16_),
    {
        let ghost pre = self@;
        match u16_ {
            Some(v) => self.u16(v),
            None => {
                proof {
                    assert(pre + opt_u16_bytes(u16_) =~= pre);
                }
                self
            },
        }
    }

    /// Writes an optional length-prefixed byte field: nothing when it is
    /// absent
    pub fn optional_bytes(self, bytes: &Option<ByteBuf>) -> (r: Encoder)
        requires
            match bytes {
                Some(b) => b@.len() <= 0xFFFF,
                None => true,
            },
        ensures
            r@ == self@ + opt_bytes_field(opt_buf_view(*bytes)),
    {
        let ghost pre = self@;
        match bytes {
            Some(b) => self.bytes(b.as_slice()),
            None => {
                proof {
                    assert(pre + opt_bytes_field(opt_buf_view(*bytes)) =~= pre);
                }
                self
            },
        }
    }

    /// Writes a topic sequence: each topic as a length-prefixed byte field
    pub fn topics(self, topics: Vec<ByteBuf>) -> (r: Encoder)
        requires
            topics_fit(bufs_view(topics@)),
        ensures
            r@ == self@ + topics_bytes(bufs_view(topics@)),
    {
        let mut this = self;
        let n = topics.len();
        for i in 0..n
            invariant
                n == topics@.len(),
                topics_fit(bufs_view(topics@)),
                this@ == self@ + topics_bytes(bufs_view(topics@).take(i as int)),
        {
            proof {
                assert(bufs_view(topics@)[i as int] == topics@[i as int]@);
            }
            this = this.bytes(topics[i].as_slice());
            proof {
                lemma_topics_bytes_snoc(bufs_view(topics@).take(i as int), topics@[i as int]@);
                assert(bufs_view(topics@).take(i + 1) =~= bufs_view(topics@).take(i as int).push(
                    topics@[i as int]@,
                ));
                assert(this@ =~= self@ + topics_bytes(bufs_view(topics@).take(i + 1)));
            }
        }
        proof {
            assert(bufs_view(topics@).take(n as int) =~= bufs_view(topics@));
        }
        this
    }

    /// Writes a topic+QoS sequence: each topic as a length-prefixed byte
    /// field followed by its QoS byte
    pub fn topics_qos(self, topics_qos: Vec<(ByteBuf, u8)>) -> (r: Encoder)
        requires
            topics_qos_fit(pairs_view(topics_qos@)),
        ensures
            r@ == self@ + topics_qos_bytes(pairs_view(topics_qos@)),
    {
        let mut this = self;
        let n = topics_qos.len();
        for i in 0..n
            invariant
                n == topics_qos@.len(),
                topics_qos_fit(pairs_view(topics_qos@)),
                this@ == self@ + topics_qos_bytes(pairs_view(topics_qos@).take(i as int)),
        {
            proof {
                assert(pairs_view(topics_qos@)[i as int] == (
                    topics_qos@[i as int].0@,
                    topics_qos@[i as int].1,
                ));
                assert(pairs_view(topics_qos@)[i as int].0.len() <= 0xFFFF);
            }
            this = this.bytes(topics_qos[i].0.as_slice());
            this = this.u8(topics_qos[i].1);
            proof {
                lemma_topics_qos_bytes_snoc(
                    pairs_view(topics_qos@).take(i as int),
                    (topics_qos@[i as int].0@, topics_qos@[i as int].1),
                );
                assert(pairs_view(topics_qos@).take(i + 1) =~= pairs_view(topics_qos@).take(
                    i as int,
                ).push((topics_qos@[i as int].0@, topics_qos@[i as int].1)));
                assert(this@ =~= self@ + topics_qos_bytes(pairs_view(topics_qos@).take(i + 1)));
            }
        }
        proof {
            assert(pairs_view(topics_qos@).take(n as int) =~= pairs_view(topics_qos@));
        }
        this
    }
}

} // verus!
