//! A helper that predicts the encoded length of each field.
//!
//! The meter mirrors the encoder surface; every method is specified to add
//! exactly the length of the canonical encoding of its field, so a packet can
//! emit its remaining-length field before its body without double-buffering.

use crate::anyvec::{bufs_view, opt_buf_view, pairs_view, ByteBuf};
use crate::wire::{
    bytes_field, lemma_topics_bytes_snoc, lemma_topics_qos_bytes_snoc, opt_bytes_field,
    opt_u16_bytes, packetlen_size, topics_bytes, topics_qos_bytes,
};
use vstd::prelude::*;

verus! {

/// A helper that predicts the encoded length of each field
#[derive(Debug, Clone, Copy)]
pub struct Length {
    /// The accumulated length
    len: usize,
}

impl Length {
    /// The accumulated length
    pub closed spec fn total(&self) -> int {
        self.len as int
    }

    /// Creates a new, all-zero length
    pub fn new() -> (r: Self)
        ensures
            r.total() == 0,
    {
        Self { len: 0 }
    }

    /// Finalizes the length computation
    pub fn finalize(self) -> (r: usize)
        ensures
            r as int == self.total(),
    {
        self.len
    }

    /// Counts a `u8`
    pub fn u8(self, u8_: &u8) -> (r: Self)
        requires
            self.total() + 1 <= usize::MAX,
        ensures
            r.total() == self.total() + 1,
    {
        Self { len: self.len + 1 }
    }

    /// Counts a big-endian `u16`
    pub fn u16(self, u16_: &u16) -> (r: Self)
        requires
            self.total() + 2 <= usize::MAX,
        ensures
            r.total() == self.total() + 2,
    {
        Self { len: self.len + 2 }
    }

    /// Counts some raw bytes written as-is
    pub fn raw(self, raw: &ByteBuf) -> (r: Self)
        requires
            self.total() + raw@.len() <= usize::MAX,
        ensures
            r.total() == self.total() + raw@.len(),
    {
        Self { len: self.len + raw.len() }
    }

    /// Counts a length-prefixed byte field
    pub fn bytes(self, bytes: &ByteBuf) -> (r: Self)
        requires
            self.total() + 2 + bytes@.len() <= usize::MAX,
        ensures
            r.total() == self.total() + bytes_field(bytes@).len(),
    {
        Self { len: self.len + 2 + bytes.len() }
    }

    /// Counts a bitmap written as one byte
    pub fn bitmap(self, _bits: &[bool; 8]) -> (r: Self)
        requires
            self.total() + 1 <= usize::MAX,
        ensures
            r.total() == self.total() + 1,
    {
        Self { len: self.len + 1 }
    }

    /// Counts a header byte
    pub fn header(self, type_: &u8, _flags: &[bool; 4]) -> (r: Self)
        requires
            *type_ <= 15,
            self.total() + 1 <= usize::MAX,
        ensures
            r.total() == self.total() + 1,
    {
        Self { len: self.len + 1 }
    }

    /// Counts a packet-length field of 1 to 4 heptets
    pub fn packetlen(self, len: &usize) -> (r: Self)
        requires
            *len < 0x10000000,
            self.total() + 4 <= usize::MAX,
        ensures
            r.total() == self.total() + packetlen_size(*len as int),
    {
        let size: usize = if *len < 0x80 {
            1
        } else if *len < 0x4000 {
            2
        } else if *len < 0x200000 {
            3
        } else {
            4
        };
        Self { len: self.len + size }
    }

    /// Counts an optional `u16`
    pub fn optional_u16(self, u16_: &Option<u16>) -> (r: Self)
        requires
            self.total() + 2 <= usize::MAX,
        ensures
            r.total() == self.total() + opt_u16_bytes(*u16_).len(),
    {
        match u16_ {
            Some(v) => self.u16(v),
            None => self,
        }
    }

    /// Counts an optional length-prefixed byte field
    pub fn optional_bytes(self, bytes: &Option<ByteBuf>) -> (r: Self)
        requires
            match bytes {
                Some(b) => self.total() + 2 + b@.len() <= usize::MAX,
                None => true,
            },
        ensures
            r.total() == self.total() + opt_bytes_field(opt_buf_view(*bytes)).len(),
    {
        match bytes {
            Some(b) => self.bytes(b),
            None => self,
        }
    }

    /// Counts a topic sequence
    pub fn topics(self, topics: &Vec<ByteBuf>) -> (r: Self)
        requires
            self.total() + topics_bytes(bufs_view(topics@)).len() <= usize::MAX,
        ensures
            r.total() == self.total() + topics_bytes(bufs_view(topics@)).len(),
    {
        let mut this = self;
        let n = topics.len();
        for i in 0..n
            invariant
                n == topics@.len(),
                self.total() + topics_bytes(bufs_view(topics@)).len() <= usize::MAX,
                this.total() == self.total() + topics_bytes(bufs_view(topics@).take(i as int)).len(),
        {
            proof {
                lemma_topics_bytes_snoc(bufs_view(topics@).take(i as int), topics@[i as int]@);
                assert(bufs_view(topics@).take(i + 1) =~= bufs_view(topics@).take(i as int).push(
                    topics@[i as int]@,
                ));
                lemma_topics_bytes_prefix_len(bufs_view(topics@), i + 1);
            }
            this = this.bytes(&topics[i]);
        }
        proof {
            assert(bufs_view(topics@).take(n as int) =~= bufs_view(topics@));
        }
        this
    }

    /// Counts a topic+QoS sequence
    pub fn topics_qos(self, topics_qos: &Vec<(ByteBuf, u8)>) -> (r: Self)
        requires
            self.total() + topics_qos_bytes(pairs_view(topics_qos@)).len() <= usize::MAX,
        ensures
            r.total() == self.total() + topics_qos_bytes(pairs_view(topics_qos@)).len(),
    {
        let mut this = self;
        let n = topics_qos.len();
        for i in 0..n
            invariant
                n == topics_qos@.len(),
                self.total() + topics_qos_bytes(pairs_view(topics_qos@)).len() <= usize::MAX,
                this.total() == self.total() + topics_qos_bytes(
                    pairs_view(topics_qos@).take(i as int),
                ).len(),
        {
            proof {
                lemma_topics_qos_bytes_snoc(
                    pairs_view(topics_qos@).take(i as int),
                    (topics_qos@[i as int].0@, topics_qos@[i as int].1),
                );
                assert(pairs_view(topics_qos@).take(i + 1) =~= pairs_view(topics_qos@).take(
                    i as int,
                ).push((topics_qos@[i as int].0@, topics_qos@[i as int].1)));
                lemma_topics_qos_bytes_prefix_len(pairs_view(topics_qos@), i + 1);
            }
            this = this.bytes(&topics_qos[i].0);
            this = this.u8(&topics_qos[i].1);
        }
        proof {
            assert(pairs_view(topics_qos@).take(n as int) =~= pairs_view(topics_qos@));
        }
        this
    }
}

/// The encoding of a prefix of a topic sequence is no longer than the
/// encoding of the whole sequence.
proof fn lemma_topics_bytes_prefix_len(ts: Seq<Seq<u8>>, i: int)
    requires
        0 <= i <= ts.len(),
    ensures
        topics_bytes(ts.take(i)).len() <= topics_bytes(ts).len(),
    decreases ts.len() - i,
{
    if i == ts.len() {
        assert(ts.take(i) =~= ts);
    } else {
        lemma_topics_bytes_snoc(ts.take(i), ts[i]);
        assert(ts.take(i + 1) =~= ts.take(i).push(ts[i]));
        lemma_topics_bytes_prefix_len(ts, i + 1);
    }
}

/// The encoding of a prefix of a topic+QoS sequence is no longer than the
/// encoding of the whole sequence.
proof fn lemma_topics_qos_bytes_prefix_len(ts: Seq<(Seq<u8>, u8)>, i: int)
    requires
        0 <= i <= ts.len(),
    ensures
        topics_qos_bytes(ts.take(i)).len() <= topics_qos_bytes(ts).len(),
    decreases ts.len() - i,
{
    if i == ts.len() {
        assert(ts.take(i) =~= ts);
    } else {
        lemma_topics_qos_bytes_snoc(ts.take(i), ts[i]);
        assert(ts.take(i + 1) =~= ts.take(i).push(ts[i]));
        lemma_topics_qos_bytes_prefix_len(ts, i + 1);
    }
}

} // verus!
