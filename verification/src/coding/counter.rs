//! A length counter that mirrors the buffered writer.
//!
//! Each `add_*` method accounts for exactly the bytes the matching
//! `write_*` method of the [`Writer`](crate::coding::Writer) would append,
//! so a caller can pre-compute a remaining length before writing a body.

use crate::text::{string_pairs_view, string_topics_bytes, strings_view, utf8_of};
use crate::wire::{
    lemma_topics_bytes_snoc, lemma_topics_qos_bytes_snoc, opt_u16_bytes, topics_qos_bytes,
};
use vstd::prelude::*;

verus! {

/// A length counter
#[derive(Debug)]
pub struct Length {
    /// The accumulated length
    len: usize,
}

impl Length {
    /// The accumulated length
    pub closed spec fn total(&self) -> int {
        self.len as int
    }

    /// Creates a new length counter
    pub fn new() -> (r: Self)
        ensures
            r.total() == 0,
    {
        Self { len: 0 }
    }

    /// Finalizes the length computation
    pub fn finalize(self) -> (r: usize)
        ensures
            r as int == self.total(),
    {
        self.len
    }

    /// Adds a raw buffer written directly as-is
    pub fn add_raw(self, raw: &[u8]) -> (r: Self)
        requires
            self.total() + raw@.len() <= usize::MAX,
        ensures
            r.total() == self.total() + raw@.len(),
    {
        Self { len: self.len + raw.len() }
    }

    /// Adds a `u8`
    pub fn add_u8(self, _byte: &u8) -> (r: Self)
        requires
            self.total() + 1 <= usize::MAX,
        ensures
            r.total() == self.total() + 1,
    {
        Self { len: self.len + 1 }
    }

    /// Adds a flag octet
    pub fn add_flags(self, _flags: &[bool; 8]) -> (r: Self)
        requires
            self.total() + 1 <= usize::MAX,
        ensures
            r.total() == self.total() + 1,
    {
        Self { len: self.len + 1 }
    }

    /// Adds an array of raw bytes
    pub fn add_array(self, array: &[u8]) -> (r: Self)
        requires
            self.total() + array@.len() <= usize::MAX,
        ensures
            r.total() == self.total() + array@.len(),
    {
        Self { len: self.len + array.len() }
    }

    /// Adds a big-endian `u16`
    pub fn add_u16(self, _value: &u16) -> (r: Self)
        requires
            self.total() + 2 <= usize::MAX,
        ensures
            r.total() == self.total() + 2,
    {
        Self { len: self.len + 2 }
    }

    /// Adds an optional `u16`
    pub fn add_optional_u16(self, value: &Option<u16>) -> (r: Self)
        requires
            self.total() + 2 <= usize::MAX,
        ensures
            r.total() == self.total() + opt_u16_bytes(*value).len(),
    {
        match value {
            Some(v) => self.add_u16(v),
            None => self,
        }
    }

    /// Adds a length-prefixed byte field
    pub fn add_bytes(self, bytes: &Vec<u8>) -> (r: Self)
        requires
            self.total() + 2 + bytes@.len() <= usize::MAX,
        ensures
            r.total() == self.total() + 2 + bytes@.len(),
    {
        Self { len: self.len + 2 + bytes.len() }
    }

    /// Adds a length-prefixed string, counted in UTF-8 bytes
    pub fn add_string(self, string: &String) -> (r: Self)
        requires
            self.total() + 2 + utf8_of(string@).len() <= usize::MAX,
        ensures
            r.total() == self.total() + 2 + utf8_of(string@).len(),
    {
        Self { len: self.len + 2 + string.as_str().len() }
    }

    /// Adds an optional length-prefixed byte field
    pub fn add_optional_bytes(self, bytes: &Option<Vec<u8>>) -> (r: Self)
        requires
            match bytes {
                Some(b) => self.total() + 2 + b@.len() <= usize::MAX,
                None => true,
            },
        ensures
            match bytes {
                Some(b) => r.total() == self.total() + 2 + b@.len(),
                None => r.total() == self.total(),
            },
    {
        match bytes {
            Some(b) => self.add_bytes(b),
            None => self,
        }
    }

    /// Adds an optional length-prefixed string
    pub fn add_optional_string(self, string: &Option<String>) -> (r: Self)
        requires
            match string {
                Some(s) => self.total() + 2 + utf8_of(s@).len() <= usize::MAX,
                None => true,
            },
        ensures
            match string {
                Some(s) => r.total() == self.total() + 2 + utf8_of(s@).len(),
                None => r.total() == self.total(),
            },
    {
        match string {
            Some(s) => self.add_string(s),
            None => self,
        }
    }

    /// Adds a topic list written as concatenated length-prefixed strings
    pub fn add_topic_seq(self, topics: &Vec<String>) -> (r: Self)
        requires
            self.total() + string_topics_bytes(strings_view(topics@)).len() <= usize::MAX,
        ensures
            r.total() == self.total() + string_topics_bytes(strings_view(topics@)).len(),
    {
        let ghost all = strings_view(topics@).map_values(|cs: Seq<char>| utf8_of(cs));
        let mut this = self;
        let n = topics.len();
        let mut i: usize = 0;
        while i < n
            invariant
                n == topics@.len(),
                all == strings_view(topics@).map_values(|cs: Seq<char>| utf8_of(cs)),
                self.total() + crate::wire::topics_bytes(all).len() <= usize::MAX,
                this.total() == self.total() + crate::wire::topics_bytes(all.take(i as int)).len(),
                i <= n,
            decreases n - i,
        {
            proof {
                assert(all[i as int] == utf8_of(topics@[i as int]@));
                lemma_topics_bytes_snoc(all.take(i as int), all[i as int]);
                assert(all.take(i + 1) =~= all.take(i as int).push(all[i as int]));
                lemma_topics_prefix_le(all, i + 1);
            }
            this = this.add_string(&topics[i]);
            i = i + 1;
        }
        proof {
            assert(all.take(n as int) =~= all);
        }
        this
    }

    /// Adds a topic list written as concatenated length-prefixed strings,
    /// each followed by its QoS byte
    pub fn add_topic_qos_seq(self, topics: &Vec<(String, u8)>) -> (r: Self)
        requires
            self.total() + crate::coding::writer::string_topics_qos_bytes(
                string_pairs_view(topics@),
            ).len() <= usize::MAX,
        ensures
            r.total() == self.total() + crate::coding::writer::string_topics_qos_bytes(
                string_pairs_view(topics@),
            ).len(),
    {
        let ghost all = string_pairs_view(topics@).map_values(
            |p: (Seq<char>, u8)| (utf8_of(p.0), p.1),
        );
        let mut this = self;
        let n = topics.len();
        let mut i: usize = 0;
        while i < n
            invariant
                n == topics@.len(),
                all == string_pairs_view(topics@).map_values(
                    |p: (Seq<char>, u8)| (utf8_of(p.0), p.1),
                ),
                self.total() + topics_qos_bytes(all).len() <= usize::MAX,
                this.total() == self.total() + topics_qos_bytes(all.take(i as int)).len(),
                i <= n,
            decreases n - i,
        {
            proof {
                assert(all[i as int] == (utf8_of(topics@[i as int].0@), topics@[i as int].1));
                lemma_topics_qos_bytes_snoc(all.take(i as int), all[i as int]);
                assert(all.take(i + 1) =~= all.take(i as int).push(all[i as int]));
                lemma_topics_qos_prefix_le(all, i + 1);
            }
            this = this.add_string(&topics[i].0);
            this = this.add_u8(&topics[i].1);
            i = i + 1;
        }
        proof {
            assert(all.take(n as int) =~= all);
        }
        this
    }
}

/// The encoding of a prefix of a topic sequence is no longer than the whole.
proof fn lemma_topics_prefix_le(ts: Seq<Seq<u8>>, i: int)
    requires
        0 <= i <= ts.len(),
    ensures
        crate::wire::topics_bytes(ts.take(i)).len() <= crate::wire::topics_bytes(ts).len(),
    decreases ts.len() - i,
{
    if i == ts.len() {
        assert(ts.take(i) =~= ts);
    } else {
        lemma_topics_bytes_snoc(ts.take(i), ts[i]);
        assert(ts.take(i + 1) =~= ts.take(i).push(ts[i]));
        lemma_topics_prefix_le(ts, i + 1);
    }
}

/// The encoding of a prefix of a topic+QoS sequence is no longer than the
/// whole.
proof fn lemma_topics_qos_prefix_le(ts: Seq<(Seq<u8>, u8)>, i: int)
    requires
        0 <= i <= ts.len(),
    ensures
        topics_qos_bytes(ts.take(i)).len() <= topics_qos_bytes(ts).len(),
    decreases ts.len() - i,
{
    if i == ts.len() {
        assert(ts.take(i) =~= ts);
    } else {
        lemma_topics_qos_bytes_snoc(ts.take(i), ts[i]);
        assert(ts.take(i + 1) =~= ts.take(i).push(ts[i]));
        lemma_topics_qos_prefix_le(ts, i + 1);
    }
}

} // verus!
