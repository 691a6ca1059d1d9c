//! A byte container with an optional hard capacity bound.
//!
//! One container serves every build of the codec: an unbounded buffer grows
//! like a plain vector, while a buffer built with [`ByteBuf::with_capacity`]
//! refuses, with a typed [`MemoryError`], any write that would push it past
//! its bound.  Failed writes are atomic: nothing of the rejected data becomes
//! visible.

use crate::error::{Memory, MemoryError};
use vstd::prelude::*;

verus! {

/// A growable byte buffer with a hard capacity bound
#[derive(Debug, Clone)]
pub struct ByteBuf {
    /// The stored bytes
    data: Vec<u8>,
    /// The hard bound on `data.len()`
    cap: usize,
}

impl View for ByteBuf {
    type V = Seq<u8>;

    closed spec fn view(&self) -> Seq<u8> {
        self.data@
    }
}

impl ByteBuf {
    /// The hard capacity bound of this buffer
    pub closed spec fn cap(&self) -> usize {
        self.cap
    }

    /// Creates an unbounded buffer holding a copy of the given bytes
    pub fn new(elements: &[u8]) -> (r: Result<Self, MemoryError>)
        ensures
            r matches Ok(b) && b@ == elements@ && b.cap() == usize::MAX,
    {
        let mut this = Self { data: Vec::new(), cap: usize::MAX };
        proof {
            vstd::slice::axiom_spec_len(elements);
        }
        match this.extend(elements) {
            Ok(_) => {
                assert(this@ =~= elements@);
                Ok(this)
            },
            Err(e) => Err(e),
        }
    }

    /// Creates an empty buffer that holds at most `cap` bytes
    pub fn with_capacity(cap: usize) -> (r: Self)
        ensures
            r@ =~= Seq::<u8>::empty(),
            r.cap() == cap,
    {
        Self { data: Vec::new(), cap }
    }

    /// Wraps an owned byte vector as an unbounded buffer
    pub fn from_vec(data: Vec<u8>) -> (r: Self)
        ensures
            r@ == data@,
            r.cap() == usize::MAX,
    {
        Self { data, cap: usize::MAX }
    }

    /// The number of stored bytes
    pub fn len(&self) -> (r: usize)
        ensures
            r == self@.len(),
    {
        self.data.len()
    }

    /// The remaining capacity of this buffer
    pub fn capacity(&self) -> (r: usize)
        ensures
            r == self.cap(),
    {
        self.cap
    }

    /// The stored bytes as a slice
    pub fn as_slice(&self) -> (r: &[u8])
        ensures
            r@ == self@,
    {
        self.data.as_slice()
    }

    /// Consumes the buffer, yielding the stored bytes in insertion order
    pub fn into_vec(self) -> (r: Vec<u8>)
        ensures
            r@ == self@,
    {
        self.data
    }

    /// Pushes a byte to the end of the buffer; fails if and only if the
    /// buffer is full
    pub fn push(&mut self, element: u8) -> (r: Result<(), MemoryError>)
        ensures
            old(self)@.len() < old(self).cap() ==> r is Ok && (*final(self))@ == old(self)@.push(
                element,
            ),
            old(self)@.len() >= old(self).cap() ==> (r matches Err(e) && e.variant == Memory)
                && *final(self) == *old(self),
            (*final(self)).cap() == old(self).cap(),
    {
        if self.data.len() < self.cap {
            self.data.push(element);
            Ok(())
        } else {
            Err(MemoryError::new(Memory))
        }
    }

    /// Appends a copy of the given bytes; fails, leaving the buffer
    /// unchanged, if and only if they do not all fit
    pub fn extend(&mut self, elements: &[u8]) -> (r: Result<(), MemoryError>)
        ensures
            old(self)@.len() + elements@.len() <= old(self).cap() ==> r is Ok && (*final(self))@
                == old(self)@ + elements@,
            old(self)@.len() + elements@.len() > old(self).cap() ==> (r matches Err(e) && e.variant
                == Memory) && *final(self) == *old(self),
            (*final(self)).cap() == old(self).cap(),
    {
        if elements.len() <= self.cap && self.data.len() <= self.cap - elements.len() {
            let n = elements.len();
            for i in 0..n
                invariant
                    n == elements@.len(),
                    old(self).data@.len() + n <= self.cap,
                    self.data@ == old(self).data@ + elements@.take(i as int),
                    self.cap == old(self).cap,
            {
                self.data.push(elements[i]);
                assert(self.data@ =~= old(self).data@ + elements@.take(i + 1));
            }
            assert(self.data@ =~= old(self).data@ + elements@);
            Ok(())
        } else {
            Err(MemoryError::new(Memory))
        }
    }

    /// Inserts a byte at the given index; an index past the end is treated
    /// as an append.  Fails if and only if the buffer is full.
    pub fn insert(&mut self, index: usize, element: u8) -> (r: Result<(), MemoryError>)
        ensures
            old(self)@.len() < old(self).cap() ==> r is Ok && (*final(self))@ == old(self)@.insert(
                if index <= old(self)@.len() {
                    index as int
                } else {
                    old(self)@.len() as int
                },
                element,
            ),
            old(self)@.len() >= old(self).cap() ==> (r matches Err(e) && e.variant == Memory)
                && *final(self) == *old(self),
            (*final(self)).cap() == old(self).cap(),
    {
        let at = if index <= self.data.len() {
            index
        } else {
            self.data.len()
        };
        if self.data.len() < self.cap {
            self.data.insert(at, element);
            Ok(())
        } else {
            Err(MemoryError::new(Memory))
        }
    }
}

/// The byte sequence stored in an optional buffer
pub open spec fn opt_buf_view(b: Option<ByteBuf>) -> Option<Seq<u8>> {
    match b {
        Some(x) => Some(x@),
        None => None,
    }
}

/// The byte sequences stored in a sequence of buffers
pub open spec fn bufs_view(s: Seq<ByteBuf>) -> Seq<Seq<u8>> {
    s.map_values(|b: ByteBuf| b@)
}

/// The byte sequences and QoS bytes stored in a sequence of buffer pairs
pub open spec fn pairs_view(s: Seq<(ByteBuf, u8)>) -> Seq<(Seq<u8>, u8)> {
    s.map_values(|p: (ByteBuf, u8)| (p.0@, p.1))
}

impl Default for ByteBuf {
    /// An empty, unbounded buffer
    fn default() -> (r: Self)
        ensures
            r@ =~= Seq::<u8>::empty(),
            r.cap() == usize::MAX,
    {
        Self { data: Vec::new(), cap: usize::MAX }
    }
}

impl PartialEq for ByteBuf {
    /// Buffers compare by their stored bytes; the capacity bound is a
    /// property of the container, not of the value
    fn eq(&self, other: &Self) -> (r: bool) {
        let r = self.data == other.data;
        proof {
            if r {
                assert(self.data@ =~= other.data@);
            }
        }
        r
    }
}

impl vstd::std_specs::cmp::PartialEqSpecImpl for ByteBuf {
    open spec fn obeys_eq_spec() -> bool {
        true
    }

    open spec fn eq_spec(&self, other: &Self) -> bool {
        self@ == other@
    }
}

impl Eq for ByteBuf {

}

} // verus!
