//! Memory management: owned byte buffers.

use vstd::prelude::*;
use vstd::slice::slice_to_vec;
use crate::error::Result;

verus! {

/// A safe wrapper around a byte buffer.
#[derive(Debug)]
pub struct Buffer {
    data: Vec<u8>,
}

impl View for Buffer {
    type V = Seq<u8>;

    closed spec fn view(&self) -> Seq<u8> {
        self.data@
    }
}

/// `v` cut or grown with zero bytes to length `n`.
pub open spec fn resized(v: Seq<u8>, n: nat) -> Seq<u8> {
    if n <= v.len() {
        v.subrange(0, n as int)
    } else {
        v + Seq::new((n - v.len()) as nat, |i: int| 0u8)
    }
}

/// Resizing gives exactly the asked length, keeps every byte that stays in
/// range, and fills the new bytes with zeros; so growing and then cutting back
/// to the old length gives the old data back.
pub proof fn lemma_resized(v: Seq<u8>, n: nat)
    ensures
        resized(v, n).len() == n,
        forall|i: int| 0 <= i < n && i < v.len() ==> #[trigger] resized(v, n)[i] == v[i],
        forall|i: int| v.len() <= i < n ==> #[trigger] resized(v, n)[i] == 0,
        n >= v.len() ==> resized(resized(v, n), v.len()) == v,
{
    if n >= v.len() {
        assert(resized(resized(v, n), v.len()) =~= v);
    }
}

impl Buffer {
    /// Create a new empty buffer.
    pub fn new() -> (r: Self)
        ensures
            r@ == Seq::<u8>::empty(),
    {
        Self { data: Vec::new() }
    }

    /// Create a new empty buffer with room for `capacity` bytes.
    pub fn with_capacity(capacity: usize) -> (r: Self)
        ensures
            r@ == Seq::<u8>::empty(),
    {
        Self { data: Vec::with_capacity(capacity) }
    }

    /// Create a new buffer holding a copy of the given data.
    pub fn from_slice(data: &[u8]) -> (r: Self)
        ensures
            r@ == data@,
    {
        Self { data: slice_to_vec(data) }
    }

    /// Resize the buffer to the given size: cut, or grown with zero bytes.
    pub fn resize(&mut self, new_size: usize) -> (r: Result<()>)
        ensures
            r is Ok,
            final(self)@ == resized(old(self)@, new_size as nat),
    {
        if new_size <= self.data.len() {
            self.data.truncate(new_size);
        } else {
            let ghost start = self.data@;
            while self.data.len() < new_size
                invariant
                    start.len() <= self.data@.len() <= new_size,
                    self.data@ == start + Seq::new((self.data@.len() - start.len()) as nat, |i: int| 0u8),
                decreases new_size - self.data.len(),
            {
                self.data.push(0);
                assert(self.data@ =~= start + Seq::new((self.data@.len() - start.len()) as nat, |i: int| 0u8));
            }
        }
        Ok(())
    }

    /// Get a reference to the underlying data.
    pub fn as_slice(&self) -> (r: &[u8])
        ensures
            r@ == self@,
    {
        self.data.as_slice()
    }

    /// Get a mutable reference to the underlying data.
    pub fn as_mut_slice(&mut self) -> (r: &mut [u8])
        ensures
            r@ == old(self)@,
            final(r)@ == final(self)@,
    {
        self.data.as_mut_slice()
    }

    /// Get the length of the buffer.
    pub fn len(&self) -> (r: usize)
        ensures
            r == self@.len(),
    {
        self.data.len()
    }

    /// Check if the buffer is empty.
    pub fn is_empty(&self) -> (r: bool)
        ensures
            r == (self@.len() == 0),
    {
        self.data.len() == 0
    }

    /// Clear the buffer.
    pub fn clear(&mut self)
        ensures
            final(self)@ == Seq::<u8>::empty(),
    {
        self.data.clear();
    }
}

impl Default for Buffer {
    fn default() -> (r: Self)
        ensures
            r@ == Seq::<u8>::empty(),
    {
        Self::new()
    }
}

impl core::ops::Deref for Buffer {
    type Target = [u8];

    fn deref(&self) -> (r: &[u8])
        ensures
            r@ == self@,
    {
        self.data.as_slice()
    }
}

impl core::ops::DerefMut for Buffer {
    fn deref_mut(&mut self) -> (r: &mut [u8])
        ensures
            r@ == old(self)@,
            final(r)@ == final(self)@,
    {
        self.data.as_mut_slice()
    }
}

/// A safe equivalent to avifRWData.
#[derive(Debug)]
pub struct RwData {
    buffer: Buffer,
}

impl View for RwData {
    type V = Seq<u8>;

    closed spec fn view(&self) -> Seq<u8> {
        self.buffer@
    }
}

impl RwData {
    /// Create a new empty RwData.
    pub fn new() -> (r: Self)
        ensures
            r@ == Seq::<u8>::empty(),
    {
        Self { buffer: Buffer::new() }
    }

    /// Create a new empty RwData with room for `capacity` bytes.
    pub fn with_capacity(capacity: usize) -> (r: Self)
        ensures
            r@ == Seq::<u8>::empty(),
    {
        Self { buffer: Buffer::with_capacity(capacity) }
    }

    /// Create a new RwData holding a copy of the given data.
    pub fn from_slice(data: &[u8]) -> (r: Self)
        ensures
            r@ == data@,
    {
        Self { buffer: Buffer::from_slice(data) }
    }

    /// Resize the RwData to the given size: cut, or grown with zero bytes.
    pub fn resize(&mut self, new_size: usize) -> (r: Result<()>)
        ensures
            r is Ok,
            final(self)@ == resized(old(self)@, new_size as nat),
    {
        self.buffer.resize(new_size)
    }

    /// Get a reference to the underlying data.
    pub fn as_slice(&self) -> (r: &[u8])
        ensures
            r@ == self@,
    {
        self.buffer.as_slice()
    }

    /// Get a mutable reference to the underlying data.
    pub fn as_mut_slice(&mut self) -> (r: &mut [u8])
        ensures
            r@ == old(self)@,
            final(r)@ == final(self)@,
    {
        self.buffer.as_mut_slice()
    }

    /// Get the length of the RwData.
    pub fn len(&self) -> (r: usize)
        ensures
            r == self@.len(),
    {
        self.buffer.len()
    }

    /// Check if the RwData is empty.
    pub fn is_empty(&self) -> (r: bool)
        ensures
            r == (self@.len() == 0),
    {
        self.buffer.is_empty()
    }

    /// Clear the RwData.
    pub fn clear(&mut self)
        ensures
            final(self)@ == Seq::<u8>::empty(),
    {
        self.buffer.clear();
    }
}

impl Default for RwData {
    fn default() -> (r: Self)
        ensures
            r@ == Seq::<u8>::empty(),
    {
        Self::new()
    }
}

impl core::ops::Deref for RwData {
    type Target = [u8];

    fn deref(&self) -> (r: &[u8])
        ensures
            r@ == self@,
    {
        self.buffer.as_slice()
    }
}

impl core::ops::DerefMut for RwData {
    fn deref_mut(&mut self) -> (r: &mut [u8])
        ensures
            r@ == old(self)@,
            final(r)@ == final(self)@,
    {
        self.buffer.as_mut_slice()
    }
}

} // verus!
