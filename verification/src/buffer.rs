//! The byte store a connection reads into.

use vstd::prelude::*;

verus! {

/// An append-only, growable run of bytes whose front can be handed to a new
/// owner.
///
/// Offsets always count from the first byte currently held: once a prefix
/// has been detached, what remains is renumbered from zero.
pub struct ByteBuffer {
    data: Vec<u8>,
}

impl ByteBuffer {
    /// The bytes currently held, in order.
    pub closed spec fn bytes(&self) -> Seq<u8> {
        self.data@
    }

    /// An empty buffer.
    pub fn new() -> (buf: ByteBuffer)
        ensures
            buf.bytes() == Seq::<u8>::empty(),
    {
        ByteBuffer { data: Vec::new() }
    }

    /// A buffer that takes ownership of `data` as its contents.
    pub fn from_vec(data: Vec<u8>) -> (buf: ByteBuffer)
        ensures
            buf.bytes() == data@,
    {
        ByteBuffer { data }
    }

    /// Adds `bytes` behind what is already held.
    pub fn append(&mut self, bytes: &[u8])
        ensures
            final(self).bytes() == old(self).bytes() + bytes@,
    {
        let ghost before = self.data@;
        self.data.extend_from_slice(bytes);
        assert(self.data@ =~= before + bytes@);
    }

    /// How many bytes are held.
    pub fn len(&self) -> (n: usize)
        ensures
            n == self.bytes().len(),
    {
        self.data.len()
    }

    /// The whole current contents, read-only.
    pub fn view(&self) -> (s: &[u8])
        ensures
            s@ == self.bytes(),
    {
        self.data.as_slice()
    }

    /// Removes the first `n` bytes and returns them as a buffer of their own.
    ///
    /// The bytes from `n` onward stay behind, renumbered from zero. Asking
    /// for more than is held is a caller's mistake, ruled out up front, so
    /// the operation has no partial effect.
    pub fn detach_prefix(&mut self, n: usize) -> (head: ByteBuffer)
        requires
            n <= old(self).bytes().len(),
        ensures
            head.bytes() == old(self).bytes().subrange(0, n as int),
            final(self).bytes() == old(self).bytes().subrange(n as int, old(self).bytes().len() as int),
    {
        let mut part = self.data.split_off(n);
        core::mem::swap(&mut self.data, &mut part);
        ByteBuffer { data: part }
    }
}

} // verus!
