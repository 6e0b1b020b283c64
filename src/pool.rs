//! Scratch buffers reused across columns, and the per-call serializer state
//! that carries them.

use crate::bitmap::zeros;
use vstd::prelude::*;

verus! {

/// The most buffers a pool keeps for reuse; further returns are dropped.
pub const MAX_POOLED_BUFFERS: usize = 16;

/// A pool of byte buffers. A buffer taken with `acquire` belongs to the
/// caller alone until it is handed back with `release`.
pub struct BufferPool {
    free: Vec<Vec<u8>>,
}

impl BufferPool {
    /// The pool keeps at most `MAX_POOLED_BUFFERS` buffers.
    pub closed spec fn wf(&self) -> bool {
        self.free.len() <= MAX_POOLED_BUFFERS
    }

    /// How many buffers wait for reuse.
    pub closed spec fn spare(&self) -> nat {
        self.free.len() as nat
    }

    /// A well-formed pool holds at most `MAX_POOLED_BUFFERS` buffers.
    pub proof fn spare_bound(&self)
        requires
            self.wf(),
        ensures
            self.spare() <= MAX_POOLED_BUFFERS,
    {
    }

    /// An empty pool.
    pub fn new() -> (r: BufferPool)
        ensures
            r.wf(),
            r.spare() == 0,
    {
        BufferPool { free: Vec::new() }
    }

    /// A buffer of `len` zero bytes, reused from the pool where one waits.
    pub fn acquire(&mut self, len: usize) -> (r: Vec<u8>)
        requires
            old(self).wf(),
        ensures
            final(self).wf(),
            r@ == zeros(len as nat),
            old(self).spare() > 0 ==> final(self).spare() == old(self).spare() - 1,
            old(self).spare() == 0 ==> final(self).spare() == 0,
    {
        let mut buf = match self.free.pop() {
            Some(b) => b,
            None => Vec::with_capacity(len),
        };
        buf.clear();
        buf.resize(len, 0u8);
        assert(buf@ =~= zeros(len as nat));
        buf
    }

    /// Hands a buffer back for reuse.
    pub fn release(&mut self, buf: Vec<u8>)
        requires
            old(self).wf(),
        ensures
            final(self).wf(),
            old(self).spare() < MAX_POOLED_BUFFERS ==> final(self).spare() == old(self).spare() + 1,
            old(self).spare() == MAX_POOLED_BUFFERS ==> final(self).spare() == old(self).spare(),
    {
        if self.free.len() < MAX_POOLED_BUFFERS {
            self.free.push(buf);
        }
    }
}

/// State threaded through the serializers of one call. The byte codecs keep
/// no state across values, so it is a token that they leave as it is.
#[derive(Debug, Clone, Copy, PartialEq, Eq)]
pub struct SerializerState {}

impl SerializerState {
    /// A fresh state.
    pub fn new() -> (r: SerializerState) {
        SerializerState {}
    }
}

impl Default for SerializerState {
    fn default() -> (r: SerializerState) {
        SerializerState::new()
    }
}

} // verus!
