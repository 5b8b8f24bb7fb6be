//! Output held back until the whole frame is drawn, then sent at once.

use vstd::prelude::*;

verus! {

/// The bytes written since the screen was last flushed.
pub struct BufferedScreen {
    buffer: Vec<u8>,
}

impl BufferedScreen {
    pub closed spec fn pending_bytes(&self) -> Seq<u8> {
        self.buffer@
    }

    pub fn new() -> (r: Self)
        ensures
            r.pending_bytes() == Seq::<u8>::empty(),
    {
        BufferedScreen { buffer: Vec::new() }
    }

    /// Hold `buf` back; all of it is taken.
    pub fn write(&mut self, buf: &[u8]) -> (n: usize)
        ensures
            n == buf@.len(),
            final(self).pending_bytes() == old(self).pending_bytes() + buf@,
    {
        let mut i: usize = 0;
        while i < buf.len()
            invariant
                0 <= i <= buf@.len(),
                self.buffer@ == old(self).pending_bytes() + buf@.take(i as int),
            decreases buf@.len() - i,
        {
            self.buffer.push(buf[i]);
            assert(buf@.take(i + 1) =~= buf@.take(i as int).push(buf@[i as int]));
            i = i + 1;
        }
        assert(buf@.take(buf@.len() as int) =~= buf@);
        buf.len()
    }

    /// The bytes to send when flushing.
    pub fn pending(&self) -> (r: &[u8])
        ensures
            r@ == self.pending_bytes(),
    {
        self.buffer.as_slice()
    }

    /// Forget the bytes once they are sent.
    pub fn clear(&mut self)
        ensures
            final(self).pending_bytes() == Seq::<u8>::empty(),
    {
        self.buffer.clear();
    }
}

} // verus!
