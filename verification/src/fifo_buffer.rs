use vstd::prelude::*;

verus! {

/// A simple fixed-capacity FIFO byte buffer.
///
/// Bytes are appended at the back and removed from the front.  An append
/// that would overflow the capacity is dropped entirely, never partially:
/// transports are expected to poll before their FIFO fills.
pub struct FifoBuffer<const BUF_SIZE: usize> {
    buffer: Vec<u8>,
}

impl<const BUF_SIZE: usize> View for FifoBuffer<BUF_SIZE> {
    type V = Seq<u8>;

    closed spec fn view(&self) -> Seq<u8> {
        self.buffer@
    }
}

impl<const BUF_SIZE: usize> FifoBuffer<BUF_SIZE> {
    /// The representation invariant: the buffer never holds more than
    /// its capacity.  Established by `new` and preserved by every
    /// operation.
    pub open spec fn wf(&self) -> bool {
        self@.len() <= BUF_SIZE
    }

    /// Creates a new, empty buffer.
    pub fn new() -> (r: Self)
        ensures
            r@ == Seq::<u8>::empty(),
            r.wf(),
    {
        FifoBuffer { buffer: Vec::new() }
    }

    /// Checks for buffer emptiness.
    pub fn is_empty(&self) -> (r: bool)
        ensures
            r == (self@.len() == 0),
    {
        self.buffer.len() == 0
    }

    /// Returns the number of bytes currently stored.
    pub fn len(&self) -> (r: usize)
        ensures
            r == self@.len(),
    {
        self.buffer.len()
    }

    /// Appends `buf` to the back of the buffer.
    ///
    /// If the bytes do not all fit within the capacity, nothing is appended
    /// and the write is silently dropped.
    pub fn extend(&mut self, buf: &[u8])
        ensures
            final(self)@ == if old(self)@.len() + buf@.len() <= BUF_SIZE {
                old(self)@ + buf@
            } else {
                old(self)@
            },
            old(self).wf() ==> final(self).wf(),
    {
        if buf.len() > BUF_SIZE || self.buffer.len() > BUF_SIZE - buf.len() {
            return;
        }
        self.buffer.extend_from_slice(buf);
    }

    /// Appends as much of the front of `buf` as fits, returning how
    /// many bytes were taken.
    ///
    /// This is the write-tail path for a driver that hands over data in
    /// chunks of its own size: whatever exceeds the remaining capacity
    /// stays with the caller.
    pub fn fill_from(&mut self, buf: &[u8]) -> (taken: usize)
        ensures
            taken == if buf@.len() <= BUF_SIZE - (if old(self)@.len() <= BUF_SIZE {
                old(self)@.len() as int
            } else {
                BUF_SIZE as int
            }) {
                buf@.len() as int
            } else {
                BUF_SIZE - (if old(self)@.len() <= BUF_SIZE {
                    old(self)@.len() as int
                } else {
                    BUF_SIZE as int
                })
            },
            final(self)@ == old(self)@ + buf@.take(taken as int),
            old(self).wf() ==> final(self).wf(),
    {
        let len = self.buffer.len();
        let free = if len >= BUF_SIZE {
            0
        } else {
            BUF_SIZE - len
        };
        let n = if buf.len() <= free {
            buf.len()
        } else {
            free
        };
        let chunk = vstd::slice::slice_subrange(buf, 0, n);
        self.buffer.extend_from_slice(chunk);
        proof {
            assert(self.buffer@ =~= old(self).buffer@ + buf@.take(n as int));
        }
        n
    }

    /// Returns the stored bytes, oldest first.
    pub fn data(&self) -> (r: &[u8])
        ensures
            r@ == self@,
    {
        self.buffer.as_slice()
    }

    /// Removes `n` bytes from the front of the buffer; `n` is clamped to
    /// the number of bytes stored.  Linear in the bytes that remain.
    pub fn pop(&mut self, n: usize)
        ensures
            final(self)@ == old(self)@.skip(
                if n <= old(self)@.len() {
                    n as int
                } else {
                    old(self)@.len() as int
                },
            ),
            old(self).wf() ==> final(self).wf(),
    {
        let len = self.buffer.len();
        let n = if n <= len {
            n
        } else {
            len
        };
        let mut k: usize = n;
        while k < len
            invariant
                n <= k <= len,
                len == old(self).buffer@.len(),
                self.buffer@.len() == len,
                forall|j: int| k - n <= j < len ==> self.buffer@[j] == old(self).buffer@[j],
                forall|j: int| 0 <= j < k - n ==> self.buffer@[j] == old(self).buffer@[n + j],
            decreases len - k,
        {
            let b = self.buffer[k];
            self.buffer[k - n] = b;
            k = k + 1;
        }
        self.buffer.truncate(len - n);
        proof {
            assert(self.buffer@ =~= old(self).buffer@.skip(n as int));
        }
    }
}

} // verus!
