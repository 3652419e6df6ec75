use vstd::prelude::*;

verus! {

/// Appending `bytes` to `pre` in a buffer that can hold at most `cap` bytes:
/// whatever fits is kept, the rest is silently dropped.
pub open spec fn trunc_append(pre: Seq<u8>, bytes: Seq<u8>, cap: int) -> Seq<u8> {
    if pre.len() + bytes.len() <= cap {
        pre + bytes
    } else if pre.len() >= cap {
        pre
    } else {
        pre + bytes.take(cap - pre.len())
    }
}

/// Appending two byte strings one after the other truncates exactly like
/// appending their concatenation at once.
pub proof fn lemma_trunc_append_assoc(pre: Seq<u8>, a: Seq<u8>, b: Seq<u8>, cap: int)
    ensures
        trunc_append(trunc_append(pre, a, cap), b, cap) == trunc_append(pre, a + b, cap),
{
    let first = trunc_append(pre, a, cap);
    if pre.len() + a.len() + b.len() <= cap {
        assert(trunc_append(first, b, cap) =~= trunc_append(pre, a + b, cap));
    } else if pre.len() >= cap {
        assert(trunc_append(first, b, cap) =~= trunc_append(pre, a + b, cap));
    } else if pre.len() + a.len() <= cap {
        assert(trunc_append(first, b, cap) =~= trunc_append(pre, a + b, cap));
    } else {
        assert(first == pre + a.take(cap - pre.len()));
        assert(first.len() == cap);
        assert(trunc_append(first, b, cap) =~= trunc_append(pre, a + b, cap));
    }
}

/// Buffer that accepts encoded message bytes.
///
/// Besides plain appending, the buffer supports recording the current
/// position as a cursor, later overwriting the byte at a cursor, and reading
/// back everything appended since a cursor.  These primitives let a frame
/// writer fill in the length byte and the checksum after the body is known
/// while still writing in a single forward pass.
pub trait OutputBuffer {
    /// The bytes committed to the buffer so far.
    spec fn contents(&self) -> Seq<u8>;

    /// The most bytes the buffer can hold.
    spec fn capacity(&self) -> int;

    /// Append bytes; anything beyond the capacity is silently dropped.
    fn output(&mut self, buf: &[u8])
        ensures
            final(self).capacity() == old(self).capacity(),
            final(self).contents() == trunc_append(
                old(self).contents(),
                buf@,
                old(self).capacity(),
            ),
    ;

    /// The cursor for the current end of the buffer.
    fn cur_position(&self) -> (r: usize)
        ensures
            r == self.contents().len(),
    ;

    /// Replace the byte at a cursor position with a new value.
    fn update(&mut self, cursor: usize, value: u8)
        ensures
            final(self).capacity() == old(self).capacity(),
            final(self).contents() == if cursor < old(self).contents().len() {
                old(self).contents().update(cursor as int, value)
            } else {
                old(self).contents()
            },
    ;

    /// All bytes appended at or after the cursor position.
    fn data_since(&self, cursor: usize) -> (r: &[u8])
        ensures
            r@ == if cursor <= self.contents().len() {
                self.contents().skip(cursor as int)
            } else {
                Seq::<u8>::empty()
            },
    ;
}

/// A scratch-pad `OutputBuffer` with a fixed capacity.
///
/// Writes beyond the capacity are silently dropped, mirroring the behaviour
/// of the transmit FIFO: an overfull message is truncated and the peer's
/// checksum handling discards it.
pub struct ScratchOutput<const MAX_SIZE: usize> {
    buffer: Vec<u8>,
}

impl<const MAX_SIZE: usize> ScratchOutput<MAX_SIZE> {
    /// Create a new, empty buffer.
    pub fn new() -> (r: Self)
        ensures
            r.contents() == Seq::<u8>::empty(),
            r.capacity() == MAX_SIZE as int,
    {
        ScratchOutput { buffer: Vec::new() }
    }

    /// The bytes built so far.
    pub fn result(&self) -> (r: &[u8])
        ensures
            r@ == self.contents(),
    {
        self.buffer.as_slice()
    }

    /// Clear the buffer.
    pub fn reset(&mut self)
        ensures
            final(self).contents() == Seq::<u8>::empty(),
            final(self).capacity() == old(self).capacity(),
    {
        self.buffer.clear();
    }
}

impl<const MAX_SIZE: usize> OutputBuffer for ScratchOutput<MAX_SIZE> {
    closed spec fn contents(&self) -> Seq<u8> {
        self.buffer@
    }

    closed spec fn capacity(&self) -> int {
        MAX_SIZE as int
    }

    fn output(&mut self, buf: &[u8]) {
        proof {
            assert(self.buffer@ =~= old(self).buffer@ + buf@.take(0));
        }
        let mut j: usize = 0;
        while self.buffer.len() < MAX_SIZE && j < buf.len()
            invariant
                0 <= j <= buf@.len(),
                self.buffer@ == old(self).buffer@ + buf@.take(j as int),
                j == 0 || old(self).buffer@.len() + j <= MAX_SIZE,
            decreases buf@.len() - j,
        {
            let b = *vstd::slice::slice_index_get(buf, j);
            self.buffer.push(b);
            assert(self.buffer@ =~= old(self).buffer@ + buf@.take(j + 1));
            j = j + 1;
        }
        proof {
            assert(self.buffer@ =~= trunc_append(old(self).buffer@, buf@, MAX_SIZE as int));
        }
    }

    fn cur_position(&self) -> (r: usize) {
        self.buffer.len()
    }

    fn update(&mut self, cursor: usize, value: u8) {
        if cursor < self.buffer.len() {
            self.buffer[cursor] = value;
        }
    }

    fn data_since(&self, cursor: usize) -> (r: &[u8]) {
        if cursor <= self.buffer.len() {
            vstd::slice::slice_subrange(self.buffer.as_slice(), cursor, self.buffer.len())
        } else {
            let n = self.buffer.len();
            vstd::slice::slice_subrange(self.buffer.as_slice(), n, n)
        }
    }
}

} // verus!
