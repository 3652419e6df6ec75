use vstd::prelude::*;

verus! {

/// Buffer that protocol messages can be read from.
pub trait InputBuffer {
    /// The bytes currently held, oldest first.
    spec fn contents(&self) -> Seq<u8>;

    /// Retrieve all current data in the buffer.
    fn data(&self) -> (r: &[u8])
        ensures
            r@ == self.contents(),
    ;

    /// Remove `count` bytes from the front of the buffer; `count` is
    /// clamped to the amount of data held.
    fn pop(&mut self, count: usize)
        ensures
            final(self).contents() == old(self).contents().skip(
                if count <= old(self).contents().len() {
                    count as int
                } else {
                    old(self).contents().len() as int
                },
            ),
    ;

    /// The amount of data currently held.
    fn available(&self) -> (r: usize)
        ensures
            r == self.contents().len(),
    {
        self.data().len()
    }
}

/// An `InputBuffer` backed by a borrowed byte slice.
pub struct SliceInputBuffer<'a> {
    buffer: &'a [u8],
}

impl<'a> SliceInputBuffer<'a> {
    /// Create a new `SliceInputBuffer` over `buffer`.
    pub fn new(buffer: &'a [u8]) -> (r: Self)
        ensures
            r.contents() == buffer@,
    {
        Self { buffer }
    }
}

impl<'a> InputBuffer for SliceInputBuffer<'a> {
    closed spec fn contents(&self) -> Seq<u8> {
        self.buffer@
    }

    fn data(&self) -> (r: &[u8]) {
        self.buffer
    }

    fn pop(&mut self, count: usize) {
        let count = if count <= self.buffer.len() {
            count
        } else {
            self.buffer.len()
        };
        self.buffer = vstd::slice::slice_subrange(self.buffer, count, self.buffer.len());
    }
}

impl InputBuffer for Vec<u8> {
    closed spec fn contents(&self) -> Seq<u8> {
        self@
    }

    fn data(&self) -> (r: &[u8]) {
        self.as_slice()
    }

    fn pop(&mut self, count: usize) {
        let len = self.len();
        let count = if count <= len {
            count
        } else {
            len
        };
        let mut k: usize = count;
        while k < len
            invariant
                count <= k <= len,
                len == old(self)@.len(),
                self@.len() == len,
                forall|j: int| k - count <= j < len ==> self@[j] == old(self)@[j],
                forall|j: int| 0 <= j < k - count ==> self@[j] == old(self)@[count + j],
            decreases len - k,
        {
            let b = self[k];
            self[k - count] = b;
            k = k + 1;
        }
        self.truncate(len - count);
        proof {
            assert(self@ =~= old(self)@.skip(count as int));
        }
    }
}

} // verus!
