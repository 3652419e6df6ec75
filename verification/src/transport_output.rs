use crate::fifo_buffer::FifoBuffer;
use vstd::prelude::*;

verus! {

/// Byte sink for outgoing frames.
///
/// The transport hands every finished frame — replies, outputs and ACKs —
/// to this sink.  Implementations own the actual byte egress (a FIFO
/// drained by a driver, a file descriptor, a USB endpoint) and any mutual
/// exclusion around it; the transport makes no assumption about what
/// happens to the bytes.
pub trait TransportOutput {
    /// Accept one finished frame for transmission.
    fn output(&mut self, data: &[u8]);
}

impl<const BUF_SIZE: usize> TransportOutput for FifoBuffer<BUF_SIZE> {
    fn output(&mut self, data: &[u8]) {
        self.extend(data);
    }
}

} // verus!
