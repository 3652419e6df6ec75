use crate::encoding::ReadError;
use crate::encoding::Readable;
use crate::input_buffer::InputBuffer;
use crate::output_buffer::{OutputBuffer, ScratchOutput};
use crate::transport_output::TransportOutput;
use vstd::prelude::*;

verus! {

pub const MESSAGE_HEADER_SIZE: usize = 2;

pub const MESSAGE_TRAILER_SIZE: usize = 3;

pub const MESSAGE_LENGTH_MIN: usize = 5;

pub const MESSAGE_LENGTH_MAX: usize = 64;

pub const MESSAGE_VALUE_SYNC: u8 = 0x7E;

pub const MESSAGE_DEST: u8 = 0x10;

pub const MESSAGE_SEQ_MASK: u8 = 0x0F;

/// One step of the CRC16 used on the wire, folding in one byte.
pub open spec fn crc16_step(crc: u16, b: u8) -> u16 {
    let x = b ^ ((crc & 0xFF) as u8);
    let x = x ^ (x << 4u8);
    let x16 = x as u16;
    ((x16 << 8u16) | (crc >> 8u16)) ^ (x16 >> 4u16) ^ (x16 << 3u16)
}

/// The CRC16 of the first `i` bytes of `s`, starting from `0xFFFF`.
pub open spec fn crc16_rec(s: Seq<u8>, i: int) -> u16
    decreases i,
{
    if i <= 0 {
        0xFFFF
    } else {
        crc16_step(crc16_rec(s, i - 1), s[i - 1])
    }
}

/// The CRC16 of a byte string, bit-compatible with the Klipper host.
pub open spec fn crc16_spec(s: Seq<u8>) -> u16 {
    crc16_rec(s, s.len() as int)
}

/// Compute the CRC16 of `buf`.
pub fn crc16(buf: &[u8]) -> (r: u16)
    ensures
        r == crc16_spec(buf@),
{
    let mut crc: u16 = 0xFFFF;
    let mut i: usize = 0;
    while i < buf.len()
        invariant
            0 <= i <= buf@.len(),
            crc == crc16_rec(buf@, i as int),
        decreases buf@.len() - i,
    {
        let b = *vstd::slice::slice_index_get(buf, i);
        let x = b ^ ((crc & 0xFF) as u8);
        let x = x ^ (x << 4u8);
        let x16 = x as u16;
        crc = ((x16 << 8u16) | (crc >> 8u16)) ^ (x16 >> 4u16) ^ (x16 << 3u16);
        i = i + 1;
    }
    crc
}

/// The sequence byte expected after accepting a frame with sequence byte
/// `seq`: the 4-bit counter advances by one and the destination nibble is
/// stamped back on.
pub open spec fn next_seq_of(seq: u8) -> u8 {
    (((seq + 1) as u8) & MESSAGE_SEQ_MASK) | MESSAGE_DEST
}

/// A full frame for `body`, carrying sequence byte `seq`: length byte,
/// sequence byte, body, big-endian CRC16 over everything before the
/// trailer, and the trailing sync byte.
pub open spec fn frame_bytes(seq: u8, body: Seq<u8>) -> Seq<u8> {
    let head = seq![((body.len() + MESSAGE_LENGTH_MIN) as u8), seq] + body;
    let crc = crc16_spec(head);
    head + seq![((crc >> 8u16) & 0xFF) as u8, (crc & 0xFF) as u8, MESSAGE_VALUE_SYNC]
}

/// What the state machine did with one stretch of input, at the
/// specification level.
pub enum SpecEvent {
    /// An ACK frame was emitted carrying this sequence byte.
    Ack { seq: u8 },
    /// A frame with this body was accepted in sequence and dispatched.
    Frame { body: Seq<u8> },
}

/// What the state machine did with one stretch of input.
pub enum ReceiveEvent {
    /// An ACK frame was emitted carrying this sequence byte.
    Ack { seq: u8 },
    /// A frame with this body was accepted in sequence and dispatched.
    Frame { body: Vec<u8> },
}

impl View for ReceiveEvent {
    type V = SpecEvent;

    open spec fn view(&self) -> SpecEvent {
        match self {
            ReceiveEvent::Ack { seq } => SpecEvent::Ack { seq: *seq },
            ReceiveEvent::Frame { body } => SpecEvent::Frame { body: body@ },
        }
    }
}

/// The views of a list of receive events.
pub open spec fn events_view(events: Seq<ReceiveEvent>) -> Seq<SpecEvent> {
    events.map_values(|e: ReceiveEvent| e@)
}

/// Whether an event list contains an accepted frame.
pub open spec fn spec_events_have_frame(events: Seq<SpecEvent>) -> bool {
    exists|k: int| 0 <= k < events.len() && events[k] is Frame
}

/// Replies and outputs queued by command handlers while a frame body is
/// dispatched.
///
/// The generated senders append encoded bodies here; after the body's
/// dispatch, `receive` frames every queued body with the current
/// sequence byte and hands it to the transport output, before the
/// frame's ACK.
pub struct ReplyQueue {
    bodies: Vec<Vec<u8>>,
}

impl View for ReplyQueue {
    type V = Seq<Seq<u8>>;

    closed spec fn view(&self) -> Seq<Seq<u8>> {
        self.bodies@.map_values(|b: Vec<u8>| b@)
    }
}

impl ReplyQueue {
    /// An empty queue.
    pub fn new() -> (r: ReplyQueue)
        ensures
            r@ == Seq::<Seq<u8>>::empty(),
    {
        let r = ReplyQueue { bodies: Vec::new() };
        proof {
            assert(r@ =~= Seq::<Seq<u8>>::empty());
        }
        r
    }

    /// Queue one encoded message body — a command ID and its encoded
    /// arguments — for transmission.
    pub fn push_body(&mut self, body: &[u8])
        ensures
            final(self)@ == old(self)@.push(body@),
    {
        self.bodies.push(vstd::slice::slice_to_vec(body));
        proof {
            assert(self@ =~= old(self)@.push(body@));
        }
    }

    /// The number of queued bodies.
    pub fn len(&self) -> (r: usize)
        ensures
            r == self@.len(),
    {
        self.bodies.len()
    }

    /// The queued body at position `i`.
    pub fn body_at(&self, i: usize) -> (r: &[u8])
        requires
            i < self@.len(),
        ensures
            r@ == self@[i as int],
    {
        self.bodies[i].as_slice()
    }

    /// Drop every queued body.
    pub fn clear(&mut self)
        ensures
            final(self)@ == Seq::<Seq<u8>>::empty(),
    {
        self.bodies.clear();
        proof {
            assert(self@ =~= Seq::<Seq<u8>>::empty());
        }
    }
}

/// Outcome of running the frame state machine over an input: the final
/// synchronization state and expected sequence, how many input bytes were
/// consumed, and the ACKs and accepted bodies, in order.
pub struct MachineResult {
    pub synced: bool,
    pub seq: u8,
    pub consumed: int,
    pub events: Seq<SpecEvent>,
}

/// The frame state machine, run over `s` from position `i` in the given
/// state, mirroring one `receive` call: resynchronization by sync-byte
/// scan, header and trailer validation, CRC check, sequence tracking, and
/// one ACK after every resynchronization and every accepted frame.
pub open spec fn machine(synced: bool, seq: u8, s: Seq<u8>, i: int) -> MachineResult
    decreases s.len() - i, (if synced {
        1int
    } else {
        0int
    }),
{
    if i < 0 || i >= s.len() {
        MachineResult { synced, seq, consumed: i, events: Seq::empty() }
    } else if !synced {
        if s[i] == MESSAGE_VALUE_SYNC {
            let m = machine(true, seq, s, i + 1);
            MachineResult {
                synced: m.synced,
                seq: m.seq,
                consumed: m.consumed,
                events: seq![SpecEvent::Ack { seq }] + m.events,
            }
        } else {
            machine(false, seq, s, i + 1)
        }
    } else if s[i] == MESSAGE_VALUE_SYNC {
        machine(true, seq, s, i + 1)
    } else if s.len() - i < MESSAGE_LENGTH_MIN {
        MachineResult { synced, seq, consumed: i, events: Seq::empty() }
    } else if s[i] < MESSAGE_LENGTH_MIN as u8 || s[i] > MESSAGE_LENGTH_MAX as u8 {
        machine(false, seq, s, i)
    } else if s[i + 1] & 0xF0 != MESSAGE_DEST {
        machine(false, seq, s, i)
    } else if s.len() - i < s[i] as int {
        MachineResult { synced, seq, consumed: i, events: Seq::empty() }
    } else if s[i + (s[i] as int) - 1] != MESSAGE_VALUE_SYNC {
        machine(false, seq, s, i)
    } else if crc16_spec(s.subrange(i, i + (s[i] as int) - 3)) != ((s[i + (s[i] as int) - 3]
        as u16) << 8u16) | (s[i + (s[i] as int) - 2] as u16) {
        machine(false, seq, s, i)
    } else {
        let body = s.subrange(i + 2, i + (s[i] as int) - 3);
        if s[i + 1] == seq {
            let ns = next_seq_of(seq);
            let m = machine(true, ns, s, i + (s[i] as int));
            MachineResult {
                synced: m.synced,
                seq: m.seq,
                consumed: m.consumed,
                events: seq![SpecEvent::Frame { body }, SpecEvent::Ack { seq: ns }] + m.events,
            }
        } else {
            let m = machine(true, seq, s, i + (s[i] as int));
            MachineResult {
                synced: m.synced,
                seq: m.seq,
                consumed: m.consumed,
                events: seq![SpecEvent::Ack { seq }] + m.events,
            }
        }
    }
}

/// The machine never consumes more input than there is, and never less
/// than where it started.
pub proof fn lemma_machine_consumed(synced: bool, seq: u8, s: Seq<u8>, i: int)
    requires
        0 <= i <= s.len(),
    ensures
        i <= machine(synced, seq, s, i).consumed <= s.len(),
    decreases s.len() - i, (if synced {
        1int
    } else {
        0int
    }),
{
    if i >= s.len() {
    } else if !synced {
        if s[i] == MESSAGE_VALUE_SYNC {
            lemma_machine_consumed(true, seq, s, i + 1);
        } else {
            lemma_machine_consumed(false, seq, s, i + 1);
        }
    } else if s[i] == MESSAGE_VALUE_SYNC {
        lemma_machine_consumed(true, seq, s, i + 1);
    } else if s.len() - i < MESSAGE_LENGTH_MIN {
    } else if s[i] < MESSAGE_LENGTH_MIN as u8 || s[i] > MESSAGE_LENGTH_MAX as u8 {
        lemma_machine_consumed(false, seq, s, i);
    } else if s[i + 1] & 0xF0 != MESSAGE_DEST {
        lemma_machine_consumed(false, seq, s, i);
    } else if s.len() - i < s[i] as int {
    } else if s[i + (s[i] as int) - 1] != MESSAGE_VALUE_SYNC {
        lemma_machine_consumed(false, seq, s, i);
    } else if crc16_spec(s.subrange(i, i + (s[i] as int) - 3)) != ((s[i + (s[i] as int) - 3]
        as u16) << 8u16) | (s[i + (s[i] as int) - 2] as u16) {
        lemma_machine_consumed(false, seq, s, i);
    } else {
        if s[i + 1] == seq {
            lemma_machine_consumed(true, next_seq_of(seq), s, i + (s[i] as int));
        } else {
            lemma_machine_consumed(true, seq, s, i + (s[i] as int));
        }
    }
}

/// Law (frame acceptance): in the synchronized state, a well-formed frame
/// at the front of the input — valid length, destination nibble, trailing
/// sync and CRC — is consumed whole.  If it carries the expected sequence
/// byte its body is dispatched, the expected sequence advances by one
/// modulo sixteen within the destination nibble, and one ACK with the new
/// sequence is emitted; any other sequence byte leaves the state unchanged
/// and emits one ACK with the old sequence.
pub proof fn lemma_frame_acceptance(seq: u8, fseq: u8, body: Seq<u8>, rest: Seq<u8>)
    requires
        body.len() + MESSAGE_LENGTH_MIN <= MESSAGE_LENGTH_MAX,
        fseq & 0xF0 == MESSAGE_DEST,
    ensures
        ({
            let s = frame_bytes(fseq, body) + rest;
            let l = body.len() + MESSAGE_LENGTH_MIN;
            let m0 = machine(true, seq, s, 0);
            if fseq == seq {
                let m = machine(true, next_seq_of(seq), s, l as int);
                &&& m0.synced == m.synced
                &&& m0.seq == m.seq
                &&& m0.consumed == m.consumed
                &&& m0.events == seq![
                    SpecEvent::Frame { body },
                    SpecEvent::Ack { seq: next_seq_of(seq) },
                ] + m.events
            } else {
                let m = machine(true, seq, s, l as int);
                &&& m0.synced == m.synced
                &&& m0.seq == m.seq
                &&& m0.consumed == m.consumed
                &&& m0.events == seq![SpecEvent::Ack { seq }] + m.events
            }
        }),
{
    let f = frame_bytes(fseq, body);
    let s = f + rest;
    let l = (body.len() + MESSAGE_LENGTH_MIN) as int;
    let head = seq![((body.len() + MESSAGE_LENGTH_MIN) as u8), fseq] + body;
    let crc = crc16_spec(head);
    assert(f.len() == l);
    assert(s[0] == (body.len() + MESSAGE_LENGTH_MIN) as u8);
    assert(s[0] as int == l);
    assert(s[1] == fseq);
    assert(s[l - 1] == MESSAGE_VALUE_SYNC);
    assert(s[l - 3] == ((crc >> 8u16) & 0xFF) as u8);
    assert(s[l - 2] == (crc & 0xFF) as u8);
    assert(s.subrange(0, l - 3) =~= head);
    assert((((((crc >> 8u16) & 0xFF) as u8) as u16) << 8u16) | (((crc & 0xFF) as u8) as u16)
        == crc) by (bit_vector);
    assert(s.subrange(2, l - 3) =~= body);
}

/// Law (resynchronization): from the unsynchronized state, any stretch of
/// bytes free of the sync byte is skipped; at the first sync byte the
/// framer synchronizes again, emits exactly one ACK reflecting the
/// unchanged expected sequence, and goes on with what follows.
pub proof fn lemma_resynchronization(seq: u8, garbage: Seq<u8>, rest: Seq<u8>)
    requires
        forall|k: int| 0 <= k < garbage.len() ==> garbage[k] != MESSAGE_VALUE_SYNC,
    ensures
        ({
            let s = garbage + seq![MESSAGE_VALUE_SYNC] + rest;
            let m0 = machine(false, seq, s, 0);
            let m = machine(true, seq, s, garbage.len() as int + 1);
            &&& m0.synced == m.synced
            &&& m0.seq == m.seq
            &&& m0.consumed == m.consumed
            &&& m0.events == seq![SpecEvent::Ack { seq }] + m.events
        }),
{
    let s = garbage + seq![MESSAGE_VALUE_SYNC] + rest;
    assert(s[garbage.len() as int] == MESSAGE_VALUE_SYNC);
    assert(forall|k: int| 0 <= k < garbage.len() ==> s[k] == garbage[k]);
    lemma_resync_rec(seq, s, 0, garbage.len() as int);
}

proof fn lemma_resync_rec(seq: u8, s: Seq<u8>, i: int, j: int)
    requires
        0 <= i <= j < s.len(),
        s[j] == MESSAGE_VALUE_SYNC,
        forall|k: int| i <= k < j ==> s[k] != MESSAGE_VALUE_SYNC,
    ensures
        ({
            let m0 = machine(false, seq, s, i);
            let m = machine(true, seq, s, j + 1);
            &&& m0.synced == m.synced
            &&& m0.seq == m.seq
            &&& m0.consumed == m.consumed
            &&& m0.events == seq![SpecEvent::Ack { seq }] + m.events
        }),
    decreases j - i,
{
    if i < j {
        lemma_resync_rec(seq, s, i + 1, j);
    }
}

proof fn lemma_events_view_push(events: Seq<ReceiveEvent>, e: ReceiveEvent)
    ensures
        events_view(events.push(e)) == events_view(events).push(e@),
{
    assert(events_view(events.push(e)) =~= events_view(events).push(e@));
}

proof fn lemma_have_frame_push(events: Seq<ReceiveEvent>, e: ReceiveEvent)
    ensures
        spec_events_have_frame(events_view(events)) ==> spec_events_have_frame(
            events_view(events.push(e)),
        ),
        e@ is Frame ==> spec_events_have_frame(events_view(events.push(e))),
{
    lemma_events_view_push(events, e);
    if spec_events_have_frame(events_view(events)) {
        let k = choose|k: int|
            0 <= k < events_view(events).len() && events_view(events)[k] is Frame;
        assert(events_view(events.push(e))[k] is Frame);
    }
    if e@ is Frame {
        assert(events_view(events.push(e))[events.len() as int] is Frame);
    }
}

/// Configuration binding a transport to its dispatch table.
///
/// The generated dispatcher implements this trait: `dispatch` looks up the
/// command ID and invokes the handler, which decodes its declared arguments
/// from the same body slice.
pub trait Config {
    /// The byte sink that outgoing frames are written to.
    type TransportOutput: TransportOutput;

    /// The context value passed through to command handlers.
    type Context;

    /// Dispatch one command: `cmd` was decoded from the front of the body,
    /// and `frame` holds the not-yet-decoded remainder, from which the
    /// handler reads its arguments.  A handler only consumes input; the
    /// replies it wants sent go into `replies`.
    fn dispatch(
        cmd: u16,
        frame: &mut &[u8],
        replies: &mut ReplyQueue,
        context: &mut Self::Context,
    ) -> (r: Result<(), ReadError>)
        ensures
            final(frame)@.len() <= old(frame)@.len(),
    ;
}

/// Protocol transport: the frame state machine plus the output sink.
pub struct Transport<C: Config> {
    synced: bool,
    next_seq: u8,
    output: C::TransportOutput,
}

impl<C: Config> Transport<C> {
    /// Whether the framer is synchronized.
    pub closed spec fn sync_state(&self) -> bool {
        self.synced
    }

    /// The sequence byte the framer expects next.
    pub closed spec fn seq_state(&self) -> u8 {
        self.next_seq
    }

    /// Create a transport that writes outgoing frames to `output`.
    ///
    /// The framer starts out synchronized, expecting the first sequence
    /// counter value.
    pub fn new(output: C::TransportOutput) -> (r: Self)
        ensures
            r.sync_state() == true,
            r.seq_state() == MESSAGE_DEST,
            r.sink() == output,
    {
        Self { synced: true, next_seq: MESSAGE_DEST, output }
    }

    /// Whether the framer is synchronized.
    pub fn is_synchronized(&self) -> (r: bool)
        ensures
            r == self.sync_state(),
    {
        self.synced
    }

    /// The sequence byte the framer expects next.
    pub fn next_sequence(&self) -> (r: u8)
        ensures
            r == self.seq_state(),
    {
        self.next_seq
    }

    /// The transport's output sink.
    pub closed spec fn sink(&self) -> C::TransportOutput {
        self.output
    }

    /// Take the transport apart, returning its output sink.
    pub fn into_output(self) -> (r: C::TransportOutput)
        ensures
            r == self.sink(),
    {
        self.output
    }

    /// Decode messages from an `InputBuffer`.
    ///
    /// Drives the frame state machine over the buffered bytes: frames are
    /// validated, in-sequence bodies are dispatched through `C::dispatch`,
    /// an ACK is emitted after every accepted frame and every
    /// resynchronization, and everything the machine went past is consumed
    /// from the buffer.  Returns the ACKs emitted and the bodies accepted,
    /// in order, exactly as the machine specification prescribes.
    pub fn receive<I: InputBuffer>(&mut self, input: &mut I, context: &mut C::Context) -> (events:
        Vec<ReceiveEvent>)
        ensures
            ({
                let m = machine(
                    old(self).sync_state(),
                    old(self).seq_state(),
                    old(input).contents(),
                    0,
                );
                &&& final(self).sync_state() == m.synced
                &&& final(self).seq_state() == m.seq
                &&& final(input).contents() == old(input).contents().skip(m.consumed)
                &&& events_view(events@) == m.events
                &&& !spec_events_have_frame(m.events) ==> *final(context) == *old(context)
            }),
    {
        let ghost sync0 = self.synced;
        let ghost seq0 = self.next_seq;
        let data: &[u8] = input.data();
        let ghost s = data@;
        let len: usize = data.len();
        let mut events: Vec<ReceiveEvent> = Vec::new();
        let mut replies = ReplyQueue::new();
        let mut i: usize = 0;
        proof {
            assert(events_view(events@) =~= Seq::<SpecEvent>::empty());
            assert(events_view(events@) + machine(sync0, seq0, s, 0).events =~= machine(
                sync0,
                seq0,
                s,
                0,
            ).events);
        }
        loop
            invariant
                sync0 == old(self).sync_state(),
                seq0 == old(self).seq_state(),
                s == old(input).contents(),
                data@ == s,
                len == s.len(),
                0 <= i <= len,
                spec_events_have_frame(events_view(events@)) || *context == *old(context),
                ({
                    let m0 = machine(sync0, seq0, s, 0);
                    let m = machine(self.sync_state(), self.seq_state(), s, i as int);
                    &&& m0.synced == m.synced
                    &&& m0.seq == m.seq
                    &&& m0.consumed == m.consumed
                    &&& m0.events == events_view(events@) + m.events
                }),
            ensures
                0 <= i <= len,
                s == old(input).contents(),
                len == s.len(),
                spec_events_have_frame(events_view(events@)) || *context == *old(context),
                ({
                    let m0 = machine(sync0, seq0, s, 0);
                    &&& m0.synced == self.sync_state()
                    &&& m0.seq == self.seq_state()
                    &&& m0.consumed == i as int
                    &&& m0.events == events_view(events@)
                }),
            decreases len - i, (if self.synced {
                1int
            } else {
                0int
            }),
        {
            let ghost m_here = machine(self.sync_state(), self.seq_state(), s, i as int);
            if i >= len {
                proof {
                    assert(m_here.events =~= Seq::<SpecEvent>::empty());
                    assert(events_view(events@) + m_here.events =~= events_view(events@));
                }
                break ;
            }
            if !self.synced {
                let b = *vstd::slice::slice_index_get(data, i);
                if b == MESSAGE_VALUE_SYNC {
                    let q = self.next_seq;
                    self.synced = true;
                    let ghost ev0 = events@;
                    events.push(ReceiveEvent::Ack { seq: q });
                    self.encode_acknak();
                    proof {
                        lemma_have_frame_push(ev0, ReceiveEvent::Ack { seq: q });
                        let m_next = machine(true, q, s, i + 1);
                        lemma_events_view_push(ev0, ReceiveEvent::Ack { seq: q });
                        assert(events_view(events@) + m_next.events =~= (events_view(ev0)
                            + m_here.events));
                    }
                    i = i + 1;
                } else {
                    proof {
                        assert(machine(false, self.seq_state(), s, i as int) == machine(
                            false,
                            self.seq_state(),
                            s,
                            i + 1,
                        ));
                    }
                    i = i + 1;
                }
                continue ;
            }
            let b0 = *vstd::slice::slice_index_get(data, i);
            if b0 == MESSAGE_VALUE_SYNC {
                i = i + 1;
                continue ;
            }
            if len - i < MESSAGE_LENGTH_MIN {
                break ;
            }
            let frame_len = b0 as usize;
            if frame_len < MESSAGE_LENGTH_MIN || frame_len > MESSAGE_LENGTH_MAX {
                self.synced = false;
                continue ;
            }
            let s1 = *vstd::slice::slice_index_get(data, i + 1);
            if s1 & 0xF0 != MESSAGE_DEST {
                self.synced = false;
                continue ;
            }
            if len - i < frame_len {
                break ;
            }
            if *vstd::slice::slice_index_get(data, i + frame_len - 1) != MESSAGE_VALUE_SYNC {
                self.synced = false;
                continue ;
            }
            let crc_hi = *vstd::slice::slice_index_get(data, i + frame_len - 3);
            let crc_lo = *vstd::slice::slice_index_get(data, i + frame_len - 2);
            let frame_crc = ((crc_hi as u16) << 8u16) | (crc_lo as u16);
            let actual_crc = crc16(vstd::slice::slice_subrange(data, i, i + frame_len - 3));
            if frame_crc != actual_crc {
                self.synced = false;
                continue ;
            }
            let body = vstd::slice::slice_subrange(data, i + 2, i + frame_len - 3);
            if s1 == self.next_seq {
                proof {
                    assert(s1 < 0x20) by (bit_vector)
                        requires
                            s1 & 0xF0 == 0x10u8,
                    ;
                }
                let new_seq = ((s1 + 1) & MESSAGE_SEQ_MASK) | MESSAGE_DEST;
                self.next_seq = new_seq;
                let ghost ev0 = events@;
                events.push(ReceiveEvent::Frame { body: vstd::slice::slice_to_vec(body) });
                proof {
                    lemma_have_frame_push(ev0, events@.last());
                    assert(spec_events_have_frame(events_view(events@)));
                }
                let _ = Self::parse_frame(body, &mut replies, context);
                let ghost sy = self.sync_state();
                let ghost sq = self.seq_state();
                let mut qi: usize = 0;
                while qi < replies.len()
                    invariant
                        0 <= qi <= replies@.len(),
                        self.sync_state() == sy,
                        self.seq_state() == sq,
                    decreases replies@.len() - qi,
                {
                    let reply_body = replies.body_at(qi);
                    self.encode_frame(reply_body);
                    qi = qi + 1;
                }
                replies.clear();
                let ghost ev1 = events@;
                events.push(ReceiveEvent::Ack { seq: new_seq });
                self.encode_acknak();
                proof {
                    lemma_have_frame_push(ev1, ReceiveEvent::Ack { seq: new_seq });
                    let m_next = machine(true, new_seq, s, i + frame_len);
                    let ev0 = events@.subrange(0, events@.len() - 2);
                    assert(events@ =~= ev0.push(
                        ReceiveEvent::Frame { body: events@[events@.len() - 2]->Frame_body },
                    ).push(ReceiveEvent::Ack { seq: new_seq }));
                    lemma_events_view_push(
                        ev0,
                        ReceiveEvent::Frame { body: events@[events@.len() - 2]->Frame_body },
                    );
                    lemma_events_view_push(
                        ev0.push(
                            ReceiveEvent::Frame { body: events@[events@.len() - 2]->Frame_body },
                        ),
                        ReceiveEvent::Ack { seq: new_seq },
                    );
                    assert(events_view(events@) + m_next.events =~= events_view(ev0)
                        + m_here.events);
                }
                i = i + frame_len;
            } else {
                let q = self.next_seq;
                let ghost ev0 = events@;
                events.push(ReceiveEvent::Ack { seq: q });
                self.encode_acknak();
                proof {
                    lemma_have_frame_push(ev0, ReceiveEvent::Ack { seq: q });
                    let m_next = machine(true, q, s, i + frame_len);
                    lemma_events_view_push(ev0, ReceiveEvent::Ack { seq: q });
                    assert(events_view(events@) + m_next.events =~= events_view(ev0)
                        + m_here.events);
                }
                i = i + frame_len;
            }
        }
        proof {
            lemma_machine_consumed(sync0, seq0, s, 0);
        }
        input.pop(i);
        events
    }

    /// Decode and dispatch every command unit in one frame body: one
    /// VLQ command ID is decoded per unit and the remaining bytes are
    /// handed to `C::dispatch`, which consumes that unit's arguments.
    /// The first failed decode or dispatch abandons the rest of the
    /// body; the caller drops the error silently and the host's retry
    /// repairs the loss.
    ///
    /// What each unit does to the context and the reply queue is the
    /// dispatcher's business; an empty body, or one whose first command
    /// ID is truncated, provably touches neither.
    fn parse_frame(frame: &[u8], replies: &mut ReplyQueue, context: &mut C::Context) -> (r: Result<
        (),
        ReadError,
    >)
        ensures
            frame@.len() == 0 ==> r is Ok && *final(context) == *old(context) && final(replies)@
                == old(replies)@,
            frame@.len() > 0 && crate::encoding::vlq_decode(frame@) is None ==> r is Err && *final(context) == *old(context) && final(replies)@ == old(replies)@,
    {
        if frame.len() == 0 {
            return Ok(());
        }
        proof {
            crate::encoding::lemma_vlq_decode_bounds(frame@);
        }
        let mut rest: &[u8] = frame;
        let cmd = match <u16 as Readable>::read(&mut rest) {
            Ok(c) => c,
            Err(e) => {
                return Err(e);
            },
        };
        match C::dispatch(cmd, &mut rest, replies, context) {
            Ok(u) => u,
            Err(e) => {
                return Err(e);
            },
        };
        loop
            invariant_except_break
                frame@.len() > 0,
                crate::encoding::vlq_decode(frame@) is Some,
            decreases rest@.len(),
        {
            if rest.len() == 0 {
                return Ok(());
            }
            proof {
                crate::encoding::lemma_vlq_decode_bounds(rest@);
            }
            let cmd = match <u16 as Readable>::read(&mut rest) {
                Ok(c) => c,
                Err(e) => {
                    return Err(e);
                },
            };
            match C::dispatch(cmd, &mut rest, replies, context) {
                Ok(u) => u,
                Err(e) => {
                    return Err(e);
                },
            };
        }
    }

    /// Emit an ACK frame reflecting the current expected sequence.
    fn encode_acknak(&mut self)
        ensures
            final(self).sync_state() == old(self).sync_state(),
            final(self).seq_state() == old(self).seq_state(),
    {
        let ack = ack_frame_bytes(self.next_seq);
        self.output.output(ack.as_slice());
    }

    /// Frame `body` — a command ID and its encoded arguments — with the
    /// current sequence byte and hand it to the transport output.
    pub fn encode_frame(&mut self, body: &[u8])
        ensures
            final(self).sync_state() == old(self).sync_state(),
            final(self).seq_state() == old(self).seq_state(),
    {
        let mut scratch: ScratchOutput<MESSAGE_LENGTH_MAX> = ScratchOutput::new();
        write_message_frame(&mut scratch, self.next_seq, body);
        self.output.output(scratch.result());
    }
}

/// The ACK frame for expected sequence `seq`: a frame with an empty body.
pub fn ack_frame_bytes(seq: u8) -> (r: Vec<u8>)
    ensures
        r@ == frame_bytes(seq, Seq::<u8>::empty()),
{
    let mut v: Vec<u8> = Vec::new();
    v.push(MESSAGE_LENGTH_MIN as u8);
    v.push(seq);
    proof {
        assert(v@ =~= seq![((Seq::<u8>::empty().len() + MESSAGE_LENGTH_MIN) as u8), seq]
            + Seq::<u8>::empty());
    }
    let crc = crc16(v.as_slice());
    proof {
        assert(((crc >> 8u16) & 0xFF) < 256 && (crc & 0xFF) < 256) by (bit_vector);
    }
    v.push(((crc >> 8u16) & 0xFF) as u8);
    v.push((crc & 0xFF) as u8);
    v.push(MESSAGE_VALUE_SYNC);
    proof {
        assert(v@ =~= frame_bytes(seq, Seq::<u8>::empty()));
    }
    v
}

/// Write a full frame for `body` into an output buffer in one forward
/// pass: a placeholder length byte and the sequence byte, then the body,
/// then the length byte is patched through the recorded cursor and the
/// CRC and sync byte are appended.
///
/// When the frame fits the buffer's remaining capacity and the body is
/// short enough for the length byte, the buffer gains exactly the frame.
pub fn write_message_frame<O: OutputBuffer>(out: &mut O, seq: u8, body: &[u8])
    ensures
        final(out).capacity() == old(out).capacity(),
        (old(out).contents().len() + body@.len() + MESSAGE_LENGTH_MIN <= old(out).capacity()
            && body@.len() + MESSAGE_LENGTH_MIN <= MESSAGE_LENGTH_MAX) ==> final(out).contents()
            == old(out).contents() + frame_bytes(seq, body@),
{
    let ghost cap = old(out).capacity();
    let ghost pre = old(out).contents();
    let ghost fits = pre.len() + body@.len() + MESSAGE_LENGTH_MIN <= cap && body@.len()
        + MESSAGE_LENGTH_MIN <= MESSAGE_LENGTH_MAX;
    let cursor = out.cur_position();
    let hdr: [u8; 2] = [0u8, seq];
    out.output(hdr.as_slice());
    out.output(body);
    let since = out.data_since(cursor);
    let changed = since.len();
    let len_byte: u8 = #[verifier::truncate] (changed.wrapping_add(MESSAGE_TRAILER_SIZE) as u8);
    out.update(cursor, len_byte);
    proof {
        if fits {
            assert(out.contents() =~= pre + seq![((body@.len() + MESSAGE_LENGTH_MIN) as u8), seq]
                + body@);
        }
    }
    let crc = crc16(out.data_since(cursor));
    proof {
        assert(((crc >> 8u16) & 0xFF) < 256 && (crc & 0xFF) < 256) by (bit_vector);
        if fits {
            assert(out.contents().skip(cursor as int) =~= seq![
                ((body@.len() + MESSAGE_LENGTH_MIN) as u8),
                seq,
            ] + body@);
        }
    }
    let trailer: [u8; 3] = [((crc >> 8u16) & 0xFF) as u8, (crc & 0xFF) as u8, MESSAGE_VALUE_SYNC];
    out.output(trailer.as_slice());
    proof {
        if fits {
            assert(out.contents() =~= pre + frame_bytes(seq, body@));
        }
    }
}

} // verus!
