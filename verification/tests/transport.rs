use anchor::encoding::{ReadError, Readable};
use anchor::fifo_buffer::FifoBuffer;
use anchor::input_buffer::{InputBuffer, SliceInputBuffer};
use anchor::transport::{ack_frame_bytes, crc16, Config, ReceiveEvent, ReplyQueue, Transport};
use anchor::transport_output::TransportOutput;

struct RecordingSink {
    frames: Vec<Vec<u8>>,
}

impl TransportOutput for RecordingSink {
    fn output(&mut self, data: &[u8]) {
        self.frames.push(data.to_vec());
    }
}

struct TestConfig;

impl Config for TestConfig {
    type TransportOutput = RecordingSink;
    type Context = Vec<(u16, u32)>;

    fn dispatch(
        cmd: u16,
        frame: &mut &[u8],
        _replies: &mut ReplyQueue,
        context: &mut Vec<(u16, u32)>,
    ) -> Result<(), ReadError> {
        match cmd {
            1 => {
                let arg = <u32 as Readable>::read(frame)?;
                context.push((1, arg));
                Ok(())
            },
            _ => Err(ReadError),
        }
    }
}

fn new_transport() -> Transport<TestConfig> {
    Transport::new(RecordingSink { frames: Vec::new() })
}

fn build_frame(seq: u8, body: &[u8]) -> Vec<u8> {
    let mut v: Vec<u8> = vec![(body.len() + 5) as u8, seq];
    v.extend_from_slice(body);
    let c = crc16(&v);
    v.push((c >> 8) as u8);
    v.push((c & 0xFF) as u8);
    v.push(0x7E);
    v
}

fn feed(t: &mut Transport<TestConfig>, bytes: &[u8], ctx: &mut Vec<(u16, u32)>) -> Vec<ReceiveEvent> {
    let mut input = SliceInputBuffer::new(bytes);
    t.receive(&mut input, ctx)
}

#[test]
fn crc16_known_value() {
    assert_eq!(crc16(b"123456789"), 0x6F91);
    assert_eq!(crc16(&[0x07, 0x10, 0x01, 0x05]), 0x9FE0);
}

#[test]
fn ack_frame_layout() {
    let ack = ack_frame_bytes(0x11);
    assert_eq!(ack, vec![0x05, 0x11, 0x8F, 0x08, 0x7E]);
}

#[test]
fn good_frame() {
    let mut t = new_transport();
    let mut ctx: Vec<(u16, u32)> = Vec::new();
    let frame = build_frame(0x10, &[0x01, 0x05]);
    assert_eq!(frame[0], 0x07);
    assert_eq!(&frame[..4], &[0x07, 0x10, 0x01, 0x05]);
    let events = feed(&mut t, &frame, &mut ctx);
    // Exactly one dispatched body and one ACK with the advanced sequence.
    assert_eq!(events.len(), 2);
    match &events[0] {
        ReceiveEvent::Frame { body } => assert_eq!(body, &vec![0x01, 0x05]),
        _ => panic!("expected a frame event"),
    }
    match &events[1] {
        ReceiveEvent::Ack { seq } => assert_eq!(*seq, 0x11),
        _ => panic!("expected an ack event"),
    }
    // The handler for command 1 saw argument 5.
    assert_eq!(ctx, vec![(1, 5)]);
    assert_eq!(t.next_sequence(), 0x11);
    assert!(t.is_synchronized());
    // The sink got exactly one ACK frame with the new sequence.
    let sink = t.into_output();
    assert_eq!(sink.frames, vec![ack_frame_bytes(0x11)]);
}

#[test]
fn garbage_before_frame() {
    let mut t = new_transport();
    let mut ctx: Vec<(u16, u32)> = Vec::new();
    let mut bytes: Vec<u8> = vec![0xFF, 0x00, 0x7E];
    bytes.extend_from_slice(&build_frame(0x10, &[0x01, 0x05]));
    let events = feed(&mut t, &bytes, &mut ctx);
    // Desynchronize on the bad length, resynchronize at the sync byte and
    // ACK the old sequence, then accept the frame and ACK again.
    assert_eq!(events.len(), 3);
    match &events[0] {
        ReceiveEvent::Ack { seq } => assert_eq!(*seq, 0x10),
        _ => panic!("expected resynchronization ack"),
    }
    match &events[1] {
        ReceiveEvent::Frame { body } => assert_eq!(body, &vec![0x01, 0x05]),
        _ => panic!("expected a frame event"),
    }
    match &events[2] {
        ReceiveEvent::Ack { seq } => assert_eq!(*seq, 0x11),
        _ => panic!("expected an ack event"),
    }
    assert_eq!(ctx, vec![(1, 5)]);
    let sink = t.into_output();
    assert_eq!(sink.frames, vec![ack_frame_bytes(0x10), ack_frame_bytes(0x11)]);
}

#[test]
fn crc_error() {
    let mut t = new_transport();
    let mut ctx: Vec<(u16, u32)> = Vec::new();
    let mut frame = build_frame(0x10, &[0x01, 0x05]);
    frame[2] ^= 0xFF;
    let events = feed(&mut t, &frame, &mut ctx);
    // No handler call, no sequence advance; the framer desynchronizes,
    // scans to the frame's trailing sync byte and ACKs the unchanged
    // sequence.
    assert_eq!(events.len(), 1);
    match &events[0] {
        ReceiveEvent::Ack { seq } => assert_eq!(*seq, 0x10),
        _ => panic!("expected an ack event"),
    }
    assert!(ctx.is_empty());
    assert_eq!(t.next_sequence(), 0x10);
}

#[test]
fn stale_sequence() {
    let mut t = new_transport();
    let mut ctx: Vec<(u16, u32)> = Vec::new();
    let frame = build_frame(0x10, &[0x01, 0x05]);
    let _ = feed(&mut t, &frame, &mut ctx);
    assert_eq!(ctx.len(), 1);
    // Resend the same frame: the sequence is now stale.
    let events = feed(&mut t, &frame, &mut ctx);
    assert_eq!(events.len(), 1);
    match &events[0] {
        ReceiveEvent::Ack { seq } => assert_eq!(*seq, 0x11),
        _ => panic!("expected an ack event"),
    }
    // The body was not dispatched again.
    assert_eq!(ctx.len(), 1);
    assert_eq!(t.next_sequence(), 0x11);
}

#[test]
fn partial_frame_waits_for_more() {
    let mut t = new_transport();
    let mut ctx: Vec<(u16, u32)> = Vec::new();
    let frame = build_frame(0x10, &[0x01, 0x05]);
    let mut input: Vec<u8> = frame[..4].to_vec();
    {
        let mut buf = SliceInputBuffer::new(&input);
        let events = t.receive(&mut buf, &mut ctx);
        assert!(events.is_empty());
        // Nothing consumed: the framer waits for the whole frame.
        assert_eq!(buf.data().len(), 4);
    }
    input.extend_from_slice(&frame[4..]);
    let events = feed(&mut t, &input, &mut ctx);
    assert_eq!(events.len(), 2);
    assert_eq!(ctx, vec![(1, 5)]);
}

#[test]
fn stray_sync_bytes_tolerated() {
    let mut t = new_transport();
    let mut ctx: Vec<(u16, u32)> = Vec::new();
    let mut bytes: Vec<u8> = vec![0x7E, 0x7E];
    bytes.extend_from_slice(&build_frame(0x10, &[0x01, 0x05]));
    let events = feed(&mut t, &bytes, &mut ctx);
    assert_eq!(events.len(), 2);
    assert_eq!(ctx, vec![(1, 5)]);
}

#[test]
fn sequence_wraparound() {
    let mut t = new_transport();
    let mut ctx: Vec<(u16, u32)> = Vec::new();
    // Sixteen empty frames walk the 4-bit counter all the way around.
    let mut expected: u8 = 0x10;
    for _ in 0..16 {
        let frame = build_frame(expected, &[]);
        let events = feed(&mut t, &frame, &mut ctx);
        expected = ((expected + 1) & 0x0F) | 0x10;
        assert_eq!(events.len(), 2);
        match &events[1] {
            ReceiveEvent::Ack { seq } => assert_eq!(*seq, expected),
            _ => panic!("expected an ack event"),
        }
    }
    // After sixteen frames the counter is back at the start.
    assert_eq!(t.next_sequence(), 0x10);
}

#[test]
fn bad_dest_nibble_desynchronizes() {
    let mut t = new_transport();
    let mut ctx: Vec<(u16, u32)> = Vec::new();
    // A frame whose sequence byte has the wrong destination nibble.
    let frame = build_frame(0x20, &[0x01, 0x05]);
    let events = feed(&mut t, &frame, &mut ctx);
    // The framer rejects it, desynchronizes, and recovers at the
    // trailing sync byte.
    assert_eq!(events.len(), 1);
    assert!(ctx.is_empty());
    assert_eq!(t.next_sequence(), 0x10);
}

#[test]
fn encode_frame_sends_full_frame() {
    let mut t = new_transport();
    t.encode_frame(&[0x42, 0x07]);
    let sink = t.into_output();
    assert_eq!(sink.frames.len(), 1);
    assert_eq!(sink.frames[0], build_frame(0x10, &[0x42, 0x07]));
}

struct FifoConfig;

impl Config for FifoConfig {
    type TransportOutput = FifoBuffer<128>;
    type Context = ();

    fn dispatch(
        _cmd: u16,
        _frame: &mut &[u8],
        _replies: &mut ReplyQueue,
        _context: &mut (),
    ) -> Result<(), ReadError> {
        Ok(())
    }
}

#[test]
fn fifo_sink_accumulates_outgoing_frames() {
    let mut t: Transport<FifoConfig> = Transport::new(FifoBuffer::new());
    t.encode_frame(&[0x01]);
    let fifo = t.into_output();
    assert_eq!(fifo.data(), &[0x06, 0x10, 0x01, 0x6B, 0xF2, 0x7E]);
}

struct ReplyingConfig;

impl Config for ReplyingConfig {
    type TransportOutput = RecordingSink;
    type Context = ();

    fn dispatch(
        cmd: u16,
        _frame: &mut &[u8],
        replies: &mut ReplyQueue,
        _context: &mut (),
    ) -> Result<(), ReadError> {
        if cmd == 2 {
            // A handler that replies immediately with a one-byte body.
            replies.push_body(&[0x42]);
            Ok(())
        } else {
            Err(ReadError)
        }
    }
}

#[test]
fn queued_replies_are_framed_before_the_ack() {
    let mut t: Transport<ReplyingConfig> = Transport::new(RecordingSink { frames: Vec::new() });
    let mut ctx = ();
    let frame = build_frame(0x10, &[0x02]);
    let mut input = SliceInputBuffer::new(&frame);
    let events = t.receive(&mut input, &mut ctx);
    assert_eq!(events.len(), 2);
    let sink = t.into_output();
    // The queued reply goes out framed with the advanced sequence, then
    // the frame's ACK.
    assert_eq!(sink.frames.len(), 2);
    assert_eq!(sink.frames[0], build_frame(0x11, &[0x42]));
    assert_eq!(sink.frames[1], ack_frame_bytes(0x11));
}
