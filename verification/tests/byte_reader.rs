//! Tests for the frame policy of the reader and for how it ends.

use std::collections::VecDeque;
use std::io;
use tungstenite::protocol::frame::coding::CloseCode;
use tungstenite::{Bytes, Error as TungsteniteError};
use ws_bytes::{
    convert_err, ByteReader, CloseFrame, FramePolicy, FrameProjection, Message,
    Poll, ReadStep, StreamEvent, WsError,
};

/// A stream of messages that is known in advance.
#[derive(Debug)]
struct Script {
    events: VecDeque<StreamEvent>,
    /// Whether the stream blocks, rather than ends, after its last event.
    blocks: bool,
    polls: usize,
}

impl Script {
    fn new(events: Vec<StreamEvent>) -> Script {
        Script { events: events.into_iter().collect(), blocks: false, polls: 0 }
    }

    fn poll_next(&mut self) -> StreamEvent {
        self.polls += 1;
        match self.events.pop_front() {
            Some(event) => event,
            None if self.blocks => Poll::Pending,
            None => Poll::Ready(None),
        }
    }
}

fn received(msg: Message) -> StreamEvent {
    Poll::Ready(Some(Ok(msg)))
}

fn message_stream(messages: Vec<Message>) -> Script {
    Script::new(messages.into_iter().map(received).collect())
}

fn poll_read(reader: &mut ByteReader<Script>, buf: &mut [u8]) -> Poll<Result<usize, io::Error>> {
    let mut events = VecDeque::new();
    loop {
        match reader.read_into(buf, &mut events) {
            Some(result) => {
                assert!(events.is_empty());
                return result;
            }
            None => events.push_back(reader.stream_mut().poll_next()),
        }
    }
}

/// Read one more chunk and return how many bytes were read.
fn read_once(reader: &mut ByteReader<Script>, buf: &mut [u8]) -> io::Result<usize> {
    match poll_read(reader, buf) {
        Poll::Ready(result) => result,
        Poll::Pending => panic!("the read blocks"),
    }
}

fn read_all_by(reader: &mut ByteReader<Script>, len: usize) -> io::Result<Vec<u8>> {
    let mut out = Vec::new();
    let mut buf = vec![0u8; len];
    loop {
        let n = read_once(reader, &mut buf)?;
        if n == 0 {
            return Ok(out);
        }
        out.extend_from_slice(&buf[..n]);
    }
}

fn read_all(reader: &mut ByteReader<Script>) -> io::Result<Vec<u8>> {
    read_all_by(reader, 32)
}

#[test]
fn default_policy_hides_control_frames_from_payload() {
    let mut reader = ByteReader::new(message_stream(vec![
        Message::Ping(b"ping-payload".to_vec().into()),
        Message::text("hello "),
        Message::Pong(b"pong-payload".to_vec().into()),
        Message::binary(b"world".to_vec()),
        Message::Close(None),
    ]));

    assert_eq!(reader.frame_policy(), FramePolicy::TextAndBinary);
    assert_eq!(read_all(&mut reader).unwrap(), b"hello world");
}

#[test]
fn close_gives_stable_eof_and_hides_later_messages() {
    let mut reader = ByteReader::new(message_stream(vec![
        Message::binary(b"data".to_vec()),
        Message::Close(None),
        // Must never be observed: the close frame ends the byte stream.
        Message::text("unreachable"),
    ]));

    assert_eq!(read_all(&mut reader).unwrap(), b"data");

    // Every read after the close frame must keep returning the end.
    let mut buf = [0u8; 16];
    for _ in 0..3 {
        assert_eq!(read_once(&mut reader, &mut buf).unwrap(), 0);
    }
    assert_eq!(reader.into_inner().polls, 2);
}

#[test]
fn close_eof_is_stable_even_if_stream_would_block() {
    // After the close frame the underlying stream never produces anything again. Reads must
    // return the end instead of polling it.
    let mut stream = message_stream(vec![Message::binary(b"data".to_vec()), Message::Close(None)]);
    stream.blocks = true;
    let mut reader = ByteReader::new(stream);

    assert_eq!(read_all(&mut reader).unwrap(), b"data");

    let mut buf = [0u8; 16];
    for _ in 0..3 {
        assert_eq!(read_once(&mut reader, &mut buf).unwrap(), 0);
    }
}

#[test]
fn binary_only_policy_skips_text_and_control_frames() {
    let mut reader = ByteReader::with_frame_policy(
        message_stream(vec![
            Message::text("skip me"),
            Message::binary(b"a".to_vec()),
            Message::Ping(b"ping".to_vec().into()),
            Message::text("skip me too"),
            Message::binary(b"b".to_vec()),
            Message::Close(None),
        ]),
        FramePolicy::BinaryOnly,
    );

    assert_eq!(read_all(&mut reader).unwrap(), b"ab");
}

#[test]
fn retain_control_frames_policy_collects_events_in_order() {
    let close = Message::Close(Some(CloseFrame {
        code: CloseCode::Normal.into(),
        reason: "done".into(),
    }));
    let mut reader = ByteReader::with_frame_policy(
        message_stream(vec![
            Message::Ping(b"p1".to_vec().into()),
            Message::text("payload"),
            Message::Pong(b"p2".to_vec().into()),
            close.clone(),
            // Never observed: the stream ends at the close frame.
            Message::binary(b"after-close".to_vec()),
        ]),
        FramePolicy::RetainControlFrames,
    );

    // Control frame payloads (including the close reason) must not leak into the byte stream.
    assert_eq!(read_all(&mut reader).unwrap(), b"payload");

    assert_eq!(reader.next_control_frame(), Some(Message::Ping(b"p1".to_vec().into())));
    assert_eq!(reader.next_control_frame(), Some(Message::Pong(b"p2".to_vec().into())));
    assert_eq!(reader.next_control_frame(), Some(close));
    assert_eq!(reader.next_control_frame(), None);
}

#[test]
fn segmented_reads_never_mix_messages() {
    let mut reader = ByteReader::new(message_stream(vec![
        Message::binary(vec![b'a'; 10]),
        Message::Ping(b"interleaved".to_vec().into()),
        Message::text("bb"),
        Message::binary(b"ccc".to_vec()),
        Message::Close(None),
    ]));

    // Read with a buffer smaller than the first message: every chunk must come from exactly one
    // message, in order, without mixing or losing data.
    let mut chunks = Vec::new();
    let mut buf = [0u8; 4];
    loop {
        let n = read_once(&mut reader, &mut buf).unwrap();
        if n == 0 {
            break;
        }
        chunks.push(buf[..n].to_vec());
    }

    assert_eq!(
        chunks,
        vec![
            b"aaaa".to_vec(),
            b"aaaa".to_vec(),
            b"aa".to_vec(),
            b"bb".to_vec(),
            b"ccc".to_vec(),
        ]
    );
}

#[test]
fn errors_keep_diagnostic_context() {
    let mut reader = ByteReader::new(Script::new(vec![
        received(Message::text("a")),
        Poll::Ready(Some(Err(TungsteniteError::Protocol(
            tungstenite::error::ProtocolError::ResetWithoutClosingHandshake,
        )))),
    ]));

    let mut buf = [0u8; 8];
    assert_eq!(read_once(&mut reader, &mut buf).unwrap(), 1);
    assert_eq!(&buf[..1], b"a");

    let err = read_once(&mut reader, &mut buf).unwrap_err();
    assert_eq!(err.kind(), std::io::ErrorKind::Other);
    let inner = err.into_inner().expect("error must keep its source");
    let ws_err = inner
        .downcast_ref::<TungsteniteError>()
        .expect("inner error must be the original tungstenite error");
    assert!(
        ws_err.to_string().contains("without closing handshake"),
        "unexpected error: {}",
        ws_err
    );
}

fn tokio_read(reader: &mut ByteReader<Script>, buf: &mut [u8]) -> usize {
    let mut buf = tokio::io::ReadBuf::new(buf);
    let mut events = VecDeque::new();
    loop {
        match reader.read_from(buf.remaining(), &mut events) {
            ReadStep::NeedMessage => events.push_back(reader.stream_mut().poll_next()),
            ReadStep::Return(Poll::Ready(Ok(bytes))) => {
                if let Some(ref bytes) = bytes {
                    buf.put_slice(bytes);
                }
                return buf.filled().len();
            }
            ReadStep::Return(result) => panic!("unexpected result: {:?}", result),
        }
    }
}

#[test]
fn tokio_entry_point_matches_futures_io() {
    let mut reader = ByteReader::new(message_stream(vec![
        Message::Ping(b"ping".to_vec().into()),
        Message::binary(b"ab".to_vec()),
        Message::Close(None),
        Message::binary(b"unreachable".to_vec()),
    ]));

    let mut buf = [0u8; 8];
    // A small buffer forces segmentation.
    let n = tokio_read(&mut reader, &mut buf[..1]);
    assert_eq!(n, 1);
    assert_eq!(&buf[..1], b"a");
    let n = tokio_read(&mut reader, &mut buf);
    assert_eq!(n, 1);
    assert_eq!(&buf[..1], b"b");
    // Stable end after the close frame.
    for _ in 0..3 {
        assert_eq!(tokio_read(&mut reader, &mut buf), 0);
    }
}

/// Reads to the end in 7-byte chunks, waiting where the stream has nothing to give yet, and
/// verifies that the end stays stable afterwards.
fn read_in_small_chunks(reader: &mut ByteReader<Script>) -> Vec<u8> {
    let mut out = Vec::new();
    let mut buf = [0u8; 7];
    loop {
        match poll_read(reader, &mut buf) {
            Poll::Pending => {}
            Poll::Ready(n) => {
                let n = n.expect("read failed");
                if n == 0 {
                    break;
                }
                out.extend_from_slice(&buf[..n]);
            }
        }
    }
    for _ in 0..3 {
        assert_eq!(read_once(reader, &mut buf).expect("read failed"), 0);
    }
    out
}

#[test]
fn split_and_unsplit_read_identically() {
    let mut expected = b"hello ".to_vec();
    expected.extend((0..4096u32).map(|i| (i % 251) as u8));

    let messages = || {
        vec![
            Message::text("hello "),
            Message::binary((0..4096u32).map(|i| (i % 251) as u8).collect::<Vec<_>>()),
            Message::Ping(b"control".to_vec().into()),
            Message::Close(None),
        ]
    };

    let unsplit = read_in_small_chunks(&mut ByteReader::new(message_stream(messages())));
    assert_eq!(unsplit, expected);

    // The other half of a connection that was split makes the reader wait now and then.
    let mut events = Vec::new();
    for msg in messages() {
        events.push(Poll::Pending);
        events.push(received(msg));
    }
    let split = read_in_small_chunks(&mut ByteReader::new(Script::new(events)));
    assert_eq!(split, expected);
    assert_eq!(split, unsplit);
}

#[test]
fn default_policy_is_text_and_binary() {
    assert_eq!(FramePolicy::default(), FramePolicy::TextAndBinary);
    assert_eq!(ByteReader::new(()).policy(), FramePolicy::TextAndBinary);
    assert_eq!(FramePolicy::BinaryOnly, FramePolicy::Binary);
    assert_eq!(ByteReader::with_policy((), FramePolicy::All).policy(), FramePolicy::All);
}

#[test]
fn all_policy_gives_control_frame_payloads() {
    let mut reader = ByteReader::with_policy(
        message_stream(vec![
            Message::Ping(b"1".to_vec().into()),
            Message::text("2"),
            Message::Pong(b"3".to_vec().into()),
            Message::binary(b"4".to_vec()),
            Message::Frame(b"5".to_vec().into()),
            Message::Close(Some(CloseFrame { code: 1000, reason: "6".into() })),
        ]),
        FramePolicy::All,
    );
    assert_eq!(read_all(&mut reader).unwrap(), b"12345");
    assert_eq!(reader.next_control_frame(), None);
}

#[test]
fn raw_frames_are_payload_under_every_policy() {
    for policy in [
        FramePolicy::Binary,
        FramePolicy::TextAndBinary,
        FramePolicy::All,
        FramePolicy::RetainControlFrames,
    ] {
        let mut reader = ByteReader::with_policy(
            message_stream(vec![Message::Frame(b"raw".to_vec().into())]),
            policy,
        );
        assert_eq!(read_all(&mut reader).unwrap(), b"raw");
    }
}

#[test]
fn empty_payloads_are_not_mistaken_for_the_end() {
    let mut reader = ByteReader::with_policy(
        message_stream(vec![
            Message::text(""),
            Message::binary(Vec::new()),
            Message::Ping(Bytes::new()),
            Message::Frame(Bytes::new()),
            Message::text("x"),
        ]),
        FramePolicy::All,
    );
    let mut buf = [0u8; 4];
    assert_eq!(read_once(&mut reader, &mut buf).unwrap(), 1);
    assert_eq!(&buf, b"x\0\0\0");
    assert_eq!(read_once(&mut reader, &mut buf).unwrap(), 0);
}

#[test]
fn empty_control_frames_are_retained() {
    let mut reader = ByteReader::with_policy(
        message_stream(vec![Message::Ping(Bytes::new()), Message::Close(None)]),
        FramePolicy::RetainControlFrames,
    );
    assert_eq!(read_all(&mut reader).unwrap(), b"");
    assert_eq!(reader.next_control_frame(), Some(Message::Ping(Bytes::new())));
    assert_eq!(reader.next_control_frame(), Some(Message::Close(None)));
    assert_eq!(reader.next_control_frame(), None);
}

#[test]
fn reads_of_no_bytes_consume_nothing() {
    let mut reader =
        ByteReader::new(message_stream(vec![Message::text("ab"), Message::Close(None)]));
    assert_eq!(read_once(&mut reader, &mut []).unwrap(), 0);
    assert_eq!(reader.stream_mut().polls, 0);
    let mut buf = [0u8; 1];
    assert_eq!(read_once(&mut reader, &mut buf).unwrap(), 1);
    assert_eq!(read_once(&mut reader, &mut []).unwrap(), 0);
    assert_eq!(read_all(&mut reader).unwrap(), b"b");
    // After the end, too, such a read gives an empty chunk and not the end.
    match reader.read_from(0, &mut VecDeque::new()) {
        ReadStep::Return(Poll::Ready(Ok(Some(bytes)))) => assert!(bytes.is_empty()),
        step => panic!("unexpected step: {:?}", step),
    }
}

#[test]
fn policy_changes_spare_the_buffer() {
    let mut reader = ByteReader::new(message_stream(vec![
        Message::text("text"),
        Message::text("gone"),
        Message::binary(b"binary".to_vec()),
    ]));
    let mut buf = [0u8; 2];
    assert_eq!(read_once(&mut reader, &mut buf).unwrap(), 2);
    assert_eq!(&buf, b"te");
    reader.set_policy(FramePolicy::Binary);
    assert_eq!(reader.policy(), FramePolicy::Binary);
    assert_eq!(read_all(&mut reader).unwrap(), b"xtbinary");
}

#[test]
fn retained_frames_outlive_a_policy_change() {
    let mut reader = ByteReader::with_policy(
        message_stream(vec![
            Message::Ping(b"kept".to_vec().into()),
            Message::text("a"),
            Message::Ping(b"skipped".to_vec().into()),
            Message::text("b"),
        ]),
        FramePolicy::RetainControlFrames,
    );
    let mut buf = [0u8; 8];
    assert_eq!(read_once(&mut reader, &mut buf).unwrap(), 1);
    reader.set_policy(FramePolicy::TextAndBinary);
    assert_eq!(read_all(&mut reader).unwrap(), b"b");
    assert_eq!(reader.next_control_frame(), Some(Message::Ping(b"kept".to_vec().into())));
    assert_eq!(reader.next_control_frame(), None);
}

#[test]
fn text_is_read_as_utf8() {
    let mut reader = ByteReader::new(message_stream(vec![Message::text("h\u{e9}\u{1f600}")]));
    assert_eq!(
        read_all(&mut reader).unwrap(),
        vec![0x68, 0xc3, 0xa9, 0xf0, 0x9f, 0x98, 0x80]
    );
}

#[test]
fn read_sizes_do_not_matter() {
    for len in [1, 2, 3, 5, 64] {
        let mut reader = ByteReader::new(message_stream(vec![
            Message::text("one"),
            Message::Ping(b"ping".to_vec().into()),
            Message::binary(b"fourteen bytes".to_vec()),
            Message::Close(None),
        ]));
        assert_eq!(read_all_by(&mut reader, len).unwrap(), b"onefourteen bytes");
    }
}

#[test]
fn reading_goes_on_after_waiting_and_failing() {
    let mut reader = ByteReader::with_policy(
        Script::new(vec![
            received(Message::Ping(b"p".to_vec().into())),
            Poll::Pending,
            received(Message::text("a")),
            Poll::Ready(Some(Err(TungsteniteError::AttackAttempt))),
            received(Message::text("b")),
        ]),
        FramePolicy::RetainControlFrames,
    );
    let mut buf = [7u8; 2];
    assert!(matches!(poll_read(&mut reader, &mut buf), Poll::Pending));
    assert_eq!(buf, [7, 7]);
    assert_eq!(reader.next_control_frame(), Some(Message::Ping(b"p".to_vec().into())));
    assert_eq!(read_once(&mut reader, &mut buf).unwrap(), 1);
    assert!(read_once(&mut reader, &mut buf).is_err());
    assert_eq!(read_once(&mut reader, &mut buf).unwrap(), 1);
    assert_eq!(buf, [b'b', 7]);
    assert_eq!(read_once(&mut reader, &mut buf).unwrap(), 0);
}

#[test]
fn events_are_taken_only_as_needed() {
    let mut reader = ByteReader::new(());
    let mut events: VecDeque<StreamEvent> = VecDeque::new();
    events.push_back(received(Message::Ping(Bytes::new())));
    assert!(matches!(reader.read_from(4, &mut events), ReadStep::NeedMessage));
    assert!(events.is_empty());
    events.push_back(received(Message::text("first")));
    events.push_back(received(Message::text("second")));
    match reader.read_from(4, &mut events) {
        ReadStep::Return(Poll::Ready(Ok(Some(bytes)))) => assert_eq!(&bytes[..], b"firs"),
        step => panic!("unexpected step: {:?}", step),
    }
    match reader.read_from(4, &mut events) {
        ReadStep::Return(Poll::Ready(Ok(Some(bytes)))) => assert_eq!(&bytes[..], b"t"),
        step => panic!("unexpected step: {:?}", step),
    }
    assert_eq!(events.len(), 1);
}

#[test]
fn reads_into_a_buffer_keep_the_rest_of_it() {
    let mut reader = ByteReader::new(());
    let mut events: VecDeque<StreamEvent> = VecDeque::new();
    let mut buf = [9u8; 4];
    assert!(reader.read_into(&mut buf, &mut events).is_none());
    assert_eq!(buf, [9; 4]);
    events.push_back(received(Message::binary(vec![1, 2, 3, 4, 5, 6])));
    events.push_back(Poll::Pending);
    assert!(matches!(reader.read_into(&mut buf, &mut events), Some(Poll::Ready(Ok(4)))));
    assert_eq!(buf, [1, 2, 3, 4]);
    assert!(matches!(reader.read_into(&mut buf, &mut events), Some(Poll::Ready(Ok(2)))));
    assert_eq!(buf, [5, 6, 3, 4]);
    assert!(matches!(reader.read_into(&mut buf, &mut events), Some(Poll::Pending)));
    assert!(matches!(reader.read_into(&mut [], &mut events), Some(Poll::Ready(Ok(0)))));
    events.push_back(Poll::Ready(Some(Err(TungsteniteError::AttackAttempt))));
    assert!(matches!(reader.read_into(&mut buf, &mut events), Some(Poll::Ready(Err(_)))));
    events.push_back(Poll::Ready(None));
    assert!(matches!(reader.read_into(&mut buf, &mut events), Some(Poll::Ready(Ok(0)))));
    assert_eq!(buf, [5, 6, 3, 4]);
}

#[test]
fn a_read_can_be_continued() {
    let script = || {
        vec![
            received(Message::Ping(b"p".to_vec().into())),
            received(Message::text("")),
            received(Message::text("abc")),
        ]
    };
    let mut buf = [0u8; 2];
    let mut at_once = ByteReader::with_policy((), FramePolicy::RetainControlFrames);
    let mut events: VecDeque<StreamEvent> = script().into_iter().collect();
    assert!(matches!(at_once.read_into(&mut buf, &mut events), Some(Poll::Ready(Ok(2)))));
    assert_eq!(&buf, b"ab");

    let mut buf = [0u8; 2];
    let mut one_by_one = ByteReader::with_policy((), FramePolicy::RetainControlFrames);
    let mut events: VecDeque<StreamEvent> = VecDeque::new();
    let mut results = Vec::new();
    for event in script() {
        events.push_back(event);
        results.push(one_by_one.read_into(&mut buf, &mut events));
        assert!(events.is_empty());
    }
    assert!(matches!(results[..], [None, None, Some(Poll::Ready(Ok(2)))]));
    assert_eq!(&buf, b"ab");
    assert_eq!(at_once.next_control_frame(), one_by_one.next_control_frame());
}

#[test]
fn io_errors_pass_through() {
    let io = io::Error::new(io::ErrorKind::ConnectionReset, "gone");
    let err = convert_err(TungsteniteError::Io(io));
    assert_eq!(err.kind(), io::ErrorKind::ConnectionReset);
    assert_eq!(err.to_string(), "gone");

    let err = WsError::Io(io::Error::from(io::ErrorKind::BrokenPipe)).into_io();
    assert_eq!(err.kind(), io::ErrorKind::BrokenPipe);

    let err = WsError::Other(TungsteniteError::ConnectionClosed).into_io();
    assert_eq!(err.kind(), io::ErrorKind::Other);
    assert!(matches!(
        err.into_inner().unwrap().downcast_ref::<TungsteniteError>(),
        Some(TungsteniteError::ConnectionClosed)
    ));
}

#[test]
fn projections() {
    let close = Message::Close(Some(CloseFrame { code: 1001, reason: "away".into() }));
    assert_eq!(
        FramePolicy::RetainControlFrames.project(close.clone()),
        FrameProjection::Close(Some(close.clone()))
    );
    assert_eq!(FramePolicy::All.project(close), FrameProjection::Close(None));
    let ping = || Message::Ping(b"p".to_vec().into());
    assert_eq!(FramePolicy::Binary.project(ping()), FrameProjection::Skip);
    assert_eq!(FramePolicy::TextAndBinary.project(ping()), FrameProjection::Skip);
    assert_eq!(
        FramePolicy::All.project(ping()),
        FrameProjection::Payload(b"p".to_vec().into())
    );
    assert_eq!(
        FramePolicy::RetainControlFrames.project(ping()),
        FrameProjection::Retain(ping())
    );
    assert_eq!(
        FramePolicy::TextAndBinary.project(Message::text("t")),
        FrameProjection::Payload(b"t".to_vec().into())
    );
    assert_eq!(FramePolicy::Binary.project(Message::text("t")), FrameProjection::Skip);
    assert_eq!(FramePolicy::Binary.project(Message::binary(Vec::new())), FrameProjection::Skip);
}

#[test]
fn data_of_messages() {
    assert_eq!(&Message::text("abc").into_data()[..], b"abc");
    assert_eq!(&Message::binary(vec![1, 2]).into_data()[..], &[1, 2]);
    assert_eq!(&Message::Pong(vec![3].into()).into_data()[..], &[3]);
    assert_eq!(&Message::Frame(vec![4].into()).into_data()[..], &[4]);
    assert!(Message::Close(None).into_data().is_empty());
    let close = Message::Close(Some(CloseFrame { code: 1000, reason: "bye".into() }));
    assert_eq!(&close.into_data()[..], b"bye");
}
