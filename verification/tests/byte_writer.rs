//! Tests for writing and closing.

use std::collections::VecDeque;
use tungstenite::Error as TungsteniteError;
use ws_bytes::writer::{convert_poll, write_after_send, write_when_ready, SealedSender, SinkWrite};
use ws_bytes::{ByteReader, ByteWriter, FramePolicy, Message, Poll, ReadStep, State};

/// A sender that records what it was asked to do.
#[derive(Debug, Default)]
struct Recorder {
    sent: Vec<Message>,
    flushes: usize,
    offered: Vec<Option<Message>>,
    /// Whether the sender has no room for the close message.
    full: bool,
    fails: bool,
}

impl SealedSender for Recorder {
    type Waker = u32;

    fn poll_write(&mut self, waker: &u32, buf: &[u8]) -> Poll<Result<usize, TungsteniteError>> {
        assert_eq!(*waker, 7);
        if self.fails {
            return Poll::Ready(Err(TungsteniteError::AlreadyClosed));
        }
        match write_when_ready(Poll::Ready(Ok(())), buf) {
            SinkWrite::Send(msg) => {
                self.sent.push(msg);
                write_after_send(Ok(()), buf)
            }
            SinkWrite::Return(result) => result,
        }
    }

    fn poll_flush(&mut self, _: &u32) -> Poll<Result<(), TungsteniteError>> {
        self.flushes += 1;
        if self.full {
            Poll::Pending
        } else {
            Poll::Ready(Ok(()))
        }
    }

    fn poll_close(
        &mut self,
        _: &u32,
        msg: &mut Option<Message>,
    ) -> Poll<Result<(), TungsteniteError>> {
        self.offered.push(msg.clone());
        if self.full {
            return Poll::Pending;
        }
        self.sent.extend(msg.take());
        Poll::Ready(Ok(()))
    }
}

#[test]
fn every_write_is_a_binary_message() {
    let mut writer = ByteWriter::new(Recorder::default());
    assert!(matches!(writer.poll_write(&7, b"one"), Poll::Ready(Ok(3))));
    assert!(matches!(writer.poll_write(&7, b"two!"), Poll::Ready(Ok(4))));
    assert!(matches!(writer.poll_write(&7, b""), Poll::Ready(Ok(0))));
    assert!(matches!(writer.poll_flush(&7), Poll::Ready(Ok(()))));
    let sender = writer.into_inner();
    assert_eq!(
        sender.sent,
        vec![
            Message::binary(b"one".to_vec()),
            Message::binary(b"two!".to_vec()),
            Message::binary(Vec::new()),
        ]
    );
    assert_eq!(sender.flushes, 1);
}

#[test]
fn the_close_message_is_offered_until_taken() {
    let mut writer = ByteWriter::new(Recorder { full: true, ..Recorder::default() });
    assert!(matches!(writer.poll_close(&7), Poll::Pending));
    assert!(matches!(writer.poll_close(&7), Poll::Pending));
    assert!(matches!(writer.poll_flush(&7), Poll::Pending));
    let mut sender = writer.into_inner();
    assert_eq!(sender.offered, vec![Some(Message::Close(None)), Some(Message::Close(None))]);
    assert!(sender.sent.is_empty());

    sender = Recorder::default();
    let mut writer = ByteWriter::new(sender);
    assert!(matches!(writer.poll_close(&7), Poll::Ready(Ok(()))));
    assert!(matches!(writer.poll_close(&7), Poll::Ready(Ok(()))));
    let sender = writer.into_inner();
    assert_eq!(sender.offered, vec![Some(Message::Close(None)), None]);
    assert_eq!(sender.sent, vec![Message::Close(None)]);
}

#[test]
fn closing_and_shutting_down_agree() {
    for full in [true, false] {
        let mut closing = ByteWriter::new(Recorder { full, ..Recorder::default() });
        let mut shutting = ByteWriter::new(Recorder { full, ..Recorder::default() });
        for _ in 0..2 {
            let closed = closing.poll_close(&7);
            let shut = shutting.poll_shutdown(&7);
            assert_eq!(matches!(closed, Poll::Pending), full);
            assert_eq!(matches!(shut, Poll::Pending), full);
        }
        let (closed, shut) = (closing.into_inner(), shutting.into_inner());
        assert_eq!(closed.offered, shut.offered);
        assert_eq!(closed.sent, shut.sent);
    }
}

#[test]
fn closing_begins_once() {
    let mut state = State::Open;
    assert_eq!(state.close(), &mut Some(Message::Close(None)));
    assert_eq!(state.close().take(), Some(Message::Close(None)));
    assert_eq!(state.close(), &mut None);
    let mut state = State::Closing(Some(Message::text("other")));
    assert_eq!(state.close(), &mut Some(Message::text("other")));
}

#[test]
fn write_errors_are_io_errors() {
    let mut writer = ByteWriter::new(Recorder { fails: true, ..Recorder::default() });
    match writer.poll_write(&7, b"x") {
        Poll::Ready(Err(err)) => {
            assert_eq!(err.kind(), std::io::ErrorKind::Other);
            assert!(matches!(
                err.into_inner().unwrap().downcast_ref::<TungsteniteError>(),
                Some(TungsteniteError::AlreadyClosed)
            ));
        }
        result => panic!("unexpected result: {:?}", result),
    }
    assert!(matches!(convert_poll::<u8>(Poll::Pending), Poll::Pending));
    assert!(matches!(convert_poll(Poll::Ready(Ok(5u8))), Poll::Ready(Ok(5))));
}

#[test]
fn a_sink_that_is_not_ready_gets_nothing() {
    assert!(matches!(write_when_ready(Poll::Pending, b"x"), SinkWrite::Return(Poll::Pending)));
    assert!(matches!(
        write_when_ready(Poll::Ready(Err(TungsteniteError::ConnectionClosed)), b"x"),
        SinkWrite::Return(Poll::Ready(Err(TungsteniteError::ConnectionClosed)))
    ));
    assert!(matches!(
        write_after_send(Err(TungsteniteError::ConnectionClosed), b"x"),
        Poll::Ready(Err(TungsteniteError::ConnectionClosed))
    ));
    assert!(matches!(write_after_send(Ok(()), b"four"), Poll::Ready(Ok(4))));
}

#[test]
fn what_is_written_is_read_back() {
    for policy in [
        FramePolicy::Binary,
        FramePolicy::TextAndBinary,
        FramePolicy::All,
        FramePolicy::RetainControlFrames,
    ] {
        let mut writer = ByteWriter::new(Recorder::default());
        for buf in [&b"first "[..], &b""[..], &b"second"[..]] {
            assert!(matches!(writer.poll_write(&7, buf), Poll::Ready(Ok(n)) if n == buf.len()));
        }
        assert!(matches!(writer.poll_close(&7), Poll::Ready(Ok(()))));
        let mut events: VecDeque<_> =
            writer.into_inner().sent.into_iter().map(|msg| Poll::Ready(Some(Ok(msg)))).collect();

        let mut reader = ByteReader::with_policy((), policy);
        let mut out = Vec::new();
        loop {
            match reader.read_from(4, &mut events) {
                ReadStep::Return(Poll::Ready(Ok(Some(bytes)))) => out.extend_from_slice(&bytes),
                ReadStep::Return(Poll::Ready(Ok(None))) => break,
                step => panic!("unexpected step: {:?}", step),
            }
        }
        assert_eq!(out, b"first second");
    }
}
