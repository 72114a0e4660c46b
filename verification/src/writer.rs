//! Writing bytes as messages.

use crate::error::{convert_err, inner_error, io_cause, is_kind_other, reported_as};
use crate::message::Message;
use crate::payload::contents;
use crate::poll::Poll;
use std::io;
use vstd::pervasive::unreached;
use vstd::prelude::*;
use vstd::slice::slice_to_vec;

verus! {

/// The operations of a sender.
///
/// What an operation did is described by a relation of the sender's own, between the sender
/// before the call, the arguments, the sender after the call and the result. A sender that
/// does not define one leaves open what the operation does.
pub trait SealedSender: Sized {
    /// What wakes the task that polls the sender.
    type Waker;

    /// Whether writing `buf` may turn `before` into `after` and give `r`.
    open spec fn written(
        before: Self,
        waker: Self::Waker,
        buf: Seq<u8>,
        after: Self,
        r: Poll<Result<usize, tungstenite::Error>>,
    ) -> bool {
        true
    }

    /// Whether flushing may turn `before` into `after` and give `r`.
    open spec fn flushed(
        before: Self,
        waker: Self::Waker,
        after: Self,
        r: Poll<Result<(), tungstenite::Error>>,
    ) -> bool {
        true
    }

    /// Whether closing may turn `before` into `after`, leave `left` of the message `msg` that
    /// is to be sent, and give `r`.
    open spec fn closed_down(
        before: Self,
        waker: Self::Waker,
        msg: Option<Message>,
        after: Self,
        left: Option<Message>,
        r: Poll<Result<(), tungstenite::Error>>,
    ) -> bool {
        true
    }

    /// Sends bytes as a message and tells how many it sent.
    fn poll_write(&mut self, waker: &Self::Waker, buf: &[u8]) -> (r: Poll<
        Result<usize, tungstenite::Error>,
    >)
        ensures
            Self::written(*old(self), *waker, buf@, *final(self), r),
    ;

    /// Sends on what is held back.
    fn poll_flush(&mut self, waker: &Self::Waker) -> (r: Poll<Result<(), tungstenite::Error>>)
        ensures
            Self::flushed(*old(self), *waker, *final(self), r),
    ;

    /// Closes the connection. The sender takes the message out of `msg` when it sends it.
    fn poll_close(&mut self, waker: &Self::Waker, msg: &mut Option<Message>) -> (r: Poll<
        Result<(), tungstenite::Error>,
    >)
        ensures
            Self::closed_down(*old(self), *waker, *old(msg), *final(self), *final(msg), r),
    ;
}

/// Sends bytes as WebSocket messages.
pub trait Sender: SealedSender {

}

impl<S: SealedSender> Sender for S {

}

/// How far closing has come.
#[derive(Debug)]
pub enum State {
    /// Closing has not begun.
    Open,
    /// Closing has begun; the close message is here until the sender takes it.
    Closing(Option<Message>),
}

impl State {
    /// The close message that is still to be sent: a fresh one where closing has not begun.
    pub open spec fn close_message(self) -> Option<Message> {
        match self {
            State::Open => Some(Message::Close(None)),
            State::Closing(msg) => msg,
        }
    }

    /// Begins closing where it has not begun, and gives access to the close message.
    pub fn close(&mut self) -> (msg: &mut Option<Message>)
        ensures
            *msg == old(self).close_message(),
            *msg == match *old(self) {
                State::Open => Some(Message::Close(None)),
                State::Closing(left) => left,
            },
            *final(self) == State::Closing(*final(msg)),
    {
        if let State::Open = self {
            *self = State::Closing(Some(Message::Close(None)));
        }
        match self {
            State::Closing(msg) => msg,
            State::Open => unreached(),
        }
    }
}

/// Writes bytes to a WebSocket [sender](Sender).
///
/// Every write sends a binary message.
pub struct ByteWriter<S> {
    sender: S,
    state: State,
}

impl<S> ByteWriter<S> {
    /// The underlying sender.
    pub closed spec fn sender(self) -> S {
        self.sender
    }

    /// How far closing has come.
    pub closed spec fn state(self) -> State {
        self.state
    }

    /// Creates a writer to a [sender](Sender).
    pub fn new(sender: S) -> (writer: Self) where S: Sender
        ensures
            writer.sender() == sender,
            writer.state() == State::Open,
    {
        ByteWriter { sender, state: State::Open }
    }

    /// The underlying sender, for looking at it.
    pub fn get_ref(&self) -> (sender: &S)
        ensures
            *sender == self.sender(),
    {
        &self.sender
    }

    /// Gives the underlying sender back.
    pub fn into_inner(self) -> (sender: S)
        ensures
            sender == self.sender(),
    {
        self.sender
    }
}

/// Whether `r` is `polled` with its error, if it has one, reported as an I/O error.
pub open spec fn poll_reported_as<T>(
    polled: Poll<Result<T, tungstenite::Error>>,
    r: Poll<Result<T, io::Error>>,
) -> bool {
    match polled {
        Poll::Pending => r is Pending,
        Poll::Ready(Ok(value)) => r == Poll::<Result<T, io::Error>>::Ready(Ok(value)),
        Poll::Ready(Err(e)) => r matches Poll::Ready(Err(io)) && reported_as(e, io),
    }
}

/// Reports the error of a polled operation as an I/O error.
pub fn convert_poll<T>(polled: Poll<Result<T, tungstenite::Error>>) -> (r: Poll<
    Result<T, io::Error>,
>)
    ensures
        poll_reported_as(polled, r),
        match polled {
            Poll::Pending => r is Pending,
            Poll::Ready(Ok(value)) => r == Poll::<Result<T, io::Error>>::Ready(
                Ok(value),
            ),
            Poll::Ready(Err(e)) => r matches Poll::Ready(Err(io)) && match io_cause(e) {
                Some(cause) => io == cause,
                None => is_kind_other(io) && inner_error(io) == Some(e),
            },
        },
{
    match polled {
        Poll::Pending => Poll::Pending,
        Poll::Ready(Ok(value)) => Poll::Ready(Ok(value)),
        Poll::Ready(Err(e)) => Poll::Ready(Err(convert_err(e))),
    }
}

/// Whether a write of `buf` may turn `before` into `after` and give `r`: the sender writes
/// `buf`, and its result is given with its error reported as an I/O error.
pub open spec fn writer_wrote<S: SealedSender>(
    before: ByteWriter<S>,
    waker: S::Waker,
    buf: Seq<u8>,
    after: ByteWriter<S>,
    r: Poll<Result<usize, io::Error>>,
) -> bool {
    &&& after.state() == before.state()
    &&& exists|polled| #[trigger]
        S::written(before.sender(), waker, buf, after.sender(), polled) && poll_reported_as(
            polled,
            r,
        )
}

/// Whether an attempt to close may turn `before` into `after`, leave `left` of the close message
/// and have the sender give `polled`.
pub open spec fn closed_with<S: SealedSender>(
    before: ByteWriter<S>,
    waker: S::Waker,
    after: ByteWriter<S>,
    left: Option<Message>,
    polled: Poll<Result<(), tungstenite::Error>>,
) -> bool {
    &&& S::closed_down(
        before.sender(),
        waker,
        before.state().close_message(),
        after.sender(),
        left,
        polled,
    )
    &&& after.state() == State::Closing(left)
}

/// Whether an attempt to close may turn `before` into `after` and give `r`: the sender closes,
/// is offered the close message that is still to be sent, and its result is given with its error
/// reported as an I/O error.
pub open spec fn writer_closed<S: SealedSender>(
    before: ByteWriter<S>,
    waker: S::Waker,
    after: ByteWriter<S>,
    r: Poll<Result<(), io::Error>>,
) -> bool {
    exists|left, polled| #[trigger]
        closed_with(before, waker, after, left, polled) && poll_reported_as(polled, r)
}

impl<S: Sender> ByteWriter<S> {
    /// Has the sender send `buf`.
    pub fn poll_write(&mut self, waker: &S::Waker, buf: &[u8]) -> (r: Poll<
        Result<usize, io::Error>,
    >)
        ensures
            writer_wrote(*old(self), *waker, buf@, *final(self), r),
            final(self).state() == old(self).state(),
            exists|polled| #[trigger]
                S::written(old(self).sender(), *waker, buf@, final(self).sender(), polled)
                    && match polled {
                        Poll::Pending => r is Pending,
                        Poll::Ready(Ok(value)) => r == Poll::<Result<usize, io::Error>>::Ready(
                            Ok(value),
                        ),
                        Poll::Ready(Err(e)) => r matches Poll::Ready(Err(io)) && match io_cause(e) {
                            Some(cause) => io == cause,
                            None => is_kind_other(io) && inner_error(io) == Some(e),
                        },
                    },
    {
        let polled = self.sender.poll_write(waker, buf);
        assert(S::written(old(self).sender(), *waker, buf@, self.sender(), polled));
        convert_poll(polled)
    }

    /// Has the sender send on what it holds back.
    pub fn poll_flush(&mut self, waker: &S::Waker) -> (r: Poll<Result<(), io::Error>>)
        ensures
            final(self).state() == old(self).state(),
            exists|polled| #[trigger]
                S::flushed(old(self).sender(), *waker, final(self).sender(), polled)
                    && poll_reported_as(polled, r),
            exists|polled| #[trigger]
                S::flushed(old(self).sender(), *waker, final(self).sender(), polled)
                    && match polled {
                        Poll::Pending => r is Pending,
                        Poll::Ready(Ok(value)) => r == Poll::<Result<(), io::Error>>::Ready(
                            Ok(value),
                        ),
                        Poll::Ready(Err(e)) => r matches Poll::Ready(Err(io)) && match io_cause(e) {
                            Some(cause) => io == cause,
                            None => is_kind_other(io) && inner_error(io) == Some(e),
                        },
                    },
    {
        let polled = self.sender.poll_flush(waker);
        assert(S::flushed(old(self).sender(), *waker, self.sender(), polled));
        convert_poll(polled)
    }

    /// Has the sender close the connection, and send the close message if it has not taken it
    /// in an earlier attempt.
    pub fn poll_close(&mut self, waker: &S::Waker) -> (r: Poll<Result<(), io::Error>>)
        ensures
            writer_closed(*old(self), *waker, *final(self), r),
            exists|offered, left, polled| #[trigger]
                S::closed_down(
                    old(self).sender(),
                    *waker,
                    offered,
                    final(self).sender(),
                    left,
                    polled,
                ) && offered == match old(self).state() {
                    State::Open => Some(Message::Close(None)),
                    State::Closing(msg) => msg,
                } && final(self).state() == State::Closing(left) && match polled {
                        Poll::Pending => r is Pending,
                        Poll::Ready(Ok(value)) => r == Poll::<Result<(), io::Error>>::Ready(
                            Ok(value),
                        ),
                        Poll::Ready(Err(e)) => r matches Poll::Ready(Err(io)) && match io_cause(e) {
                            Some(cause) => io == cause,
                            None => is_kind_other(io) && inner_error(io) == Some(e),
                        },
                    },
    {
        let msg = self.state.close();
        let polled = self.sender.poll_close(waker, msg);
        let ghost left = self.state.close_message();
        assert(closed_with(*old(self), *waker, *self, left, polled));
        convert_poll(polled)
    }

    /// Shuts the writer down: closes it.
    pub fn poll_shutdown(&mut self, waker: &S::Waker) -> (r: Poll<Result<(), io::Error>>)
        ensures
            writer_closed(*old(self), *waker, *final(self), r),
            exists|offered, left, polled| #[trigger]
                S::closed_down(
                    old(self).sender(),
                    *waker,
                    offered,
                    final(self).sender(),
                    left,
                    polled,
                ) && offered == match old(self).state() {
                    State::Open => Some(Message::Close(None)),
                    State::Closing(msg) => msg,
                } && final(self).state() == State::Closing(left) && match polled {
                        Poll::Pending => r is Pending,
                        Poll::Ready(Ok(value)) => r == Poll::<Result<(), io::Error>>::Ready(
                            Ok(value),
                        ),
                        Poll::Ready(Err(e)) => r matches Poll::Ready(Err(io)) && match io_cause(e) {
                            Some(cause) => io == cause,
                            None => is_kind_other(io) && inner_error(io) == Some(e),
                        },
                    },
    {
        self.poll_close(waker)
    }
}

/// Whether a message is a binary message that holds exactly `buf`.
pub open spec fn is_binary_of(msg: Message, buf: Seq<u8>) -> bool {
    msg matches Message::Binary(data) && contents(data) == buf
}

/// What a write to a sink of messages does next.
#[derive(Debug)]
pub enum SinkWrite {
    /// The message is to be handed to the sink, and the write finished with
    /// [`write_after_send`].
    Send(Message),
    /// The write is finished for now, with this result.
    Return(Poll<Result<usize, tungstenite::Error>>),
}

/// Whether `step` is how a write of `buf` to a sink begins, given whether the sink is ready: once
/// it is, the sink gets one binary message that holds exactly `buf`.
pub open spec fn write_begun(
    ready: Poll<Result<(), tungstenite::Error>>,
    buf: Seq<u8>,
    step: SinkWrite,
) -> bool {
    match ready {
        Poll::Pending => step == SinkWrite::Return(Poll::Pending),
        Poll::Ready(Err(e)) => step == SinkWrite::Return(Poll::Ready(Err(e))),
        Poll::Ready(Ok(())) => step matches SinkWrite::Send(msg) && is_binary_of(msg, buf),
    }
}

/// Whether `r` is how a write of `buf` to a sink is finished, given whether the sink took the
/// message: if it did, all of `buf` is written.
pub open spec fn write_finished(
    sent: Result<(), tungstenite::Error>,
    buf: Seq<u8>,
    r: Poll<Result<usize, tungstenite::Error>>,
) -> bool {
    match sent {
        Ok(()) => r matches Poll::Ready(Ok(n)) && n == buf.len(),
        Err(e) => r == Poll::<Result<usize, tungstenite::Error>>::Ready(Err(e)),
    }
}

/// Begins to write `buf` to a sink of messages, given whether the sink is ready.
pub fn write_when_ready(ready: Poll<Result<(), tungstenite::Error>>, buf: &[u8]) -> (step:
    SinkWrite)
    ensures
        write_begun(ready, buf@, step),
        match ready {
            Poll::Pending => step == SinkWrite::Return(Poll::Pending),
            Poll::Ready(Err(e)) => step == SinkWrite::Return(Poll::Ready(Err(e))),
            Poll::Ready(Ok(())) => step matches SinkWrite::Send(Message::Binary(data)) && contents(
                data,
            ) == buf@,
        },
{
    match ready {
        Poll::Pending => SinkWrite::Return(Poll::Pending),
        Poll::Ready(Err(e)) => SinkWrite::Return(Poll::Ready(Err(e))),
        Poll::Ready(Ok(())) => SinkWrite::Send(Message::binary(slice_to_vec(buf))),
    }
}

/// Finishes to write `buf` to a sink of messages, given whether the sink took the message.
pub fn write_after_send(sent: Result<(), tungstenite::Error>, buf: &[u8]) -> (r: Poll<
    Result<usize, tungstenite::Error>,
>)
    ensures
        write_finished(sent, buf@, r),
        match sent {
            Ok(()) => r matches Poll::Ready(Ok(n)) && n == buf@.len(),
            Err(e) => r == Poll::<Result<usize, tungstenite::Error>>::Ready(Err(e)),
        },
{
    match sent {
        Ok(()) => Poll::Ready(Ok(buf.len())),
        Err(e) => Poll::Ready(Err(e)),
    }
}

} // verus!
