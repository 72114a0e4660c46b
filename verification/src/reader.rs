//! Reading bytes from a stream of messages.

use crate::error::{convert_err, inner_error, io_cause, is_kind_other, reported_as};
use crate::laws::{a_read_loses_nothing, what_a_read_takes_decides_it};
use crate::message::Message;
use crate::payload::{bytes_as_slice, contents};
use crate::policy::{FramePolicy, FrameProjection, Projection};
use crate::poll::Poll;
use std::collections::VecDeque;
use std::io;
use tungstenite::Bytes;
use vstd::prelude::*;

verus! {

/// What polling a stream of messages gives: a message or an error, `None` at its end.
pub type StreamEvent = Poll<Option<Result<Message, tungstenite::Error>>>;

/// What a read gives: bytes, or `None` at the end of the byte stream.
pub type ReadResult = Poll<Result<Option<Bytes>, io::Error>>;

/// What a read does next.
#[derive(Debug)]
pub enum ReadStep {
    /// The stream is to be polled, and the read to go on with what it gives.
    NeedMessage,
    /// The read is finished for now, with this result.
    Return(ReadResult),
}

/// The result of a read, in mathematical terms.
pub ghost enum Outcome {
    /// These bytes were read.
    Data(Seq<u8>),
    /// The byte stream has ended.
    Eof,
    /// The stream has nothing to give yet.
    Pending,
    /// The stream failed with this error.
    Failed(tungstenite::Error),
}

impl ReadStep {
    /// Whether this step is the given outcome, or a request for a message where there is none.
    pub open spec fn is(self, outcome: Option<Outcome>) -> bool {
        match outcome {
            None => self is NeedMessage,
            Some(Outcome::Data(data)) => self matches ReadStep::Return(
                Poll::Ready(Ok(Some(b))),
            ) && contents(b) == data,
            Some(Outcome::Eof) => self == ReadStep::Return(Poll::Ready(Ok(None))),
            Some(Outcome::Pending) => self == ReadStep::Return(Poll::Pending),
            Some(Outcome::Failed(e)) => self matches ReadStep::Return(Poll::Ready(Err(io)))
                && reported_as(e, io),
        }
    }
}

impl Outcome {
    /// Whether `r` is how this outcome is reported by a read into a buffer: bytes by their
    /// number, and the end of the byte stream by 0.
    pub open spec fn reported_by(self, r: Poll<Result<usize, io::Error>>) -> bool {
        match self {
            Outcome::Data(data) => r matches Poll::Ready(Ok(n)) && n == data.len(),
            Outcome::Eof => r == Poll::<Result<usize, io::Error>>::Ready(Ok(0)),
            Outcome::Pending => r is Pending,
            Outcome::Failed(e) => r matches Poll::Ready(Err(io)) && reported_as(e, io),
        }
    }
}

/// The state of a reader, in mathematical terms.
#[verifier::ext_equal]
pub ghost struct ReaderState {
    /// The policy for the messages to come.
    pub policy: FramePolicy,
    /// Whether the byte stream has ended.
    pub ended: bool,
    /// What is left of a message that has been read in part.
    pub buffered: Seq<u8>,
    /// The control frames that were set aside and not fetched yet, oldest first.
    pub retained: Seq<Message>,
}

impl ReaderState {
    /// Nothing is left to be read once the byte stream has ended.
    pub open spec fn valid(self) -> bool {
        self.ended ==> self.buffered.len() == 0
    }

    /// The state in which the byte stream has ended.
    pub open spec fn end(self) -> ReaderState {
        ReaderState { ended: true, ..self }
    }

    /// The state with one more control frame set aside, where one is given.
    pub open spec fn retain(self, msg: Option<Message>) -> ReaderState {
        match msg {
            Some(msg) => ReaderState { retained: self.retained.push(msg), ..self },
            None => self,
        }
    }

    /// Reads at most `n` bytes of `data` and keeps the rest.
    pub open spec fn deliver(self, data: Seq<u8>, n: nat) -> (ReaderState, Option<Outcome>) {
        let k = if data.len() <= n { data.len() as int } else { n as int };
        (ReaderState { buffered: data.skip(k), ..self }, Some(Outcome::Data(data.take(k))))
    }

    /// Begins a read of at most `n` bytes. Without an outcome, a message is needed.
    pub open spec fn start(self, n: nat) -> (ReaderState, Option<Outcome>) {
        if n == 0 {
            (self, Some(Outcome::Data(Seq::empty())))
        } else if self.ended {
            (self, Some(Outcome::Eof))
        } else if self.buffered.len() > 0 {
            self.deliver(self.buffered, n)
        } else {
            (self, None)
        }
    }

    /// Whether a read of at most `n` bytes needs a message.
    pub open spec fn needs_message(self, n: nat) -> bool {
        self.start(n).1 is None
    }

    /// Goes on with a read of at most `n` bytes that needed a message. Without an outcome,
    /// another message is needed.
    pub open spec fn resume(self, n: nat, event: StreamEvent) -> (ReaderState, Option<Outcome>) {
        match event {
            Poll::Pending => (self, Some(Outcome::Pending)),
            Poll::Ready(None) => (self.end(), Some(Outcome::Eof)),
            Poll::Ready(Some(Err(e))) => (self, Some(Outcome::Failed(e))),
            Poll::Ready(Some(Ok(msg))) => match self.policy.projection(msg) {
                Projection::Payload(data) => self.deliver(data, n),
                Projection::Skip => (self, None),
                Projection::Retain(msg) => (self.retain(Some(msg)), None),
                Projection::Close(msg) => (self.retain(msg).end(), Some(Outcome::Eof)),
            },
        }
    }

    /// Reads at most `n` bytes, given what the stream gives from now on: the state after the
    /// read, its outcome and what the stream has still to give. Without an outcome, the read
    /// needs more than was given.
    pub open spec fn read(self, n: nat, events: Seq<StreamEvent>) -> (
        ReaderState,
        Option<Outcome>,
        Seq<StreamEvent>,
    )
        decreases events.len(),
    {
        let (started, outcome) = self.start(n);
        if outcome is Some || events.len() == 0 {
            (started, outcome, events)
        } else {
            let (resumed, outcome) = started.resume(n, events[0]);
            if outcome is Some {
                (resumed, outcome, events.skip(1))
            } else {
                resumed.read(n, events.skip(1))
            }
        }
    }
}

/// A read gives no more bytes than it asked for.
pub proof fn a_read_fits(state: ReaderState, n: nat, events: Seq<StreamEvent>)
    ensures
        state.read(n, events).1 matches Some(Outcome::Data(data)) ==> data.len() <= n,
    decreases events.len(),
{
    let (started, outcome) = state.start(n);
    if outcome is None && events.len() > 0 {
        let (resumed, outcome) = started.resume(n, events[0]);
        if outcome is None {
            a_read_fits(resumed, n, events.skip(1));
        }
    }
}

/// What is left of a message that has been read in part.
#[derive(Debug)]
struct Remainder {
    bytes: Bytes,
}

impl Remainder {
    /// Something is left.
    #[verifier::type_invariant]
    spec fn well_formed(self) -> bool {
        contents(self.bytes).len() > 0
    }
}

/// Where the next bytes come from.
#[derive(Debug)]
enum Source {
    /// From the next message.
    Stream,
    /// From a message that has been read in part.
    Buffer(Remainder),
    /// From nowhere: the byte stream has ended.
    Nothing,
}

/// Reads bytes from a WebSocket stream of messages.
///
/// Each read returns data from one message only. Which messages are projected into the byte
/// stream is controlled by the [`FramePolicy`]. A close frame, like the end of the underlying
/// stream, ends the byte stream: every later read returns the end again, without the underlying
/// stream being polled any further.
#[derive(Debug)]
pub struct ByteReader<S> {
    stream: S,
    source: Source,
    policy: FramePolicy,
    retained: VecDeque<Message>,
}

impl<S> View for ByteReader<S> {
    type V = ReaderState;

    closed spec fn view(&self) -> ReaderState {
        ReaderState {
            policy: self.policy,
            ended: self.source is Nothing,
            buffered: match self.source {
                Source::Buffer(rest) => contents(rest.bytes),
                _ => Seq::empty(),
            },
            retained: self.retained@,
        }
    }
}

impl<S> ByteReader<S> {
    /// Every reader is in a valid state.
    pub proof fn state_is_valid(self)
        ensures
            self@.valid(),
    {
    }

    /// The underlying stream.
    pub closed spec fn stream(self) -> S {
        self.stream
    }

    /// Creates a reader of the stream, under the default [`FramePolicy`].
    pub fn new(stream: S) -> (reader: Self)
        ensures
            reader.stream() == stream,
            reader@ == (ReaderState {
                policy: FramePolicy::TextAndBinary,
                ended: false,
                buffered: Seq::empty(),
                retained: Seq::empty(),
            }),
    {
        Self::with_policy(stream, FramePolicy::default())
    }

    /// Creates a reader of the stream, under the given [`FramePolicy`].
    pub fn with_policy(stream: S, policy: FramePolicy) -> (reader: Self)
        ensures
            reader.stream() == stream,
            reader@ == (ReaderState {
                policy,
                ended: false,
                buffered: Seq::empty(),
                retained: Seq::empty(),
            }),
    {
        ByteReader { stream, source: Source::Stream, policy, retained: VecDeque::new() }
    }

    /// Another name for [`ByteReader::with_policy`].
    pub fn with_frame_policy(stream: S, policy: FramePolicy) -> (reader: Self)
        ensures
            reader.stream() == stream,
            reader@ == (ReaderState {
                policy,
                ended: false,
                buffered: Seq::empty(),
                retained: Seq::empty(),
            }),
    {
        Self::with_policy(stream, policy)
    }

    /// The current [`FramePolicy`].
    pub fn policy(&self) -> (policy: FramePolicy)
        ensures
            policy == self@.policy,
    {
        self.policy
    }

    /// Another name for [`ByteReader::policy`].
    pub fn frame_policy(&self) -> (policy: FramePolicy)
        ensures
            policy == self@.policy,
    {
        self.policy
    }

    /// Changes the [`FramePolicy`].
    ///
    /// This only affects messages that have not been consumed yet: bytes that are already
    /// buffered from a partially read message are still returned first.
    pub fn set_policy(&mut self, policy: FramePolicy)
        ensures
            final(self).stream() == old(self).stream(),
            final(self)@ == (ReaderState { policy, ..old(self)@ }),
    {
        self.policy = policy;
    }

    /// The underlying stream, for polling it.
    pub fn stream_mut(&mut self) -> (stream: &mut S)
        ensures
            *stream == old(self).stream(),
            final(self).stream() == *final(stream),
            final(self)@ == old(self)@,
    {
        &mut self.stream
    }

    /// Gives the underlying stream back.
    pub fn into_inner(self) -> (stream: S)
        ensures
            stream == self.stream(),
    {
        self.stream
    }

    /// Fetches the oldest control frame that was set aside under
    /// [`FramePolicy::RetainControlFrames`].
    pub fn next_control_frame(&mut self) -> (msg: Option<Message>)
        ensures
            final(self).stream() == old(self).stream(),
            old(self)@.retained.len() == 0 ==> msg is None && final(self)@ == old(self)@,
            old(self)@.retained.len() > 0 ==> msg == Some(old(self)@.retained[0]) && final(self)@
                == (ReaderState { retained: old(self)@.retained.skip(1), ..old(self)@ }),
    {
        self.retained.pop_front()
    }

    /// Hands out at most `n` bytes of a payload and keeps the rest.
    fn deliver(&mut self, bytes: Bytes, n: usize) -> (out: Bytes)
        requires
            contents(bytes).len() > 0,
        ensures
            final(self).stream() == old(self).stream(),
            (ReaderState { ended: false, ..old(self)@ }).deliver(contents(bytes), n as nat) == (
                final(self)@,
                Some(Outcome::Data(contents(out))),
            ),
    {
        let mut bytes = bytes;
        if bytes.len() > n {
            let head = bytes.split_to(n);
            self.source = Source::Buffer(Remainder { bytes });
            head
        } else {
            proof {
                let data = contents(bytes);
                assert(data.take(data.len() as int) == data);
                assert(data.skip(data.len() as int) == Seq::<u8>::empty());
            }
            self.source = Source::Stream;
            bytes
        }
    }

    /// Begins a read of at most `buf_len` bytes.
    fn start_read(&mut self, buf_len: usize) -> (step: ReadStep)
        ensures
            final(self).stream() == old(self).stream(),
            final(self)@ == old(self)@.start(buf_len as nat).0,
            step.is(old(self)@.start(buf_len as nat).1),
    {
        // A read of no bytes must not consume messages or be mistaken for the end.
        if buf_len == 0 {
            return ReadStep::Return(Poll::Ready(Ok(Some(Bytes::new()))));
        }
        let mut source = Source::Stream;
        std::mem::swap(&mut self.source, &mut source);
        match source {
            Source::Nothing => {
                self.source = Source::Nothing;
                ReadStep::Return(Poll::Ready(Ok(None)))
            },
            Source::Buffer(rest) => {
                proof {
                    use_type_invariant(&rest);
                }
                ReadStep::Return(Poll::Ready(Ok(Some(self.deliver(rest.bytes, buf_len)))))
            },
            Source::Stream => ReadStep::NeedMessage,
        }
    }

    /// Goes on with a read of at most `buf_len` bytes, with what the stream gave.
    fn resume_read(&mut self, buf_len: usize, event: StreamEvent) -> (step: ReadStep)
        requires
            old(self)@.needs_message(buf_len as nat),
        ensures
            final(self).stream() == old(self).stream(),
            final(self)@ == old(self)@.resume(buf_len as nat, event).0,
            step.is(old(self)@.resume(buf_len as nat, event).1),
    {
        let msg = match event {
            Poll::Pending => return ReadStep::Return(Poll::Pending),
            Poll::Ready(None) => {
                self.source = Source::Nothing;
                return ReadStep::Return(Poll::Ready(Ok(None)));
            },
            Poll::Ready(Some(Err(e))) => {
                return ReadStep::Return(Poll::Ready(Err(convert_err(e))));
            },
            Poll::Ready(Some(Ok(msg))) => msg,
        };
        match self.policy.project(msg) {
            FrameProjection::Skip => ReadStep::NeedMessage,
            FrameProjection::Retain(msg) => {
                self.retained.push_back(msg);
                ReadStep::NeedMessage
            },
            FrameProjection::Close(msg) => {
                if let Some(msg) = msg {
                    self.retained.push_back(msg);
                }
                self.source = Source::Nothing;
                ReadStep::Return(Poll::Ready(Ok(None)))
            },
            FrameProjection::Payload(bytes) => {
                ReadStep::Return(Poll::Ready(Ok(Some(self.deliver(bytes, buf_len)))))
            },
        }
    }

    /// Reads at most `buf_len` bytes, taking events from the front of `events`.
    fn take_events(&mut self, buf_len: usize, events: &mut VecDeque<StreamEvent>) -> (step:
        ReadStep)
        ensures
            final(self).stream() == old(self).stream(),
            final(self)@ == old(self)@.read(buf_len as nat, old(events)@).0,
            step.is(old(self)@.read(buf_len as nat, old(events)@).1),
            final(events)@ == old(self)@.read(buf_len as nat, old(events)@).2,
    {
        let ghost result = self@.read(buf_len as nat, events@);
        loop
            invariant
                self.stream() == old(self).stream(),
                self@.read(buf_len as nat, events@) == result,
                result == old(self)@.read(buf_len as nat, old(events)@),
            decreases events@.len(),
        {
            let ghost before = events@;
            if let ReadStep::Return(result) = self.start_read(buf_len) {
                return ReadStep::Return(result);
            }
            let event = match events.pop_front() {
                None => return ReadStep::NeedMessage,
                Some(event) => event,
            };
            assert(events@ == before.skip(1));
            if let ReadStep::Return(result) = self.resume_read(buf_len, event) {
                return ReadStep::Return(result);
            }
        }
    }

    /// Reads at most `buf_len` bytes from what the stream gave.
    ///
    /// Events are taken from the front of `events`, as many as the read needs. Where they do not
    /// suffice, the stream is to be polled, and the read repeated with what it gives.
    pub fn read_from(&mut self, buf_len: usize, events: &mut VecDeque<StreamEvent>) -> (step:
        ReadStep)
        ensures
            final(self).stream() == old(self).stream(),
            final(self)@ == old(self)@.read(buf_len as nat, old(events)@).0,
            step.is(old(self)@.read(buf_len as nat, old(events)@).1),
            final(events)@ == old(self)@.read(buf_len as nat, old(events)@).2,
            // What is read, and what is then still to be read, is what was to be read.
            step matches ReadStep::Return(Poll::Ready(Ok(Some(b)))) ==> {
                &&& contents(b) + final(self)@.ahead(final(events)@) == old(self)@.ahead(
                    old(events)@,
                )
                &&& contents(b).len() <= buf_len
                &&& buf_len > 0 ==> contents(b).len() > 0
                &&& contents(b).len() == buf_len || final(self)@.buffered.len() == 0
            },
            // A read that gives no bytes leaves all of them to be read.
            !(step matches ReadStep::Return(Poll::Ready(Ok(Some(_))))) ==> final(self)@.ahead(
                final(events)@,
            ) == old(self)@.ahead(old(events)@),
            final(self)@.policy == old(self)@.policy,
            final(self)@.control_ahead(final(events)@) == old(self)@.control_ahead(old(events)@),
            // The end is given if and only if the byte stream has ended.
            step matches ReadStep::Return(Poll::Ready(Ok(None))) <==> buf_len > 0 && final(self)@.ended,
            // Events are taken from the front, and only where the read needs one.
            final(events)@.len() <= old(events)@.len(),
            final(events)@ == old(events)@.skip(old(events)@.len() - final(events)@.len()),
            final(events)@.len() == old(events)@.len() <==> buf_len == 0 || old(self)@.ended || old(
                self,
            )@.buffered.len() > 0 || old(events)@.len() == 0,
            // Before the last event that is taken, no waiting, failure or end is passed over.
            forall|j: int|
                0 <= j < old(events)@.len() - final(events)@.len() - 1 ==> (#[trigger] old(
                    events,
                )@[j] matches Poll::Ready(Some(Ok(m))) && !(m is Close)),
            // The read waits if and only if the last event that is taken is a waiting one.
            step matches ReadStep::Return(Poll::Pending) <==> {
                let taken = old(events)@.len() - final(events)@.len();
                taken > 0 && old(events)@[taken - 1] is Pending
            },
            // The read fails if and only if that event is a failure, and reports its error.
            step matches ReadStep::Return(Poll::Ready(Err(io))) ==> {
                let taken = old(events)@.len() - final(events)@.len();
                &&& taken > 0
                &&& old(events)@[taken - 1] matches Poll::Ready(Some(Err(e)))
                &&& match io_cause(e) {
                    Some(cause) => io == cause,
                    None => is_kind_other(io) && inner_error(io) == Some(e),
                }
            },
            ({
                let taken = old(events)@.len() - final(events)@.len();
                taken > 0 && (old(events)@[taken - 1] matches Poll::Ready(Some(Err(_))))
            }) ==> step matches ReadStep::Return(Poll::Ready(Err(_))),
            // A read that needs a message has taken all that was given, messages only.
            step is NeedMessage ==> {
                &&& buf_len > 0
                &&& !final(self)@.ended
                &&& final(self)@.buffered.len() == 0
                &&& final(events)@.len() == 0
                &&& forall|j: int|
                    0 <= j < old(events)@.len() ==> (#[trigger] old(events)@[j] matches Poll::Ready(
                        Some(Ok(m)),
                    ) && !(m is Close))
            },
    {
        proof {
            self.state_is_valid();
            a_read_loses_nothing(self@, buf_len as nat, events@);
            what_a_read_takes_decides_it(self@, buf_len as nat, events@);
        }
        self.take_events(buf_len, events)
    }

    /// Reads from what the stream gave into the front of `buf`, and tells how many bytes were
    /// read: 0 at the end of the byte stream.
    ///
    /// Events are taken from the front of `events`, as many as the read needs. Where they do not
    /// suffice, there is no result: the stream is to be polled, and the read repeated with what
    /// it gives.
    pub fn read_into(&mut self, buf: &mut [u8], events: &mut VecDeque<StreamEvent>) -> (r: Option<
        Poll<Result<usize, io::Error>>,
    >)
        ensures
            final(self).stream() == old(self).stream(),
            final(self)@ == old(self)@.read(old(buf)@.len(), old(events)@).0,
            final(events)@ == old(self)@.read(old(buf)@.len(), old(events)@).2,
            match old(self)@.read(old(buf)@.len(), old(events)@).1 {
                None => r is None,
                Some(outcome) => r matches Some(polled) && outcome.reported_by(polled),
            },
            final(buf)@ == match old(self)@.read(old(buf)@.len(), old(events)@).1 {
                Some(Outcome::Data(data)) => data + old(buf)@.skip(data.len() as int),
                _ => old(buf)@,
            },
            // What is read, and what is then still to be read, is what was to be read.
            r matches Some(Poll::Ready(Ok(n))) ==> {
                &&& n <= old(buf)@.len()
                &&& final(buf)@.take(n as int) + final(self)@.ahead(final(events)@) == old(
                    self,
                )@.ahead(old(events)@)
                &&& final(buf)@.skip(n as int) == old(buf)@.skip(n as int)
                &&& n == old(buf)@.len() || final(self)@.buffered.len() == 0
            },
            final(buf)@.len() == old(buf)@.len(),
            // A read that gives no bytes leaves all of them to be read.
            !(r matches Some(Poll::Ready(Ok(_)))) ==> final(buf)@ == old(buf)@ && final(self)@.ahead(
                final(events)@,
            ) == old(self)@.ahead(old(events)@),
            final(self)@.policy == old(self)@.policy,
            final(self)@.control_ahead(final(events)@) == old(self)@.control_ahead(old(events)@),
            // The end is given if and only if the byte stream has ended.
            (r matches Some(Poll::Ready(Ok(n))) && n == 0 && old(buf)@.len() > 0) <==> old(buf)@.len()
                > 0 && final(self)@.ended,
            // Events are taken from the front, and only where the read needs one.
            final(events)@.len() <= old(events)@.len(),
            final(events)@ == old(events)@.skip(old(events)@.len() - final(events)@.len()),
            final(events)@.len() == old(events)@.len() <==> old(buf)@.len() == 0 || old(self)@.ended || old(
                self,
            )@.buffered.len() > 0 || old(events)@.len() == 0,
            // Before the last event that is taken, no waiting, failure or end is passed over.
            forall|j: int|
                0 <= j < old(events)@.len() - final(events)@.len() - 1 ==> (#[trigger] old(
                    events,
                )@[j] matches Poll::Ready(Some(Ok(m))) && !(m is Close)),
            // The read waits if and only if the last event that is taken is a waiting one.
            r matches Some(Poll::Pending) <==> {
                let taken = old(events)@.len() - final(events)@.len();
                taken > 0 && old(events)@[taken - 1] is Pending
            },
            // The read fails if and only if that event is a failure, and reports its error.
            r matches Some(Poll::Ready(Err(io))) ==> {
                let taken = old(events)@.len() - final(events)@.len();
                &&& taken > 0
                &&& old(events)@[taken - 1] matches Poll::Ready(Some(Err(e)))
                &&& match io_cause(e) {
                    Some(cause) => io == cause,
                    None => is_kind_other(io) && inner_error(io) == Some(e),
                }
            },
            ({
                let taken = old(events)@.len() - final(events)@.len();
                taken > 0 && (old(events)@[taken - 1] matches Poll::Ready(Some(Err(_))))
            }) ==> r matches Some(Poll::Ready(Err(_))),
            // A read that needs a message has taken all that was given, messages only.
            r is None ==> {
                &&& old(buf)@.len() > 0
                &&& !final(self)@.ended
                &&& final(self)@.buffered.len() == 0
                &&& final(events)@.len() == 0
                &&& forall|j: int|
                    0 <= j < old(events)@.len() ==> (#[trigger] old(events)@[j] matches Poll::Ready(
                        Some(Ok(m)),
                    ) && !(m is Close))
            },
    {
        proof {
            a_read_fits(self@, buf@.len(), events@);
        }
        match self.read_from(buf.len(), events) {
            ReadStep::NeedMessage => None,
            ReadStep::Return(result) => Some(complete_read(result, buf)),
        }
    }
}

/// Copies what was read to the front of the reader's buffer and counts it: 0 at the end of the
/// byte stream.
fn complete_read(result: ReadResult, buf: &mut [u8]) -> (r: Poll<Result<usize, io::Error>>)
    requires
        result matches Poll::Ready(Ok(Some(b))) ==> contents(b).len() <= old(buf)@.len(),
    ensures
        match result {
            Poll::Pending => r == Poll::<Result<usize, io::Error>>::Pending,
            Poll::Ready(Err(e)) => r == Poll::<Result<usize, io::Error>>::Ready(Err(e)),
            Poll::Ready(Ok(None)) => r == Poll::<Result<usize, io::Error>>::Ready(Ok(0)),
            Poll::Ready(Ok(Some(b))) => r matches Poll::Ready(Ok(n)) && n == contents(b).len(),
        },
        final(buf)@ == match result {
            Poll::Ready(Ok(Some(b))) => contents(b) + old(buf)@.skip(contents(b).len() as int),
            _ => old(buf)@,
        },
{
    match result {
        Poll::Pending => Poll::Pending,
        Poll::Ready(Err(e)) => Poll::Ready(Err(e)),
        Poll::Ready(Ok(None)) => Poll::Ready(Ok(0)),
        Poll::Ready(Ok(Some(bytes))) => {
            let n = bytes.len();
            copy_to_front(bytes_as_slice(&bytes), buf);
            Poll::Ready(Ok(n))
        },
    }
}

/// Overwrites the front of `buf` with `data`.
fn copy_to_front(data: &[u8], buf: &mut [u8])
    requires
        data@.len() <= old(buf)@.len(),
    ensures
        final(buf)@ == data@ + old(buf)@.skip(data@.len() as int),
{
    let ghost before = buf@;
    let n = data.len();
    let mut i: usize = 0;
    while i < n
        invariant
            i <= n,
            n == data@.len(),
            n <= before.len(),
            buf@ == data@.take(i as int) + before.skip(i as int),
        decreases n - i,
    {
        buf[i] = data[i];
        i = i + 1;
        assert(buf@ =~= data@.take(i as int) + before.skip(i as int));
    }
    assert(data@.take(n as int) =~= data@);
}

} // verus!
