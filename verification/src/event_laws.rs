//! What each kind of event does to a read, and what it adds to the byte stream.

use crate::error::{inner_error, io_cause, is_kind_other};
use crate::laws::{
    a_read_loses_nothing, is_last, stream_bytes, stream_control, what_a_read_takes_decides_it,
};
use crate::message::Message;
use crate::payload::contents;
use crate::policy::FramePolicy;
use crate::poll::Poll;
use crate::reader::{Outcome, ReadStep, ReaderState, StreamEvent};
use std::io;
use vstd::prelude::*;
use vstd::utf8::encode_utf8;

verus! {

/// Whether a read of at most `n` bytes that gives `data` of a payload and keeps `left` splits the
/// payload: it gives as much as was asked for, or else all of it.
pub open spec fn is_split(payload: Seq<u8>, n: nat, data: Seq<u8>, left: Seq<u8>) -> bool {
    &&& data + left == payload
    &&& data.len() <= n
    &&& data.len() == n || left.len() == 0
}

/// A split is what it says: the bytes that are given and those that are kept make up the
/// payload, each in its place, and as many are given as asked for or there are.
pub proof fn a_split_keeps_every_byte(payload: Seq<u8>, n: nat, data: Seq<u8>, left: Seq<u8>)
    requires
        is_split(payload, n, data, left),
    ensures
        payload.len() <= n ==> data == payload && left.len() == 0,
        payload.len() > n ==> data == payload.take(n as int) && left == payload.skip(n as int),
{
    if payload.len() <= n {
        assert(data =~= payload);
    } else {
        assert(data =~= payload.take(n as int));
        assert(left =~= payload.skip(n as int));
    }
}

/// A read that asks for something after a message has been read in part gives what is left of
/// that message and takes nothing from the stream.
pub proof fn a_remainder_is_read_first(state: ReaderState, n: nat, events: Seq<StreamEvent>)
    requires
        n > 0,
        !state.ended,
        state.buffered.len() > 0,
    ensures
        ({
            let (next, outcome, rest) = state.read(n, events);
            &&& rest == events
            &&& outcome matches Some(Outcome::Data(data)) && is_split(
                state.buffered,
                n,
                data,
                next.buffered,
            )
            &&& !next.ended
            &&& next.policy == state.policy
            &&& next.retained == state.retained
        }),
{
    let next = state.read(n, events).0;
    let k = if state.buffered.len() <= n { state.buffered.len() as int } else { n as int };
    assert(state.buffered.take(k) + state.buffered.skip(k) =~= state.buffered);
}

/// A read that needs a message and is given nothing changes nothing.
pub proof fn a_read_of_nothing_waits_for_more(state: ReaderState, n: nat)
    requires
        n > 0,
        !state.ended,
        state.buffered.len() == 0,
    ensures
        state.read(n, Seq::empty()) == (state, None::<Outcome>, Seq::<StreamEvent>::empty()),
{
}

/// A read that needs a message waits where the stream has nothing to give yet. It takes that
/// answer and no more, and leaves the reader as it is.
pub proof fn a_waiting_stream_makes_a_read_wait(
    state: ReaderState,
    n: nat,
    events: Seq<StreamEvent>,
)
    requires
        n > 0,
        !state.ended,
        state.buffered.len() == 0,
        events.len() > 0,
        events[0] is Pending,
    ensures
        state.read(n, events) == (state, Some(Outcome::Pending), events.skip(1)),
{
}

/// A read that needs a message fails where the stream fails, with the very error. It takes that
/// answer and no more, and leaves the reader as it is.
pub proof fn a_failing_stream_makes_a_read_fail(
    state: ReaderState,
    n: nat,
    events: Seq<StreamEvent>,
    e: tungstenite::Error,
)
    requires
        n > 0,
        !state.ended,
        state.buffered.len() == 0,
        events.len() > 0,
        events[0] == Poll::<Option<Result<Message, tungstenite::Error>>>::Ready(Some(Err(e))),
    ensures
        state.read(n, events) == (state, Some(Outcome::Failed(e)), events.skip(1)),
{
}

/// A read that needs a message gives the end where the stream ends.
pub proof fn an_ending_stream_ends_the_bytes(state: ReaderState, n: nat, events: Seq<StreamEvent>)
    requires
        n > 0,
        !state.ended,
        state.buffered.len() == 0,
        events.len() > 0,
        events[0] matches Poll::Ready(None),
    ensures
        ({
            let (next, outcome, rest) = state.read(n, events);
            &&& outcome == Some(Outcome::Eof)
            &&& rest == events.skip(1)
            &&& next.ended
            &&& next.buffered.len() == 0
            &&& next.policy == state.policy
            &&& next.retained == state.retained
        }),
{
}

/// A read that needs a message gives the end at a close frame, under every policy. The frame is
/// set aside under the policy that retains control frames, and under no other.
pub proof fn a_close_frame_ends_the_bytes(
    state: ReaderState,
    n: nat,
    events: Seq<StreamEvent>,
    msg: Message,
)
    requires
        n > 0,
        !state.ended,
        state.buffered.len() == 0,
        events.len() > 0,
        events[0] == Poll::<Option<Result<Message, tungstenite::Error>>>::Ready(Some(Ok(msg))),
        msg is Close,
    ensures
        ({
            let (next, outcome, rest) = state.read(n, events);
            &&& outcome == Some(Outcome::Eof)
            &&& rest == events.skip(1)
            &&& next.ended
            &&& next.buffered.len() == 0
            &&& next.policy == state.policy
            &&& next.retained == if state.policy == FramePolicy::RetainControlFrames {
                state.retained.push(msg)
            } else {
                state.retained
            }
        }),
{
}

/// A read that needs a message gives the UTF-8 encoding of a text, all of it that it has room
/// for, and keeps the rest, unless only binary messages contribute or the text is empty: then it
/// reads on as if the text had not been there.
pub proof fn a_text_is_read_as_utf8(
    state: ReaderState,
    n: nat,
    events: Seq<StreamEvent>,
    text: String,
)
    requires
        n > 0,
        !state.ended,
        state.buffered.len() == 0,
        events.len() > 0,
        events[0] == Poll::<Option<Result<Message, tungstenite::Error>>>::Ready(
            Some(Ok(Message::Text(text))),
        ),
    ensures
        ({
            let (next, outcome, rest) = state.read(n, events);
            if state.policy == FramePolicy::Binary || encode_utf8(text@).len() == 0 {
                (next, outcome, rest) == state.read(n, events.skip(1))
            } else {
                &&& rest == events.skip(1)
                &&& outcome matches Some(Outcome::Data(data)) && is_split(
                    encode_utf8(text@),
                    n,
                    data,
                    next.buffered,
                )
                &&& !next.ended
                &&& next.policy == state.policy
                &&& next.retained == state.retained
            }
        }),
{
    let data = encode_utf8(text@);
    let k = if data.len() <= n { data.len() as int } else { n as int };
    assert(data.take(k) + data.skip(k) =~= data);
}

/// A read that needs a message gives the payload of a binary message or of a raw frame, all of
/// it that it has room for, and keeps the rest, under every policy. An empty payload it passes
/// over, and reads on.
pub proof fn binary_messages_and_raw_frames_are_read(
    state: ReaderState,
    n: nat,
    events: Seq<StreamEvent>,
    payload: tungstenite::Bytes,
)
    requires
        n > 0,
        !state.ended,
        state.buffered.len() == 0,
        events.len() > 0,
        events[0] == Poll::<Option<Result<Message, tungstenite::Error>>>::Ready(
            Some(Ok(Message::Binary(payload))),
        ) || events[0] == Poll::<Option<Result<Message, tungstenite::Error>>>::Ready(
            Some(Ok(Message::Frame(payload))),
        ),
    ensures
        ({
            let (next, outcome, rest) = state.read(n, events);
            if contents(payload).len() == 0 {
                (next, outcome, rest) == state.read(n, events.skip(1))
            } else {
                &&& rest == events.skip(1)
                &&& outcome matches Some(Outcome::Data(data)) && is_split(
                    contents(payload),
                    n,
                    data,
                    next.buffered,
                )
                &&& !next.ended
                &&& next.policy == state.policy
                &&& next.retained == state.retained
            }
        }),
{
    let data = contents(payload);
    let k = if data.len() <= n { data.len() as int } else { n as int };
    assert(data.take(k) + data.skip(k) =~= data);
}

/// A read that needs a message gives the payload of a ping or pong frame where the policy asks
/// for all frames. Where the policy retains control frames, it sets the frame aside behind those
/// that were set aside before, and reads on. Under every other policy it reads on as if the
/// frame had not been there, and so it does with an empty payload where all frames are asked
/// for.
pub proof fn pings_and_pongs_follow_the_policy(
    state: ReaderState,
    n: nat,
    events: Seq<StreamEvent>,
    msg: Message,
    payload: tungstenite::Bytes,
)
    requires
        n > 0,
        !state.ended,
        state.buffered.len() == 0,
        events.len() > 0,
        events[0] == Poll::<Option<Result<Message, tungstenite::Error>>>::Ready(Some(Ok(msg))),
        msg == Message::Ping(payload) || msg == Message::Pong(payload),
    ensures
        ({
            let (next, outcome, rest) = state.read(n, events);
            match state.policy {
                FramePolicy::RetainControlFrames => (next, outcome, rest) == (ReaderState {
                    retained: state.retained.push(msg),
                    ..state
                }).read(n, events.skip(1)),
                FramePolicy::All => if contents(payload).len() == 0 {
                    (next, outcome, rest) == state.read(n, events.skip(1))
                } else {
                    &&& rest == events.skip(1)
                    &&& outcome matches Some(Outcome::Data(data)) && is_split(
                        contents(payload),
                        n,
                        data,
                        next.buffered,
                    )
                    &&& !next.ended
                    &&& next.policy == state.policy
                    &&& next.retained == state.retained
                },
                _ => (next, outcome, rest) == state.read(n, events.skip(1)),
            }
        }),
{
    let data = contents(payload);
    let k = if data.len() <= n { data.len() as int } else { n as int };
    assert(data.take(k) + data.skip(k) =~= data);
}

/// Whether an event is a message that adds no bytes, and that is not a close frame.
pub open spec fn adds_nothing(policy: FramePolicy, event: StreamEvent) -> bool {
    match event {
        Poll::Ready(Some(Ok(Message::Text(text)))) => policy == FramePolicy::Binary || encode_utf8(
            text@,
        ).len() == 0,
        Poll::Ready(Some(Ok(Message::Binary(data)))) => contents(data).len() == 0,
        Poll::Ready(Some(Ok(Message::Frame(data)))) => contents(data).len() == 0,
        Poll::Ready(Some(Ok(Message::Ping(data)))) => policy != FramePolicy::All || contents(
            data,
        ).len() == 0,
        Poll::Ready(Some(Ok(Message::Pong(data)))) => policy != FramePolicy::All || contents(
            data,
        ).len() == 0,
        _ => false,
    }
}

/// Whether `k` is the place of the first event that is not a message that adds nothing.
pub open spec fn is_first(policy: FramePolicy, events: Seq<StreamEvent>, k: int) -> bool {
    &&& 0 <= k < events.len()
    &&& forall|j: int| 0 <= j < k ==> adds_nothing(policy, #[trigger] events[j])
    &&& !adds_nothing(policy, events[k])
}

/// The first event that is not a message that adds nothing decides a read that needs a message,
/// and is the last one that it takes: the read waits if and only if that event is a waiting one,
/// fails with an error if and only if that event is the failure with this error, gives the end
/// if and only if that event is the end of the stream or a close frame, and gives bytes if and
/// only if it is another message.
pub proof fn the_first_event_that_matters_decides(
    state: ReaderState,
    n: nat,
    events: Seq<StreamEvent>,
    k: int,
)
    requires
        n > 0,
        !state.ended,
        state.buffered.len() == 0,
        is_first(state.policy, events, k),
    ensures
        ({
            let (next, outcome, rest) = state.read(n, events);
            &&& rest == events.skip(k + 1)
            &&& outcome == Some(Outcome::Pending) <==> events[k] is Pending
            &&& outcome matches Some(Outcome::Failed(e)) ==> events[k] == Poll::<
                Option<Result<Message, tungstenite::Error>>,
            >::Ready(Some(Err(e)))
            &&& events[k] matches Poll::Ready(Some(Err(e))) ==> outcome == Some(Outcome::Failed(e))
            &&& outcome == Some(Outcome::Eof) <==> (events[k] matches Poll::Ready(None)) || (
            events[k] matches Poll::Ready(Some(Ok(m))) && m is Close)
            &&& (outcome matches Some(Outcome::Data(_))) <==> (events[k] matches Poll::Ready(
                Some(Ok(m)),
            ) && !(m is Close))
        }),
    decreases k,
{
    if k > 0 {
        let tail = events.skip(1);
        let (resumed, outcome) = state.resume(n, events[0]);
        assert(adds_nothing(state.policy, events[0]));
        assert(outcome is None);
        assert(tail[k - 1] == events[k]);
        assert forall|j: int| 0 <= j < k - 1 implies adds_nothing(
            state.policy,
            #[trigger] tail[j],
        ) by {
            assert(adds_nothing(state.policy, events[j + 1]));
        }
        the_first_event_that_matters_decides(resumed, n, tail, k - 1);
        assert(tail.skip(k) =~= events.skip(k + 1));
    }
}

/// A read that needs a message has no outcome if and only if it is given nothing but messages
/// that add nothing, all of which it then takes.
pub proof fn a_read_has_no_outcome_without_an_event_that_matters(
    state: ReaderState,
    n: nat,
    events: Seq<StreamEvent>,
)
    requires
        n > 0,
        !state.ended,
        state.buffered.len() == 0,
    ensures
        state.read(n, events).1 is None <==> forall|j: int|
            0 <= j < events.len() ==> adds_nothing(state.policy, #[trigger] events[j]),
        state.read(n, events).1 is None ==> state.read(n, events).2.len() == 0,
    decreases events.len(),
{
    if events.len() > 0 {
        let tail = events.skip(1);
        let (resumed, outcome) = state.resume(n, events[0]);
        if outcome is None {
            assert(adds_nothing(state.policy, events[0]));
            a_read_has_no_outcome_without_an_event_that_matters(resumed, n, tail);
            if forall|j: int| 0 <= j < events.len() ==> adds_nothing(
                state.policy,
                #[trigger] events[j],
            ) {
                assert forall|j: int| 0 <= j < tail.len() implies adds_nothing(
                    state.policy,
                    #[trigger] tail[j],
                ) by {
                    assert(adds_nothing(state.policy, events[j + 1]));
                }
            }
            if forall|j: int| 0 <= j < tail.len() ==> adds_nothing(
                state.policy,
                #[trigger] tail[j],
            ) {
                assert forall|j: int| 0 <= j < events.len() implies adds_nothing(
                    state.policy,
                    #[trigger] events[j],
                ) by {
                    if j > 0 {
                        assert(adds_nothing(state.policy, tail[j - 1]));
                    }
                }
            }
        } else {
            assert(!adds_nothing(state.policy, events[0]));
        }
    }
}

/// A stream that gives one text holds its UTF-8 encoding, whole, unless only binary messages
/// contribute; then it holds nothing.
pub proof fn a_stream_of_one_text(policy: FramePolicy, text: String)
    ensures
        ({
            let events: Seq<StreamEvent> = seq![Poll::Ready(Some(Ok(Message::Text(text))))];
            &&& stream_bytes(policy, events) == if policy == FramePolicy::Binary {
                Seq::<u8>::empty()
            } else {
                encode_utf8(text@)
            }
            &&& stream_control(policy, events).len() == 0
        }),
{
    let events: Seq<StreamEvent> = seq![Poll::Ready(Some(Ok(Message::Text(text))))];
    reveal_with_fuel(stream_bytes, 2);
    reveal_with_fuel(stream_control, 2);
    assert(encode_utf8(text@) + Seq::<u8>::empty() =~= encode_utf8(text@));
    if encode_utf8(text@).len() == 0 {
        assert(encode_utf8(text@) =~= Seq::<u8>::empty());
    }
    assert(events.skip(1) =~= Seq::empty());
}

/// A stream that gives one binary message or one raw frame holds its payload, whole, under every
/// policy.
pub proof fn a_stream_of_one_payload(policy: FramePolicy, payload: tungstenite::Bytes, msg: Message)
    requires
        msg == Message::Binary(payload) || msg == Message::Frame(payload),
    ensures
        ({
            let events: Seq<StreamEvent> = seq![Poll::Ready(Some(Ok(msg)))];
            &&& stream_bytes(policy, events) == contents(payload)
            &&& stream_control(policy, events).len() == 0
        }),
{
    let events: Seq<StreamEvent> = seq![Poll::Ready(Some(Ok(msg)))];
    reveal_with_fuel(stream_bytes, 2);
    reveal_with_fuel(stream_control, 2);
    assert(contents(payload) + Seq::<u8>::empty() =~= contents(payload));
    if contents(payload).len() == 0 {
        assert(contents(payload) =~= Seq::<u8>::empty());
    }
    assert(events.skip(1) =~= Seq::empty());
}

/// A stream that gives one ping or pong frame holds its payload, whole, where the policy asks for
/// all frames, and else nothing. The frame is set aside where the policy retains control frames,
/// and else not.
pub proof fn a_stream_of_one_ping_or_pong(
    policy: FramePolicy,
    payload: tungstenite::Bytes,
    msg: Message,
)
    requires
        msg == Message::Ping(payload) || msg == Message::Pong(payload),
    ensures
        ({
            let events: Seq<StreamEvent> = seq![Poll::Ready(Some(Ok(msg)))];
            &&& stream_bytes(policy, events) == if policy == FramePolicy::All {
                contents(payload)
            } else {
                Seq::<u8>::empty()
            }
            &&& stream_control(policy, events) == if policy == FramePolicy::RetainControlFrames {
                seq![msg]
            } else {
                Seq::<Message>::empty()
            }
        }),
{
    let events: Seq<StreamEvent> = seq![Poll::Ready(Some(Ok(msg)))];
    reveal_with_fuel(stream_bytes, 2);
    reveal_with_fuel(stream_control, 2);
    assert(contents(payload) + Seq::<u8>::empty() =~= contents(payload));
    if contents(payload).len() == 0 {
        assert(contents(payload) =~= Seq::<u8>::empty());
    }
    assert(seq![msg] + Seq::<Message>::empty() =~= seq![msg]);
    assert(events.skip(1) =~= Seq::empty());
}

/// A stream that gives one close frame holds no bytes. The frame is set aside where the policy
/// retains control frames, and else not.
pub proof fn a_stream_of_one_close_frame(policy: FramePolicy, msg: Message)
    requires
        msg is Close,
    ensures
        ({
            let events: Seq<StreamEvent> = seq![Poll::Ready(Some(Ok(msg)))];
            &&& stream_bytes(policy, events).len() == 0
            &&& stream_control(policy, events) == if policy == FramePolicy::RetainControlFrames {
                seq![msg]
            } else {
                Seq::<Message>::empty()
            }
        }),
{
}

/// A stream that waits, fails or ends holds no bytes by that, and nothing is set aside.
pub proof fn a_stream_of_one_other_event(policy: FramePolicy, event: StreamEvent)
    requires
        !(event matches Poll::Ready(Some(Ok(_)))),
    ensures
        stream_bytes(policy, seq![event]).len() == 0,
        stream_control(policy, seq![event]).len() == 0,
{
    reveal_with_fuel(stream_bytes, 2);
    reveal_with_fuel(stream_control, 2);
}

/// Streams add up: what a stream holds that goes on after its first part is what the first part
/// holds and then what the rest holds, if the first part has no end of the stream and no close
/// frame.
pub proof fn streams_add_up(
    policy: FramePolicy,
    first: Seq<StreamEvent>,
    rest: Seq<StreamEvent>,
)
    requires
        forall|i: int|
            0 <= i < first.len() ==> !(#[trigger] first[i] matches Poll::Ready(None)) && !(
            first[i] matches Poll::Ready(Some(Ok(m))) && m is Close),
    ensures
        stream_bytes(policy, first + rest) == stream_bytes(policy, first) + stream_bytes(
            policy,
            rest,
        ),
        stream_control(policy, first + rest) == stream_control(policy, first) + stream_control(
            policy,
            rest,
        ),
    decreases first.len(),
{
    let all = first + rest;
    if first.len() == 0 {
        assert(all =~= rest);
        assert(stream_bytes(policy, first) + stream_bytes(policy, rest) =~= stream_bytes(
            policy,
            rest,
        ));
        assert(stream_control(policy, first) + stream_control(policy, rest) =~= stream_control(
            policy,
            rest,
        ));
    } else {
        assert(all[0] == first[0]);
        assert(!is_last(policy, first[0]));
        assert(all.skip(1) =~= first.skip(1) + rest);
        streams_add_up(policy, first.skip(1), rest);
        assert(stream_bytes(policy, all) =~= stream_bytes(policy, first) + stream_bytes(
            policy,
            rest,
        ));
        assert(stream_control(policy, all) =~= stream_control(policy, first) + stream_control(
            policy,
            rest,
        ));
    }
}

/// The end of the stream hides all that comes after it.
pub proof fn the_end_of_the_stream_hides_what_follows(
    policy: FramePolicy,
    before: Seq<StreamEvent>,
    after: Seq<StreamEvent>,
)
    ensures
        ({
            let end: StreamEvent = Poll::Ready(None);
            &&& stream_bytes(policy, before.push(end) + after) == stream_bytes(policy, before)
            &&& stream_control(policy, before.push(end) + after) == stream_control(policy, before)
        }),
    decreases before.len(),
{
    let end: StreamEvent = Poll::Ready(None);
    let all = before.push(end) + after;
    if before.len() > 0 {
        assert(all.skip(1) =~= before.skip(1).push(end) + after);
        the_end_of_the_stream_hides_what_follows(policy, before.skip(1), after);
    }
}

/// What is still to be read is what is left of a message that has been read in part, and then
/// what the stream holds; nothing once the byte stream has ended. The control frames that are
/// still to be fetched are those that were set aside, and then those of the stream.
pub proof fn what_is_ahead(state: ReaderState, events: Seq<StreamEvent>)
    ensures
        state.ended ==> state.ahead(events).len() == 0 && state.control_ahead(events)
            == state.retained,
        !state.ended ==> state.ahead(events) == state.buffered + stream_bytes(state.policy, events)
            && state.control_ahead(events) == state.retained + stream_control(
            state.policy,
            events,
        ),
{
}

/// A step of a read tells its outcome: it asks for a message if and only if there is none, gives
/// exactly the bytes that were read, the end at the end, waits where the stream waits, and reports
/// the very error of the stream.
pub proof fn a_step_tells_the_outcome(step: ReadStep, outcome: Option<Outcome>)
    requires
        step.is(outcome),
    ensures
        step is NeedMessage <==> outcome is None,
        step matches ReadStep::Return(Poll::Ready(Ok(Some(b)))) ==> outcome == Some(
            Outcome::Data(contents(b)),
        ),
        (step matches ReadStep::Return(Poll::Ready(Ok(None)))) <==> outcome == Some(Outcome::Eof),
        (step matches ReadStep::Return(Poll::Pending)) <==> outcome == Some(Outcome::Pending),
        step matches ReadStep::Return(Poll::Ready(Err(io))) ==> (outcome matches Some(
            Outcome::Failed(e),
        ) && match io_cause(e) {
            Some(cause) => io == cause,
            None => is_kind_other(io) && inner_error(io) == Some(e),
        }),
{
}

/// A read into a buffer gives the caller, in as many bytes of the buffer as it counts, exactly
/// the bytes that leave what is still to be read; the rest of the buffer is as it was. It counts
/// no bytes, where there is room for some, if and only if the byte stream has ended. A read that
/// counts nothing, as it waits, fails or needs a message, leaves the buffer and all the bytes as
/// they were; and it waits or fails as the last event says that it took.
///
/// `buf` is the buffer before the read, `filled` the one after it.
pub proof fn a_counted_read_gives_what_was_ahead(
    state: ReaderState,
    buf: Seq<u8>,
    events: Seq<StreamEvent>,
    filled: Seq<u8>,
    r: Option<Poll<Result<usize, io::Error>>>,
)
    requires
        state.valid(),
        match state.read(buf.len(), events).1 {
            None => r is None,
            Some(outcome) => r matches Some(polled) && outcome.reported_by(polled),
        },
        filled == match state.read(buf.len(), events).1 {
            Some(Outcome::Data(data)) => data + buf.skip(data.len() as int),
            _ => buf,
        },
    ensures
        ({
            let (next, _, rest) = state.read(buf.len(), events);
            let taken = events.len() - rest.len();
            &&& r matches Some(Poll::Ready(Ok(n))) ==> {
                &&& n <= buf.len()
                &&& filled.take(n as int) + next.ahead(rest) == state.ahead(events)
                &&& filled.skip(n as int) == buf.skip(n as int)
                &&& n == buf.len() || next.buffered.len() == 0
                &&& buf.len() > 0 ==> (n == 0 <==> next.ended)
            }
            &&& !(r matches Some(Poll::Ready(Ok(_)))) ==> filled == buf && next.ahead(rest)
                == state.ahead(events)
            &&& (r matches Some(Poll::Pending)) <==> taken > 0 && events[taken - 1] is Pending
            &&& (r matches Some(Poll::Ready(Err(_)))) <==> taken > 0 && (events[taken
                - 1] matches Poll::Ready(Some(Err(_))))
            &&& r matches Some(Poll::Ready(Err(io))) ==> (events[taken - 1] matches Poll::Ready(
                Some(Err(e)),
            ) && match io_cause(e) {
                Some(cause) => io == cause,
                None => is_kind_other(io) && inner_error(io) == Some(e),
            })
        }),
{
    a_read_loses_nothing(state, buf.len(), events);
    what_a_read_takes_decides_it(state, buf.len(), events);
    let (next, outcome, rest) = state.read(buf.len(), events);
    if let Some(Outcome::Data(data)) = outcome {
        assert(filled.take(data.len() as int) =~= data);
        assert(filled.skip(data.len() as int) =~= buf.skip(data.len() as int));
    } else {
        assert(filled.take(0) + next.ahead(rest) =~= next.ahead(rest));
        assert(Seq::<u8>::empty() + next.ahead(rest) =~= next.ahead(rest));
        assert(filled.skip(0) =~= buf.skip(0));
    }
}

} // verus!
