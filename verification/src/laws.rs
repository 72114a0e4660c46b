//! What holds of a reader and a writer over many operations.

use crate::message::Message;
use crate::policy::{FramePolicy, Projection};
use crate::poll::Poll;
use crate::reader::{Outcome, ReaderState, StreamEvent};
use crate::writer::{
    closed_with, is_binary_of, poll_reported_as, write_begun, write_finished, writer_closed,
    writer_wrote, ByteWriter, SealedSender, SinkWrite, State,
};
use std::io;
use vstd::prelude::*;

verus! {

/// The bytes that a read gave.
pub open spec fn bytes_of(outcome: Option<Outcome>) -> Seq<u8> {
    match outcome {
        Some(Outcome::Data(data)) => data,
        _ => Seq::empty(),
    }
}

/// The bytes that a series of reads gave, in order.
pub open spec fn bytes_of_all(outcomes: Seq<Option<Outcome>>) -> Seq<u8>
    decreases outcomes.len(),
{
    if outcomes.len() == 0 {
        Seq::empty()
    } else {
        bytes_of(outcomes[0]) + bytes_of_all(outcomes.skip(1))
    }
}

/// The projection of the message that the stream gave, if it gave one.
pub open spec fn event_projection(policy: FramePolicy, event: StreamEvent) -> Option<Projection> {
    match event {
        Poll::Ready(Some(Ok(msg))) => Some(policy.projection(msg)),
        _ => None,
    }
}

/// Whether nothing of the byte stream comes after this event.
pub open spec fn is_last(policy: FramePolicy, event: StreamEvent) -> bool {
    match event {
        Poll::Ready(None) => true,
        _ => event_projection(policy, event) matches Some(Projection::Close(_)),
    }
}

/// The bytes that an event contributes.
pub open spec fn event_bytes(policy: FramePolicy, event: StreamEvent) -> Seq<u8> {
    match event_projection(policy, event) {
        Some(Projection::Payload(data)) => data,
        _ => Seq::empty(),
    }
}

/// The control frame that an event has set aside, as a sequence of at most one.
pub open spec fn event_control(policy: FramePolicy, event: StreamEvent) -> Seq<Message> {
    match event_projection(policy, event) {
        Some(Projection::Retain(msg)) => seq![msg],
        Some(Projection::Close(Some(msg))) => seq![msg],
        _ => Seq::empty(),
    }
}

/// The byte stream that a stream of messages stands for: the payloads, in order, up to a close
/// frame or the end of the stream.
pub open spec fn stream_bytes(policy: FramePolicy, events: Seq<StreamEvent>) -> Seq<u8>
    decreases events.len(),
{
    if events.len() == 0 {
        Seq::empty()
    } else if is_last(policy, events[0]) {
        Seq::empty()
    } else {
        event_bytes(policy, events[0]) + stream_bytes(policy, events.skip(1))
    }
}

/// The control frames of a stream of messages that are set aside, in order, up to and with a
/// close frame.
pub open spec fn stream_control(policy: FramePolicy, events: Seq<StreamEvent>) -> Seq<Message>
    decreases events.len(),
{
    if events.len() == 0 {
        Seq::empty()
    } else if is_last(policy, events[0]) {
        event_control(policy, events[0])
    } else {
        event_control(policy, events[0]) + stream_control(policy, events.skip(1))
    }
}

impl ReaderState {
    /// The bytes that are still to be read.
    pub open spec fn ahead(self, events: Seq<StreamEvent>) -> Seq<u8> {
        if self.ended {
            Seq::empty()
        } else {
            self.buffered + stream_bytes(self.policy, events)
        }
    }

    /// The control frames that are still to be fetched, or to be set aside.
    pub open spec fn control_ahead(self, events: Seq<StreamEvent>) -> Seq<Message> {
        if self.ended {
            self.retained
        } else {
            self.retained + stream_control(self.policy, events)
        }
    }

    /// A series of reads, of at most `lens[i]` bytes each: the state after them, their outcomes
    /// and what the stream has still to give.
    pub open spec fn read_many(self, lens: Seq<nat>, events: Seq<StreamEvent>) -> (
        ReaderState,
        Seq<Option<Outcome>>,
        Seq<StreamEvent>,
    )
        decreases lens.len(),
    {
        if lens.len() == 0 {
            (self, Seq::empty(), events)
        } else {
            let (next, outcome, rest) = self.read(lens[0], events);
            let (last, outcomes, left) = next.read_many(lens.skip(1), rest);
            (last, seq![outcome] + outcomes, left)
        }
    }
}

/// What a read gives and what is then still to be read is what was to be read before, and
/// likewise for the control frames.
pub proof fn a_read_loses_nothing(state: ReaderState, n: nat, events: Seq<StreamEvent>)
    requires
        state.valid(),
    ensures
        ({
            let (next, outcome, rest) = state.read(n, events);
            &&& next.valid()
            &&& next.policy == state.policy
            &&& bytes_of(outcome) + next.ahead(rest) == state.ahead(events)
            &&& next.control_ahead(rest) == state.control_ahead(events)
        }),
    decreases events.len(),
{
    let (started, outcome) = state.start(n);
    if outcome is Some {
        let k = if state.buffered.len() <= n { state.buffered.len() as int } else { n as int };
        assert(state.buffered.take(k) + state.buffered.skip(k) =~= state.buffered);
        assert(bytes_of(outcome) + started.ahead(events) =~= state.ahead(events));
    } else if events.len() == 0 {
        assert(bytes_of(outcome) + started.ahead(events) =~= state.ahead(events));
    } else {
        let rest = events.skip(1);
        let (resumed, outcome) = started.resume(n, events[0]);
        assert(resumed.control_ahead(rest) =~= state.control_ahead(events));
        if outcome is Some {
            if let Some(Projection::Payload(data)) = event_projection(state.policy, events[0]) {
                let k = if data.len() <= n { data.len() as int } else { n as int };
                assert(data.take(k) + data.skip(k) =~= data);
            }
            assert(bytes_of(outcome) + resumed.ahead(rest) =~= state.ahead(events));
        } else {
            a_read_loses_nothing(resumed, n, rest);
            assert(resumed.ahead(rest) =~= state.ahead(events));
        }
    }
}

/// A read that needs more than was given has taken all of it, and goes on with what is given
/// next as if it had been given everything at once.
pub proof fn a_read_can_be_continued(
    state: ReaderState,
    n: nat,
    given: Seq<StreamEvent>,
    more: Seq<StreamEvent>,
)
    requires
        state.read(n, given).1 is None,
    ensures
        state.read(n, given).2.len() == 0,
        state.read(n, given + more) == state.read(n, given).0.read(n, more),
    decreases given.len(),
{
    if given.len() == 0 {
        assert(given + more =~= more);
    } else {
        let (resumed, outcome) = state.resume(n, given[0]);
        assert((given + more).skip(1) =~= given.skip(1) + more);
        a_read_can_be_continued(resumed, n, given.skip(1), more);
    }
}

/// What a read takes from the stream decides its outcome.
///
/// It takes events from the front, none where it asks for nothing, the byte stream has ended or
/// a message has been read in part, and else at least one if there is one. Every event before
/// the last one that it takes is a message, and no close frame: no waiting, failure or end is
/// passed over. The read waits if and only if the last event that it takes is a waiting one; it
/// fails, with the very error, if and only if that event is a failure; it gives the end if and
/// only if the byte stream has then ended. The bytes that it gives are as many as it asked for,
/// or all that is left of the message.
pub proof fn what_a_read_takes_decides_it(state: ReaderState, n: nat, events: Seq<StreamEvent>)
    requires
        state.valid(),
    ensures
        ({
            let (next, outcome, rest) = state.read(n, events);
            let taken = events.len() - rest.len();
            &&& 0 <= taken
            &&& rest == events.skip(taken)
            &&& taken == 0 <==> n == 0 || state.ended || state.buffered.len() > 0 || events.len()
                == 0
            &&& forall|j: int|
                0 <= j < taken - 1 ==> (#[trigger] events[j] matches Poll::Ready(Some(Ok(m))) && !(
                m is Close))
            &&& outcome is None ==> {
                &&& n > 0
                &&& !next.ended
                &&& next.buffered.len() == 0
                &&& rest.len() == 0
                &&& forall|j: int|
                    0 <= j < taken ==> (#[trigger] events[j] matches Poll::Ready(Some(Ok(m)))
                        && !(m is Close))
            }
            &&& outcome == Some(Outcome::Pending) <==> taken > 0 && events[taken - 1] is Pending
            &&& outcome matches Some(Outcome::Failed(e)) ==> taken > 0 && events[taken - 1]
                == Poll::<Option<Result<Message, tungstenite::Error>>>::Ready(Some(Err(e)))
            &&& taken > 0 ==> (events[taken - 1] matches Poll::Ready(Some(Err(e))) ==> outcome
                == Some(Outcome::Failed(e)))
            &&& outcome == Some(Outcome::Eof) <==> n > 0 && next.ended
            &&& taken > 0 ==> (next.ended <==> (events[taken - 1] matches Poll::Ready(None)) || (
            events[taken - 1] matches Poll::Ready(Some(Ok(m))) && m is Close))
            &&& outcome matches Some(Outcome::Data(data)) ==> {
                &&& data.len() <= n
                &&& n > 0 ==> data.len() > 0
                &&& data.len() == n || next.buffered.len() == 0
            }
        }),
    decreases events.len(),
{
    let (next, outcome, rest) = state.read(n, events);
    let (started, start_outcome) = state.start(n);
    if start_outcome is Some || events.len() == 0 {
        assert(events.skip(0) =~= events);
    } else {
        let tail = events.skip(1);
        let (resumed, resume_outcome) = started.resume(n, events[0]);
        if resume_outcome is None {
            what_a_read_takes_decides_it(resumed, n, tail);
            let taken = events.len() - rest.len();
            assert(rest =~= events.skip(taken));
            assert forall|j: int| 1 <= j < events.len() implies #[trigger] events[j] == tail[j
                - 1] by {}
        }
    }
}

/// A series of reads gives the byte stream in order: nothing is lost, repeated or mixed,
/// whatever the sizes of the reads. The control frames that are set aside keep their order too.
pub proof fn reads_give_the_stream_in_order(
    state: ReaderState,
    lens: Seq<nat>,
    events: Seq<StreamEvent>,
)
    requires
        state.valid(),
    ensures
        ({
            let (last, outcomes, left) = state.read_many(lens, events);
            &&& last.valid()
            &&& last.policy == state.policy
            &&& bytes_of_all(outcomes) + last.ahead(left) == state.ahead(events)
            &&& last.control_ahead(left) == state.control_ahead(events)
        }),
    decreases lens.len(),
{
    if lens.len() == 0 {
        assert(bytes_of_all(Seq::empty()) + state.ahead(events) =~= state.ahead(events));
    } else {
        let (next, outcome, rest) = state.read(lens[0], events);
        let (last, outcomes, left) = next.read_many(lens.skip(1), rest);
        a_read_loses_nothing(state, lens[0], events);
        reads_give_the_stream_in_order(next, lens.skip(1), rest);
        let all = seq![outcome] + outcomes;
        assert(all.skip(1) =~= outcomes);
        assert(bytes_of_all(all) =~= bytes_of(outcome) + bytes_of_all(outcomes));
        assert(bytes_of_all(all) + last.ahead(left) =~= bytes_of(outcome) + (bytes_of_all(outcomes)
            + last.ahead(left)));
    }
}

/// Reads up to the end of the byte stream give all of it.
pub proof fn reads_to_the_end_give_everything(
    state: ReaderState,
    lens: Seq<nat>,
    events: Seq<StreamEvent>,
)
    requires
        state.valid(),
        state.read_many(lens, events).0.ended,
    ensures
        bytes_of_all(state.read_many(lens, events).1) == state.ahead(events),
        state.read_many(lens, events).0.retained == state.control_ahead(events),
{
    reads_give_the_stream_in_order(state, lens, events);
    let outcomes = state.read_many(lens, events).1;
    assert(bytes_of_all(outcomes) + Seq::<u8>::empty() =~= bytes_of_all(outcomes));
}

/// The sizes of the reads do not matter to what is read up to the end.
pub proof fn read_sizes_do_not_matter(
    state: ReaderState,
    lens: Seq<nat>,
    other_lens: Seq<nat>,
    events: Seq<StreamEvent>,
)
    requires
        state.valid(),
        state.read_many(lens, events).0.ended,
        state.read_many(other_lens, events).0.ended,
    ensures
        bytes_of_all(state.read_many(lens, events).1) == bytes_of_all(
            state.read_many(other_lens, events).1,
        ),
        state.read_many(lens, events).0 == state.read_many(other_lens, events).0,
{
    reads_to_the_end_give_everything(state, lens, events);
    reads_to_the_end_give_everything(state, other_lens, events);
    reads_give_the_stream_in_order(state, lens, events);
    reads_give_the_stream_in_order(state, other_lens, events);
    assert(state.read_many(lens, events).0 =~= state.read_many(other_lens, events).0);
}

/// Once the byte stream has ended, every read gives the end again, or nothing if it asked for
/// nothing. The reader does not change, and nothing more is taken from the stream.
pub proof fn the_end_is_stable(state: ReaderState, lens: Seq<nat>, events: Seq<StreamEvent>)
    requires
        state.ended,
    ensures
        ({
            let (last, outcomes, left) = state.read_many(lens, events);
            &&& last == state
            &&& left == events
            &&& outcomes.len() == lens.len()
            &&& forall|i: int|
                0 <= i < lens.len() ==> #[trigger] outcomes[i] == Some(
                    if lens[i] == 0 {
                        Outcome::Data(Seq::empty())
                    } else {
                        Outcome::Eof
                    },
                )
        }),
    decreases lens.len(),
{
    if lens.len() > 0 {
        the_end_is_stable(state, lens.skip(1), events);
        let (last, outcomes, left) = state.read_many(lens.skip(1), events);
        assert forall|i: int| 0 < i < lens.len() implies #[trigger] (seq![
            state.read(lens[0], events).1,
        ] + outcomes)[i] == outcomes[i - 1] && lens[i] == lens.skip(1)[i - 1] by {}
    }
}

/// A read that asks for nothing gives nothing, is not mistaken for the end, and neither changes
/// the reader nor takes anything from the stream.
pub proof fn a_read_of_no_bytes_changes_nothing(state: ReaderState, events: Seq<StreamEvent>)
    ensures
        state.read(0, events) == (state, Some(Outcome::Data(Seq::empty())), events),
{
}

/// A read that asks for something gives the end if and only if the byte stream has ended by
/// then.
pub proof fn the_end_is_given_when_reached(state: ReaderState, n: nat, events: Seq<StreamEvent>)
    requires
        n > 0,
    ensures
        state.read(n, events).1 == Some(Outcome::Eof) <==> state.read(n, events).0.ended,
    decreases events.len(),
{
    let (started, outcome) = state.start(n);
    if outcome is None && events.len() > 0 {
        let (resumed, outcome) = started.resume(n, events[0]);
        if outcome is None {
            the_end_is_given_when_reached(resumed, n, events.skip(1));
        }
    }
}

/// A read that finds the stream failing or without anything to give keeps the byte stream as it
/// is: the reading can go on.
pub proof fn failing_does_not_end_the_stream(
    state: ReaderState,
    n: nat,
    events: Seq<StreamEvent>,
)
    requires
        state.read(n, events).1 matches Some(outcome) && (outcome is Failed || outcome is Pending),
    ensures
        !state.read(n, events).0.ended,
        state.read(n, events).0.buffered == state.buffered,
        state.read(n, events).0.policy == state.policy,
    decreases events.len(),
{
    let (resumed, outcome) = state.resume(n, events[0]);
    if outcome is None {
        failing_does_not_end_the_stream(resumed, n, events.skip(1));
    }
}

/// Whether an event is a message of which nothing surfaces, and which does not end the byte
/// stream.
pub open spec fn is_passed_over(policy: FramePolicy, event: StreamEvent) -> bool {
    event_projection(policy, event) matches Some(p) && (p is Skip || p is Retain)
}

/// Whether the bytes `data` and then `left` are, together, the payload of the message at `k`,
/// the first of the stream that is not passed over.
pub open spec fn is_from_message(
    policy: FramePolicy,
    events: Seq<StreamEvent>,
    k: int,
    data: Seq<u8>,
    left: Seq<u8>,
) -> bool {
    &&& 0 <= k < events.len()
    &&& forall|j: int| 0 <= j < k ==> is_passed_over(policy, #[trigger] events[j])
    &&& event_projection(policy, events[k]) == Some(Projection::Payload(data + left))
}

/// A read gives at least one byte and at most as many as it asked for, all of them from one
/// message: from the one that had been read in part, or else from the next that has a payload.
pub proof fn a_read_is_from_one_message(
    state: ReaderState,
    n: nat,
    events: Seq<StreamEvent>,
    data: Seq<u8>,
)
    requires
        n > 0,
        state.read(n, events).1 == Some(Outcome::Data(data)),
    ensures
        0 < data.len() <= n,
        ({
            let (next, _, rest) = state.read(n, events);
            if state.buffered.len() > 0 {
                data + next.buffered == state.buffered && rest == events
            } else {
                exists|k: int|
                    #![trigger is_from_message(state.policy, events, k, data, next.buffered)]
                    is_from_message(state.policy, events, k, data, next.buffered) && rest
                        == events.skip(k + 1)
            }
        }),
    decreases events.len(),
{
    let (next, _, rest) = state.read(n, events);
    if state.buffered.len() > 0 {
        assert(data + next.buffered =~= state.buffered);
    } else {
        let (resumed, outcome) = state.resume(n, events[0]);
        if outcome is Some {
            let payload = event_projection(state.policy, events[0])->0->Payload_0;
            assert(data + next.buffered =~= payload);
            assert(is_from_message(state.policy, events, 0, data, next.buffered));
        } else {
            let tail = events.skip(1);
            a_read_is_from_one_message(resumed, n, tail, data);
            let k = choose|k: int|
                #![trigger is_from_message(state.policy, tail, k, data, next.buffered)]
                is_from_message(state.policy, tail, k, data, next.buffered) && rest == tail.skip(
                    k + 1,
                );
            assert forall|j: int| 0 <= j < k + 1 implies is_passed_over(
                state.policy,
                #[trigger] events[j],
            ) by {
                if j > 0 {
                    assert(tail[j - 1] == events[j]);
                }
            }
            assert(is_from_message(state.policy, events, k + 1, data, next.buffered));
            assert(rest =~= events.skip(k + 2));
        }
    }
}

/// Whether the stream gives an end of the byte stream.
pub open spec fn has_end(policy: FramePolicy, events: Seq<StreamEvent>) -> bool {
    exists|k: int| 0 <= k < events.len() && is_last(policy, #[trigger] events[k])
}

/// A read of a stream that has an end has an outcome, and takes something of what is ahead
/// unless it gives the end.
proof fn a_read_makes_progress(state: ReaderState, n: nat, events: Seq<StreamEvent>)
    requires
        state.valid(),
        !state.ended,
        n > 0,
        has_end(state.policy, events),
    ensures
        ({
            let (next, outcome, rest) = state.read(n, events);
            &&& outcome is Some
            &&& next.ended || {
                &&& has_end(state.policy, rest)
                &&& next.ahead(rest).len() + rest.len() < state.ahead(events).len() + events.len()
            }
        }),
    decreases events.len(),
{
    a_read_loses_nothing(state, n, events);
    let (started, outcome) = state.start(n);
    if outcome is None {
        let rest = events.skip(1);
        let (resumed, outcome) = started.resume(n, events[0]);
        if !resumed.ended {
            let k = choose|k: int|
                0 <= k < events.len() && is_last(state.policy, #[trigger] events[k]);
            assert(rest[k - 1] == events[k]);
            if outcome is None {
                a_read_makes_progress(resumed, n, rest);
                assert(resumed.ahead(rest) =~= state.ahead(events));
            }
        }
    }
}

/// Reads of at least one byte each reach the end of the byte stream, if the stream gives one and
/// there are enough of them: one for each byte that is ahead, one for each event, and one more.
pub proof fn enough_reads_reach_the_end(
    state: ReaderState,
    lens: Seq<nat>,
    events: Seq<StreamEvent>,
)
    requires
        state.valid(),
        has_end(state.policy, events),
        forall|i: int| 0 <= i < lens.len() ==> #[trigger] lens[i] > 0,
        lens.len() > state.ahead(events).len() + events.len(),
    ensures
        state.read_many(lens, events).0.ended,
    decreases lens.len(),
{
    if state.ended {
        the_end_is_stable(state, lens, events);
    } else {
        a_read_makes_progress(state, lens[0], events);
        a_read_loses_nothing(state, lens[0], events);
        let (next, outcome, rest) = state.read(lens[0], events);
        if next.ended {
            the_end_is_stable(next, lens.skip(1), rest);
        } else {
            enough_reads_reach_the_end(next, lens.skip(1), rest);
        }
    }
}

/// A message that is passed over can be left out of the stream without changing the bytes.
pub proof fn what_is_passed_over_never_surfaces(
    policy: FramePolicy,
    before: Seq<StreamEvent>,
    event: StreamEvent,
    after: Seq<StreamEvent>,
)
    requires
        is_passed_over(policy, event),
    ensures
        stream_bytes(policy, before.push(event) + after) == stream_bytes(policy, before + after),
    decreases before.len(),
{
    let with = before.push(event) + after;
    let without = before + after;
    if before.len() == 0 {
        assert(with.skip(1) =~= after);
        assert(without =~= after);
        assert(stream_bytes(policy, with) =~= stream_bytes(policy, after));
    } else {
        assert(with.skip(1) =~= before.skip(1).push(event) + after);
        assert(without.skip(1) =~= before.skip(1) + after);
        what_is_passed_over_never_surfaces(policy, before.skip(1), event, after);
    }
}

/// Unless the policy asks for them, ping and pong frames never surface as bytes.
pub proof fn control_frames_never_surface(
    policy: FramePolicy,
    before: Seq<StreamEvent>,
    msg: Message,
    after: Seq<StreamEvent>,
)
    requires
        policy != FramePolicy::All,
        msg is Ping || msg is Pong,
    ensures
        stream_bytes(policy, before.push(Poll::Ready(Some(Ok(msg)))) + after) == stream_bytes(
            policy,
            before + after,
        ),
{
    what_is_passed_over_never_surfaces(policy, before, Poll::Ready(Some(Ok(msg))), after);
}

/// A close frame hides all that comes after it, under every policy: the bytes and the control
/// frames of the stream are those that the stream has with the close frame as its last message.
pub proof fn a_close_frame_hides_what_follows(
    policy: FramePolicy,
    before: Seq<StreamEvent>,
    msg: Message,
    after: Seq<StreamEvent>,
)
    requires
        msg is Close,
    ensures
        ({
            let event: StreamEvent = Poll::Ready(Some(Ok(msg)));
            &&& stream_bytes(policy, before.push(event) + after) == stream_bytes(policy, before)
            &&& stream_control(policy, before.push(event) + after) == stream_control(
                policy,
                before.push(event),
            )
        }),
    decreases before.len(),
{
    let event: StreamEvent = Poll::Ready(Some(Ok(msg)));
    let all = before.push(event) + after;
    if before.len() > 0 {
        assert(all.skip(1) =~= before.skip(1).push(event) + after);
        assert(before.push(event).skip(1) =~= before.skip(1).push(event));
        a_close_frame_hides_what_follows(policy, before.skip(1), msg, after);
    }
}

/// Only the policy that retains control frames sets any aside.
pub proof fn other_policies_retain_nothing(policy: FramePolicy, events: Seq<StreamEvent>)
    requires
        policy != FramePolicy::RetainControlFrames,
    ensures
        stream_control(policy, events) == Seq::<Message>::empty(),
    decreases events.len(),
{
    if events.len() > 0 && !is_last(policy, events[0]) {
        other_policies_retain_nothing(policy, events.skip(1));
    }
}

/// A change of the policy affects only messages that have not been consumed yet: what is left
/// of a message that has been read in part is still read first.
pub proof fn a_policy_change_spares_the_buffer(
    state: ReaderState,
    policy: FramePolicy,
    events: Seq<StreamEvent>,
)
    requires
        !state.ended,
    ensures
        (ReaderState { policy, ..state }).ahead(events) == state.buffered + stream_bytes(
            policy,
            events,
        ),
{
}

/// Whether the stream gives the message by which a write of `buf` is sent.
pub open spec fn is_write_of(event: StreamEvent, buf: Seq<u8>) -> bool {
    event matches Poll::Ready(Some(Ok(msg))) && is_binary_of(msg, buf)
}

/// What was written is read back, under every policy: the bytes of the stream that carries the
/// messages of a series of writes are the bytes that were written, in order.
pub proof fn what_is_written_is_read_back(
    policy: FramePolicy,
    writes: Seq<Seq<u8>>,
    events: Seq<StreamEvent>,
)
    requires
        events.len() == writes.len(),
        forall|i: int| 0 <= i < writes.len() ==> is_write_of(#[trigger] events[i], writes[i]),
    ensures
        stream_bytes(policy, events) == writes.flatten(),
    decreases writes.len(),
{
    if writes.len() > 0 {
        assert(is_write_of(events[0], writes[0]));
        assert forall|i: int| 0 <= i < writes.drop_first().len() implies is_write_of(
            #[trigger] events.skip(1)[i],
            writes.drop_first()[i],
        ) by {
            assert(is_write_of(events[i + 1], writes[i + 1]));
        }
        what_is_written_is_read_back(policy, writes.drop_first(), events.skip(1));
        assert(event_bytes(policy, events[0]) =~= writes[0]);
    }
}

/// A write to a sink that gives a number of bytes has handed the sink one binary message that
/// holds exactly `buf`, the sink has taken it, and the number is that of all of `buf`.
pub proof fn a_finished_sink_write_sent_one_message(
    ready: Poll<Result<(), tungstenite::Error>>,
    sent: Result<(), tungstenite::Error>,
    buf: Seq<u8>,
    step: SinkWrite,
    r: Poll<Result<usize, tungstenite::Error>>,
    n: usize,
)
    requires
        write_begun(ready, buf, step),
        match step {
            SinkWrite::Send(_) => write_finished(sent, buf, r),
            SinkWrite::Return(result) => r == result,
        },
        r == Poll::<Result<usize, tungstenite::Error>>::Ready(Ok(n)),
    ensures
        step matches SinkWrite::Send(msg) && is_binary_of(msg, buf),
        sent is Ok,
        n == buf.len(),
{
}

/// Whether a sender, where it finishes a write, has sent one more message, a binary one that
/// holds exactly what was written, and gives its length. What it has sent is told by `sent`.
pub open spec fn sends_each_write<S: SealedSender>(sent: spec_fn(S) -> Seq<Message>) -> bool {
    forall|before: S, waker: S::Waker, buf: Seq<u8>, after: S, n: usize| #[trigger]
        S::written(before, waker, buf, after, Poll::Ready(Ok(n))) ==> {
            &&& n == buf.len()
            &&& sent(after).len() == sent(before).len() + 1
            &&& sent(after).drop_last() == sent(before)
            &&& is_binary_of(sent(after).last(), buf)
        }
}

/// Every write sends one binary message. After a series of writes that were all finished, the
/// sender has sent, beyond what it had sent before, one binary message for each write, in order,
/// none merged or split, an empty write included; and each write gave the length of what was
/// written.
///
/// `writers[i]` is the writer before the `i`-th write, `writers[i + 1]` the one after it.
pub proof fn every_write_sends_one_binary_message<S: SealedSender>(
    sent: spec_fn(S) -> Seq<Message>,
    writers: Seq<ByteWriter<S>>,
    wakers: Seq<S::Waker>,
    bufs: Seq<Seq<u8>>,
    results: Seq<Poll<Result<usize, io::Error>>>,
)
    requires
        sends_each_write(sent),
        writers.len() == bufs.len() + 1,
        wakers.len() == bufs.len(),
        results.len() == bufs.len(),
        forall|i: int|
            0 <= i < bufs.len() ==> writer_wrote(
                writers[i],
                wakers[i],
                #[trigger] bufs[i],
                writers[i + 1],
                results[i],
            ),
        forall|i: int| 0 <= i < bufs.len() ==> #[trigger] results[i] matches Poll::Ready(Ok(_)),
    ensures
        ({
            let before = sent(writers[0].sender());
            let after = sent(writers.last().sender());
            &&& after.len() == before.len() + bufs.len()
            &&& after.take(before.len() as int) == before
            &&& forall|i: int|
                0 <= i < bufs.len() ==> is_binary_of(after[before.len() + i], #[trigger] bufs[i])
        }),
        forall|i: int|
            0 <= i < bufs.len() ==> (#[trigger] results[i] matches Poll::Ready(Ok(n)) && n
                == bufs[i].len()),
    decreases bufs.len(),
{
    let before = sent(writers[0].sender());
    if bufs.len() == 0 {
        assert(before.take(before.len() as int) =~= before);
    } else {
        let m = bufs.len() - 1;
        let earlier = writers.drop_last();
        assert forall|i: int| 0 <= i < m implies writer_wrote(
            earlier[i],
            wakers.drop_last()[i],
            #[trigger] bufs.drop_last()[i],
            earlier[i + 1],
            results.drop_last()[i],
        ) by {
            assert(writer_wrote(writers[i], wakers[i], bufs[i], writers[i + 1], results[i]));
        }
        assert forall|i: int| 0 <= i < m implies #[trigger] results.drop_last()[i] matches Poll::Ready(
            Ok(_),
        ) by {
            assert(results[i] matches Poll::Ready(Ok(_)));
        }
        every_write_sends_one_binary_message(
            sent,
            earlier,
            wakers.drop_last(),
            bufs.drop_last(),
            results.drop_last(),
        );
        let middle = sent(writers[m].sender());
        let after = sent(writers[m + 1].sender());
        assert(writer_wrote(writers[m], wakers[m], bufs[m], writers[m + 1], results[m]));
        assert(results[m] matches Poll::Ready(Ok(_)));
        let polled = choose|polled| #[trigger]
            S::written(
                writers[m].sender(),
                wakers[m],
                bufs[m],
                writers[m + 1].sender(),
                polled,
            ) && poll_reported_as(polled, results[m]);
        assert(polled matches Poll::Ready(Ok(_)));
        assert(after.drop_last() == middle);
        assert(after.take(before.len() as int) =~= middle.take(before.len() as int));
        assert forall|i: int| 0 <= i < bufs.len() implies is_binary_of(
            after[before.len() + i],
            #[trigger] bufs[i],
        ) by {
            if i < m {
                assert(bufs.drop_last()[i] == bufs[i]);
                assert(after[before.len() + i] == after.drop_last()[before.len() + i]);
            }
        }
        assert forall|i: int| 0 <= i < bufs.len() implies (#[trigger] results[i] matches Poll::Ready(
            Ok(n),
        ) && n == bufs[i].len()) by {
            if i < m {
                assert(results.drop_last()[i] == results[i]);
            }
        }
    }
}

/// Whether closing a sender has one outcome, given the sender, what wakes the task, and the
/// message that is to be sent.
pub open spec fn closes_one_way<S: SealedSender>() -> bool {
    forall|
        before: S,
        waker: S::Waker,
        msg: Option<Message>,
        after: S,
        left: Option<Message>,
        r: Poll<Result<(), tungstenite::Error>>,
        other_after: S,
        other_left: Option<Message>,
        other_r: Poll<Result<(), tungstenite::Error>>,
    | #[trigger]
        S::closed_down(before, waker, msg, after, left, r) && #[trigger] S::closed_down(
            before,
            waker,
            msg,
            other_after,
            other_left,
            other_r,
        ) ==> after == other_after && left == other_left && r == other_r
}

/// Two writers with equal senders in equal states, of which one is closed and the other shut
/// down, offer their senders the same close message, end with equal senders in equal states, and
/// report one and the same result of the sender. The sender is one whose closing has one outcome.
pub proof fn closing_and_shutting_down_agree<S: SealedSender>(
    writer: ByteWriter<S>,
    other: ByteWriter<S>,
    waker: S::Waker,
    closed_writer: ByteWriter<S>,
    shut_down: ByteWriter<S>,
    r: Poll<Result<(), io::Error>>,
    other_r: Poll<Result<(), io::Error>>,
)
    requires
        closes_one_way::<S>(),
        writer.sender() == other.sender(),
        writer.state() == other.state(),
        writer_closed(writer, waker, closed_writer, r),
        writer_closed(other, waker, shut_down, other_r),
    ensures
        closed_writer.sender() == shut_down.sender(),
        closed_writer.state() == shut_down.state(),
        exists|left, polled| #[trigger]
            closed_with(writer, waker, closed_writer, left, polled) && closed_with(
                other,
                waker,
                shut_down,
                left,
                polled,
            ) && poll_reported_as(polled, r) && poll_reported_as(polled, other_r),
{
    let (left, polled): (Option<Message>, Poll<Result<(), tungstenite::Error>>) = choose|
        left: Option<Message>,
        polled: Poll<Result<(), tungstenite::Error>>,
    | #[trigger]
        closed_with(writer, waker, closed_writer, left, polled) && poll_reported_as(polled, r);
    let (other_left, other_polled): (Option<Message>, Poll<Result<(), tungstenite::Error>>) = choose|
        left: Option<Message>,
        polled: Poll<Result<(), tungstenite::Error>>,
    | #[trigger]
        closed_with(other, waker, shut_down, left, polled) && poll_reported_as(polled, other_r);
    assert(left == other_left && polled == other_polled);
}

/// How far closing has come after a series of attempts, of which the `i`-th left `lefts[i]` of
/// the close message.
pub open spec fn state_after(state: State, lefts: Seq<Option<Message>>) -> State {
    if lefts.len() == 0 {
        state
    } else {
        State::Closing(lefts.last())
    }
}

/// A series of attempts to close offers the sender one close message, until it takes it, and
/// none from then on. The sender is one that takes the message or leaves it.
pub proof fn one_close_message_is_offered(state: State, lefts: Seq<Option<Message>>, i: int, j: int)
    requires
        0 <= i <= j <= lefts.len(),
        forall|k: int|
            0 <= k < lefts.len() ==> (#[trigger] lefts[k] is None || lefts[k] == state_after(
                state,
                lefts.take(k),
            ).close_message()),
    ensures
        ({
            let earlier = state_after(state, lefts.take(i)).close_message();
            let later = state_after(state, lefts.take(j)).close_message();
            later is None || later == earlier
        }),
    decreases j - i,
{
    if i < j {
        one_close_message_is_offered(state, lefts, i, j - 1);
        assert(lefts.take(j).last() == lefts[j - 1]);
    }
}

} // verus!
