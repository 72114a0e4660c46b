//! What a writer makes of the answers of its sender, over one operation and over many.

use crate::error::{inner_error, io_cause, is_kind_other, reported_as};
use crate::message::Message;
use crate::payload::contents;
use crate::poll::Poll;
use crate::writer::{
    is_binary_of, poll_reported_as, writer_closed, writer_wrote, ByteWriter, SealedSender, State,
};
use std::io;
use vstd::prelude::*;

verus! {

/// An I/O error that the connection passed on is reported as it is; any other error is the inner
/// error of one of kind `Other`.
pub proof fn errors_are_reported_whole(e: tungstenite::Error, r: io::Error)
    ensures
        reported_as(e, r) <==> (io_cause(e) matches Some(io) && r == io) || (io_cause(e) is None
            && is_kind_other(r) && inner_error(r) == Some(e)),
{
}

/// A report tells errors apart: two errors that are no I/O errors and are reported by the same
/// I/O error are the same, and so are the I/O errors inside of two others.
pub proof fn reports_tell_errors_apart(
    e: tungstenite::Error,
    other: tungstenite::Error,
    r: io::Error,
)
    requires
        reported_as(e, r),
        reported_as(other, r),
    ensures
        io_cause(e) is None && io_cause(other) is None ==> e == other,
        io_cause(e) is Some && io_cause(other) is Some ==> io_cause(e) == io_cause(other),
{
}

/// A polled result is reported as it is, but for its error: it is pending if and only if the
/// report is, has a value if and only if the report has this value, and has an error if and only
/// if the report has the I/O error for it.
pub proof fn polled_results_are_reported_as_they_are<T>(
    polled: Poll<Result<T, tungstenite::Error>>,
    r: Poll<Result<T, io::Error>>,
)
    requires
        poll_reported_as(polled, r),
    ensures
        r is Pending <==> polled is Pending,
        r matches Poll::Ready(Ok(value)) ==> polled == Poll::<
            Result<T, tungstenite::Error>,
        >::Ready(Ok(value)),
        polled matches Poll::Ready(Ok(value)) ==> r == Poll::<Result<T, io::Error>>::Ready(
            Ok(value),
        ),
        r matches Poll::Ready(Err(_)) ==> (polled matches Poll::Ready(Err(_))),
        polled matches Poll::Ready(Err(e)) ==> (r matches Poll::Ready(Err(io)) && match io_cause(
            e,
        ) {
            Some(cause) => io == cause,
            None => is_kind_other(io) && inner_error(io) == Some(e),
        }),
{
}

/// The result of a write is that of the sender: where the writer waits, the sender waits; where
/// the writer gives a number of bytes, the sender gave it; where the writer fails, the sender
/// failed, with the error that is reported. Closing is not touched.
pub proof fn a_write_gives_what_the_sender_gives<S: SealedSender>(
    before: ByteWriter<S>,
    waker: S::Waker,
    buf: Seq<u8>,
    after: ByteWriter<S>,
    r: Poll<Result<usize, io::Error>>,
)
    requires
        writer_wrote(before, waker, buf, after, r),
    ensures
        after.state() == before.state(),
        r is Pending ==> S::written(before.sender(), waker, buf, after.sender(), Poll::Pending),
        r matches Poll::Ready(Ok(n)) ==> S::written(
            before.sender(),
            waker,
            buf,
            after.sender(),
            Poll::Ready(Ok(n)),
        ),
        r matches Poll::Ready(Err(io)) ==> exists|e| #[trigger]
            S::written(before.sender(), waker, buf, after.sender(), Poll::Ready(Err(e))) && match io_cause(
                e,
            ) {
                Some(cause) => io == cause,
                None => is_kind_other(io) && inner_error(io) == Some(e),
            },
{
    let polled = choose|polled| #[trigger]
        S::written(before.sender(), waker, buf, after.sender(), polled) && poll_reported_as(
            polled,
            r,
        );
    polled_results_are_reported_as_they_are(polled, r);
}

/// A write of any bytes to a sender that can only finish it, with the number `m`, gives `m`.
pub proof fn a_write_is_finished_where_the_sender_finishes_it<S: SealedSender>(
    before: ByteWriter<S>,
    waker: S::Waker,
    buf: Seq<u8>,
    after: ByteWriter<S>,
    r: Poll<Result<usize, io::Error>>,
    m: usize,
)
    requires
        writer_wrote(before, waker, buf, after, r),
        forall|sender: S, polled: Poll<Result<usize, tungstenite::Error>>| #[trigger]
            S::written(before.sender(), waker, buf, sender, polled) ==> polled == Poll::<
                Result<usize, tungstenite::Error>,
            >::Ready(Ok(m)),
    ensures
        r == Poll::<Result<usize, io::Error>>::Ready(Ok(m)),
{
    a_write_gives_what_the_sender_gives(before, waker, buf, after, r);
}

/// Whether a sender sends exactly where it finishes a write: then it has sent one more message, a
/// binary one that holds what was written, and gives its length; else it has sent nothing.
pub open spec fn sends_where_it_finishes<S: SealedSender>(sent: spec_fn(S) -> Seq<Message>) -> bool {
    forall|
        before: S,
        waker: S::Waker,
        buf: Seq<u8>,
        after: S,
        polled: Poll<Result<usize, tungstenite::Error>>,
    | #[trigger]
        S::written(before, waker, buf, after, polled) ==> match polled {
            Poll::Ready(Ok(n)) => {
                &&& n == buf.len()
                &&& sent(after).len() == sent(before).len() + 1
                &&& sent(after).drop_last() == sent(before)
                &&& sent(after).last() matches Message::Binary(data) && contents(data) == buf
            },
            _ => sent(after) == sent(before),
        }
}

/// What was written by those of a series of writes that gave a number of bytes, in order.
pub open spec fn finished_writes(
    bufs: Seq<Seq<u8>>,
    results: Seq<Poll<Result<usize, io::Error>>>,
) -> Seq<Seq<u8>>
    decreases bufs.len(),
{
    if bufs.len() == 0 {
        Seq::empty()
    } else {
        let earlier = finished_writes(bufs.drop_last(), results.drop_last());
        if results.last() matches Poll::Ready(Ok(_)) {
            earlier.push(bufs.last())
        } else {
            earlier
        }
    }
}

/// A series of writes, finished or not, sends as many messages as there are writes that gave a
/// number of bytes: one binary message for each of them, that holds exactly what was written, in
/// order. The sender is one that sends exactly where it finishes a write.
///
/// `writers[i]` is the writer before the `i`-th write, `writers[i + 1]` the one after it.
pub proof fn what_is_sent_is_what_was_finished<S: SealedSender>(
    sent: spec_fn(S) -> Seq<Message>,
    writers: Seq<ByteWriter<S>>,
    wakers: Seq<S::Waker>,
    bufs: Seq<Seq<u8>>,
    results: Seq<Poll<Result<usize, io::Error>>>,
)
    requires
        sends_where_it_finishes(sent),
        writers.len() == bufs.len() + 1,
        wakers.len() == bufs.len(),
        results.len() == bufs.len(),
        forall|i: int|
            0 <= i < bufs.len() ==> writer_wrote(
                writers[i],
                wakers[i],
                #[trigger] bufs[i],
                writers[i + 1],
                results[i],
            ),
    ensures
        ({
            let before = sent(writers[0].sender());
            let after = sent(writers.last().sender());
            let finished = finished_writes(bufs, results);
            &&& after.len() == before.len() + finished.len()
            &&& after.take(before.len() as int) == before
            &&& forall|i: int|
                0 <= i < finished.len() ==> (#[trigger] after[before.len() + i] matches Message::Binary(
                    data,
                ) && contents(data) == finished[i])
        }),
        forall|i: int|
            0 <= i < bufs.len() ==> (#[trigger] results[i] matches Poll::Ready(Ok(n)) ==> n
                == bufs[i].len()),
    decreases bufs.len(),
{
    let before = sent(writers[0].sender());
    if bufs.len() == 0 {
        assert(before.take(before.len() as int) =~= before);
    } else {
        let m = bufs.len() - 1;
        let earlier = writers.drop_last();
        assert forall|i: int| 0 <= i < m implies writer_wrote(
            earlier[i],
            wakers.drop_last()[i],
            #[trigger] bufs.drop_last()[i],
            earlier[i + 1],
            results.drop_last()[i],
        ) by {
            assert(writer_wrote(writers[i], wakers[i], bufs[i], writers[i + 1], results[i]));
        }
        what_is_sent_is_what_was_finished(
            sent,
            earlier,
            wakers.drop_last(),
            bufs.drop_last(),
            results.drop_last(),
        );
        let middle = sent(writers[m].sender());
        let after = sent(writers[m + 1].sender());
        let finished = finished_writes(bufs.drop_last(), results.drop_last());
        assert(writer_wrote(writers[m], wakers[m], bufs[m], writers[m + 1], results[m]));
        a_write_gives_what_the_sender_gives(
            writers[m],
            wakers[m],
            bufs[m],
            writers[m + 1],
            results[m],
        );
        if results[m] matches Poll::Ready(Ok(_)) {
            assert(after.drop_last() == middle);
            assert(after.take(before.len() as int) =~= middle.take(before.len() as int));
            assert forall|i: int| 0 <= i < finished.len() + 1 implies (#[trigger] after[before.len()
                + i] matches Message::Binary(data) && contents(data) == finished.push(
                bufs[m],
            )[i]) by {
                if i < finished.len() {
                    assert(after[before.len() + i] == middle[before.len() + i]);
                }
            }
        } else {
            assert(after == middle);
        }
        assert forall|i: int| 0 <= i < bufs.len() implies (#[trigger] results[i] matches Poll::Ready(
            Ok(n),
        ) ==> n == bufs[i].len()) by {
            if i < m {
                assert(results.drop_last()[i] == results[i]);
            }
        }
    }
}

/// A binary message of some bytes is a binary message, and holds exactly these.
pub proof fn a_binary_message_holds_what_was_written(msg: Message, buf: Seq<u8>)
    ensures
        is_binary_of(msg, buf) <==> (msg matches Message::Binary(data) && contents(data) == buf),
{
}

/// An attempt to close offers the sender the close message: a fresh one where closing has not
/// begun, and else what the sender left of it in the attempt before. From then on the writer is
/// closing, with what the sender left, whatever the sender answers; and its answer is the
/// writer's.
pub proof fn an_attempt_to_close_keeps_what_the_sender_left<S: SealedSender>(
    before: ByteWriter<S>,
    waker: S::Waker,
    after: ByteWriter<S>,
    r: Poll<Result<(), io::Error>>,
)
    requires
        writer_closed(before, waker, after, r),
    ensures
        ({
            let offered = match before.state() {
                State::Open => Some(Message::Close(None)),
                State::Closing(msg) => msg,
            };
            &&& after.state() matches State::Closing(left)
            &&& r is Pending ==> S::closed_down(
                before.sender(),
                waker,
                offered,
                after.sender(),
                left,
                Poll::Pending,
            )
            &&& r matches Poll::Ready(Ok(())) ==> S::closed_down(
                before.sender(),
                waker,
                offered,
                after.sender(),
                left,
                Poll::Ready(Ok(())),
            )
            &&& r matches Poll::Ready(Err(io)) ==> exists|msg, e| #[trigger]
                S::closed_down(
                    before.sender(),
                    waker,
                    msg,
                    after.sender(),
                    left,
                    Poll::Ready(Err(e)),
                ) && msg == offered && match io_cause(e) {
                    Some(cause) => io == cause,
                    None => is_kind_other(io) && inner_error(io) == Some(e),
                }
        }),
{
    let (left, polled): (Option<Message>, Poll<Result<(), tungstenite::Error>>) = choose|
        left: Option<Message>,
        polled: Poll<Result<(), tungstenite::Error>>,
    | #[trigger]
        crate::writer::closed_with(before, waker, after, left, polled) && poll_reported_as(
            polled,
            r,
        );
    polled_results_are_reported_as_they_are(polled, r);
}

/// Whether `writers` are one writer over a series of attempts to close it, `writers[i]` before
/// the `i`-th attempt and `writers[i + 1]` after it, which gave `results[i]`.
pub open spec fn is_closing_series<S: SealedSender>(
    writers: Seq<ByteWriter<S>>,
    wakers: Seq<S::Waker>,
    results: Seq<Poll<Result<(), io::Error>>>,
) -> bool {
    &&& writers.len() == results.len() + 1
    &&& wakers.len() == results.len()
    &&& forall|i: int|
        0 <= i < results.len() ==> writer_closed(
            writers[i],
            wakers[i],
            writers[i + 1],
            #[trigger] results[i],
        )
}

/// Once the sender has left nothing of the close message in one attempt to close, it is offered
/// none in any later attempt, whatever the attempts gave, waiting included. The sender is one
/// that leaves nothing where it is offered nothing.
pub proof fn a_close_message_is_not_offered_again<S: SealedSender>(
    writers: Seq<ByteWriter<S>>,
    wakers: Seq<S::Waker>,
    results: Seq<Poll<Result<(), io::Error>>>,
    i: int,
    j: int,
)
    requires
        is_closing_series(writers, wakers, results),
        forall|before: S, waker: S::Waker, after: S, left: Option<Message>, polled| #[trigger]
            S::closed_down(before, waker, None, after, left, polled) ==> left is None,
        0 <= i < j <= results.len(),
        forall|offered: Option<Message>, after: S, left: Option<Message>, polled| #[trigger]
            S::closed_down(writers[i].sender(), wakers[i], offered, after, left, polled)
                ==> left is None,
    ensures
        writers[j].state() == State::Closing(None),
    decreases j - i,
{
    if j == i + 1 {
        assert(writer_closed(writers[i], wakers[i], writers[i + 1], results[i]));
        an_attempt_to_close_keeps_what_the_sender_left(
            writers[i],
            wakers[i],
            writers[i + 1],
            results[i],
        );
    } else {
        a_close_message_is_not_offered_again(writers, wakers, results, i, j - 1);
        assert(writer_closed(writers[j - 1], wakers[j - 1], writers[j], results[j - 1]));
        an_attempt_to_close_keeps_what_the_sender_left(
            writers[j - 1],
            wakers[j - 1],
            writers[j],
            results[j - 1],
        );
    }
}

/// Over a series of attempts to close a fresh writer, whatever they gave, the sender is offered
/// one close message, the empty one, until it takes it, and none from then on. The sender is one
/// that takes the message or leaves it.
pub proof fn a_series_of_attempts_offers_one_close_message<S: SealedSender>(
    writers: Seq<ByteWriter<S>>,
    wakers: Seq<S::Waker>,
    results: Seq<Poll<Result<(), io::Error>>>,
    j: int,
)
    requires
        is_closing_series(writers, wakers, results),
        writers[0].state() == State::Open,
        forall|
            before: S,
            waker: S::Waker,
            msg: Option<Message>,
            after: S,
            left: Option<Message>,
            polled,
        | #[trigger]
            S::closed_down(before, waker, msg, after, left, polled) ==> left is None || left == msg,
        0 < j <= results.len(),
    ensures
        writers[j].state() == State::Closing(None) || writers[j].state() == State::Closing(
            Some(Message::Close(None)),
        ),
        forall|i: int|
            0 < i <= j && #[trigger] writers[i].state() == State::Closing(None)
                ==> writers[j].state() == State::Closing(None),
    decreases j,
{
    assert(writer_closed(writers[j - 1], wakers[j - 1], writers[j], results[j - 1]));
    an_attempt_to_close_keeps_what_the_sender_left(
        writers[j - 1],
        wakers[j - 1],
        writers[j],
        results[j - 1],
    );
    if j > 1 {
        a_series_of_attempts_offers_one_close_message(writers, wakers, results, j - 1);
    }
}

/// The close message that is still to be sent is a fresh one where closing has not begun, and
/// else what the sender left.
pub proof fn the_close_message_is_what_was_left(state: State)
    ensures
        state is Open ==> state.close_message() == Some(Message::Close(None)),
        state matches State::Closing(left) ==> state.close_message() == left,
{
}

} // verus!
