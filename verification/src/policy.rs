//! Which messages become part of the byte stream.

use crate::message::Message;
use crate::payload::contents;
use tungstenite::Bytes;
use vstd::prelude::*;

verus! {

/// Policy deciding which WebSocket frames a reader projects into the byte stream.
///
/// Independent of the policy, a close frame ends the byte stream, raw frames are payload, and
/// messages with an empty payload add nothing.
#[derive(Debug, Clone, Copy, PartialEq, Eq, Hash, Structural)]
pub enum FramePolicy {
    /// Only binary messages contribute bytes. Text messages and ping and pong control frames
    /// are consumed but skipped.
    Binary,
    /// Text and binary messages contribute bytes. Ping and pong control frames are consumed but
    /// skipped. This is the default.
    TextAndBinary,
    /// Text and binary messages contribute bytes, and so do the payloads of ping and pong
    /// control frames.
    All,
    /// Text and binary messages contribute bytes. Ping, pong and close control frames are set
    /// aside, in the order in which they came, for the reader's user to fetch.
    RetainControlFrames,
}

impl FramePolicy {
    /// Another name for [`FramePolicy::Binary`].
    #[allow(non_upper_case_globals)]
    pub const BinaryOnly: FramePolicy = FramePolicy::Binary;
}

impl Default for FramePolicy {
    fn default() -> (policy: FramePolicy)
        ensures
            policy == FramePolicy::TextAndBinary,
    {
        FramePolicy::TextAndBinary
    }
}

/// How a single message is handled under a [`FramePolicy`].
#[derive(Debug, PartialEq, Eq)]
pub enum FrameProjection {
    /// The message payload becomes part of the byte stream.
    Payload(Bytes),
    /// The message is consumed but does not surface in the byte stream.
    Skip,
    /// The message does not surface in the byte stream but is set aside.
    Retain(Message),
    /// The message ends the byte stream, and is set aside where it is given.
    Close(Option<Message>),
}

/// The mathematical content of a [`FrameProjection`].
pub ghost enum Projection {
    Payload(Seq<u8>),
    Skip,
    Retain(Message),
    Close(Option<Message>),
}

impl View for FrameProjection {
    type V = Projection;

    open spec fn view(&self) -> Projection {
        match *self {
            FrameProjection::Payload(b) => Projection::Payload(contents(b)),
            FrameProjection::Skip => Projection::Skip,
            FrameProjection::Retain(m) => Projection::Retain(m),
            FrameProjection::Close(m) => Projection::Close(m),
        }
    }
}

/// The projection of a message whose data belongs to the byte stream: an empty payload is
/// skipped, so that it is not mistaken for the end of the stream.
pub open spec fn payload(data: Seq<u8>) -> Projection {
    if data.len() == 0 {
        Projection::Skip
    } else {
        Projection::Payload(data)
    }
}

impl FramePolicy {
    /// How a message is handled under this policy.
    pub open spec fn projection(self, msg: Message) -> Projection {
        match msg {
            Message::Close(_) => if self == FramePolicy::RetainControlFrames {
                Projection::Close(Some(msg))
            } else {
                Projection::Close(None)
            },
            Message::Ping(_) | Message::Pong(_) => match self {
                FramePolicy::All => payload(msg.data()),
                FramePolicy::RetainControlFrames => Projection::Retain(msg),
                _ => Projection::Skip,
            },
            Message::Text(_) => if self == FramePolicy::Binary {
                Projection::Skip
            } else {
                payload(msg.data())
            },
            Message::Binary(_) | Message::Frame(_) => payload(msg.data()),
        }
    }

    /// Decides how a message is handled.
    pub fn project(self, msg: Message) -> (p: FrameProjection)
        ensures
            p@ == self.projection(msg),
            match msg {
                Message::Close(_) => p == FrameProjection::Close(
                    if self == FramePolicy::RetainControlFrames {
                        Some(msg)
                    } else {
                        None
                    },
                ),
                Message::Ping(data) | Message::Pong(data) => if self
                    == FramePolicy::RetainControlFrames {
                    p == FrameProjection::Retain(msg)
                } else if self == FramePolicy::All && contents(data).len() > 0 {
                    p == FrameProjection::Payload(data)
                } else {
                    p == FrameProjection::Skip
                },
                Message::Text(text) => if self != FramePolicy::Binary && vstd::utf8::encode_utf8(
                    text@,
                ).len() > 0 {
                    p matches FrameProjection::Payload(b) && contents(b)
                        == vstd::utf8::encode_utf8(text@)
                } else {
                    p == FrameProjection::Skip
                },
                Message::Binary(data) | Message::Frame(data) => if contents(data).len() > 0 {
                    p == FrameProjection::Payload(data)
                } else {
                    p == FrameProjection::Skip
                },
            },
    {
        match msg {
            Message::Close(frame) => if self == FramePolicy::RetainControlFrames {
                FrameProjection::Close(Some(Message::Close(frame)))
            } else {
                FrameProjection::Close(None)
            },
            Message::Ping(_) | Message::Pong(_) => match self {
                FramePolicy::All => FrameProjection::of_payload(msg),
                FramePolicy::RetainControlFrames => FrameProjection::Retain(msg),
                _ => FrameProjection::Skip,
            },
            Message::Text(_) if self == FramePolicy::Binary => FrameProjection::Skip,
            msg => FrameProjection::of_payload(msg),
        }
    }
}

impl FrameProjection {
    /// The projection of a message whose data belongs to the byte stream.
    fn of_payload(msg: Message) -> (p: FrameProjection)
        ensures
            p@ == payload(msg.data()),
            match msg {
                Message::Text(text) => p matches FrameProjection::Payload(b) ==> contents(b)
                    == vstd::utf8::encode_utf8(text@),
                Message::Binary(data) | Message::Ping(data) | Message::Pong(data) | Message::Frame(
                    data,
                ) => p matches FrameProjection::Payload(b) ==> b == data,
                Message::Close(_) => true,
            },
    {
        let bytes = msg.into_data();
        // Empty payloads must not surface as a read of no bytes, which the caller could not
        // tell from the end of the stream.
        if bytes.is_empty() {
            FrameProjection::Skip
        } else {
            FrameProjection::Payload(bytes)
        }
    }
}

} // verus!
