//! WebSocket messages.

use crate::payload::{bytes_from_vec, contents};
use tungstenite::Bytes;
use vstd::prelude::*;
use vstd::slice::slice_to_vec;

verus! {

/// What a close message may say about itself.
#[derive(Debug, Clone, PartialEq, Eq)]
pub struct CloseFrame {
    /// The numeric status code.
    pub code: u16,
    /// The reason, as text.
    pub reason: String,
}

/// A WebSocket message.
#[derive(Debug, Clone, PartialEq, Eq)]
pub enum Message {
    /// A text message.
    Text(String),
    /// A binary message.
    Binary(Bytes),
    /// A ping control frame with its payload.
    Ping(Bytes),
    /// A pong control frame with its payload.
    Pong(Bytes),
    /// A close control frame.
    Close(Option<CloseFrame>),
    /// A raw frame, given by its payload.
    Frame(Bytes),
}

impl Message {
    /// The bytes that the message carries: of a text its UTF-8 encoding, of a close frame that
    /// of its reason, of any other message the payload.
    pub open spec fn data(self) -> Seq<u8> {
        match self {
            Message::Text(text) => vstd::utf8::encode_utf8(text@),
            Message::Binary(data) => contents(data),
            Message::Ping(data) => contents(data),
            Message::Pong(data) => contents(data),
            Message::Close(None) => Seq::empty(),
            Message::Close(Some(frame)) => vstd::utf8::encode_utf8(frame.reason@),
            Message::Frame(payload) => contents(payload),
        }
    }

    /// A text message.
    pub fn text(text: &str) -> (m: Message)
        ensures
            m matches Message::Text(s) && s@ == text@,
    {
        Message::Text(text.to_owned())
    }

    /// A binary message.
    pub fn binary(data: Vec<u8>) -> (m: Message)
        ensures
            m matches Message::Binary(b) && contents(b) == data@,
    {
        Message::Binary(bytes_from_vec(data))
    }

    /// Consumes the message and returns the bytes that it carries.
    pub fn into_data(self) -> (b: Bytes)
        ensures
            contents(b) == self.data(),
            match self {
                Message::Text(text) => contents(b) == vstd::utf8::encode_utf8(text@),
                Message::Binary(data) => b == data,
                Message::Ping(data) => b == data,
                Message::Pong(data) => b == data,
                Message::Close(None) => contents(b).len() == 0,
                Message::Close(Some(frame)) => contents(b) == vstd::utf8::encode_utf8(
                    frame.reason@,
                ),
                Message::Frame(payload) => b == payload,
            },
    {
        match self {
            Message::Text(text) => bytes_from_vec(slice_to_vec(text.as_str().as_bytes())),
            Message::Binary(data) => data,
            Message::Ping(data) => data,
            Message::Pong(data) => data,
            Message::Close(None) => Bytes::new(),
            Message::Close(Some(frame)) => bytes_from_vec(
                slice_to_vec(frame.reason.as_str().as_bytes()),
            ),
            Message::Frame(payload) => payload,
        }
    }
}

} // verus!
