//! Byte streams over WebSocket messages.
//!
//! [`ByteReader`](reader::ByteReader) turns a stream of messages into a stream of bytes and
//! [`ByteWriter`](writer::ByteWriter) turns bytes into messages. Both are written as state
//! machines that never wait: whoever owns the connection polls it and hands the answer in.

pub mod error;
pub mod event_laws;
pub mod laws;
pub mod message;
pub mod payload;
pub mod policy;
pub mod poll;
pub mod reader;
pub mod writer;
pub mod writer_laws;

pub use error::{convert_err, WsError};
pub use message::{CloseFrame, Message};
pub use policy::{FramePolicy, FrameProjection};
pub use poll::Poll;
pub use reader::{ByteReader, ReadResult, ReadStep, StreamEvent};
pub use writer::{ByteWriter, Sender, State};
