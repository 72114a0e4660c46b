# ws_bytes

Byte streams over WebSocket messages, verified with Verus.

A `ByteReader` turns the messages of a WebSocket connection into a stream of bytes; a
`FramePolicy` says which messages take part. A `ByteWriter` sends every write as one binary
message and takes care of the close message. Neither ever waits: the owner of the connection
polls it and hands in what it gave.

- `src/` is the library. `src/reader.rs` and `src/writer.rs` hold the two state machines with
  their contracts, `src/policy.rs` the frame policy, `src/message.rs` the messages,
  `src/error.rs` the conversion to I/O errors, and `src/payload.rs` what is relied on of the
  `bytes` crate. `src/laws.rs` states and proves what holds over many operations: that reads
  lose, repeat and mix nothing, that the end of the stream is stable, that what is written is
  read back.
- `tests/` runs the library on concrete streams.
- `app/` wraps the library as `AsyncRead` and `AsyncWrite` for `futures-io` and `tokio`.
