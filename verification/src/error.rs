//! Errors of the connection, and their conversion to I/O errors.

use std::io;
use vstd::prelude::*;

verus! {

/// `tungstenite`'s error, carried through as it is.
#[verifier::external_type_specification]
#[verifier::external_body]
pub struct ExTungsteniteError(tungstenite::Error);

/// std's I/O error, carried through as it is.
#[verifier::external_type_specification]
#[verifier::external_body]
pub struct ExIoError(io::Error);

/// The I/O error inside a `tungstenite::Error::Io`; `None` for every other variant.
pub uninterp spec fn io_cause(e: tungstenite::Error) -> Option<io::Error>;

/// Whether the kind of an I/O error, as `io::Error::kind` gives it, is `ErrorKind::Other`.
pub uninterp spec fn is_kind_other(e: io::Error) -> bool;

/// The WebSocket error that an I/O error holds as its inner error, as `io::Error::into_inner`
/// gives it; `None` where it holds none, or an error of another type.
pub uninterp spec fn inner_error(e: io::Error) -> Option<tungstenite::Error>;

/// An error of the connection, told apart by whether the transport itself failed.
#[derive(Debug)]
pub enum WsError {
    /// The transport failed with an I/O error.
    Io(io::Error),
    /// Any other failure, as reported.
    Other(tungstenite::Error),
}

/// Takes the I/O error out of the variant `tungstenite::Error::Io`, and leaves an error of any
/// other variant whole.
#[verifier::external_body]
fn split_error(e: tungstenite::Error) -> (r: WsError)
    ensures
        match r {
            WsError::Io(io) => io_cause(e) == Some(io),
            WsError::Other(other) => io_cause(e) is None && other == e,
        },
{
    match e {
        tungstenite::Error::Io(io) => WsError::Io(io),
        other => WsError::Other(other),
    }
}

/// `io::Error::new` with the kind `ErrorKind::Other`: the new error has that kind, and `e` is
/// its inner error.
#[verifier::external_body]
fn other_error(e: tungstenite::Error) -> (r: io::Error)
    ensures
        is_kind_other(r),
        inner_error(r) == Some(e),
{
    io::Error::new(io::ErrorKind::Other, e)
}

impl WsError {
    /// The I/O error by which this error is reported: a failure of the transport as it is, any
    /// other failure as the inner error of one of kind `Other`.
    pub fn into_io(self) -> (r: io::Error)
        ensures
            match self {
                WsError::Io(io) => r == io,
                WsError::Other(e) => is_kind_other(r) && inner_error(r) == Some(e),
            },
    {
        match self {
            WsError::Io(io) => io,
            WsError::Other(e) => other_error(e),
        }
    }
}

/// Whether `r` is the I/O error by which `e` is reported.
pub open spec fn reported_as(e: tungstenite::Error, r: io::Error) -> bool {
    match io_cause(e) {
        Some(io) => r == io,
        None => is_kind_other(r) && inner_error(r) == Some(e),
    }
}

/// Converts an error of the connection to an I/O error. An I/O error that the connection passed
/// on comes out again; any other error is kept as the inner error of an I/O error of kind
/// `Other`.
pub fn convert_err(e: tungstenite::Error) -> (r: io::Error)
    ensures
        reported_as(e, r),
        match io_cause(e) {
            Some(io) => r == io,
            None => is_kind_other(r) && inner_error(r) == Some(e),
        },
{
    split_error(e).into_io()
}

} // verus!
