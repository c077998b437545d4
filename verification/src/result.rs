//! The library's errors and their descriptions.

use vstd::prelude::*;
use vstd::string::*;

verus! {

#[verifier::external_type_specification]
#[verifier::external_body]
pub struct ExIoError(std::io::Error);

#[verifier::external_type_specification]
pub struct ExByteorderError(byteorder::Error);

/// The kinds of I/O failure that the library reports of its own.
#[derive(Clone, Copy, Debug, PartialEq, Eq, Structural)]
pub enum IoFailureKind {
    Other,
}

/// An I/O failure that the library reports of its own, as plain values: its
/// kind and its message. The caller turns it into a `std::io::Error` of that
/// kind and message.
#[derive(Debug)]
pub struct IoFailure {
    pub kind: IoFailureKind,
    pub message: String,
}

/// The message of the failure to take a buffer off an empty send queue.
pub open spec fn empty_queue_message() -> Seq<char> {
    "Could not pop send queue"@
}

/// Whether `f` is the failure to take a buffer off an empty send queue.
pub open spec fn is_empty_queue_failure(f: IoFailure) -> bool {
    f.kind == IoFailureKind::Other && f.message@ == empty_queue_message()
}

impl IoFailure {
    /// The failure to take a buffer off an empty send queue: of kind
    /// `Other`, with the message "Could not pop send queue".
    pub fn empty_queue() -> (f: IoFailure)
        ensures
            is_empty_queue_failure(f),
    {
        IoFailure { kind: IoFailureKind::Other, message: String::from_str("Could not pop send queue") }
    }
}

/// A result whose error is a `PunpunError`.
pub type PunpunResult<T> = Result<T, PunpunError>;

/// The errors of the protocol.
#[derive(Debug)]
pub enum PunpunError {
    /// A Punpun protocol error
    ProtocolError(String),
    /// Invalid Punpun request error
    RequestError(String),
    /// Invalid Punpun response error
    ResponseError(String),
    /// Invalid Punpun data frame error
    DataFrameError(String),
    /// No data available
    NoDataAvailable,
    /// An input/output error
    IoError(std::io::Error),
}

/// The description of each kind of error.
pub open spec fn punpun_description(e: PunpunError) -> Seq<char> {
    match e {
        PunpunError::ProtocolError(_) => "Punpun protocol error"@,
        PunpunError::RequestError(_) => "Punpun request error"@,
        PunpunError::ResponseError(_) => "Punpun response error"@,
        PunpunError::DataFrameError(_) => "Punpun data frame error"@,
        PunpunError::NoDataAvailable => "No data available"@,
        PunpunError::IoError(_) => "I/O failure"@,
    }
}

/// The error that a `byteorder` error becomes.
pub open spec fn from_byteorder_spec(err: byteorder::Error) -> PunpunError {
    match err {
        byteorder::Error::UnexpectedEOF => PunpunError::NoDataAvailable,
        byteorder::Error::Io(e) => PunpunError::IoError(e),
    }
}

impl PunpunError {
    /// A short description of the kind of error.
    pub fn description(&self) -> (d: &'static str)
        ensures
            d@ == punpun_description(*self),
    {
        match self {
            PunpunError::ProtocolError(_) => "Punpun protocol error",
            PunpunError::RequestError(_) => "Punpun request error",
            PunpunError::ResponseError(_) => "Punpun response error",
            PunpunError::DataFrameError(_) => "Punpun data frame error",
            PunpunError::NoDataAvailable => "No data available",
            PunpunError::IoError(_) => "I/O failure",
        }
    }

    /// The display text: `PunpunError: ` and the description.
    pub fn to_string(&self) -> (s: String)
        ensures
            s@ == "PunpunError: "@ + punpun_description(*self),
    {
        let mut s = String::from_str("PunpunError: ");
        s.append(self.description());
        s
    }

    /// The I/O error that caused this one, if it is an I/O error.
    pub fn cause(&self) -> (c: Option<&std::io::Error>)
        ensures
            match *self {
                PunpunError::IoError(e) => c == Some(&e),
                _ => c is None,
            },
    {
        match self {
            PunpunError::IoError(e) => Some(e),
            _ => None,
        }
    }
}

impl From<std::io::Error> for PunpunError {
    fn from(err: std::io::Error) -> (e: PunpunError) {
        PunpunError::IoError(err)
    }
}

impl vstd::std_specs::convert::FromSpecImpl<std::io::Error> for PunpunError {
    open spec fn obeys_from_spec() -> bool {
        true
    }

    open spec fn from_spec(err: std::io::Error) -> PunpunError {
        PunpunError::IoError(err)
    }
}

impl From<byteorder::Error> for PunpunError {
    fn from(err: byteorder::Error) -> (e: PunpunError) {
        match err {
            byteorder::Error::UnexpectedEOF => PunpunError::NoDataAvailable,
            byteorder::Error::Io(e) => PunpunError::IoError(e),
        }
    }
}

impl vstd::std_specs::convert::FromSpecImpl<byteorder::Error> for PunpunError {
    open spec fn obeys_from_spec() -> bool {
        true
    }

    open spec fn from_spec(err: byteorder::Error) -> PunpunError {
        from_byteorder_spec(err)
    }
}

/// The errors of a websocket URL.
#[derive(Debug, Clone, Copy, PartialEq, Eq, Structural)]
pub enum WSUrlErrorKind {
    /// Fragments are not valid in a Punpun URL
    CannotSetFragment,
    /// The scheme provided is invalid for a Punpun
    InvalidScheme,
}

/// The description of each kind of URL error.
pub open spec fn url_description(e: WSUrlErrorKind) -> Seq<char> {
    match e {
        WSUrlErrorKind::CannotSetFragment => "Punpun URL cannot set fragment"@,
        WSUrlErrorKind::InvalidScheme => "Punpun URL invalid scheme"@,
    }
}

impl WSUrlErrorKind {
    /// A short description of the kind of error.
    pub fn description(&self) -> (d: &'static str)
        ensures
            d@ == url_description(*self),
    {
        match self {
            WSUrlErrorKind::CannotSetFragment => "Punpun URL cannot set fragment",
            WSUrlErrorKind::InvalidScheme => "Punpun URL invalid scheme",
        }
    }

    /// The display text: `Punpun Url Error: ` and the description.
    pub fn to_string(&self) -> (s: String)
        ensures
            s@ == "Punpun Url Error: "@ + url_description(*self),
    {
        let mut s = String::from_str("Punpun Url Error: ");
        s.append(self.description());
        s
    }
}

} // verus!
