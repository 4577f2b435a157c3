//! The error type used throughout the library.

use crate::server::upgrade::HyperIntoWsError;
use vstd::prelude::*;

verus! {

/// Reasons for which a frame sequence or message violates the WebSocket protocol.
#[derive(Debug, Clone, Copy, PartialEq, Eq, Structural)]
pub enum ProtocolErrorKind {
    /// A control frame without the FIN bit.
    IllegalFragmentedControlFrame,
    /// A message was to be formed from no frames at all.
    NoDataframes,
    /// A frame other than a continuation frame followed the first frame of a message.
    UnexpectedNonContinuation,
    /// A frame of a message carried a reserved bit.
    UnsupportedReservedBits,
    /// A message began with an opcode that forms no message.
    UnsupportedOpcode,
    /// A message began with a continuation frame.
    UnexpectedContinuation,
    /// A data frame arrived in the middle of a fragmented message.
    UnexpectedDataFrameOpcode,
    /// A frame declared a payload above the configured limit.
    ExceededDataFrameSize,
    /// A message was split into too many frames.
    TooManyDataFrames,
    /// A message grew above the configured limit.
    ExceededMessageSize,
    /// A message was to be formed while no message had begun.
    MissingOpcode,
}

/// The human readable text of an error of this kind.
pub open spec fn protocol_error_text(e: ProtocolErrorKind) -> Seq<char> {
    match e {
        ProtocolErrorKind::IllegalFragmentedControlFrame => "Illegal fragmented control frame"@,
        ProtocolErrorKind::NoDataframes => "No dataframes provided"@,
        ProtocolErrorKind::UnexpectedNonContinuation => "Unexpected non-continuation data frame"@,
        ProtocolErrorKind::UnsupportedReservedBits => "Unsupported reserved bits received"@,
        ProtocolErrorKind::UnsupportedOpcode => "Unsupported opcode received"@,
        ProtocolErrorKind::UnexpectedContinuation => "Unexpected continuation data frame opcode"@,
        ProtocolErrorKind::UnexpectedDataFrameOpcode => "Unexpected data frame opcode"@,
        ProtocolErrorKind::ExceededDataFrameSize => "Exceeded maximum incoming DataFrame size"@,
        ProtocolErrorKind::TooManyDataFrames => "Exceeded count of data frames in one WebSocket message"@,
        ProtocolErrorKind::ExceededMessageSize => "Exceeded maximum WebSocket message size"@,
        ProtocolErrorKind::MissingOpcode => "No opcode received!"@,
    }
}

impl ProtocolErrorKind {
    /// The human readable text of this error.
    pub fn description(&self) -> (r: &'static str)
        ensures
            r@ == protocol_error_text(*self),
    {
        match self {
            ProtocolErrorKind::IllegalFragmentedControlFrame => "Illegal fragmented control frame",
            ProtocolErrorKind::NoDataframes => "No dataframes provided",
            ProtocolErrorKind::UnexpectedNonContinuation => "Unexpected non-continuation data frame",
            ProtocolErrorKind::UnsupportedReservedBits => "Unsupported reserved bits received",
            ProtocolErrorKind::UnsupportedOpcode => "Unsupported opcode received",
            ProtocolErrorKind::UnexpectedContinuation => "Unexpected continuation data frame opcode",
            ProtocolErrorKind::UnexpectedDataFrameOpcode => "Unexpected data frame opcode",
            ProtocolErrorKind::ExceededDataFrameSize => "Exceeded maximum incoming DataFrame size",
            ProtocolErrorKind::TooManyDataFrames => "Exceeded count of data frames in one WebSocket message",
            ProtocolErrorKind::ExceededMessageSize => "Exceeded maximum WebSocket message size",
            ProtocolErrorKind::MissingOpcode => "No opcode received!",
        }
    }
}

/// Reasons for which a single data frame is malformed.
#[derive(Debug, Clone, Copy, PartialEq, Eq, Structural)]
pub enum DataFrameErrorKind {
    /// An opcode above 15.
    InvalidOpcode,
    /// A control frame whose payload is 126 bytes or more.
    ControlFrameTooLong,
    /// A payload length that was not written in its shortest form.
    InvalidLength,
    /// A masked frame where an unmasked one was expected.
    ExpectedUnmasked,
    /// An unmasked frame where a masked one was expected.
    ExpectedMasked,
}

/// The human readable text of an error of this kind.
pub open spec fn dataframe_error_text(e: DataFrameErrorKind) -> Seq<char> {
    match e {
        DataFrameErrorKind::InvalidOpcode => "Invalid data frame opcode"@,
        DataFrameErrorKind::ControlFrameTooLong => "Control frame length too long"@,
        DataFrameErrorKind::InvalidLength => "Invalid data frame length"@,
        DataFrameErrorKind::ExpectedUnmasked => "Expected unmasked data frame"@,
        DataFrameErrorKind::ExpectedMasked => "Expected masked data frame"@,
    }
}

impl DataFrameErrorKind {
    /// The human readable text of this error.
    pub fn description(&self) -> (r: &'static str)
        ensures
            r@ == dataframe_error_text(*self),
    {
        match self {
            DataFrameErrorKind::InvalidOpcode => "Invalid data frame opcode",
            DataFrameErrorKind::ControlFrameTooLong => "Control frame length too long",
            DataFrameErrorKind::InvalidLength => "Invalid data frame length",
            DataFrameErrorKind::ExpectedUnmasked => "Expected unmasked data frame",
            DataFrameErrorKind::ExpectedMasked => "Expected masked data frame",
        }
    }
}

/// Represents a WebSocket URL error.
#[derive(Debug, Clone, Copy, PartialEq, Eq, Structural)]
pub enum WSUrlErrorKind {
    /// Fragments are not valid in a WebSocket URL
    CannotSetFragment,
    /// The scheme provided is invalid for a WebSocket
    InvalidScheme,
    /// There is no hostname or IP address to connect to
    NoHostName,
}

/// The human readable text of an error of this kind.
pub open spec fn url_error_text(e: WSUrlErrorKind) -> Seq<char> {
    match e {
        WSUrlErrorKind::CannotSetFragment => "WebSocket Url Error: WebSocket URL cannot set fragment"@,
        WSUrlErrorKind::InvalidScheme => "WebSocket Url Error: WebSocket URL invalid scheme"@,
        WSUrlErrorKind::NoHostName => "WebSocket Url Error: WebSocket URL no host name provided"@,
    }
}

impl WSUrlErrorKind {
    /// The human readable text of this error.
    pub fn description(&self) -> (r: &'static str)
        ensures
            r@ == url_error_text(*self),
    {
        match self {
            WSUrlErrorKind::CannotSetFragment => "WebSocket Url Error: WebSocket URL cannot set fragment",
            WSUrlErrorKind::InvalidScheme => "WebSocket Url Error: WebSocket URL invalid scheme",
            WSUrlErrorKind::NoHostName => "WebSocket Url Error: WebSocket URL no host name provided",
        }
    }
}

/// Errors of an I/O step that the library itself detects.
#[derive(Debug, Clone, Copy, PartialEq, Eq, Structural)]
pub enum IoErrorKind {
    /// The data read is not acceptable (such as a frame above a length limit).
    InvalidData,
    /// The input ended before a complete item was read.
    UnexpectedEof,
    /// An argument is not acceptable (such as a control message to be sent in fragments).
    InvalidInput,
}

/// The error type of the library.
#[derive(Debug, Clone, Copy, PartialEq, Eq, Structural)]
pub enum WebSocketError {
    /// A WebSocket protocol error
    ProtocolError(ProtocolErrorKind),
    /// A malformed data frame
    DataFrameError(DataFrameErrorKind),
    /// The input holds too few bytes for a complete item
    NoDataAvailable,
    /// An input/output error
    IoError(IoErrorKind),
    /// A payload that should be UTF-8 is not
    Utf8Error,
    /// A URL that could not be parsed at all
    UrlError,
    /// A WebSocket URL error
    WebSocketUrlError(WSUrlErrorKind),
    /// Invalid WebSocket request error
    RequestError(HyperIntoWsError),
}

/// The type used for WebSocket results
pub type WebSocketResult<T> = Result<T, WebSocketError>;

} // verus!
