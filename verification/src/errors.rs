//! Errors.

use crate::protocol::OpCodeParseErr;
use crate::text::{decimal, numbered, quoted};
use vstd::prelude::*;

verus! {

/// The kind of an error.
#[derive(Copy, Clone, Debug, PartialEq, Eq, Structural)]
pub enum ErrorKind {
    /// Reading from or writing to the stream failed.
    IO,
    /// A peer broke the WebSocket protocol.
    Protocol,
    /// An extension failed.
    Extension,
    /// An HTTP request or response was not as the opening handshake asks.
    Http,
    /// The WebSocket is closing or closed.
    Close,
}

/// Why an operation on a WebSocket that is not open failed.
#[derive(Copy, Clone, Debug, PartialEq, Eq, Structural)]
pub enum CloseCause {
    /// The closing handshake has completed.
    Stopped,
    /// The WebSocket was closed before.
    Error,
}

/// What a peer did that breaks the WebSocket protocol.
#[derive(Debug, PartialEq, Eq)]
pub enum ProtocolError {
    /// Text was expected to be in an encoding that it is not in.
    Encoding,
    /// A reserved or invalid operation code was received.
    OpCode(OpCodeParseErr),
    /// A client sent a frame without a mask.
    UnmaskedFrame,
    /// A server sent a frame with a mask.
    MaskedFrame,
    /// A control frame was not final.
    FragmentedControl,
    /// A frame was longer than permitted.
    FrameOverflow,
    /// A reserved bit that no negotiated extension uses was high.
    UnknownExtension,
    /// A continuation frame was received that continues no message.
    ContinuationNotStarted,
    /// A message was started before the one before it was complete.
    ContinuationAlreadyStarted,
    /// A close code that must not be sent was received.
    CloseCode(u16),
    /// A subprotocol header was not as negotiated.
    InvalidSubprotocolHeader(String),
}

/// What a `ProtocolError` says.
pub enum ProtocolErrorView {
    Encoding,
    OpCode(OpCodeParseErr),
    UnmaskedFrame,
    MaskedFrame,
    FragmentedControl,
    FrameOverflow,
    UnknownExtension,
    ContinuationNotStarted,
    ContinuationAlreadyStarted,
    CloseCode(u16),
    InvalidSubprotocolHeader(Seq<char>),
}

impl View for ProtocolError {
    type V = ProtocolErrorView;

    open spec fn view(&self) -> ProtocolErrorView {
        match *self {
            ProtocolError::Encoding => ProtocolErrorView::Encoding,
            ProtocolError::OpCode(e) => ProtocolErrorView::OpCode(e),
            ProtocolError::UnmaskedFrame => ProtocolErrorView::UnmaskedFrame,
            ProtocolError::MaskedFrame => ProtocolErrorView::MaskedFrame,
            ProtocolError::FragmentedControl => ProtocolErrorView::FragmentedControl,
            ProtocolError::FrameOverflow => ProtocolErrorView::FrameOverflow,
            ProtocolError::UnknownExtension => ProtocolErrorView::UnknownExtension,
            ProtocolError::ContinuationNotStarted => ProtocolErrorView::ContinuationNotStarted,
            ProtocolError::ContinuationAlreadyStarted => ProtocolErrorView::ContinuationAlreadyStarted,
            ProtocolError::CloseCode(code) => ProtocolErrorView::CloseCode(code),
            ProtocolError::InvalidSubprotocolHeader(header) =>
                ProtocolErrorView::InvalidSubprotocolHeader(header@),
        }
    }
}

impl ProtocolErrorView {
    /// The message of an error.
    pub open spec fn message(self) -> Seq<char> {
        match self {
            ProtocolErrorView::Encoding => "Not valid UTF-8 encoding"@,
            ProtocolErrorView::OpCode(e) => e.message(),
            ProtocolErrorView::UnmaskedFrame => "Received an unexpected unmasked frame"@,
            ProtocolErrorView::MaskedFrame => "Received an unexpected masked frame"@,
            ProtocolErrorView::FragmentedControl => "Received a fragmented control frame"@,
            ProtocolErrorView::FrameOverflow => "A frame exceeded the maximum permitted size"@,
            ProtocolErrorView::UnknownExtension =>
                "Received reserved bits that no extension has negotiated"@,
            ProtocolErrorView::ContinuationNotStarted => "Continuation not started"@,
            ProtocolErrorView::ContinuationAlreadyStarted => "Continuation already started"@,
            ProtocolErrorView::CloseCode(code) => "Received a reserved close code: `"@ + decimal(
                code as nat,
            ) + "`"@,
            ProtocolErrorView::InvalidSubprotocolHeader(header) =>
                "Invalid subprotocol header: `"@ + header + "`"@,
        }
    }
}

impl ProtocolError {
    /// Renders this error.
    pub fn render(&self) -> (text: String)
        ensures
            text@ == self@.message(),
    {
        match self {
            ProtocolError::Encoding => "Not valid UTF-8 encoding".to_string(),
            ProtocolError::OpCode(e) => e.render(),
            ProtocolError::UnmaskedFrame => "Received an unexpected unmasked frame".to_string(),
            ProtocolError::MaskedFrame => "Received an unexpected masked frame".to_string(),
            ProtocolError::FragmentedControl => "Received a fragmented control frame".to_string(),
            ProtocolError::FrameOverflow =>
                "A frame exceeded the maximum permitted size".to_string(),
            ProtocolError::UnknownExtension =>
                "Received reserved bits that no extension has negotiated".to_string(),
            ProtocolError::ContinuationNotStarted => "Continuation not started".to_string(),
            ProtocolError::ContinuationAlreadyStarted =>
                "Continuation already started".to_string(),
            ProtocolError::CloseCode(code) => numbered(
                "Received a reserved close code: `",
                *code as u64,
                "`",
            ),
            ProtocolError::InvalidSubprotocolHeader(header) => quoted(
                "Invalid subprotocol header: `",
                header.as_str(),
                "`",
            ),
        }
    }
}

/// What is wrong with a request or a response of the opening handshake.
#[derive(Debug, PartialEq, Eq)]
pub enum HttpError {
    /// The method is missing or is not `GET`.
    HttpMethod(Option<String>),
    /// The server redirected the client to another location.
    Redirected(String),
    /// The status code is missing or does not switch protocols.
    Status(Option<u16>),
    /// The version is too low.
    HttpVersion(String),
    /// The minor version number is missing or unknown.
    VersionNumber(Option<u8>),
    /// A header is missing.
    MissingHeader(String),
    /// A header has a value that it must not have.
    InvalidHeader(String),
    /// The target is missing or is no URI.
    MalformattedUri(Option<String>),
    /// A header holds bytes that are not allowed in it.
    MalformattedHeader(String),
    /// The target has no authority.
    MissingAuthority,
    /// There are more header fields than a map can hold.
    TooManyHeaders,
    /// The server answered another key than the one sent.
    KeyMismatch,
}

/// What an `HttpError` says.
pub enum HttpErrorView {
    HttpMethod(Option<Seq<char>>),
    Redirected(Seq<char>),
    Status(Option<u16>),
    HttpVersion(Seq<char>),
    VersionNumber(Option<u8>),
    MissingHeader(Seq<char>),
    InvalidHeader(Seq<char>),
    MalformattedUri(Option<Seq<char>>),
    MalformattedHeader(Seq<char>),
    MissingAuthority,
    TooManyHeaders,
    KeyMismatch,
}

/// The text of an optional string.
pub open spec fn text_of(text: Option<String>) -> Option<Seq<char>> {
    match text {
        Some(text) => Some(text@),
        None => None,
    }
}

impl View for HttpError {
    type V = HttpErrorView;

    open spec fn view(&self) -> HttpErrorView {
        match *self {
            HttpError::HttpMethod(method) => HttpErrorView::HttpMethod(text_of(method)),
            HttpError::Redirected(location) => HttpErrorView::Redirected(location@),
            HttpError::Status(code) => HttpErrorView::Status(code),
            HttpError::HttpVersion(version) => HttpErrorView::HttpVersion(version@),
            HttpError::VersionNumber(number) => HttpErrorView::VersionNumber(number),
            HttpError::MissingHeader(name) => HttpErrorView::MissingHeader(name@),
            HttpError::InvalidHeader(name) => HttpErrorView::InvalidHeader(name@),
            HttpError::MalformattedUri(uri) => HttpErrorView::MalformattedUri(text_of(uri)),
            HttpError::MalformattedHeader(header) => HttpErrorView::MalformattedHeader(header@),
            HttpError::MissingAuthority => HttpErrorView::MissingAuthority,
            HttpError::TooManyHeaders => HttpErrorView::TooManyHeaders,
            HttpError::KeyMismatch => HttpErrorView::KeyMismatch,
        }
    }
}

impl HttpErrorView {
    /// The message of an error.
    pub open spec fn message(self) -> Seq<char> {
        match self {
            HttpErrorView::HttpMethod(Some(method)) => "Invalid HTTP method: `"@ + method + "`"@,
            HttpErrorView::HttpMethod(None) => "Missing HTTP method"@,
            HttpErrorView::Redirected(location) => "Redirected to: `"@ + location + "`"@,
            HttpErrorView::Status(Some(code)) => "Unexpected status code: `"@ + decimal(
                code as nat,
            ) + "`"@,
            HttpErrorView::Status(None) => "Missing status code"@,
            HttpErrorView::HttpVersion(version) => "Invalid HTTP version: `"@ + version + "`"@,
            HttpErrorView::VersionNumber(Some(number)) => "Unknown HTTP version: `"@ + decimal(
                number as nat,
            ) + "`"@,
            HttpErrorView::VersionNumber(None) => "Missing HTTP version"@,
            HttpErrorView::MissingHeader(name) => "Missing header: `"@ + name + "`"@,
            HttpErrorView::InvalidHeader(name) => "Invalid header: `"@ + name + "`"@,
            HttpErrorView::MalformattedUri(Some(uri)) => "Malformatted URI: `"@ + uri + "`"@,
            HttpErrorView::MalformattedUri(None) => "Malformatted URI"@,
            HttpErrorView::MalformattedHeader(header) => "Malformatted header: `"@ + header + "`"@,
            HttpErrorView::MissingAuthority => "Missing authority"@,
            HttpErrorView::TooManyHeaders => "Too many headers"@,
            HttpErrorView::KeyMismatch => "Mismatched key"@,
        }
    }
}

impl HttpError {
    /// Renders this error.
    pub fn render(&self) -> (text: String)
        ensures
            text@ == self@.message(),
    {
        match self {
            HttpError::HttpMethod(Some(method)) => quoted(
                "Invalid HTTP method: `",
                method.as_str(),
                "`",
            ),
            HttpError::HttpMethod(None) => "Missing HTTP method".to_string(),
            HttpError::Redirected(location) => quoted("Redirected to: `", location.as_str(), "`"),
            HttpError::Status(Some(code)) => numbered(
                "Unexpected status code: `",
                *code as u64,
                "`",
            ),
            HttpError::Status(None) => "Missing status code".to_string(),
            HttpError::HttpVersion(version) => quoted(
                "Invalid HTTP version: `",
                version.as_str(),
                "`",
            ),
            HttpError::VersionNumber(Some(number)) => numbered(
                "Unknown HTTP version: `",
                *number as u64,
                "`",
            ),
            HttpError::VersionNumber(None) => "Missing HTTP version".to_string(),
            HttpError::MissingHeader(name) => quoted("Missing header: `", name.as_str(), "`"),
            HttpError::InvalidHeader(name) => quoted("Invalid header: `", name.as_str(), "`"),
            HttpError::MalformattedUri(Some(uri)) => quoted(
                "Malformatted URI: `",
                uri.as_str(),
                "`",
            ),
            HttpError::MalformattedUri(None) => "Malformatted URI".to_string(),
            HttpError::MalformattedHeader(header) => quoted(
                "Malformatted header: `",
                header.as_str(),
                "`",
            ),
            HttpError::MissingAuthority => "Missing authority".to_string(),
            HttpError::TooManyHeaders => "Too many headers".to_string(),
            HttpError::KeyMismatch => "Mismatched key".to_string(),
        }
    }
}

/// A header field that cannot be held by a map, in one line.
#[derive(Debug, PartialEq, Eq)]
pub struct InvalidHeader(pub String);

/// What led to an error.
#[derive(Debug, PartialEq, Eq)]
pub enum Cause {
    /// A message in words.
    Message(String),
    /// A breach of the WebSocket protocol.
    Protocol(ProtocolError),
    /// A request or a response that is not as it should be.
    Http(HttpError),
    /// The state that the WebSocket is in.
    Close(CloseCause),
}

/// What a `Cause` says.
pub enum CauseView {
    Message(Seq<char>),
    Protocol(ProtocolErrorView),
    Http(HttpErrorView),
    Close(CloseCause),
}

impl View for Cause {
    type V = CauseView;

    open spec fn view(&self) -> CauseView {
        match *self {
            Cause::Message(message) => CauseView::Message(message@),
            Cause::Protocol(e) => CauseView::Protocol(e@),
            Cause::Http(e) => CauseView::Http(e@),
            Cause::Close(e) => CauseView::Close(e),
        }
    }
}

/// An error of a WebSocket or of its opening handshake.
#[derive(Debug, PartialEq, Eq)]
pub struct Error {
    kind: ErrorKind,
    cause: Option<Cause>,
}

/// What an `Error` says.
pub struct ErrorView {
    pub kind: ErrorKind,
    pub cause: Option<CauseView>,
}

impl View for Error {
    type V = ErrorView;

    closed spec fn view(&self) -> ErrorView {
        ErrorView {
            kind: self.kind,
            cause: match self.cause {
                Some(cause) => Some(cause@),
                None => None,
            },
        }
    }
}

/// An error of a kind, with the words that say what led to it.
pub open spec fn worded(kind: ErrorKind, message: Seq<char>) -> ErrorView {
    ErrorView { kind, cause: Some(CauseView::Message(message)) }
}

/// The error of a breach of the WebSocket protocol.
pub open spec fn protocol_fault(e: ProtocolErrorView) -> ErrorView {
    ErrorView { kind: ErrorKind::Protocol, cause: Some(CauseView::Protocol(e)) }
}

/// The error of a request or a response that is not as it should be.
pub open spec fn http_fault(e: HttpErrorView) -> ErrorView {
    ErrorView { kind: ErrorKind::Http, cause: Some(CauseView::Http(e)) }
}

/// The error of a WebSocket that is not open.
pub open spec fn close_fault(cause: CloseCause) -> ErrorView {
    ErrorView { kind: ErrorKind::Close, cause: Some(CauseView::Close(cause)) }
}

impl Error {
    /// An error without a cause.
    pub fn new(kind: ErrorKind) -> (error: Error)
        ensures
            error@ == (ErrorView { kind, cause: None }),
    {
        Error { kind, cause: None }
    }

    /// An error with a cause.
    pub fn with_cause(kind: ErrorKind, cause: Cause) -> (error: Error)
        ensures
            error@ == (ErrorView { kind, cause: Some(cause@) }),
    {
        Error { kind, cause: Some(cause) }
    }

    /// The error of a breach of the WebSocket protocol.
    pub fn protocol(e: ProtocolError) -> (error: Error)
        ensures
            error@ == protocol_fault(e@),
    {
        Error::with_cause(ErrorKind::Protocol, Cause::Protocol(e))
    }

    /// The error of a request or a response that is not as it should be.
    pub fn http(e: HttpError) -> (error: Error)
        ensures
            error@ == http_fault(e@),
    {
        Error::with_cause(ErrorKind::Http, Cause::Http(e))
    }

    /// The error of a WebSocket that is not open.
    pub fn close(cause: CloseCause) -> (error: Error)
        ensures
            error@ == close_fault(cause),
    {
        Error::with_cause(ErrorKind::Close, Cause::Close(cause))
    }

    /// The kind of this error.
    pub fn kind(&self) -> (kind: ErrorKind)
        ensures
            kind == self@.kind,
    {
        self.kind
    }

    /// What led to this error.
    pub fn cause(&self) -> (cause: Option<&Cause>)
        ensures
            match cause {
                Some(cause) => self@.cause == Some(cause@),
                None => self@.cause is None,
            },
    {
        match &self.cause {
            Some(cause) => Some(cause),
            None => None,
        }
    }

    /// What is wrong with the request or the response, if that led to this error.
    pub fn http_cause(&self) -> (cause: Option<&HttpError>)
        ensures
            match cause {
                Some(e) => self@.cause == Some(CauseView::Http(e@)),
                None => !(self@.cause matches Some(CauseView::Http(_))),
            },
    {
        match &self.cause {
            Some(Cause::Http(e)) => Some(e),
            _ => None,
        }
    }

    /// The state that the WebSocket was in, if that led to this error.
    pub fn close_cause(&self) -> (cause: Option<CloseCause>)
        ensures
            match cause {
                Some(e) => self@.cause == Some(CauseView::Close(e)),
                None => !(self@.cause matches Some(CauseView::Close(_))),
            },
    {
        match &self.cause {
            Some(Cause::Close(e)) => Some(*e),
            _ => None,
        }
    }

    /// Whether reading from or writing to the stream failed.
    pub fn is_io(&self) -> (io: bool)
        ensures
            io == (self@.kind is IO),
    {
        matches!(self.kind, ErrorKind::IO)
    }

    /// Whether a peer broke the WebSocket protocol.
    pub fn is_protocol(&self) -> (protocol: bool)
        ensures
            protocol == (self@.kind is Protocol),
    {
        matches!(self.kind, ErrorKind::Protocol)
    }

    /// Whether the WebSocket is closing or closed.
    pub fn is_close(&self) -> (close: bool)
        ensures
            close == (self@.kind is Close),
    {
        matches!(self.kind, ErrorKind::Close)
    }
}

/// A failure of an operation that may call an extension.
#[derive(Debug)]
pub enum Failure<X> {
    /// The operation failed.
    Core(Error),
    /// The extension failed. Such a failure is of the kind `ErrorKind::Extension`.
    Extension(X),
}

impl<X> Failure<X> {
    /// Whether this is a failure of the operation that says what `error` says.
    pub open spec fn says(self, error: ErrorView) -> bool {
        self matches Failure::Core(e) && e@ == error
    }

    /// The kind of this failure.
    pub fn kind(&self) -> (kind: ErrorKind)
        ensures
            kind == match *self {
                Failure::Core(e) => e@.kind,
                Failure::Extension(_) => ErrorKind::Extension,
            },
    {
        match self {
            Failure::Core(e) => e.kind(),
            Failure::Extension(_) => ErrorKind::Extension,
        }
    }
}

} // verus!
