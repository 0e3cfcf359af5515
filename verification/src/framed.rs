//! The carriers of frames: the version handshake of each, and what a message
//! read from a WebSocket means before it is decoded as a frame.

use crate::text::same_text;
use vstd::prelude::*;
use vstd::utf8::encode_utf8;

verus! {

/// The longest line that is accepted as a frame on a raw carrier: 16 MiB.
pub const MAX_LENGTH: usize = 16_777_216;

/// The kind of an I/O error, as `std::io` names it. It is carried along, never
/// looked into.
#[verifier::external_type_specification]
#[verifier::external_body]
pub struct ExIoErrorKind(std::io::ErrorKind);

/// The answer of a source that may not be ready yet.
#[derive(Debug, PartialEq)]
pub enum Poll<T> {
    Ready(T),
    Pending,
}

/// A message read from a WebSocket.
#[derive(Debug, PartialEq)]
pub enum Message {
    Text(String),
    Binary(Vec<u8>),
    /// A ping, a pong, a close or a raw frame.
    Control,
}

/// An error reported by a WebSocket.
#[derive(Debug, PartialEq)]
pub enum SocketError {
    /// An I/O error of the socket underneath, with its kind and text.
    Io(std::io::ErrorKind, String),
    /// The connection was closed in the regular way.
    ConnectionClosed,
    /// Any other error, with its text.
    Other(String),
}

/// An error reported while splitting a raw carrier into lines.
#[derive(Debug, PartialEq)]
pub enum LinesError {
    /// A line was longer than the limit.
    MaxLineLengthExceeded,
    /// A line was not UTF-8.
    InvalidUtf8,
    /// An I/O error of the socket underneath, with its kind and text.
    Io(std::io::ErrorKind, String),
}

/// The kind of a transport error.
#[derive(Clone, Copy, Debug, PartialEq, Eq)]
pub enum ErrorKind {
    /// An I/O error of the socket underneath, passed on with the kind it came
    /// with.
    Io(std::io::ErrorKind),
    /// What arrived is not acceptable: fatal to the connection.
    InvalidData,
    /// Any other failure of the carrier.
    Other,
}

/// An error of a frame carrier. Every one of them ends the connection.
#[derive(Debug, PartialEq)]
pub struct TransportError {
    pub kind: ErrorKind,
    pub message: String,
}

/// The mathematical value of a [`TransportError`].
pub struct TransportErrorView {
    pub kind: ErrorKind,
    pub message: Seq<char>,
}

impl View for TransportError {
    type V = TransportErrorView;

    open spec fn view(&self) -> TransportErrorView {
        TransportErrorView { kind: self.kind, message: self.message@ }
    }
}

/// Why a version handshake failed.
#[derive(Clone, Copy, Debug, PartialEq, Eq, Structural)]
pub enum HandshakeError {
    /// The first seven bytes of a raw carrier were not the version header.
    ExpectedHeader,
    /// The WebSocket ended before a text message came.
    Closed,
    /// A binary message came before the version message.
    UnexpectedBinary,
    /// The first text message was not the version message.
    ExpectedVersionMessage,
}

impl HandshakeError {
    /// The text of this error.
    pub open spec fn text(self) -> Seq<char> {
        match self {
            HandshakeError::ExpectedHeader => "expected shrub header"@,
            HandshakeError::Closed => "closed"@,
            HandshakeError::UnexpectedBinary => "unexpected binary message"@,
            HandshakeError::ExpectedVersionMessage => "expected shrub version message"@,
        }
    }

    /// The message shown for this error.
    pub fn to_string(&self) -> (message: String)
        ensures
            message@ == self.text(),
    {
        match self {
            HandshakeError::ExpectedHeader => "expected shrub header".to_owned(),
            HandshakeError::Closed => "closed".to_owned(),
            HandshakeError::UnexpectedBinary => "unexpected binary message".to_owned(),
            HandshakeError::ExpectedVersionMessage => "expected shrub version message".to_owned(),
        }
    }
}

/// The bytes that both ends of a raw carrier write before any frame.
pub open spec fn version_header() -> Seq<u8> {
    seq![115u8, 104u8, 114u8, 117u8, 98u8, 49u8, 10u8]
}

/// The transport error that a WebSocket error becomes: an I/O error is passed
/// on, every other error becomes an error of kind `Other`.
pub open spec fn transport_error_of(error: SocketError) -> TransportErrorView {
    match error {
        SocketError::Io(kind, message) => TransportErrorView {
            kind: ErrorKind::Io(kind),
            message: message@,
        },
        SocketError::ConnectionClosed => TransportErrorView {
            kind: ErrorKind::Other,
            message: "Connection closed normally"@,
        },
        SocketError::Other(message) => TransportErrorView {
            kind: ErrorKind::Other,
            message: message@,
        },
    }
}

/// The transport error that a line-splitting error becomes: a line that is too
/// long or no UTF-8 is invalid data, an I/O error is passed on.
pub open spec fn lines_error_of(error: LinesError) -> TransportErrorView {
    match error {
        LinesError::MaxLineLengthExceeded => TransportErrorView {
            kind: ErrorKind::InvalidData,
            message: "max line length exceeded"@,
        },
        LinesError::InvalidUtf8 => TransportErrorView {
            kind: ErrorKind::InvalidData,
            message: "Unable to decode input as UTF8"@,
        },
        LinesError::Io(kind, message) => TransportErrorView {
            kind: ErrorKind::Io(kind),
            message: message@,
        },
    }
}

/// What a message polled from a WebSocket means for the reader of frames:
/// `Pending` to wait on, `Ready(None)` for the end of the stream,
/// `Ready(Some(Ok(text)))` for a text to decode as a frame, and
/// `Ready(Some(Err(..)))` for a fatal error.
pub open spec fn websocket_next(polled: Poll<Option<Result<Message, SocketError>>>) -> Poll<
    Option<Result<Seq<char>, TransportErrorView>>,
> {
    match polled {
        Poll::Pending => Poll::Pending,
        Poll::Ready(None) => Poll::Ready(None),
        Poll::Ready(Some(Err(error))) => Poll::Ready(Some(Err(transport_error_of(error)))),
        Poll::Ready(Some(Ok(Message::Text(text)))) => Poll::Ready(Some(Ok(text@))),
        Poll::Ready(Some(Ok(Message::Binary(_)))) => Poll::Ready(
            Some(
                Err(
                    TransportErrorView {
                        kind: ErrorKind::InvalidData,
                        message: "unexpected binary message"@,
                    },
                ),
            ),
        ),
        Poll::Ready(Some(Ok(Message::Control))) => Poll::Pending,
    }
}

/// The view of what the reader of frames is told.
pub open spec fn next_view(next: Poll<Option<Result<String, TransportError>>>) -> Poll<
    Option<Result<Seq<char>, TransportErrorView>>,
> {
    match next {
        Poll::Pending => Poll::Pending,
        Poll::Ready(None) => Poll::Ready(None),
        Poll::Ready(Some(Ok(text))) => Poll::Ready(Some(Ok(text@))),
        Poll::Ready(Some(Err(error))) => Poll::Ready(Some(Err(error@))),
    }
}

/// What one message means for the version handshake of a WebSocket: `Pending`
/// to read on, `Ready` with the outcome.
pub open spec fn websocket_version(message: Option<Message>) -> Poll<Result<(), HandshakeError>> {
    match message {
        None => Poll::Ready(Err(HandshakeError::Closed)),
        Some(Message::Text(text)) => if text@ == "shrub1"@ {
            Poll::Ready(Ok(()))
        } else {
            Poll::Ready(Err(HandshakeError::ExpectedVersionMessage))
        },
        Some(Message::Binary(_)) => Poll::Ready(Err(HandshakeError::UnexpectedBinary)),
        Some(Message::Control) => Poll::Pending,
    }
}

/// Turns a line-splitting error into a transport error.
pub fn map_lines_err(error: LinesError) -> (mapped: TransportError)
    ensures
        mapped@ == lines_error_of(error),
{
    match error {
        LinesError::MaxLineLengthExceeded => TransportError {
            kind: ErrorKind::InvalidData,
            message: "max line length exceeded".to_owned(),
        },
        LinesError::InvalidUtf8 => TransportError {
            kind: ErrorKind::InvalidData,
            message: "Unable to decode input as UTF8".to_owned(),
        },
        LinesError::Io(kind, message) => TransportError { kind: ErrorKind::Io(kind), message },
    }
}

/// The transport error for a frame that could not be written as JSON or read
/// from it: invalid data, with the text of the JSON error.
pub fn map_serde_json_err(message: String) -> (mapped: TransportError)
    ensures
        mapped@ == (TransportErrorView { kind: ErrorKind::InvalidData, message: message@ }),
{
    TransportError { kind: ErrorKind::InvalidData, message }
}

/// Turns a WebSocket error into a transport error.
pub fn transpose_to_io_error(error: SocketError) -> (mapped: TransportError)
    ensures
        mapped@ == transport_error_of(error),
{
    match error {
        SocketError::Io(kind, message) => TransportError { kind: ErrorKind::Io(kind), message },
        SocketError::ConnectionClosed => TransportError {
            kind: ErrorKind::Other,
            message: "Connection closed normally".to_owned(),
        },
        SocketError::Other(message) => TransportError { kind: ErrorKind::Other, message },
    }
}

/// Turns the error of a WebSocket result into a transport error and leaves a
/// success as it is.
pub fn map_tungstenite_result<T>(result: Result<T, SocketError>) -> (mapped: Result<
    T,
    TransportError,
>)
    ensures
        match result {
            Ok(value) => mapped == Ok::<T, TransportError>(value),
            Err(error) => mapped is Err && mapped->Err_0@ == transport_error_of(error),
        },
{
    match result {
        Ok(value) => Ok(value),
        Err(error) => Err(transpose_to_io_error(error)),
    }
}

/// Turns the error of a polled WebSocket result into a transport error and
/// leaves `Pending` and a success as they are.
pub fn map_tungstenite_poll_result<T>(polled: Poll<Result<T, SocketError>>) -> (mapped: Poll<
    Result<T, TransportError>,
>)
    ensures
        match polled {
            Poll::Pending => mapped is Pending,
            Poll::Ready(Ok(value)) => mapped == Poll::Ready(Ok::<T, TransportError>(value)),
            Poll::Ready(Err(error)) => mapped matches Poll::Ready(Err(mapped_error))
                && mapped_error@ == transport_error_of(error),
        },
{
    match polled {
        Poll::Pending => Poll::Pending,
        Poll::Ready(result) => Poll::Ready(map_tungstenite_result(result)),
    }
}

/// Decides what a message polled from a WebSocket means for the reader of
/// frames. A text is handed on to be decoded as a frame, a binary message is
/// invalid data, control messages are waited out.
pub fn poll_websocket_next(polled: Poll<Option<Result<Message, SocketError>>>) -> (next: Poll<
    Option<Result<String, TransportError>>,
>)
    ensures
        next_view(next) == websocket_next(polled),
{
    let result = match polled {
        Poll::Pending => {
            return Poll::Pending;
        },
        Poll::Ready(None) => {
            return Poll::Ready(None);
        },
        Poll::Ready(Some(result)) => result,
    };
    let message = match map_tungstenite_result(result) {
        Ok(message) => message,
        Err(error) => {
            return Poll::Ready(Some(Err(error)));
        },
    };
    match message {
        Message::Text(text) => Poll::Ready(Some(Ok(text))),
        Message::Binary(_) => Poll::Ready(
            Some(
                Err(
                    TransportError {
                        kind: ErrorKind::InvalidData,
                        message: "unexpected binary message".to_owned(),
                    },
                ),
            ),
        ),
        Message::Control => Poll::Pending,
    }
}

/// The seven bytes to write before any frame on a raw carrier.
pub fn send_shrub_version_header() -> (header: Vec<u8>)
    ensures
        header@ == version_header(),
{
    let mut header: Vec<u8> = Vec::new();
    header.push(115u8);
    header.push(104u8);
    header.push(114u8);
    header.push(117u8);
    header.push(98u8);
    header.push(49u8);
    header.push(10u8);
    assert(header@ =~= version_header());
    header
}

/// Checks the seven bytes read from a raw carrier before any frame: they have
/// to be exactly the version header.
pub fn read_shrub_version_header(header: &[u8]) -> (checked: Result<(), HandshakeError>)
    ensures
        header@ == version_header() ==> checked == Ok::<(), HandshakeError>(()),
        header@ != version_header() ==> checked == Err::<(), HandshakeError>(
            HandshakeError::ExpectedHeader,
        ),
{
    if header.len() == 7 && header[0] == 115u8 && header[1] == 104u8 && header[2] == 114u8
        && header[3] == 117u8 && header[4] == 98u8 && header[5] == 49u8 && header[6] == 10u8 {
        assert(header@ =~= version_header());
        Ok(())
    } else {
        Err(HandshakeError::ExpectedHeader)
    }
}

/// Takes one message of a WebSocket during the version handshake; `None` is the
/// end of the stream. The first text message has to be `shrub1`, a binary
/// message before it fails the handshake, control messages are read over.
pub fn read_websocket_version_message(message: Option<Message>) -> (step: Poll<
    Result<(), HandshakeError>,
>)
    ensures
        step == websocket_version(message),
{
    match message {
        None => Poll::Ready(Err(HandshakeError::Closed)),
        Some(Message::Text(text)) => {
            if same_text(text.as_str(), "shrub1") {
                Poll::Ready(Ok(()))
            } else {
                Poll::Ready(Err(HandshakeError::ExpectedVersionMessage))
            }
        },
        Some(Message::Binary(_)) => Poll::Ready(Err(HandshakeError::UnexpectedBinary)),
        Some(Message::Control) => Poll::Pending,
    }
}

} // verus!
