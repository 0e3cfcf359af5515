//! The server's end of a WebSocket carrier: the in-band handshake and the
//! messages that follow it.

use crate::framed::{transpose_to_io_error, ErrorKind, Message, Poll, SocketError, TransportError};
use crate::framed::{next_view, transport_error_of, TransportErrorView};
use crate::text::same_text;
use vstd::prelude::*;

verus! {

/// How far the in-band handshake of a WebSocket has come.
#[derive(Clone, Copy, Debug, PartialEq, Eq, Structural)]
pub enum ShrubHandshakeState {
    /// The handshake message has not come yet.
    Pre,
    /// The handshake is done: text messages are frames.
    Post,
    /// The handshake can no longer be made.
    Missing,
}

/// The server's reader of a WebSocket carrier.
#[derive(Debug, PartialEq)]
pub struct Adapter {
    shrub_handshake_state: ShrubHandshakeState,
}

/// What the reader of frames is told about a message, and the handshake state
/// afterwards. A binary message is invalid data before the handshake is done
/// and ignored after it; control messages are ignored. The end of the message
/// stream and a regular close end the stream of frames.
pub open spec fn adapter_next(
    state: ShrubHandshakeState,
    polled: Poll<Option<Result<Message, SocketError>>>,
) -> (ShrubHandshakeState, Poll<Option<Result<Seq<char>, TransportErrorView>>>) {
    match polled {
        Poll::Pending => (state, Poll::Pending),
        Poll::Ready(None) => (state, Poll::Ready(None)),
        Poll::Ready(Some(Err(SocketError::ConnectionClosed))) => (state, Poll::Ready(None)),
        Poll::Ready(Some(Err(error))) => (
            state,
            Poll::Ready(Some(Err(transport_error_of(error)))),
        ),
        Poll::Ready(Some(Ok(Message::Text(text)))) => match state {
            ShrubHandshakeState::Pre => if text@ == "shrub1\n"@ {
                (ShrubHandshakeState::Post, Poll::Pending)
            } else {
                (
                    state,
                    Poll::Ready(
                        Some(
                            Err(
                                TransportErrorView {
                                    kind: ErrorKind::InvalidData,
                                    message: "expected 'shrub' handshake"@,
                                },
                            ),
                        ),
                    ),
                )
            },
            ShrubHandshakeState::Missing => (
                state,
                Poll::Ready(
                    Some(
                        Err(
                            TransportErrorView {
                                kind: ErrorKind::InvalidData,
                                message: "missing 'shrub' handshake"@,
                            },
                        ),
                    ),
                ),
            ),
            ShrubHandshakeState::Post => (state, Poll::Ready(Some(Ok(text@)))),
        },
        Poll::Ready(Some(Ok(Message::Binary(_)))) => match state {
            ShrubHandshakeState::Post => (state, Poll::Pending),
            _ => (
                state,
                Poll::Ready(
                    Some(
                        Err(
                            TransportErrorView {
                                kind: ErrorKind::InvalidData,
                                message: "unexpected binary message"@,
                            },
                        ),
                    ),
                ),
            ),
        },
        Poll::Ready(Some(Ok(Message::Control))) => (state, Poll::Pending),
    }
}

impl Adapter {
    /// How far the handshake has come.
    pub closed spec fn state(&self) -> ShrubHandshakeState {
        self.shrub_handshake_state
    }

    /// A reader that waits for the handshake message.
    pub fn new() -> (adapter: Self)
        ensures
            adapter.state() == ShrubHandshakeState::Pre,
    {
        Adapter { shrub_handshake_state: ShrubHandshakeState::Pre }
    }

    /// Whether the handshake is done.
    pub fn is_established(&self) -> (established: bool)
        ensures
            established == (self.state() == ShrubHandshakeState::Post),
    {
        match self.shrub_handshake_state {
            ShrubHandshakeState::Post => true,
            _ => false,
        }
    }

    /// Takes what the WebSocket yielded and tells the reader of frames what it
    /// means: `Pending` to wait on, `Ready(None)` for the end of the stream,
    /// `Ready(Some(Ok(text)))` for a text to decode as a frame, and
    /// `Ready(Some(Err(..)))` for a fatal error.
    pub fn poll_next(&mut self, polled: Poll<Option<Result<Message, SocketError>>>) -> (next: Poll<
        Option<Result<String, TransportError>>,
    >)
        ensures
            (final(self).state(), next_view(next)) == adapter_next(old(self).state(), polled),
    {
        let result = match polled {
            Poll::Pending => {
                return Poll::Pending;
            },
            Poll::Ready(result) => result,
        };
        let result = match result {
            Some(result) => result,
            None => {
                return Poll::Ready(None);
            },
        };
        let message = match result {
            Ok(message) => message,
            Err(SocketError::ConnectionClosed) => {
                return Poll::Ready(None);
            },
            Err(error) => {
                return Poll::Ready(Some(Err(transpose_to_io_error(error))));
            },
        };
        let text = match message {
            Message::Text(text) => text,
            Message::Binary(_) => {
                return match self.shrub_handshake_state {
                    ShrubHandshakeState::Post => Poll::Pending,
                    _ => Poll::Ready(
                        Some(
                            Err(
                                TransportError {
                                    kind: ErrorKind::InvalidData,
                                    message: "unexpected binary message".to_owned(),
                                },
                            ),
                        ),
                    ),
                };
            },
            Message::Control => {
                return Poll::Pending;
            },
        };
        match self.shrub_handshake_state {
            ShrubHandshakeState::Pre => {
                if !same_text(text.as_str(), "shrub1\n") {
                    return Poll::Ready(
                        Some(
                            Err(
                                TransportError {
                                    kind: ErrorKind::InvalidData,
                                    message: "expected 'shrub' handshake".to_owned(),
                                },
                            ),
                        ),
                    );
                }
                self.shrub_handshake_state = ShrubHandshakeState::Post;
                Poll::Pending
            },
            ShrubHandshakeState::Missing => Poll::Ready(
                Some(
                    Err(
                        TransportError {
                            kind: ErrorKind::InvalidData,
                            message: "missing 'shrub' handshake".to_owned(),
                        },
                    ),
                ),
            ),
            ShrubHandshakeState::Post => Poll::Ready(Some(Ok(text))),
        }
    }
}

} // verus!
