use shrubbery::framed::{
    map_lines_err, map_serde_json_err, map_tungstenite_poll_result, map_tungstenite_result,
    poll_websocket_next, read_shrub_version_header, read_websocket_version_message,
    send_shrub_version_header, transpose_to_io_error, ErrorKind, HandshakeError, LinesError,
    Message, Poll, SocketError, TransportError, MAX_LENGTH,
};
use shrubbery::framed_websocket::Adapter;

fn failure(kind: ErrorKind, message: &str) -> TransportError {
    TransportError { kind, message: message.to_string() }
}

fn text(text: &str) -> Poll<Option<Result<Message, SocketError>>> {
    Poll::Ready(Some(Ok(Message::Text(text.to_string()))))
}

#[test]
fn frame_limit_is_sixteen_mebibytes() {
    assert_eq!(MAX_LENGTH, 1024 * 1024 * 16);
}

#[test]
fn version_header_is_shrub1_and_newline() {
    assert_eq!(send_shrub_version_header(), b"shrub1\n".to_vec());
    assert_eq!(read_shrub_version_header(b"shrub1\n"), Ok(()));
    assert_eq!(read_shrub_version_header(&send_shrub_version_header()), Ok(()));
}

#[test]
fn other_headers_are_refused() {
    for header in [&b"shrub2\n"[..], b"shrub1\r", b"SHRUB1\n", b"shrub1", b"shrub1\n\n", b"", b"xhrub1\n"] {
        assert_eq!(read_shrub_version_header(header), Err(HandshakeError::ExpectedHeader));
    }
}

#[test]
fn websocket_version_message() {
    assert_eq!(
        read_websocket_version_message(Some(Message::Text("shrub1".to_string()))),
        Poll::Ready(Ok(()))
    );
    assert_eq!(
        read_websocket_version_message(Some(Message::Text("shrub1\n".to_string()))),
        Poll::Ready(Err(HandshakeError::ExpectedVersionMessage))
    );
    assert_eq!(
        read_websocket_version_message(Some(Message::Binary(b"shrub1".to_vec()))),
        Poll::Ready(Err(HandshakeError::UnexpectedBinary))
    );
    assert_eq!(read_websocket_version_message(Some(Message::Control)), Poll::Pending);
    assert_eq!(read_websocket_version_message(None), Poll::Ready(Err(HandshakeError::Closed)));
}

#[test]
fn handshake_error_messages() {
    assert_eq!(HandshakeError::ExpectedHeader.to_string(), "expected shrub header");
    assert_eq!(HandshakeError::Closed.to_string(), "closed");
    assert_eq!(HandshakeError::UnexpectedBinary.to_string(), "unexpected binary message");
    assert_eq!(
        HandshakeError::ExpectedVersionMessage.to_string(),
        "expected shrub version message"
    );
}

#[test]
fn socket_errors_become_transport_errors() {
    assert_eq!(
        transpose_to_io_error(SocketError::Io(std::io::ErrorKind::BrokenPipe, "broken pipe".to_string())),
        failure(ErrorKind::Io(std::io::ErrorKind::BrokenPipe), "broken pipe")
    );
    assert_eq!(
        transpose_to_io_error(SocketError::Other("protocol".to_string())),
        failure(ErrorKind::Other, "protocol")
    );
    assert_eq!(
        transpose_to_io_error(SocketError::ConnectionClosed),
        failure(ErrorKind::Other, "Connection closed normally")
    );
    assert_eq!(map_tungstenite_result(Ok::<u8, SocketError>(3)), Ok(3));
    assert_eq!(
        map_tungstenite_result(Err::<u8, SocketError>(SocketError::Io(std::io::ErrorKind::TimedOut, "x".to_string()))),
        Err(failure(ErrorKind::Io(std::io::ErrorKind::TimedOut), "x"))
    );
    assert_eq!(map_tungstenite_poll_result(Poll::<Result<u8, SocketError>>::Pending), Poll::Pending);
    assert_eq!(map_tungstenite_poll_result(Poll::Ready(Ok::<u8, SocketError>(3))), Poll::Ready(Ok(3)));
    assert_eq!(
        map_tungstenite_poll_result(Poll::Ready(Err::<u8, SocketError>(SocketError::Other(
            "y".to_string()
        )))),
        Poll::Ready(Err(failure(ErrorKind::Other, "y")))
    );
}

#[test]
fn codec_errors_are_invalid_data() {
    assert_eq!(
        map_lines_err(LinesError::MaxLineLengthExceeded),
        failure(ErrorKind::InvalidData, "max line length exceeded")
    );
    assert_eq!(
        map_lines_err(LinesError::InvalidUtf8),
        failure(ErrorKind::InvalidData, "Unable to decode input as UTF8")
    );
    assert_eq!(map_lines_err(LinesError::Io(std::io::ErrorKind::ConnectionReset, "reset".to_string())), failure(ErrorKind::Io(std::io::ErrorKind::ConnectionReset), "reset"));
    assert_eq!(
        map_serde_json_err("expected value at line 1 column 1".to_string()),
        failure(ErrorKind::InvalidData, "expected value at line 1 column 1")
    );
}

#[test]
fn websocket_messages_for_the_frame_reader() {
    assert_eq!(poll_websocket_next(Poll::Pending), Poll::Pending);
    assert_eq!(poll_websocket_next(Poll::Ready(None)), Poll::Ready(None));
    assert_eq!(
        poll_websocket_next(text("{\"id\":1}")),
        Poll::Ready(Some(Ok("{\"id\":1}".to_string())))
    );
    assert_eq!(
        poll_websocket_next(Poll::Ready(Some(Ok(Message::Binary(vec![1, 2]))))),
        Poll::Ready(Some(Err(failure(ErrorKind::InvalidData, "unexpected binary message"))))
    );
    assert_eq!(poll_websocket_next(Poll::Ready(Some(Ok(Message::Control)))), Poll::Pending);
    assert_eq!(
        poll_websocket_next(Poll::Ready(Some(Err(SocketError::ConnectionClosed)))),
        Poll::Ready(Some(Err(failure(ErrorKind::Other, "Connection closed normally"))))
    );
    assert_eq!(
        poll_websocket_next(Poll::Ready(Some(Err(SocketError::Io(std::io::ErrorKind::UnexpectedEof, "eof".to_string()))))),
        Poll::Ready(Some(Err(failure(ErrorKind::Io(std::io::ErrorKind::UnexpectedEof), "eof"))))
    );
}

#[test]
fn adapter_waits_for_the_handshake() {
    let mut adapter = Adapter::new();
    assert!(!adapter.is_established());
    assert_eq!(adapter.poll_next(Poll::Pending), Poll::Pending);
    assert_eq!(adapter.poll_next(Poll::Ready(Some(Ok(Message::Control)))), Poll::Pending);
    assert_eq!(adapter.poll_next(Poll::Ready(None)), Poll::Ready(None));
    assert!(!adapter.is_established());
    assert_eq!(adapter.poll_next(text("shrub1\n")), Poll::Pending);
    assert!(adapter.is_established());
    assert_eq!(
        adapter.poll_next(text("{\"id\":-1}")),
        Poll::Ready(Some(Ok("{\"id\":-1}".to_string())))
    );
    assert_eq!(
        adapter.poll_next(text("shrub1\n")),
        Poll::Ready(Some(Ok("shrub1\n".to_string())))
    );
    assert_eq!(adapter.poll_next(Poll::Ready(Some(Ok(Message::Binary(vec![1]))))), Poll::Pending);
    assert_eq!(adapter.poll_next(Poll::Ready(None)), Poll::Ready(None));
    assert!(adapter.is_established());
}

#[test]
fn adapter_refuses_a_binary_message_before_the_handshake() {
    let mut adapter = Adapter::new();
    assert_eq!(
        adapter.poll_next(Poll::Ready(Some(Ok(Message::Binary(b"shrub1\n".to_vec()))))),
        Poll::Ready(Some(Err(failure(ErrorKind::InvalidData, "unexpected binary message"))))
    );
    assert!(!adapter.is_established());
}

#[test]
fn adapter_refuses_a_wrong_handshake() {
    for first in ["shrub1", "shrub2\n", "", "{\"id\":-1}"] {
        let mut adapter = Adapter::new();
        assert_eq!(
            adapter.poll_next(text(first)),
            Poll::Ready(Some(Err(failure(ErrorKind::InvalidData, "expected 'shrub' handshake"))))
        );
        assert!(!adapter.is_established());
    }
}

#[test]
fn adapter_ends_the_stream_on_a_regular_close() {
    let mut adapter = Adapter::new();
    assert_eq!(
        adapter.poll_next(Poll::Ready(Some(Err(SocketError::ConnectionClosed)))),
        Poll::Ready(None)
    );
    assert_eq!(
        adapter.poll_next(Poll::Ready(Some(Err(SocketError::Io(std::io::ErrorKind::ConnectionReset, "reset".to_string()))))),
        Poll::Ready(Some(Err(failure(ErrorKind::Io(std::io::ErrorKind::ConnectionReset), "reset"))))
    );
    assert_eq!(
        adapter.poll_next(Poll::Ready(Some(Err(SocketError::Other("capacity".to_string()))))),
        Poll::Ready(Some(Err(failure(ErrorKind::Other, "capacity"))))
    );
}
