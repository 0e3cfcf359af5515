use bytes::BytesMut;
use shrubbery::codec::ShrubCodec;
use shrubbery::framed::{ErrorKind, TransportError};

fn invalid(message: &str) -> TransportError {
    TransportError { kind: ErrorKind::InvalidData, message: message.to_string() }
}

#[test]
fn decode_takes_one_line_at_a_time() {
    let mut codec = ShrubCodec::new();
    let mut buffer = BytesMut::from(&b"{\"id\":-1}\n{\"id\":-2}\r\n{\"id\""[..]);
    assert_eq!(codec.decode(&mut buffer), Ok(Some("{\"id\":-1}".to_string())));
    assert_eq!(&buffer[..], b"{\"id\":-2}\r\n{\"id\"");
    assert_eq!(codec.decode(&mut buffer), Ok(Some("{\"id\":-2}".to_string())));
    assert_eq!(&buffer[..], b"{\"id\"");
    assert_eq!(codec.decode(&mut buffer), Ok(None));
    assert_eq!(&buffer[..], b"{\"id\"");
    buffer.extend_from_slice(b":-3}\n");
    assert_eq!(codec.decode(&mut buffer), Ok(Some("{\"id\":-3}".to_string())));
    assert_eq!(codec.decode(&mut buffer), Ok(None));
    assert!(buffer.is_empty());
}

#[test]
fn decode_of_empty_lines() {
    let mut codec = ShrubCodec::new();
    let mut buffer = BytesMut::from(&b"\n\r\nx"[..]);
    assert_eq!(codec.decode(&mut buffer), Ok(Some(String::new())));
    assert_eq!(codec.decode(&mut buffer), Ok(Some(String::new())));
    assert_eq!(codec.decode(&mut buffer), Ok(None));
    assert_eq!(&buffer[..], b"x");
}

#[test]
fn decode_refuses_a_line_that_is_no_utf8() {
    let mut codec = ShrubCodec::new();
    let mut buffer = BytesMut::from(&b"\xff\xfe\nnext\n"[..]);
    assert_eq!(codec.decode(&mut buffer), Err(invalid("Unable to decode input as UTF8")));
    assert_eq!(&buffer[..], b"next\n");
}

#[test]
fn decode_refuses_a_line_over_sixteen_mebibytes() {
    let limit = 16 * 1024 * 1024;
    let mut codec = ShrubCodec::new();
    let mut buffer = BytesMut::from(&vec![b'a'; limit][..]);
    assert_eq!(codec.decode(&mut buffer), Ok(None));
    buffer.extend_from_slice(b"\n");
    assert_eq!(codec.decode(&mut buffer).map(|line| line.map(|text| text.len())), Ok(Some(limit)));
    assert!(buffer.is_empty());

    let mut buffer = BytesMut::from(&vec![b'a'; limit + 1][..]);
    assert_eq!(codec.decode(&mut buffer), Err(invalid("max line length exceeded")));
    assert_eq!(buffer.len(), limit + 1);
    buffer.extend_from_slice(b"\n");
    assert_eq!(codec.decode(&mut buffer), Err(invalid("max line length exceeded")));
}

#[test]
fn encode_appends_the_line_and_a_newline() {
    let mut codec = ShrubCodec::new();
    let mut buffer = BytesMut::new();
    assert_eq!(codec.encode("{\"id\":1,\"type\":\"Ok\"}".to_string(), &mut buffer), Ok(()));
    assert_eq!(&buffer[..], b"{\"id\":1,\"type\":\"Ok\"}\n");
    assert_eq!(codec.encode("\u{e9}".to_string(), &mut buffer), Ok(()));
    assert_eq!(&buffer[..], b"{\"id\":1,\"type\":\"Ok\"}\n\xc3\xa9\n");
    assert_eq!(codec.decode(&mut buffer), Ok(Some("{\"id\":1,\"type\":\"Ok\"}".to_string())));
    assert_eq!(codec.decode(&mut buffer), Ok(Some("\u{e9}".to_string())));
}

#[test]
fn a_new_buffer_is_empty() {
    let mut buffer = ShrubCodec::buffer();
    assert!(buffer.is_empty());
    let mut codec = ShrubCodec::new();
    assert_eq!(codec.decode(&mut buffer), Ok(None));
    assert_eq!(codec.encode("{}".to_string(), &mut buffer), Ok(()));
    assert_eq!(&buffer[..], b"{}\n");
    assert_eq!(codec.decode(&mut buffer), Ok(Some("{}".to_string())));
    assert!(buffer.is_empty());
}
