use shrubbery::doc_id::DocId;
use shrubbery::frame::{clone_presence_frames, Frame, FrameType, PresenceFrame};
use shrubbery::json::clone_optional_value;

fn frame_json(text: &str) -> serde_json::Value {
    serde_json::from_str(text).unwrap()
}

#[test]
fn new_frame_answers_nothing() {
    let frame = Frame::new(7, FrameType::Okay);
    assert_eq!(frame.id, 7);
    assert_eq!(frame.reply_to, None);
    assert_eq!(frame.frame, FrameType::Okay);
}

#[test]
fn new_reply_names_the_frame_it_answers() {
    let frame = Frame::new_reply(3, -4, FrameType::Error { error: "forbidden".to_string() });
    assert_eq!(frame.id, 3);
    assert_eq!(frame.reply_to, Some(-4));
    assert_eq!(frame.frame, FrameType::Error { error: "forbidden".to_string() });
}

#[test]
fn presence_frame_clone_is_equal() {
    let frame = PresenceFrame {
        client: 4,
        doc: DocId(99),
        user: "alice".to_string(),
        info: Some(frame_json("{\"name\":\"Alice\"}")),
        presence: Some(frame_json("[1,2,{\"x\":null}]")),
    };
    assert_eq!(frame.clone(), frame);
    let list = vec![frame.clone(), PresenceFrame { client: 5, info: None, ..frame.clone() }];
    assert_eq!(clone_presence_frames(&list), list);
    assert_eq!(clone_presence_frames(&Vec::new()), Vec::new());
}

#[test]
fn frame_type_clone_is_equal() {
    let payloads = vec![
        FrameType::Authenticate { token: "t".to_string() },
        FrameType::Okay,
        FrameType::Error { error: "e".to_string() },
        FrameType::MintToken { user: "u".to_string(), info: Some(frame_json("1")), lifetime_seconds: 9 },
        FrameType::MintTokenResponse { token: "t".to_string() },
        FrameType::RevokeTokensForUser { user: "u".to_string() },
        FrameType::Open { doc: DocId(1) },
        FrameType::UpdatePresence { doc: DocId(1), presence: frame_json("{\"x\":1}") },
        FrameType::Presence { updates: Vec::new() },
        FrameType::UnknownFrame,
    ];
    for payload in payloads {
        assert_eq!(payload.clone(), payload);
    }
}

#[test]
fn optional_json_clone_is_equal() {
    assert_eq!(clone_optional_value(&None), None);
    let value = Some(frame_json("{\"a\":[true,false,\"x\"]}"));
    assert_eq!(clone_optional_value(&value), value);
}

#[test]
fn reply_is_recognised_by_its_reply_to() {
    assert!(Frame::new_reply(3, -4, FrameType::Okay).is_reply_to(-4));
    assert!(!Frame::new_reply(3, -4, FrameType::Okay).is_reply_to(-5));
    assert!(!Frame::new_reply(3, -4, FrameType::Okay).is_reply_to(3));
    assert!(!Frame::new(3, FrameType::Okay).is_reply_to(0));
}
