use shrubbery::authorizer::{Authorizer, Entry};
use shrubbery::doc_id::DocId;
use shrubbery::doc_manager::{DocWorker, Fanout, OpenRequest};
use shrubbery::frame::{Frame, FrameType, PresenceFrame};
use shrubbery::moment::Moment;
use shrubbery::socket_processor::{Accepted, Event, Fate, Reaction, SocketProcessor, State};

const ROOT: &str = "shrubtoken1:ROOTabcdefghijklmnopqrstuvwxyz0123";

fn session_json(text: &str) -> serde_json::Value {
    serde_json::from_str(text).unwrap()
}

fn at(seconds: u128) -> Moment {
    Moment { nanos: seconds * 1_000_000_000 }
}

fn authenticate(id: i32, token: &str) -> Frame {
    Frame::new(id, FrameType::Authenticate { token: token.to_string() })
}

fn error(id: i32, reply_to: i32, message: &str) -> Frame {
    Frame::new_reply(id, reply_to, FrameType::Error { error: message.to_string() })
}

fn session(authorizer: &Authorizer, token: &str) -> State {
    match State::accept(authenticate(-1, token), authorizer, at(0)) {
        Accepted::Active { state, reply } => {
            assert_eq!(reply, Frame::new_reply(1, -1, FrameType::Okay));
            state
        }
        Accepted::Rejected { reply } => panic!("rejected: {:?}", reply),
    }
}

fn user_session(authorizer: &mut Authorizer, user: &str) -> State {
    let token = authorizer.mint_token(Entry {
        user: user.to_string(),
        expiry: at(1_000_000),
        info: None,
    });
    session(authorizer, &token)
}

fn open(state: &mut State, authorizer: &mut Authorizer, worker: &mut DocWorker, id: i32, doc: DocId) -> Frame {
    match state.receive(Frame::new(id, FrameType::Open { doc }), authorizer, at(1)) {
        Reaction::Open { doc: asked, request, reply } => {
            assert_eq!(asked, doc);
            state.opened(worker.open(request));
            reply
        }
        other => panic!("{:?}", other),
    }
}

#[test]
fn auth_happy_path() {
    let authorizer = Authorizer::new(ROOT.to_string());
    match State::accept(authenticate(-1, ROOT), &authorizer, at(0)) {
        Accepted::Active { state, reply } => {
            assert_eq!(reply, Frame { id: 1, reply_to: Some(-1), frame: FrameType::Okay });
            assert_eq!(state.user(), "root");
            assert!(state.can_send());
        }
        Accepted::Rejected { reply } => panic!("rejected: {:?}", reply),
    }
}

#[test]
fn auth_failure() {
    let authorizer = Authorizer::new(ROOT.to_string());
    match State::accept(authenticate(-1, "bogus"), &authorizer, at(0)) {
        Accepted::Rejected { reply } => assert_eq!(reply, error(1, -1, "invalid token")),
        Accepted::Active { .. } => panic!("accepted"),
    }
}

#[test]
fn first_frame_must_authenticate() {
    let authorizer = Authorizer::new(ROOT.to_string());
    for payload in [
        FrameType::Okay,
        FrameType::Open { doc: DocId(1) },
        FrameType::MintToken { user: "a".to_string(), info: None, lifetime_seconds: 1 },
        FrameType::UnknownFrame,
    ] {
        match State::accept(Frame::new(-7, payload), &authorizer, at(0)) {
            Accepted::Rejected { reply } => {
                assert_eq!(reply, error(1, -7, "Expected Authenticate frame"))
            }
            Accepted::Active { .. } => panic!("accepted"),
        }
    }
}

#[test]
fn expired_token_does_not_start_a_session() {
    let mut authorizer = Authorizer::new(ROOT.to_string());
    authorizer.register(
        "t".to_string(),
        Entry { user: "alice".to_string(), expiry: at(10), info: None },
    );
    assert!(matches!(
        State::accept(authenticate(-1, "t"), &authorizer, at(9)),
        Accepted::Active { .. }
    ));
    match State::accept(authenticate(-1, "t"), &authorizer, at(10)) {
        Accepted::Rejected { reply } => assert_eq!(reply, error(1, -1, "invalid token")),
        Accepted::Active { .. } => panic!("accepted"),
    }
}

#[test]
fn mint_then_use() {
    let mut authorizer = Authorizer::new(ROOT.to_string());
    let mut root = session(&authorizer, ROOT);
    let mint = Frame::new(
        -2,
        FrameType::MintToken { user: "alice".to_string(), info: None, lifetime_seconds: 60 },
    );
    let token = match root.receive(mint, &mut authorizer, at(100)) {
        Reaction::Reply(Frame {
            id: 2,
            reply_to: Some(-2),
            frame: FrameType::MintTokenResponse { token },
        }) => token,
        other => panic!("{:?}", other),
    };
    assert!(token.starts_with("shrubtoken1:"));
    assert_eq!(token.len(), 42);
    let alice = authorizer.authenticate(&token, at(100)).unwrap();
    assert_eq!(alice, Entry { user: "alice".to_string(), expiry: at(160), info: None });
    assert!(matches!(
        State::accept(authenticate(-1, &token), &authorizer, at(159)),
        Accepted::Active { .. }
    ));
    assert_eq!(authorizer.authenticate(&token, at(160)), None);
    assert_eq!(authorizer.authenticate(&token, at(161)), None);
}

#[test]
fn mint_carries_the_user_info() {
    let mut authorizer = Authorizer::new(ROOT.to_string());
    let mut root = session(&authorizer, ROOT);
    let mint = Frame::new(
        -2,
        FrameType::MintToken {
            user: "alice".to_string(),
            info: Some(session_json("{\"color\":\"red\"}")),
            lifetime_seconds: u64::MAX,
        },
    );
    let token = match root.receive(mint, &mut authorizer, at(1)) {
        Reaction::Reply(Frame { frame: FrameType::MintTokenResponse { token }, .. }) => token,
        other => panic!("{:?}", other),
    };
    let alice = authorizer.authenticate(&token, at(2)).unwrap();
    assert_eq!(alice.info, Some(session_json("{\"color\":\"red\"}")));
    assert_eq!(alice.expiry, at(1).after_seconds(u64::MAX));
}

#[test]
fn root_protection() {
    let mut authorizer = Authorizer::new(ROOT.to_string());
    let mut root = session(&authorizer, ROOT);
    let revoke = Frame::new(-2, FrameType::RevokeTokensForUser { user: "root".to_string() });
    assert_eq!(
        root.receive(revoke, &mut authorizer, at(1)),
        Reaction::Reply(error(2, -2, "cannot use RevokeTokensForUser on root"))
    );
    assert_eq!(authorizer.authenticate(ROOT, at(2)).unwrap().user, "root");
}

#[test]
fn root_revokes_the_tokens_of_a_user() {
    let mut authorizer = Authorizer::new(ROOT.to_string());
    let mut root = session(&authorizer, ROOT);
    authorizer.register(
        "t".to_string(),
        Entry { user: "alice".to_string(), expiry: at(1000), info: None },
    );
    let revoke = Frame::new(-2, FrameType::RevokeTokensForUser { user: "alice".to_string() });
    assert_eq!(
        root.receive(revoke, &mut authorizer, at(1)),
        Reaction::Reply(Frame::new_reply(2, -2, FrameType::Okay))
    );
    assert_eq!(authorizer.authenticate("t", at(2)), None);
}

#[test]
fn only_root_mints_and_revokes() {
    let mut authorizer = Authorizer::new(ROOT.to_string());
    let mut alice = user_session(&mut authorizer, "alice");
    let mint = Frame::new(
        -2,
        FrameType::MintToken { user: "bob".to_string(), info: None, lifetime_seconds: 60 },
    );
    assert_eq!(
        alice.process_frame(mint, &mut authorizer, at(1)),
        Err("forbidden".to_string())
    );
    let revoke = Frame::new(-3, FrameType::RevokeTokensForUser { user: "bob".to_string() });
    assert_eq!(
        alice.receive(revoke, &mut authorizer, at(1)),
        Reaction::Reply(error(2, -3, "forbidden"))
    );
    let revoke_root = Frame::new(-4, FrameType::RevokeTokensForUser { user: "root".to_string() });
    assert_eq!(
        alice.receive(revoke_root, &mut authorizer, at(1)),
        Reaction::Reply(error(3, -4, "forbidden"))
    );
}

#[test]
fn presence_fan_out() {
    let doc = DocId(0x0123456789abcdef);
    let mut authorizer = Authorizer::new(ROOT.to_string());
    let mut worker = DocWorker::new(doc);
    let mut a = user_session(&mut authorizer, "alice");
    let mut b = user_session(&mut authorizer, "bob");
    assert_eq!(
        open(&mut a, &mut authorizer, &mut worker, -2, doc),
        Frame::new_reply(2, -2, FrameType::Okay)
    );
    assert_eq!(
        open(&mut b, &mut authorizer, &mut worker, -2, doc),
        Frame::new_reply(2, -2, FrameType::Okay)
    );
    let update = Frame::new(-3, FrameType::UpdatePresence { doc, presence: session_json("{\"x\":1}") });
    let (stamp, frame) = match a.receive(update, &mut authorizer, at(5)) {
        Reaction::Forward { doc: target, last_update, frame } => {
            assert_eq!(target, doc);
            (last_update, frame)
        }
        other => panic!("{:?}", other),
    };
    assert_eq!(stamp, at(5));
    let expected = PresenceFrame {
        client: 1,
        doc,
        user: "alice".to_string(),
        info: None,
        presence: Some(session_json("{\"x\":1}")),
    };
    assert_eq!(frame, expected);
    let Fanout { recipients, updates } = worker.update(stamp, frame);
    assert_eq!(recipients, vec![2]);
    assert_eq!(
        b.presence(updates, Vec::new()),
        Frame::new(3, FrameType::Presence { updates: vec![expected] })
    );
    assert!(a.can_send());
}

#[test]
fn open_twice_then_update() {
    let doc = DocId(5);
    let mut authorizer = Authorizer::new(ROOT.to_string());
    let mut worker = DocWorker::new(doc);
    let mut a = user_session(&mut authorizer, "alice");
    assert!(!a.is_open(doc));
    assert_eq!(
        open(&mut a, &mut authorizer, &mut worker, -2, doc),
        Frame::new_reply(2, -2, FrameType::Okay)
    );
    assert!(a.is_open(doc));
    assert_eq!(
        open(&mut a, &mut authorizer, &mut worker, -3, doc),
        Frame::new_reply(3, -3, FrameType::Okay)
    );
    assert!(a.is_open(doc));
    let update = Frame::new(-4, FrameType::UpdatePresence { doc, presence: session_json("1") });
    match a.receive(update, &mut authorizer, at(5)) {
        Reaction::Forward { frame, .. } => assert_eq!(frame.client, 2),
        other => panic!("{:?}", other),
    }
}

#[test]
fn open_asks_with_the_user_of_the_session() {
    let mut authorizer = Authorizer::new(ROOT.to_string());
    let token = authorizer.mint_token(Entry {
        user: "alice".to_string(),
        expiry: at(1000),
        info: Some(session_json("{\"n\":1}")),
    });
    let mut a = session(&authorizer, &token);
    assert_eq!(
        a.process_frame(Frame::new(-2, FrameType::Open { doc: DocId(9) }), &mut authorizer, at(1)),
        Ok(Reaction::Open {
            doc: DocId(9),
            request: OpenRequest { user: "alice".to_string(), user_info: Some(session_json("{\"n\":1}")) },
            reply: Frame::new_reply(2, -2, FrameType::Okay),
        })
    );
}

#[test]
fn update_of_a_document_that_is_not_open() {
    let mut authorizer = Authorizer::new(ROOT.to_string());
    let mut a = user_session(&mut authorizer, "alice");
    let mut worker = DocWorker::new(DocId(1));
    open(&mut a, &mut authorizer, &mut worker, -2, DocId(1));
    let update =
        Frame::new(-3, FrameType::UpdatePresence { doc: DocId(2), presence: session_json("1") });
    assert_eq!(
        a.receive(update, &mut authorizer, at(1)),
        Reaction::Reply(error(3, -3, "doc not open"))
    );
}

#[test]
fn error_frame_from_the_client() {
    let mut authorizer = Authorizer::new(ROOT.to_string());
    let mut a = user_session(&mut authorizer, "alice");
    let frame = Frame::new(-2, FrameType::Error { error: "oops".to_string() });
    assert_eq!(
        a.receive(frame, &mut authorizer, at(1)),
        Reaction::Reply(error(2, -2, "unexpected error frame"))
    );
    let next = Frame::new(-3, FrameType::Open { doc: DocId(1) });
    assert!(matches!(a.receive(next, &mut authorizer, at(1)), Reaction::Open { .. }));
}

#[test]
fn other_frames_are_ignored() {
    let mut authorizer = Authorizer::new(ROOT.to_string());
    let mut a = user_session(&mut authorizer, "alice");
    for payload in [
        FrameType::UnknownFrame,
        FrameType::Okay,
        FrameType::Authenticate { token: ROOT.to_string() },
        FrameType::MintTokenResponse { token: "t".to_string() },
        FrameType::Presence { updates: Vec::new() },
    ] {
        assert_eq!(a.receive(Frame::new(-2, payload), &mut authorizer, at(1)), Reaction::Ignore);
    }
    assert_eq!(a.send_ok(-9), Frame::new_reply(2, -9, FrameType::Okay));
    assert_eq!(a.send_error(-10, "x".to_string()), error(3, -10, "x"));
}

#[test]
fn presence_batches_are_coalesced_in_order() {
    let mut authorizer = Authorizer::new(ROOT.to_string());
    let mut a = user_session(&mut authorizer, "alice");
    let frame = |client: u32| PresenceFrame {
        client,
        doc: DocId(1),
        user: "u".to_string(),
        info: None,
        presence: None,
    };
    let sent = a.presence(
        vec![frame(1), frame(2)],
        vec![vec![frame(3)], Vec::new(), vec![frame(4), frame(1)]],
    );
    assert_eq!(
        sent,
        Frame::new(
            2,
            FrameType::Presence { updates: vec![frame(1), frame(2), frame(3), frame(4), frame(1)] }
        )
    );
    assert_eq!(
        a.presence(Vec::new(), Vec::new()),
        Frame::new(3, FrameType::Presence { updates: Vec::new() })
    );
}

#[test]
fn run_numbers_frames_without_gaps() {
    let mut authorizer = Authorizer::new(ROOT.to_string());
    let mut root = session(&authorizer, ROOT);
    let doc = DocId(4);
    let handle = DocWorker::new(doc).open(OpenRequest { user: "root".to_string(), user_info: None });
    let events = vec![
        Event::Frame(Frame::new(-2, FrameType::UnknownFrame), at(1)),
        Event::Frame(Frame::new(-3, FrameType::Open { doc }), at(1)),
        Event::Opened(handle),
        Event::Frame(Frame::new(-4, FrameType::UpdatePresence { doc, presence: session_json("1") }), at(2)),
        Event::Presence(Vec::new(), Vec::new()),
        Event::Frame(Frame::new(-5, FrameType::Error { error: "e".to_string() }), at(3)),
        Event::Frame(
            Frame::new(-6, FrameType::RevokeTokensForUser { user: "alice".to_string() }),
            at(3),
        ),
    ];
    let reactions = root.run(events, &mut authorizer);
    assert_eq!(reactions.len(), 7);
    let frames: Vec<(i32, Option<i32>)> = reactions
        .iter()
        .filter_map(|reaction| match reaction {
            Reaction::Reply(frame) => Some((frame.id, frame.reply_to)),
            Reaction::Open { reply, .. } => Some((reply.id, reply.reply_to)),
            _ => None,
        })
        .collect();
    assert_eq!(frames, vec![(2, Some(-3)), (3, None), (4, Some(-5)), (5, Some(-6))]);
    assert_eq!(reactions[0], Reaction::Ignore);
    assert_eq!(reactions[2], Reaction::Ignore);
    assert!(matches!(reactions[3], Reaction::Forward { .. }));
    assert_eq!(reactions[5], Reaction::Reply(error(4, -5, "unexpected error frame")));
}

#[test]
fn processor_serves_a_whole_connection() {
    let mut processor = SocketProcessor::new(Authorizer::new(ROOT.to_string()));
    let reactions = processor.accept(
        authenticate(-1, ROOT),
        at(0),
        vec![
            Event::Frame(
                Frame::new(
                    -2,
                    FrameType::MintToken {
                        user: "alice".to_string(),
                        info: None,
                        lifetime_seconds: 60,
                    },
                ),
                at(1),
            ),
            Event::Frame(Frame::new(-3, FrameType::Open { doc: DocId(1) }), at(2)),
        ],
    );
    assert_eq!(reactions.len(), 3);
    assert_eq!(reactions[0], Reaction::Reply(Frame::new_reply(1, -1, FrameType::Okay)));
    let token = match &reactions[1] {
        Reaction::Reply(Frame {
            id: 2,
            reply_to: Some(-2),
            frame: FrameType::MintTokenResponse { token },
        }) => token.clone(),
        other => panic!("{:?}", other),
    };
    match &reactions[2] {
        Reaction::Open { reply, .. } => {
            assert_eq!(*reply, Frame::new_reply(3, -3, FrameType::Okay))
        }
        other => panic!("{:?}", other),
    }
    let second = processor.accept(authenticate(-1, &token), at(30), Vec::new());
    assert_eq!(second, vec![Reaction::Reply(Frame::new_reply(1, -1, FrameType::Okay))]);
    let late = processor.accept(authenticate(-1, &token), at(61), vec![Event::Presence(vec![], vec![])]);
    assert_eq!(late, vec![Reaction::Reply(error(1, -1, "invalid token"))]);
    let authorizer = processor.into_authorizer();
    assert!(authorizer.authenticate(&token, at(60)).is_some());
}

#[test]
fn nobody_mints_a_token_for_root() {
    let mut authorizer = Authorizer::new(ROOT.to_string());
    let mut root = session(&authorizer, ROOT);
    let mint = Frame::new(
        -2,
        FrameType::MintToken { user: "root".to_string(), info: None, lifetime_seconds: 60 },
    );
    assert_eq!(
        root.receive(mint, &mut authorizer, at(1)),
        Reaction::Reply(error(2, -2, "cannot use MintToken on root"))
    );
    let mut alice = user_session(&mut authorizer, "alice");
    let mint = Frame::new(
        -2,
        FrameType::MintToken { user: "root".to_string(), info: None, lifetime_seconds: 60 },
    );
    assert_eq!(
        alice.receive(mint, &mut authorizer, at(1)),
        Reaction::Reply(error(2, -2, "forbidden"))
    );
}

#[test]
fn forwarded_presence_carries_the_user_of_the_session() {
    let doc = DocId(8);
    let mut authorizer = Authorizer::new(ROOT.to_string());
    let token = authorizer.mint_token(Entry {
        user: "alice".to_string(),
        expiry: at(1000),
        info: Some(session_json("{\"n\":1}")),
    });
    let mut a = session(&authorizer, &token);
    assert_eq!(a.info(), &Some(session_json("{\"n\":1}")));
    let mut worker = DocWorker::new(doc);
    open(&mut a, &mut authorizer, &mut worker, -2, doc);
    let update =
        Frame::new(-3, FrameType::UpdatePresence { doc, presence: session_json("[1]") });
    match a.receive(update, &mut authorizer, at(5)) {
        Reaction::Forward { frame, .. } => {
            assert_eq!(frame.user, "alice");
            assert_eq!(frame.info, Some(session_json("{\"n\":1}")));
            assert_eq!(frame.presence, Some(session_json("[1]")));
            assert_eq!((frame.client, frame.doc), (1, doc));
        }
        other => panic!("{:?}", other),
    }
    assert!(a.can_send());
    assert_eq!(a.send_ok(-4), Frame::new_reply(3, -4, FrameType::Okay));
}

#[test]
fn a_session_ends_when_a_reaction_cannot_be_carried_out() {
    let reply = Reaction::Reply(Frame::new(2, FrameType::Okay));
    assert_eq!(reply.settle(true), Fate::GoOn);
    assert_eq!(reply.settle(false), Fate::Close);
    let forward = Reaction::Forward {
        doc: DocId(1),
        last_update: at(1),
        frame: PresenceFrame {
            client: 1,
            doc: DocId(1),
            user: "a".to_string(),
            info: None,
            presence: None,
        },
    };
    assert_eq!(forward.settle(true), Fate::GoOn);
    assert_eq!(forward.settle(false), Fate::Close);
    let open = Reaction::Open {
        doc: DocId(1),
        request: OpenRequest { user: "a".to_string(), user_info: None },
        reply: Frame::new_reply(2, -2, FrameType::Okay),
    };
    assert_eq!(open.settle(false), Fate::Close);
    assert_eq!(Reaction::Ignore.settle(false), Fate::GoOn);
    assert_eq!(Reaction::Ignore.settle(true), Fate::GoOn);
}
