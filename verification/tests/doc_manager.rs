use shrubbery::doc_id::DocId;
use shrubbery::doc_manager::{
    doc_worker, DocManager, DocWorker, Fanout, OpenEvent, OpenRequest, OpenStep, WorkerAction,
    WorkerEvent,
};
use shrubbery::frame::PresenceFrame;
use shrubbery::moment::Moment;

const SECOND: u128 = 1_000_000_000;

fn presence_json(text: &str) -> serde_json::Value {
    serde_json::from_str(text).unwrap()
}

fn sorted(fanout: Fanout) -> Fanout {
    let Fanout { mut recipients, mut updates } = fanout;
    recipients.sort();
    updates.sort_by_key(|frame| frame.client);
    Fanout { recipients, updates }
}

fn request(user: &str) -> OpenRequest {
    OpenRequest { user: user.to_string(), user_info: None }
}

fn presence(client: u32, doc: DocId, user: &str, value: &str) -> PresenceFrame {
    PresenceFrame {
        client,
        doc,
        user: user.to_string(),
        info: None,
        presence: Some(presence_json(value)),
    }
}

#[test]
fn worker_numbers_clients_from_one() {
    let doc = DocId(7);
    let mut worker = DocWorker::new(doc);
    assert!(worker.can_open());
    let a = worker.open(request("alice"));
    let b = worker.open(request("bob"));
    let c = worker.open(OpenRequest { user: "alice".to_string(), user_info: Some(presence_json("{\"n\":1}")) });
    assert_eq!((a.id(), b.id(), c.id()), (1, 2, 3));
    assert_eq!((a.doc(), b.doc(), c.doc()), (doc, doc, doc));
    assert_eq!(a.user(), "alice");
    assert_eq!(b.user(), "bob");
}

#[test]
fn handle_builds_the_presence_frame_of_its_client() {
    let doc = DocId(7);
    let mut worker = DocWorker::new(doc);
    let _first = worker.open(request("alice"));
    let handle = worker.open(OpenRequest { user: "bob".to_string(), user_info: Some(presence_json("\"b\"")) });
    let now = Moment { nanos: 42 };
    let (stamp, frame) = handle.update_presence(presence_json("{\"x\":1}"), now);
    assert_eq!(stamp, now);
    assert_eq!(
        frame,
        PresenceFrame {
            client: 2,
            doc,
            user: "bob".to_string(),
            info: Some(presence_json("\"b\"")),
            presence: Some(presence_json("{\"x\":1}")),
        }
    );
}

#[test]
fn update_is_offered_to_every_other_client() {
    let doc = DocId(7);
    let mut worker = DocWorker::new(doc);
    for user in ["a", "b", "c"] {
        worker.open(request(user));
    }
    let frame = presence(2, doc, "b", "{\"x\":1}");
    let fanout = sorted(worker.update(Moment { nanos: 0 }, frame.clone()));
    assert_eq!(fanout, Fanout { recipients: vec![1, 3], updates: vec![frame] });
}

#[test]
fn update_of_the_only_client_reaches_nobody() {
    let doc = DocId(7);
    let mut worker = DocWorker::new(doc);
    worker.open(request("a"));
    let frame = presence(1, doc, "a", "1");
    let fanout = worker.update(Moment { nanos: 0 }, frame.clone());
    assert_eq!(fanout, Fanout { recipients: vec![], updates: vec![frame] });
}

#[test]
fn update_from_an_unknown_client_reaches_everybody() {
    let doc = DocId(7);
    let mut worker = DocWorker::new(doc);
    worker.open(request("a"));
    worker.open(request("b"));
    let frame = presence(9, doc, "ghost", "1");
    let fanout = sorted(worker.update(Moment { nanos: 0 }, frame.clone()));
    assert_eq!(fanout.recipients, vec![1, 2]);
}

#[test]
fn tick_without_presence_sends_nothing() {
    let mut worker = DocWorker::new(DocId(7));
    worker.open(request("a"));
    assert_eq!(worker.tick(Moment { nanos: 10 * SECOND }), None);
}

#[test]
fn tick_offers_the_latest_presence_of_each_client_to_all() {
    let doc = DocId(7);
    let mut worker = DocWorker::new(doc);
    for user in ["a", "b", "c"] {
        worker.open(request(user));
    }
    worker.update(Moment { nanos: 1 * SECOND }, presence(2, doc, "b", "1"));
    worker.update(Moment { nanos: 2 * SECOND }, presence(1, doc, "a", "2"));
    worker.update(Moment { nanos: 3 * SECOND }, presence(2, doc, "b", "3"));
    let fanout = sorted(worker.tick(Moment { nanos: 10 * SECOND }).unwrap());
    assert_eq!(fanout.recipients, vec![1, 2, 3]);
    assert_eq!(fanout.updates, vec![presence(1, doc, "a", "2"), presence(2, doc, "b", "3")]);
}

#[test]
fn tick_drops_presence_older_than_thirty_seconds() {
    let doc = DocId(7);
    let mut worker = DocWorker::new(doc);
    worker.open(request("a"));
    worker.open(request("b"));
    worker.update(Moment { nanos: 0 }, presence(1, doc, "a", "1"));
    worker.update(Moment { nanos: 5 * SECOND }, presence(2, doc, "b", "2"));
    let at_thirty = worker.tick(Moment { nanos: 30 * SECOND }).unwrap();
    assert_eq!(at_thirty.updates.len(), 2);
    let later = sorted(worker.tick(Moment { nanos: 30 * SECOND + 1 }).unwrap());
    assert_eq!(later.updates, vec![presence(2, doc, "b", "2")]);
    assert_eq!(later.recipients, vec![1, 2]);
    assert_eq!(worker.tick(Moment { nanos: 36 * SECOND }), None);
    assert_eq!(worker.tick(Moment { nanos: 37 * SECOND }), None);
}

#[test]
fn presence_stamped_after_now_is_kept() {
    let doc = DocId(7);
    let mut worker = DocWorker::new(doc);
    worker.open(request("a"));
    worker.update(Moment { nanos: 100 * SECOND }, presence(1, doc, "a", "1"));
    assert!(worker.tick(Moment { nanos: 0 }).is_some());
}

#[test]
fn slow_subscriber_gets_the_latest_state_from_the_next_tick() {
    let doc = DocId(7);
    let mut worker = DocWorker::new(doc);
    worker.open(request("a"));
    worker.open(request("b"));
    for n in 0..1000u128 {
        let fanout = worker.update(Moment { nanos: n }, presence(2, doc, "b", &n.to_string()));
        assert_eq!(fanout.recipients, vec![1]);
    }
    let fanout = sorted(worker.tick(Moment { nanos: 10 * SECOND }).unwrap());
    assert_eq!(fanout.recipients, vec![1, 2]);
    assert_eq!(fanout.updates, vec![presence(2, doc, "b", "999")]);
}

#[test]
fn step_answers_each_kind_of_event() {
    let doc = DocId(7);
    let mut worker = DocWorker::new(doc);
    match worker.step(WorkerEvent::Open(request("a"))) {
        WorkerAction::Reply(handle) => assert_eq!(handle.id(), 1),
        other => panic!("{:?}", other),
    }
    assert_eq!(worker.step(WorkerEvent::Tick(Moment { nanos: 0 })), WorkerAction::Idle);
    let frame = presence(1, doc, "a", "1");
    assert_eq!(
        worker.step(WorkerEvent::Presence(Moment { nanos: 0 }, frame.clone())),
        WorkerAction::Send(Fanout { recipients: vec![], updates: vec![frame.clone()] })
    );
    assert_eq!(
        worker.step(WorkerEvent::Tick(Moment { nanos: 1 })),
        WorkerAction::Send(Fanout { recipients: vec![1], updates: vec![frame] })
    );
    assert_eq!(worker.step(WorkerEvent::Closed), WorkerAction::Exit);
}

#[test]
fn doc_worker_runs_until_closed() {
    let doc = DocId(3);
    let actions = doc_worker(
        doc,
        vec![
            WorkerEvent::Open(request("a")),
            WorkerEvent::Open(request("b")),
            WorkerEvent::Presence(Moment { nanos: 0 }, presence(1, doc, "a", "1")),
            WorkerEvent::Closed,
            WorkerEvent::Open(request("c")),
        ],
    );
    assert_eq!(actions.len(), 4);
    let ids: Vec<u32> = actions
        .iter()
        .filter_map(|action| match action {
            WorkerAction::Reply(handle) => Some(handle.id()),
            _ => None,
        })
        .collect();
    assert_eq!(ids, vec![1, 2]);
    assert_eq!(
        actions[2],
        WorkerAction::Send(Fanout { recipients: vec![2], updates: vec![presence(1, doc, "a", "1")] })
    );
    assert_eq!(actions[3], WorkerAction::Exit);
    assert_eq!(doc_worker(doc, Vec::new()), Vec::new());
}

#[test]
fn concurrent_opens_get_distinct_client_ids() {
    let doc = DocId(3);
    let events = (0..50).map(|n| WorkerEvent::Open(request(&format!("user{}", n)))).collect();
    let mut ids: Vec<u32> = doc_worker(doc, events)
        .iter()
        .map(|action| match action {
            WorkerAction::Reply(handle) => handle.id(),
            other => panic!("{:?}", other),
        })
        .collect();
    assert_eq!(ids.len(), 50);
    ids.dedup();
    assert_eq!(ids, (1..=50).collect::<Vec<u32>>());
}

#[test]
fn registry_starts_one_worker_per_document() {
    let mut manager = DocManager::new();
    let doc = DocId(1);
    assert!(!manager.is_registered(doc));
    assert!(manager.claim(doc, false));
    assert!(manager.is_registered(doc));
    for _ in 0..5 {
        assert!(!manager.claim(doc, false));
    }
    assert!(manager.claim(DocId(2), false));
    assert!(!manager.claim(doc, false));
    assert!(!manager.claim(DocId(2), false));
}

#[test]
fn registry_replaces_a_worker_that_has_gone() {
    let mut manager = DocManager::new();
    let doc = DocId(1);
    assert!(manager.claim(doc, true));
    assert!(manager.claim(doc, true));
    assert!(!manager.claim(doc, false));
    assert!(manager.is_registered(doc));
}

#[test]
fn open_retries_until_the_worker_answers() {
    let mut manager = DocManager::new();
    let doc = DocId(1);
    assert_eq!(manager.open(doc, OpenEvent::Start, false), OpenStep::Ask { spawn: true });
    assert_eq!(manager.open(doc, OpenEvent::SendFailed, true), OpenStep::Ask { spawn: true });
    assert_eq!(manager.open(doc, OpenEvent::ReplyDropped, false), OpenStep::Ask { spawn: false });
    let handle = DocWorker::new(doc).open(request("a"));
    match manager.open(doc, OpenEvent::Replied(handle), false) {
        OpenStep::Done(handle) => assert_eq!((handle.id(), handle.doc()), (1, doc)),
        other => panic!("{:?}", other),
    }
}
