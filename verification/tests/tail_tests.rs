use log_relay::bridge::{BridgeAction, BridgeEnd, BridgeEvent, ClientBridge};
use log_relay::entry::{Entry, FieldValue};
use log_relay::store::{ReadRequest, StoreReply};
use log_relay::tail::{LogListener, TailAction, TailEnd, TailEvent, TAIL_BATCH, TAIL_WAIT_MS};

fn data(text: &str) -> FieldValue {
    FieldValue::Data(text.as_bytes().to_vec())
}

fn entry(id: &str, payload: &str) -> Entry {
    Entry { id: id.to_string(), fields: vec![data(payload)] }
}

fn read_from(stream: &str, cursor: &str) -> TailAction {
    TailAction::Read(ReadRequest {
        stream: stream.to_string(),
        cursor: cursor.to_string(),
        count: 50,
        block_ms: 5000,
    })
}

#[test]
fn tail_limits_are_fifty_entries_and_five_seconds() {
    assert_eq!(TAIL_BATCH, 50);
    assert_eq!(TAIL_WAIT_MS, 5000);
}

#[test]
fn new_listener_starts_at_newest() {
    let listener = LogListener::new("app1".to_string());
    assert_eq!(listener.log_key(), "app1");
    assert_eq!(listener.last_id(), "$");
    assert_eq!(listener.ended(), None);
}

#[test]
fn first_read_asks_for_new_entries_only() {
    let mut listener = LogListener::new("app1".to_string());
    assert_eq!(listener.tail_log(TailEvent::Started, false), read_from("app1", "$"));
    assert_eq!(listener.ended(), None);
}

#[test]
fn closed_queue_stops_before_any_read() {
    let mut listener = LogListener::new("app1".to_string());
    assert_eq!(listener.tail_log(TailEvent::Started, true), TailAction::Stop(TailEnd::QueueClosed));
    assert_eq!(listener.ended(), Some(TailEnd::QueueClosed));
}

#[test]
fn empty_read_is_retried_with_the_same_cursor() {
    let mut listener = LogListener::new("app1".to_string());
    listener.tail_log(TailEvent::Started, false);
    for _ in 0..3 {
        let action = listener.tail_log(TailEvent::Read(StoreReply::Entries(Vec::new())), false);
        assert_eq!(action, read_from("app1", "$"));
    }
    assert_eq!(listener.last_id(), "$");
}

#[test]
fn empty_read_with_closed_queue_stops() {
    let mut listener = LogListener::new("app1".to_string());
    listener.tail_log(TailEvent::Started, false);
    let action = listener.tail_log(TailEvent::Read(StoreReply::Entries(Vec::new())), true);
    assert_eq!(action, TailAction::Stop(TailEnd::QueueClosed));
}

#[test]
fn batch_is_pushed_and_cursor_moves_to_last_entry() {
    let mut listener = LogListener::new("app1".to_string());
    listener.tail_log(TailEvent::Started, false);
    let reply = StoreReply::Entries(vec![entry("5-0", "a"), entry("5-1", "b"), entry("7-0", "c")]);
    let action = listener.tail_log(TailEvent::Read(reply), false);
    assert_eq!(action, TailAction::Push(vec!["a".to_string(), "b".to_string(), "c".to_string()]));
    assert_eq!(listener.last_id(), "7-0");
    assert_eq!(listener.tail_log(TailEvent::Pushed, false), read_from("app1", "7-0"));
}

#[test]
fn batch_is_pushed_even_when_the_queue_looks_closed() {
    let mut listener = LogListener::new("app1".to_string());
    let reply = StoreReply::Entries(vec![entry("5-0", "a")]);
    let action = listener.tail_log(TailEvent::Read(reply), true);
    assert_eq!(action, TailAction::Push(vec!["a".to_string()]));
    assert_eq!(listener.ended(), None);
    let action = listener.tail_log(TailEvent::PushFailed, true);
    assert_eq!(action, TailAction::Stop(TailEnd::PushFailed));
}

#[test]
fn pushed_with_closed_queue_stops_without_reading() {
    let mut listener = LogListener::new("app1".to_string());
    listener.tail_log(TailEvent::Read(StoreReply::Entries(vec![entry("5-0", "a")])), false);
    assert_eq!(listener.tail_log(TailEvent::Pushed, true), TailAction::Stop(TailEnd::QueueClosed));
}

#[test]
fn refused_push_ends_the_session() {
    let mut listener = LogListener::new("app1".to_string());
    listener.tail_log(TailEvent::Started, false);
    listener.tail_log(TailEvent::Read(StoreReply::Entries(vec![entry("1-0", "a")])), false);
    assert_eq!(listener.tail_log(TailEvent::PushFailed, false), TailAction::Stop(TailEnd::PushFailed));
    assert_eq!(listener.ended(), Some(TailEnd::PushFailed));
}

#[test]
fn store_failure_ends_the_session() {
    let mut listener = LogListener::new("app1".to_string());
    listener.tail_log(TailEvent::Started, false);
    let action = listener.tail_log(TailEvent::Read(StoreReply::Failed), false);
    assert_eq!(action, TailAction::Stop(TailEnd::StoreFailed));
    assert_eq!(listener.ended(), Some(TailEnd::StoreFailed));
}

#[test]
fn ended_session_answers_every_event_with_the_same_end() {
    let mut listener = LogListener::new("app1".to_string());
    listener.tail_log(TailEvent::Read(StoreReply::Failed), false);
    let events = vec![
        TailEvent::Started,
        TailEvent::Read(StoreReply::Entries(vec![entry("9-0", "late")])),
        TailEvent::Read(StoreReply::Failed),
        TailEvent::Pushed,
        TailEvent::PushFailed,
    ];
    for event in events {
        assert_eq!(listener.tail_log(event, false), TailAction::Stop(TailEnd::StoreFailed));
    }
    assert_eq!(listener.last_id(), "$");
    assert_eq!(listener.ended(), Some(TailEnd::StoreFailed));
}

#[test]
fn undecodable_payload_does_not_end_the_session() {
    let mut listener = LogListener::new("app1".to_string());
    let reply = StoreReply::Entries(vec![
        entry("1-0", "a"),
        Entry { id: "2-0".to_string(), fields: vec![FieldValue::Data(vec![0xff, 0xff])] },
        entry("3-0", "b"),
    ]);
    let action = listener.tail_log(TailEvent::Read(reply), false);
    assert_eq!(action, TailAction::Push(vec!["a".to_string(), "b".to_string()]));
    assert_eq!(listener.ended(), None);
    assert_eq!(listener.last_id(), "3-0");
}

#[test]
fn batch_without_any_line_is_still_pushed() {
    let mut listener = LogListener::new("app1".to_string());
    let reply = StoreReply::Entries(vec![Entry {
        id: "4-0".to_string(),
        fields: vec![FieldValue::Data(vec![0xff]), FieldValue::Other],
    }]);
    let action = listener.tail_log(TailEvent::Read(reply), false);
    assert_eq!(action, TailAction::Push(Vec::new()));
    assert_eq!(listener.last_id(), "4-0");
}

#[test]
fn pushed_lines_follow_the_order_of_the_reads() {
    let mut listener = LogListener::new("app1".to_string());
    listener.tail_log(TailEvent::Started, false);
    let reads = vec![
        vec![entry("1-0", "one"), entry("1-1", "two")],
        Vec::new(),
        vec![entry("2-0", "three")],
        vec![entry("3-0", "four"), entry("4-0", "five")],
    ];
    let mut pushed: Vec<String> = Vec::new();
    for read in reads {
        match listener.tail_log(TailEvent::Read(StoreReply::Entries(read)), false) {
            TailAction::Push(batch) => {
                pushed.extend(batch);
                listener.tail_log(TailEvent::Pushed, false);
            }
            TailAction::Read(_) => {}
            TailAction::Stop(end) => panic!("session ended: {:?}", end),
        }
    }
    assert_eq!(pushed, vec!["one", "two", "three", "four", "five"]);
    assert_eq!(listener.last_id(), "4-0");
}

#[test]
fn tail_delivers_two_frames_in_order() {
    let mut listener = LogListener::new("app1".to_string());
    let mut bridge = ClientBridge::new();
    let mut frames: Vec<String> = Vec::new();

    assert_eq!(listener.tail_log(TailEvent::Started, false), read_from("app1", "$"));
    let arrivals = vec![
        Vec::new(),
        vec![entry("1000-0", "a")],
        Vec::new(),
        vec![entry("2000-0", "b")],
        Vec::new(),
    ];
    for arrival in arrivals {
        match listener.tail_log(TailEvent::Read(StoreReply::Entries(arrival)), false) {
            TailAction::Push(batch) => {
                match bridge.mediate_messages(BridgeEvent::Lines(Some(batch))) {
                    BridgeAction::Send(text) => frames.push(text),
                    other => panic!("unexpected bridge action: {:?}", other),
                }
                assert!(matches!(listener.tail_log(TailEvent::Pushed, false), TailAction::Read(_)));
            }
            TailAction::Read(_) => {}
            TailAction::Stop(end) => panic!("session ended: {:?}", end),
        }
    }
    assert_eq!(frames, vec!["[\"a\"]".to_string(), "[\"b\"]".to_string()]);
    assert_eq!(listener.ended(), None);
    assert_eq!(bridge.ended(), None);
}

#[test]
fn store_error_mid_session_closes_the_client() {
    let mut listener = LogListener::new("app1".to_string());
    let mut bridge = ClientBridge::new();

    listener.tail_log(TailEvent::Started, false);
    let batch = match listener.tail_log(
        TailEvent::Read(StoreReply::Entries(vec![entry("1-0", "a")])),
        false,
    ) {
        TailAction::Push(batch) => batch,
        other => panic!("unexpected tail action: {:?}", other),
    };
    assert_eq!(
        bridge.mediate_messages(BridgeEvent::Lines(Some(batch))),
        BridgeAction::Send("[\"a\"]".to_string())
    );
    listener.tail_log(TailEvent::Pushed, false);

    let action = listener.tail_log(TailEvent::Read(StoreReply::Failed), false);
    assert_eq!(action, TailAction::Stop(TailEnd::StoreFailed));

    assert_eq!(bridge.mediate_messages(BridgeEvent::Lines(None)), BridgeAction::Close);
    assert_eq!(bridge.ended(), Some(BridgeEnd::TailerDone));
    assert_eq!(
        bridge.mediate_messages(BridgeEvent::Lines(Some(vec!["late".to_string()]))),
        BridgeAction::Stop
    );
    assert_eq!(bridge.mediate_messages(BridgeEvent::Lines(None)), BridgeAction::Stop);
}
