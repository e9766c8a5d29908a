use aionbot::connection::Backlog;
use aionbot::connection::ConnectionRegistry;
use aionbot::connection::InboundFrame;
use aionbot::connection::IngestOutcome;
use aionbot::connection::handshake_identity;
use aionbot::connection::ingest_frame;
use aionbot::models::MessageData;
use aionbot::models::MessageEvent;
use aionbot::models::MessageSegment;
use aionbot::models::Sender;

fn sample_message(text: &str, group_id: Option<i64>, user_id: i64) -> MessageEvent {
    MessageEvent {
        time: 1700000000,
        self_id: 10,
        post_type: "message".to_string(),
        message_type: if group_id.is_some() { "group" } else { "private" }.to_string(),
        sub_type: "normal".to_string(),
        message_id: 77,
        group_id,
        user_id,
        anonymous: None,
        message: vec![MessageSegment {
            segment_type: "text".to_string(),
            data: MessageData { text: text.to_string(), qq: String::new() },
        }],
        message_format: "array".to_string(),
        raw_message: text.to_string(),
        font: 0,
        sender: Sender {
            user_id: Some(user_id),
            nickname: None,
            sex: None,
            age: None,
            area: None,
            level: None,
            role: None,
            title: None,
        },
    }
}

#[test]
fn test_handshake_identity() {
    assert_eq!(handshake_identity(Some("12345".to_string())), "12345");
    assert_eq!(handshake_identity(None), "");
}

#[test]
fn test_registry_register_and_lookup() {
    let mut registry = ConnectionRegistry::new();
    assert_eq!(registry.lookup("12345"), None);
    registry.register("12345", 1);
    registry.register("67890", 2);
    assert_eq!(registry.lookup("12345"), Some(1));
    assert_eq!(registry.lookup("67890"), Some(2));
    assert_eq!(registry.lookup("absent"), None);
}

#[test]
fn test_registry_reregister_replaces_handle() {
    let mut registry = ConnectionRegistry::new();
    registry.register("12345", 1);
    registry.register("12345", 9);
    assert_eq!(registry.lookup("12345"), Some(9));
}

#[test]
fn test_registry_remove_is_isolated() {
    let mut registry = ConnectionRegistry::new();
    registry.register("a", 1);
    registry.register("b", 2);
    registry.remove("a");
    assert_eq!(registry.lookup("a"), None);
    assert_eq!(registry.lookup("b"), Some(2));
    registry.remove("absent");
    assert_eq!(registry.lookup("b"), Some(2));
}

#[test]
fn test_backpressure_drops_oldest() {
    let mut backlog = Backlog::new(2);
    let outcome = ingest_frame(&mut backlog, 1, InboundFrame::Message(sample_message("one", None, 5)));
    assert_eq!(outcome, IngestOutcome::Published);
    ingest_frame(&mut backlog, 1, InboundFrame::Message(sample_message("two", None, 5)));
    ingest_frame(&mut backlog, 1, InboundFrame::Message(sample_message("three", None, 5)));
    assert_eq!(backlog.len(), 2);
    let oldest = backlog.pop_oldest().unwrap();
    assert_eq!(oldest.plain_data.raw_message, "two");
    let next = backlog.pop_oldest().unwrap();
    assert_eq!(next.plain_data.raw_message, "three");
    assert!(backlog.pop_oldest().is_none());
}

#[test]
fn test_connection_isolation_on_decode_failure() {
    let mut backlog = Backlog::new(16);
    let published = ingest_frame(
        &mut backlog,
        2,
        InboundFrame::Message(sample_message("from b", Some(99), 6)),
    );
    assert_eq!(published, IngestOutcome::Published);

    let dropped = ingest_frame(&mut backlog, 1, InboundFrame::Malformed);
    assert_eq!(dropped, IngestOutcome::Dropped);
    let not_text = ingest_frame(&mut backlog, 1, InboundFrame::NotText);
    assert_eq!(not_text, IngestOutcome::Dropped);
    let not_message = ingest_frame(&mut backlog, 1, InboundFrame::NotMessage);
    assert_eq!(not_message, IngestOutcome::Dropped);

    assert_eq!(backlog.len(), 1);
    let event = backlog.pop_oldest().unwrap();
    assert_eq!(event.origin, 2);
    assert_eq!(event.plain_data.raw_message, "from b");
}

#[test]
fn test_ingest_binds_origin() {
    let mut backlog = Backlog::new(4);
    ingest_frame(&mut backlog, 42, InboundFrame::Message(sample_message("hi", None, 5)));
    let event = backlog.pop_oldest().unwrap();
    assert_eq!(event.origin, 42);
}
