use aionbot::event::Event;
use aionbot::event::EventError;
use aionbot::models::MessageData;
use aionbot::models::MessageEvent;
use aionbot::models::MessageSegment;
use aionbot::models::MinimalEvent;
use aionbot::models::OnebotEvent;
use aionbot::models::Sender;
use aionbot::models::reply_action;
use aionbot::runtime::Config;
use aionbot::runtime::LoopAction;
use aionbot::runtime::RuntimeStatus;
use aionbot::runtime::run_step;
use aionbot::text::i64_to_decimal;
use aionbot::text::str_contains;
use aionbot::text::str_ends_with;
use aionbot::text::str_eq;
use aionbot::text::str_starts_with;

fn message_with_segments(segments: Vec<(&str, &str)>, group_id: Option<i64>, user_id: i64) -> MessageEvent {
    MessageEvent {
        time: 1700000000,
        self_id: 10,
        post_type: "message".to_string(),
        message_type: if group_id.is_some() { "group" } else { "private" }.to_string(),
        sub_type: "normal".to_string(),
        message_id: 3,
        group_id,
        user_id,
        anonymous: None,
        message: segments
            .into_iter()
            .map(|(kind, text)| MessageSegment {
                segment_type: kind.to_string(),
                data: MessageData { text: text.to_string(), qq: String::new() },
            })
            .collect(),
        message_format: "array".to_string(),
        raw_message: String::new(),
        font: 0,
        sender: Sender {
            user_id: Some(user_id),
            nickname: None,
            sex: None,
            age: None,
            area: None,
            level: None,
            role: None,
            title: None,
        },
    }
}

#[test]
fn test_minimal_event_classification() {
    let record = MinimalEvent { time: 0, self_id: 1, post_type: "message".to_string() };
    assert!(record.is_message());
    assert!(!record.is_notice());
    assert!(!record.is_request());
    assert!(!record.is_meta_event());

    let meta = MinimalEvent { time: 0, self_id: 1, post_type: "meta_event".to_string() };
    assert!(!meta.is_message());
    assert!(meta.is_meta_event());
}

#[test]
fn test_content_joins_segments() {
    let message = message_with_segments(vec![("text", "hello "), ("text", "world")], None, 5);
    let event = OnebotEvent { plain_data: message, origin: 1 };
    assert_eq!(event.plain_text().unwrap(), "hello world");
    assert_eq!(event.event_type(), "private");
}

#[test]
fn test_emitter_and_channel_ids() {
    let grouped = OnebotEvent {
        plain_data: message_with_segments(vec![("text", "hi")], Some(-77), 4242),
        origin: 1,
    };
    assert_eq!(grouped.emitter_id(), "4242");
    assert_eq!(grouped.channel_id().unwrap(), "-77");

    let direct = OnebotEvent {
        plain_data: message_with_segments(vec![("text", "hi")], None, 7),
        origin: 1,
    };
    assert_eq!(direct.channel_id(), Err(EventError::NoChannel));
    assert_eq!(direct.channel_id().unwrap_err().describe(), "no channel in this event");
}

#[test]
fn test_string_event_facets() {
    let event = "hello".to_string();
    assert_eq!(event.event_type(), "string_event");
    assert_eq!(event.plain_text().unwrap(), "hello");
    assert_eq!(event.emitter_id(), "");
    assert_eq!(event.channel_id(), Err(EventError::NoChannel));
}

#[test]
fn test_reply_action_private() {
    let event = OnebotEvent {
        plain_data: message_with_segments(vec![("text", "ping")], None, 31),
        origin: 1,
    };
    let action = reply_action(&event, "pong");
    assert_eq!(action.action, "send_private_msg");
    assert_eq!(action.params.group_id, None);
    assert_eq!(action.params.user_id, Some(31));
    assert_eq!(action.params.message, "pong");
    assert_eq!(action.echo, Some("0".to_string()));
}

#[test]
fn test_reply_action_group() {
    let event = OnebotEvent {
        plain_data: message_with_segments(vec![("text", "ping")], Some(555), 31),
        origin: 1,
    };
    let action = reply_action(&event, "pong");
    assert_eq!(action.action, "send_group_msg");
    assert_eq!(action.params.group_id, Some(555));
    assert_eq!(action.params.user_id, Some(31));
}

#[test]
fn test_run_step_decisions() {
    assert!(matches!(run_step(RuntimeStatus::Next), LoopAction::Continue));
    assert!(matches!(run_step(RuntimeStatus::Exit), LoopAction::Stop));
    assert!(matches!(run_step(RuntimeStatus::Restart), LoopAction::Reprepare));
    let event = OnebotEvent {
        plain_data: message_with_segments(vec![("text", "x")], None, 1),
        origin: 3,
    };
    match run_step(RuntimeStatus::Event(event)) {
        LoopAction::Dispatch(e) => assert_eq!(e.origin, 3),
        _ => panic!("an event must be dispatched"),
    }
}

#[test]
fn test_config_default() {
    let config = Config::default();
    assert_eq!(config.host, "0.0.0.0");
    assert_eq!(config.port, 8080);
    assert_eq!(config.path, "/onebot/v11");
    assert!(config.access_token.is_none());
}

#[test]
fn test_decimal_rendering() {
    assert_eq!(i64_to_decimal(0), "0");
    assert_eq!(i64_to_decimal(7), "7");
    assert_eq!(i64_to_decimal(-7), "-7");
    assert_eq!(i64_to_decimal(1234567890), "1234567890");
    assert_eq!(i64_to_decimal(i64::MAX), "9223372036854775807");
    assert_eq!(i64_to_decimal(i64::MIN), "-9223372036854775808");
}

#[test]
fn test_text_predicates() {
    assert!(str_eq("abc", "abc"));
    assert!(!str_eq("abc", "abd"));
    assert!(str_starts_with("/help@bot", "/help"));
    assert!(!str_starts_with("help", "/help"));
    assert!(str_ends_with("hello?", "?"));
    assert!(!str_ends_with("?x", "?"));
    assert!(str_contains("say hello now", "hello"));
    assert!(!str_contains("say hell no", "hello"));
    assert!(str_contains("abc", ""));
}
