use aionbot::event::Content;
use aionbot::router::AllRouter;
use aionbot::router::AnyRouter;
use aionbot::router::CommandRouter;
use aionbot::router::ContainsRouter;
use aionbot::router::EndsWithRouter;
use aionbot::router::ErrorRouter;
use aionbot::router::ExactMatchRouter;
use aionbot::router::Router;
use aionbot::router::RouterKind;
use aionbot::router::StartsWithRouter;

#[test]
fn router_test_command_router() {
    let router = CommandRouter::default();
    assert!(!router.matches(&"help".to_string()));
    assert!(router.matches(&"/help".to_string()));
    assert!(router.matches(&"/help@bot".to_string()));
    assert!(!router.matches(&"/not help".to_string()));

    let router = CommandRouter::command(vec!["cmd".to_string(), "command".to_string()]);
    assert!(!router.matches(&"help".to_string()));
    assert!(router.matches(&"/cmd".to_string()));
    assert!(router.matches(&"/cmd@bot".to_string()));
    assert!(!router.matches(&"/not cmd".to_string()));
    assert!(router.matches(&"/command".to_string()));

    let router = CommandRouter::new(vec!["!".to_string()], vec!["cmd".to_string()]);
    assert!(!router.matches(&"help".to_string()));
    assert!(router.matches(&"!cmd".to_string()));
    assert!(router.matches(&"!cmd@bot".to_string()));
    assert!(!router.matches(&"!not cmd".to_string()));
    assert!(!router.matches(&"/cmd arg1 arg2".to_string()))
}

#[test]
fn command_test_command_router() {
    let router = CommandRouter::default();
    assert!(!router.matches(&"help".to_string()));
    assert!(router.matches(&"/help".to_string()));
    assert!(router.matches(&"/help@bot".to_string()));
    assert!(!router.matches(&"/not help".to_string()));

    let router = CommandRouter::command(vec!["cmd".to_string(), "command".to_string()]);
    assert!(!router.matches(&"help".to_string()));
    assert!(router.matches(&"/cmd".to_string()));
    assert!(router.matches(&"/cmd@bot".to_string()));
    assert!(!router.matches(&"/not cmd".to_string()));
    assert!(router.matches(&"/command".to_string()));

    let router = CommandRouter::new(vec!["!".to_string()], vec!["cmd".to_string()]);
    assert!(!router.matches(&"help".to_string()));
    assert!(router.matches(&"!cmd".to_string()));
    assert!(router.matches(&"!cmd@bot".to_string()));
    assert!(!router.matches(&"!not cmd".to_string()));
    assert!(!router.matches(&"/cmd arg1 arg2".to_string()))
}

#[test]
fn test_exact_match_router() {
    let router = ExactMatchRouter::new(Content::Text("ping".to_string()));
    assert!(router.matches(&"ping".to_string()));
    assert!(!router.matches(&"pong".to_string()));
    assert!(!router.matches(&"ping ".to_string()));
}

#[test]
fn test_type_mismatch_is_miss() {
    let router = ExactMatchRouter::new(Content::Integer(42));
    assert!(!router.matches(&"42".to_string()));
    assert!(!router.matches(&"".to_string()));
}

#[test]
fn test_starts_with_router() {
    let router = StartsWithRouter::new("/hello");
    assert!(router.matches(&"/hello world".to_string()));
    assert!(router.matches(&"/hello".to_string()));
    assert!(!router.matches(&"say /hello".to_string()));
}

#[test]
fn test_contains_router() {
    let router = ContainsRouter::new("bot");
    assert!(router.matches(&"the bot is here".to_string()));
    assert!(router.matches(&"bot".to_string()));
    assert!(!router.matches(&"nothing".to_string()));
    let empty = ContainsRouter::new("");
    assert!(empty.matches(&"anything".to_string()));
}

#[test]
fn test_ends_with_router() {
    let router = EndsWithRouter::new("?");
    assert!(router.matches(&"are you there?".to_string()));
    assert!(!router.matches(&"yes.".to_string()));
}

#[test]
fn test_all_router() {
    let router = AllRouter;
    assert!(router.matches(&"anything".to_string()));
    assert!(router.matches(&"".to_string()));
}

#[test]
fn test_any_router() {
    let none = AnyRouter::new(vec![]);
    assert!(!none.matches(&"anything".to_string()));

    let some = AnyRouter::new(vec![
        RouterKind::StartsWith(StartsWithRouter::new("/a")),
        RouterKind::StartsWith(StartsWithRouter::new("/b")),
    ]);
    assert!(some.matches(&"/b now".to_string()));
    assert!(some.matches(&"/a now".to_string()));
    assert!(!some.matches(&"/c now".to_string()));
}

#[test]
fn test_error_router() {
    let router = ErrorRouter::new("decode");
    assert!(!router.matches(&"decode".to_string()));
    let fault = RouterKind::Error(ErrorRouter::new("decode"));
    let content = Content::Fault {
        kind: "decode".to_string(),
        message: "bad frame".to_string(),
    };
    assert!(fault.content_applies(&content));
    let other = Content::Fault {
        kind: "io".to_string(),
        message: "bad frame".to_string(),
    };
    assert!(!fault.content_applies(&other));
}

#[test]
fn test_string_is_exact_text_router() {
    let router = "test_router".to_string();
    assert!(router.matches(&"test_router".to_string()));
    assert!(!router.matches(&"test_router2".to_string()));
}
