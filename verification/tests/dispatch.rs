use aionbot::entry::Entry;
use aionbot::handler::Handler;
use aionbot::plugin::AionPlugin;
use aionbot::router::AllRouter;
use aionbot::router::Router;
use aionbot::router::RouterKind;
use aionbot::router::StartsWithRouter;

#[test]
fn test_register_router() {
    let event = "test_router".to_string();
    let entry = Entry::new("test_register_fn", 0, RouterKind::Text("test_router".to_string()));
    assert!(entry.priority == 0);
    assert!(entry.router.matches(&event));
}

#[test]
fn test_register_router_priority() {
    let event = "test_router".to_string();
    let entry = Entry::new(
        "test_register_fn_priority",
        1,
        RouterKind::Text("test_router".to_string()),
    );
    assert!(entry.priority == 1);
    assert!(entry.router.matches(&event));
}

#[test]
fn test_entry_equality_is_by_id() {
    let a = Entry::new("same", 0, RouterKind::All(AllRouter));
    let b = Entry::new("same", 9, RouterKind::Text("other".to_string()));
    let c = Entry::new("different", 0, RouterKind::All(AllRouter));
    assert!(a == b);
    assert!(a != c);
}

#[test]
fn test_dispatch_determinism() {
    let later = Entry::new("later", 1, RouterKind::All(AllRouter));
    let sooner = Entry::new("sooner", 0, RouterKind::All(AllRouter));
    let handler = Handler::new(vec![later, sooner]);
    let order = handler.dispatch_order(&"anything".to_string());
    assert_eq!(order.len(), 2);
    assert_eq!(order[0].id, "sooner");
    assert_eq!(order[0].priority, 0);
    assert_eq!(order[1].id, "later");
    assert_eq!(order[1].priority, 1);
}

#[test]
fn test_dispatch_orders_ties_latest_first() {
    let handler = Handler::new(vec![
        Entry::new("first", 2, RouterKind::All(AllRouter)),
        Entry::new("second", 2, RouterKind::All(AllRouter)),
        Entry::new("third", 1, RouterKind::All(AllRouter)),
    ]);
    let order = handler.dispatch_order(&"go".to_string());
    assert_eq!(order.len(), 3);
    assert_eq!(order[0].id, "third");
    assert_eq!(order[1].id, "second");
    assert_eq!(order[2].id, "first");
}

#[test]
fn test_dispatch_skips_non_matching_entries() {
    let handler = Handler::new(vec![
        Entry::new("hello", 0, RouterKind::StartsWith(StartsWithRouter::new("/hello"))),
        Entry::new("bye", 0, RouterKind::StartsWith(StartsWithRouter::new("/bye"))),
    ]);
    let order = handler.dispatch_order(&"/bye now".to_string());
    assert_eq!(order.len(), 1);
    assert_eq!(order[0].id, "bye");
}

#[test]
fn test_dispatch_replaces_repeated_identifier() {
    let handler = Handler::new(vec![
        Entry::new("dup", 0, RouterKind::All(AllRouter)),
        Entry::new("other", 1, RouterKind::All(AllRouter)),
        Entry::new("dup", 2, RouterKind::All(AllRouter)),
    ]);
    let order = handler.dispatch_order(&"event".to_string());
    assert_eq!(order.len(), 2);
    assert_eq!(order[0].id, "other");
    assert_eq!(order[1].id, "dup");
    assert_eq!(order[1].priority, 2);
}

#[test]
fn test_matches_fills_queue() {
    let handler = Handler::new(vec![
        Entry::new("a", 3, RouterKind::All(AllRouter)),
        Entry::new("b", 1, RouterKind::All(AllRouter)),
    ]);
    let mut queue = handler.matches(&"x".to_string());
    assert!(!queue.is_empty());
    let first = queue.pop().unwrap();
    assert_eq!(first.id, "b");
    let second = queue.pop().unwrap();
    assert_eq!(second.id, "a");
    assert!(queue.pop().is_none());
}

#[test]
fn test_handler_extend_registers_after() {
    let mut handler = Handler::empty();
    handler.extend(vec![Entry::new("one", 0, RouterKind::All(AllRouter))]);
    handler.extend(vec![Entry::new("two", 0, RouterKind::All(AllRouter))]);
    let order = handler.dispatch_order(&"e".to_string());
    assert_eq!(order.len(), 2);
    assert_eq!(order[0].id, "two");
    assert_eq!(order[1].id, "one");
}

#[test]
fn test_plugin_collects_entries() {
    let plugin = AionPlugin::new("greeter")
        .invoke_handler(vec![Entry::new("hi", 0, RouterKind::All(AllRouter))])
        .invoke_handler(vec![Entry::new("bye", 1, RouterKind::All(AllRouter))]);
    assert_eq!(plugin.name(), "greeter");
    assert_eq!(plugin.entries().len(), 2);
    assert_eq!(plugin.entries()[0].id, "hi");
    assert_eq!(plugin.entries()[1].id, "bye");
}
