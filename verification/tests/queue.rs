use aionbot::queue::EventQueue;

#[test]
fn test_event_queue() {
    let mut queue = EventQueue::new();
    queue.push(1, "a");
    queue.push(2, "b");
    queue.push(3, "c");
    queue.push(2, "d");
    queue.push(1, "e");
    assert_eq!(queue.pop(), Some("e"));
    assert_eq!(queue.pop(), Some("a"));
    assert_eq!(queue.pop(), Some("d"));
    assert_eq!(queue.pop(), Some("b"));
    assert_eq!(queue.pop(), Some("c"));
    assert_eq!(queue.pop(), None);
}

#[test]
fn test_replace_on_repush() {
    let mut queue = EventQueue::new();
    queue.push(5, "x");
    queue.push(3, "y");
    queue.push(1, "x");
    assert_eq!(queue.pop(), Some("x"));
    assert_eq!(queue.pop(), Some("y"));
    assert_eq!(queue.pop(), None);
}

#[test]
fn test_repush_to_later_priority() {
    let mut queue = EventQueue::new();
    queue.push(1, "x");
    queue.push(9, "x");
    queue.push(3, "y");
    assert_eq!(queue.pop(), Some("y"));
    assert_eq!(queue.pop(), Some("x"));
    assert_eq!(queue.pop(), None);
}

#[test]
fn test_remove_then_pop() {
    let mut queue = EventQueue::new();
    queue.push(1, "a");
    queue.push(2, "b");
    queue.remove(&"a");
    assert_eq!(queue.pop(), Some("b"));
    assert_eq!(queue.pop(), None);
}

#[test]
fn test_is_empty() {
    let mut queue = EventQueue::new();
    assert!(queue.is_empty());
    queue.push(0, "a");
    assert!(!queue.is_empty());
    queue.remove(&"a");
    assert!(queue.is_empty());
    assert_eq!(queue.pop(), None);
}

#[test]
fn test_negative_priorities_first() {
    let mut queue = EventQueue::new();
    queue.push(0, "base");
    queue.push(-4, "urgent");
    queue.push(7, "late");
    assert_eq!(queue.pop(), Some("urgent"));
    assert_eq!(queue.pop(), Some("base"));
    assert_eq!(queue.pop(), Some("late"));
}
