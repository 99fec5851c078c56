use marsipan::codec::{parse, Message};
use marsipan::queue::MessageQueue;

fn msg(s: &[u8]) -> Message {
    parse(s).unwrap()
}

#[test]
fn earliest_first_in_any_order() {
    let mut q = MessageQueue::new();
    assert_eq!(q.timer_delay(0), None);
    assert_eq!(q.schedule_at(msg(b"two\n\0"), 200), 200);
    assert_eq!(q.schedule_at(msg(b"one\n\0"), 100), 100);
    assert_eq!(q.timer_delay(50), Some(50));
    assert_eq!(q.timer_delay(150), Some(0));
    assert_eq!(q.fire().name, b"one".to_vec());
    assert_eq!(q.fire().name, b"two".to_vec());
    assert!(q.is_empty());
    assert!(q.is_empty());
}

#[test]
fn cancel_before_and_after_firing() {
    let mut q = MessageQueue::new();
    q.schedule_at(msg(b"one\n\0"), 100);
    q.schedule_at(msg(b"two\n\0"), 200);
    assert_eq!(q.unschedule(200).unwrap().name, b"two".to_vec());
    assert_eq!(q.fire().name, b"one".to_vec());
    assert!(q.is_empty());
    assert!(q.unschedule(100).is_none());
}

#[test]
fn push_and_schedule_use_now() {
    let mut q = MessageQueue::new();
    assert_eq!(q.schedule(msg(b"later\n\0"), 1000, 500), 1500);
    assert_eq!(q.push(msg(b"now\n\0"), 1000), 1000);
    assert_eq!(q.timer_delay(990), Some(10));
    assert_eq!(q.fire().name, b"now".to_vec());
    assert_eq!(q.timer_delay(1000), Some(500));
    q.schedule_at(msg(b"same\n\0"), 1500);
    assert_eq!(q.fire().name, b"same".to_vec());
    assert!(q.is_empty());
}
