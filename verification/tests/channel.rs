use bitfield::channel::channel;
use bitfield::channel::Inner;
use std::collections::VecDeque;

#[test]
fn ping_pong() {
    let (mut tx, mut rx) = channel();
    tx.send(42);
    tx.send(7);
    tx.send(12);
    assert_eq!(rx.recv(), Some(42));
    assert_eq!(rx.recv(), Some(7));
    assert_eq!(rx.recv(), Some(12));
}

#[test]
fn closed_tx() {
    let (tx, mut rx) = channel::<()>();
    // Drop the only sender
    drop(tx);
    assert_eq!(rx.recv(), None)
}

#[test]
fn closed_rx() {
    let (mut tx, rx) = channel();
    // Drop the only receiver
    drop(rx);
    tx.send(12)
}

#[test]
fn cloned_sender_keeps_channel_open() {
    let (tx, mut rx) = channel();
    let mut second = tx.clone();
    drop(tx);
    second.send(5);
    assert_eq!(rx.recv(), Some(5));
    drop(second);
    assert_eq!(rx.recv(), None);
}

#[test]
fn queued_items_survive_the_last_sender() {
    let (mut tx, mut rx) = channel();
    tx.send(1);
    tx.send(2);
    drop(tx);
    assert_eq!(rx.recv(), Some(1));
    assert_eq!(rx.recv(), Some(2));
    assert_eq!(rx.recv(), None);
}

#[test]
fn shared_state_takes_oldest_and_hands_over_the_rest() {
    let mut inner = Inner::new();
    assert!(inner.must_wait());
    inner.push(10);
    inner.push(20);
    inner.push(30);
    assert!(!inner.must_wait());
    let mut buffer = VecDeque::new();
    assert_eq!(inner.take(&mut buffer), Some(10));
    assert_eq!(buffer, VecDeque::from(vec![20, 30]));
    assert!(inner.must_wait());
    let mut empty = VecDeque::new();
    assert_eq!(inner.take(&mut empty), None);
    assert!(empty.is_empty());
}

#[test]
fn shared_state_counts_senders() {
    let mut inner = Inner::<u8>::new();
    inner.add_sender();
    assert!(!inner.remove_sender());
    assert!(inner.must_wait());
    assert!(inner.remove_sender());
    assert!(!inner.must_wait());
    assert!(inner.remove_sender());
}
