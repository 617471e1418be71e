use relay::dispatch::{Action, Relay, STOP_BYTE};
use relay::reader::{reset_buf, split_message, BUF_SIZE};
use relay::registry::Registry;

fn relay_with_clients(n: u16) -> Relay {
    let mut r = Relay::new();
    for expected in 0..n {
        assert_eq!(r.connect(), expected);
    }
    r
}

#[test]
fn connect_assigns_sequential_unique_ids() {
    let mut r = Relay::new();
    assert_eq!(r.connect(), 0);
    assert_eq!(r.connect(), 1);
    assert_eq!(r.connect(), 2);
}

#[test]
fn fanout_targets_every_peer_once_and_never_the_sender() {
    let mut reg = Registry::new();
    reg.insert(0);
    reg.insert(1);
    reg.insert(2);
    assert_eq!(reg.fanout(1), vec![0, 2]);
    assert_eq!(reg.fanout(0), vec![1, 2]);
    assert_eq!(reg.fanout(2), vec![0, 1]);
}

#[test]
fn fanout_from_unregistered_sender_targets_everyone() {
    let mut reg = Registry::new();
    reg.insert(0);
    reg.insert(1);
    assert_eq!(reg.fanout(7), vec![0, 1]);
}

#[test]
fn hello_reaches_both_peers_and_not_the_sender() {
    let mut r = relay_with_clients(3);
    match r.handle_event(0, &b"hello".to_vec()) {
        Action::Fanout(targets) => assert_eq!(targets, vec![1, 2]),
        Action::Disconnect(_) => panic!("a plain message must be fanned out"),
    }
}

#[test]
fn sentinel_removes_sender_and_is_not_fanned_out() {
    let mut r = relay_with_clients(3);
    match r.handle_event(0, &vec![STOP_BYTE]) {
        Action::Disconnect(removed) => assert_eq!(removed, Some(0)),
        Action::Fanout(_) => panic!("a sentinel message must not be fanned out"),
    }
}

#[test]
fn sentinel_trailing_content_is_ignored() {
    let mut r = relay_with_clients(2);
    match r.handle_event(1, &vec![STOP_BYTE, b'x', b'y']) {
        Action::Disconnect(removed) => assert_eq!(removed, Some(1)),
        Action::Fanout(_) => panic!("first byte decides: this is a disconnect"),
    }
}

#[test]
fn after_a_disconnect_only_the_remaining_peer_receives() {
    let mut r = relay_with_clients(3);
    match r.handle_event(1, &vec![STOP_BYTE]) {
        Action::Disconnect(removed) => assert_eq!(removed, Some(1)),
        Action::Fanout(_) => panic!("a sentinel message must not be fanned out"),
    }
    // With id 1 gone, id 2 now sits at position 1; a message from id 0
    // reaches it alone.
    match r.handle_event(0, &b"again".to_vec()) {
        Action::Fanout(targets) => assert_eq!(targets, vec![1]),
        Action::Disconnect(_) => panic!("a plain message must be fanned out"),
    }
}

#[test]
fn fresh_identifier_after_a_removal() {
    let mut r = relay_with_clients(3);
    match r.handle_event(1, &vec![STOP_BYTE]) {
        Action::Disconnect(removed) => assert_eq!(removed, Some(1)),
        Action::Fanout(_) => panic!("a sentinel message must not be fanned out"),
    }
    // The fourth client gets an identifier never used before, not the
    // freed 1.
    assert_eq!(r.connect(), 3);
}

#[test]
fn disconnect_of_unknown_id_is_a_noop() {
    let mut reg = Registry::new();
    reg.insert(5);
    assert_eq!(reg.disconnect_socket(9), None);
    assert_eq!(reg.len(), 1);
    assert!(reg.contains(5));
}

#[test]
fn disconnect_removes_only_the_matching_entry() {
    let mut reg = Registry::new();
    reg.insert(4);
    reg.insert(8);
    reg.insert(15);
    assert_eq!(reg.disconnect_socket(8), Some(1));
    assert_eq!(reg.len(), 2);
    assert!(reg.contains(4));
    assert!(!reg.contains(8));
    assert!(reg.contains(15));
}

#[test]
fn empty_message_is_not_a_sentinel() {
    let mut r = relay_with_clients(2);
    match r.handle_event(0, &Vec::new()) {
        Action::Fanout(targets) => assert_eq!(targets, vec![1]),
        Action::Disconnect(_) => panic!("an empty message is not a sentinel"),
    }
}

#[test]
fn dispatcher_keeps_one_senders_messages_in_order() {
    let mut r = relay_with_clients(2);
    let events: Vec<(u16, Vec<u8>)> = vec![
        (0, b"one".to_vec()),
        (1, b"other".to_vec()),
        (0, b"two".to_vec()),
        (1, vec![STOP_BYTE]),
        (0, b"three".to_vec()),
    ];
    let log = r.dispatch_all(&events);
    // The sentinel event is dropped; everything else is fanned out in
    // arrival order, so sender 0's messages keep their relative order.
    assert_eq!(
        log,
        vec![
            (0, b"one".to_vec()),
            (1, b"other".to_vec()),
            (0, b"two".to_vec()),
            (0, b"three".to_vec()),
        ]
    );
    let from_zero: Vec<Vec<u8>> = log
        .iter()
        .filter(|e| e.0 == 0)
        .map(|e| e.1.clone())
        .collect();
    assert_eq!(from_zero, vec![b"one".to_vec(), b"two".to_vec(), b"three".to_vec()]);
}

#[test]
fn message_filling_the_buffer_exactly_is_forwarded_whole() {
    let msg = vec![7u8; BUF_SIZE];
    let chunks = split_message(&msg);
    assert_eq!(chunks.len(), 1);
    assert_eq!(chunks[0], msg);
}

#[test]
fn oversized_message_splits_with_no_byte_loss() {
    let mut msg: Vec<u8> = Vec::new();
    for i in 0..(BUF_SIZE + 300) {
        msg.push((i % 251) as u8);
    }
    let chunks = split_message(&msg);
    assert_eq!(chunks.len(), 2);
    assert_eq!(chunks[0].len(), BUF_SIZE);
    assert_eq!(chunks[1].len(), 300);
    let mut glued = chunks[0].clone();
    glued.extend_from_slice(&chunks[1]);
    assert_eq!(glued, msg);
}

#[test]
fn short_message_is_one_chunk_and_empty_message_none() {
    let chunks = split_message(&b"hi".to_vec());
    assert_eq!(chunks.len(), 1);
    assert_eq!(chunks[0], b"hi".to_vec());
    assert!(split_message(&Vec::new()).is_empty());
}

#[test]
fn reset_buf_zero_fills_and_keeps_length() {
    let mut buf = vec![1u8, 2, 3, 255];
    reset_buf(&mut buf);
    assert_eq!(buf, vec![0u8, 0, 0, 0]);
    let mut empty: Vec<u8> = Vec::new();
    reset_buf(&mut empty);
    assert!(empty.is_empty());
}
