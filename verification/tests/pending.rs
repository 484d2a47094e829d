use sn_client::message_id::{same_bytes, MessageId};
use sn_client::pending::{Pending, QueryKey};

fn id(byte: u8) -> MessageId {
    MessageId { bytes: [byte; 32] }
}

fn key(socket_addr: &str, byte: u8) -> QueryKey {
    QueryKey { socket_addr: socket_addr.to_string(), msg_id: id(byte) }
}

#[test]
fn caller_is_found_by_its_message() {
    let mut pending: Pending<MessageId, u8> = Pending::new();
    assert_eq!(pending.get(&id(1)), None);
    pending.insert(id(1), 10);
    pending.insert(id(2), 20);
    assert_eq!(pending.get(&id(1)), Some(&10));
    assert_eq!(pending.get(&id(2)), Some(&20));
    assert_eq!(pending.get(&id(3)), None);
}

#[test]
fn later_caller_takes_the_place() {
    let mut pending: Pending<MessageId, u8> = Pending::new();
    pending.insert(id(1), 10);
    pending.insert(id(2), 20);
    pending.insert(id(1), 11);
    assert_eq!(pending.get(&id(1)), Some(&11));
    assert_eq!(pending.get(&id(2)), Some(&20));
}

#[test]
fn query_is_found_by_elder_and_message() {
    let mut pending: Pending<QueryKey, u8> = Pending::new();
    pending.insert(key("127.0.0.1:1", 1), 11);
    pending.insert(key("127.0.0.1:2", 1), 21);
    pending.insert(key("127.0.0.1:1", 2), 12);
    assert_eq!(pending.get(&key("127.0.0.1:1", 1)), Some(&11));
    assert_eq!(pending.get(&key("127.0.0.1:2", 1)), Some(&21));
    assert_eq!(pending.get(&key("127.0.0.1:1", 2)), Some(&12));
    assert_eq!(pending.get(&key("127.0.0.1:2", 2)), None);
}

#[test]
fn bytes_are_compared_to_the_end() {
    let mut other = [3u8; 32];
    assert!(same_bytes(&[3; 32], &other));
    other[31] = 4;
    assert!(!same_bytes(&[3; 32], &other));
    other[31] = 3;
    other[0] = 4;
    assert!(!same_bytes(&[3; 32], &other));
}
