use blockchat::framing::{encode_frame, frame_len, FRAME_HEADER};
use blockchat::permits::Permits;
use blockchat::pool::{add_connection, clear_connections, AlreadyInPool};

use std::collections::HashMap;

#[test]
fn frame_header_gives_payload_length() {
    let payload = vec![7u8; 300];
    let frame = encode_frame(&payload);
    assert_eq!(frame.len(), FRAME_HEADER + 300);
    assert_eq!(&frame[..FRAME_HEADER], &[44, 1, 0, 0, 0, 0, 0, 0]);
    assert_eq!(frame_len(&frame[..FRAME_HEADER]), 300);
    assert_eq!(&frame[FRAME_HEADER..], &payload[..]);
    assert_eq!(frame_len(&[0xff; 8]), u64::MAX);
}

#[test]
fn pool_adds_each_peer_once() {
    let mut map: HashMap<u128, &str> = HashMap::new();
    assert_eq!(add_connection(&mut map, "first", 1), Ok(()));
    assert_eq!(add_connection(&mut map, "again", 1), Err(AlreadyInPool));
    assert_eq!(map.get(&1), Some(&"first"));
    assert_eq!(add_connection(&mut map, "second", 2), Ok(()));
    assert_eq!(map.len(), 2);
}

#[test]
fn pool_clears_dead_connections() {
    let mut map: HashMap<u128, u8> = HashMap::new();
    for id in 0..5u128 {
        assert!(add_connection(&mut map, id as u8, id).is_ok());
    }
    let mut dead = vec![1, 3, 3, 7];
    assert_eq!(clear_connections(&mut map, &mut dead), 2);
    assert!(dead.is_empty());
    let mut left: Vec<u128> = map.keys().copied().collect();
    left.sort();
    assert_eq!(left, vec![0, 2, 4]);
    let mut none: Vec<u128> = Vec::new();
    assert_eq!(clear_connections(&mut map, &mut none), 0);
    assert_eq!(map.len(), 3);
}

#[test]
fn test_clear_cp_with_empty_buffer() {
    let mut map: HashMap<u128, u8> = HashMap::new();
    assert!(add_connection(&mut map, 1, 1).is_ok());
    let mut dead: Vec<u128> = Vec::new();
    assert_eq!(clear_connections(&mut map, &mut dead), 0);
    assert_eq!(map.len(), 1);
}

#[test]
fn test_create_new_permit() {
    let mut js = Permits::new();
    assert!(!js.new_permit());
    assert_eq!(js.permits, 1);
}

#[test]
fn test_claim_permit() {
    let mut js = Permits::new();
    js.new_permit();
    assert_eq!(js.permits, 1);
    assert!(js.claim());
    assert_eq!(js.permits, 0);
}

#[test]
fn claim_without_permit_waits() {
    let mut js = Permits::new();
    assert!(!js.claim());
    assert_eq!(js.waiters, 1);
    assert!(js.new_permit());
    js.resume();
    assert_eq!(js, Permits::new());
}
