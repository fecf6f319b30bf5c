//! Behaviour of the non-blocking operations and the observers.

use bounded_channel::channel::{ArrayToken, Channel};
use bounded_channel::errors::{TryRecvError, TrySendError};

#[test]
fn capacity_zero_rejected() {
    let r: Option<Channel<u32>> = Channel::with_capacity_checked(0);
    assert!(r.is_none());
}

#[test]
fn capacity_over_quarter_word_rejected() {
    let r: Option<Channel<u32>> = Channel::with_capacity_checked(usize::MAX / 4 + 1);
    assert!(r.is_none());
}

#[test]
fn capacity_limits_accepted() {
    let lo: Option<Channel<u32>> = Channel::with_capacity_checked(1);
    assert!(lo.is_some());
}

#[test]
fn capacity_reported() {
    let ch: Channel<u8> = Channel::with_capacity(5);
    assert_eq!(ch.capacity(), Some(5));
}

#[test]
fn new_channel_is_empty_and_open() {
    let mut ch: Channel<u8> = Channel::with_capacity(2);
    assert!(ch.is_empty());
    assert!(!ch.is_full());
    assert!(!ch.is_closed());
    assert_eq!(ch.len(), 0);
    assert!(matches!(ch.try_recv(), Err(TryRecvError::Empty)));
}

#[test]
fn capacity_power_of_two_honored() {
    let mut ch: Channel<u32> = Channel::with_capacity(4);
    for i in 0..4u32 {
        assert!(ch.try_send(i).is_ok());
    }
    assert!(ch.is_full());
    match ch.try_send(99) {
        Err(TrySendError::Full(v)) => assert_eq!(v, 99),
        _ => panic!("a fifth message must be refused"),
    }
}

#[test]
fn capacity_non_power_of_two_honored() {
    let mut ch: Channel<u32> = Channel::with_capacity(3);
    for i in 0..3u32 {
        assert!(ch.try_send(i).is_ok());
    }
    assert!(ch.is_full());
    match ch.try_send(99) {
        Err(TrySendError::Full(v)) => assert_eq!(v, 99),
        _ => panic!("a fourth message must be refused"),
    }
    assert_eq!(ch.try_recv().ok(), Some(0));
    assert!(ch.try_send(99).is_ok());
}

#[test]
fn full_channel_refuses_then_accepts() {
    // cap = 2: send 1, 2; refuse 3; pop 1; accept 3; drain 2, 3.
    let mut ch: Channel<i32> = Channel::with_capacity(2);
    assert!(ch.try_send(1).is_ok());
    assert!(ch.try_send(2).is_ok());
    match ch.try_send(3) {
        Err(TrySendError::Full(v)) => assert_eq!(v, 3),
        _ => panic!("the channel holds two messages"),
    }
    assert_eq!(ch.try_recv().ok(), Some(1));
    assert!(ch.try_send(3).is_ok());
    assert_eq!(ch.try_recv().ok(), Some(2));
    assert_eq!(ch.try_recv().ok(), Some(3));
}

#[test]
fn is_full_implies_try_send_full() {
    let mut ch: Channel<u8> = Channel::with_capacity(2);
    assert!(ch.try_send(1).is_ok());
    assert!(ch.try_send(2).is_ok());
    assert!(ch.is_full());
    assert!(matches!(ch.try_send(3), Err(TrySendError::Full(3))));
}

#[test]
fn is_empty_open_implies_try_recv_empty() {
    let mut ch: Channel<u8> = Channel::with_capacity(3);
    assert!(ch.is_empty() && !ch.is_closed());
    assert!(matches!(ch.try_recv(), Err(TryRecvError::Empty)));
}

#[test]
fn len_tracks_operations() {
    let mut ch: Channel<u8> = Channel::with_capacity(2);
    assert_eq!(ch.len(), 0);
    ch.try_send(1).unwrap_or(());
    assert_eq!(ch.len(), 1);
    ch.try_send(2).unwrap_or(());
    assert_eq!(ch.len(), 2);
    let _ = ch.try_recv();
    assert_eq!(ch.len(), 1);
    let _ = ch.try_recv();
    assert_eq!(ch.len(), 0);
}

#[test]
fn send_after_close_returns_message() {
    let mut ch: Channel<String> = Channel::with_capacity(2);
    ch.close();
    match ch.try_send(String::from("hello")) {
        Err(TrySendError::Disconnected(v)) => assert_eq!(v, "hello"),
        _ => panic!("a closed channel must refuse the send"),
    }
}

#[test]
fn close_drains_then_disconnects() {
    // cap = 4: send 10, 20, 30; close; the receiver still drains them.
    let mut ch: Channel<i64> = Channel::with_capacity(4);
    assert!(ch.try_send(10).is_ok());
    assert!(ch.try_send(20).is_ok());
    assert!(ch.try_send(30).is_ok());
    ch.close();
    assert!(ch.is_closed());
    assert_eq!(ch.try_recv().ok(), Some(10));
    assert_eq!(ch.try_recv().ok(), Some(20));
    assert_eq!(ch.try_recv().ok(), Some(30));
    assert!(matches!(ch.try_recv(), Err(TryRecvError::Disconnected)));
}

#[test]
fn close_is_idempotent() {
    let mut ch: Channel<u8> = Channel::with_capacity(1);
    ch.close();
    ch.close();
    assert!(ch.is_closed());
    assert!(matches!(ch.try_recv(), Err(TryRecvError::Disconnected)));
}

#[test]
fn recv_after_last_message_on_closed_channel_disconnects() {
    // cap = 1: a first receive succeeds, a second reports the close.
    let mut ch: Channel<u8> = Channel::with_capacity(1);
    assert!(ch.try_send(1).is_ok());
    ch.close();
    assert_eq!(ch.try_recv().ok(), Some(1));
    assert!(matches!(ch.try_recv(), Err(TryRecvError::Disconnected)));
}

#[test]
fn token_reservation_roundtrip() {
    let mut ch: Channel<u16> = Channel::with_capacity(1);
    let mut token = ArrayToken::default();

    assert!(ch.start_send(&mut token));
    assert!(ch.write(&token, 7).is_ok());

    // The ring is full: no send reservation is granted.
    let mut other = ArrayToken::default();
    assert!(!ch.start_send(&mut other));

    assert!(ch.start_recv(&mut token));
    assert_eq!(ch.read(&token), Ok(7));

    // The ring is empty and open: no receive reservation is granted.
    assert!(!ch.start_recv(&mut other));
}

#[test]
fn state_counters_move_on_commits() {
    let mut ch: Channel<u8> = Channel::with_capacity(2);
    let s0 = ch.sender_state();
    let r0 = ch.receiver_state();
    assert!(ch.try_send(1).is_ok());
    // A send commit moves the counter a blocked receiver watches, and
    // leaves the sender's untouched.
    assert_ne!(ch.receiver_state(), r0);
    assert_eq!(ch.sender_state(), s0);
    let s1 = ch.sender_state();
    let r1 = ch.receiver_state();
    assert!(ch.try_recv().is_ok());
    // A receive commit moves the counter a blocked sender watches.
    assert_ne!(ch.sender_state(), s1);
    assert_eq!(ch.receiver_state(), r1);
}

#[test]
fn sentinel_tokens_surface_the_close() {
    let mut ch: Channel<u16> = Channel::with_capacity(1);
    ch.close();
    let mut token = ArrayToken::default();

    // A closed channel grants the sentinel: the commit hands the message back.
    assert!(ch.start_send(&mut token));
    assert_eq!(ch.write(&token, 5), Err(5));

    // Closed and drained: the read reports the disconnect.
    assert!(ch.start_recv(&mut token));
    assert_eq!(ch.read(&token), Err(()));
}
