use battle_net::client::{ClientReaction, ConnectionState, REJECTED_DISPLAY, RESEND_INTERVAL};
use battle_net::protocol::{ConnectMessage, NetServerMessage};

fn awaiting() -> ConnectionState {
    ConnectionState::new().connect_result(true)
}

#[test]
fn first_request_is_sent_at_once() {
    let mut s = awaiting();
    assert_eq!(s, ConnectionState::AwaitingConfirm { accumulator: RESEND_INTERVAL });
    assert!(s.tick(0));
    assert_eq!(s, ConnectionState::AwaitingConfirm { accumulator: 0 });
}

#[test]
fn failed_connection_stays_at_prompt() {
    assert_eq!(ConnectionState::new().connect_result(false), ConnectionState::Connecting);
    assert_eq!(ConnectionState::InBattle.connect_result(true), ConnectionState::InBattle);
}

#[test]
fn ticks_resend_once_per_interval() {
    let mut s = awaiting();
    assert!(s.tick(0));
    let mut sent = 0;
    let mut last = 0;
    for _ in 0..45 {
        if s.tick(1_000) {
            sent += 1;
        }
        match s {
            ConnectionState::AwaitingConfirm { accumulator } => {
                assert!(accumulator < RESEND_INTERVAL);
                if accumulator != 0 {
                    assert_eq!(accumulator, last + 1_000);
                }
                last = accumulator;
            },
            _ => panic!("left AwaitingConfirm"),
        }
    }
    assert_eq!(sent, 4);
    assert_eq!(s, ConnectionState::AwaitingConfirm { accumulator: 5_000 });
}

#[test]
fn large_step_sends_one_request() {
    let mut s = ConnectionState::AwaitingConfirm { accumulator: 0 };
    assert!(s.tick(25_000));
    assert_eq!(s, ConnectionState::AwaitingConfirm { accumulator: 15_000 });
    assert!(s.tick(0));
    assert_eq!(s, ConnectionState::AwaitingConfirm { accumulator: 5_000 });
    let mut s = ConnectionState::AwaitingConfirm { accumulator: u64::MAX - 1 };
    assert!(s.tick(10));
    assert_eq!(s, ConnectionState::AwaitingConfirm { accumulator: u64::MAX - RESEND_INTERVAL });
}

#[test]
fn acceptance_moves_to_awaiting_opponent() {
    let mut s = awaiting();
    let r = s.receive(NetServerMessage::Validate(ConnectMessage::CanJoin(None)));
    assert!(matches!(r, ClientReaction::Accepted(None)));
    assert_eq!(s, ConnectionState::AwaitingOpponent);
}

#[test]
fn refusal_shows_then_returns_to_prompt() {
    let mut s = awaiting();
    let r = s.receive(NetServerMessage::Validate(ConnectMessage::WrongVersion));
    assert!(matches!(r, ClientReaction::Ignore));
    assert_eq!(s, ConnectionState::RejectedVersion { remaining: REJECTED_DISPLAY });
    assert!(!s.tick(2_000));
    assert_eq!(s, ConnectionState::RejectedVersion { remaining: 3_000 });
    s.tick(3_000);
    assert_eq!(s, ConnectionState::Connecting);
    let mut s = awaiting();
    s.receive(NetServerMessage::Validate(ConnectMessage::InProgress));
    assert_eq!(s, ConnectionState::RejectedVersion { remaining: REJECTED_DISPLAY });
}

#[test]
fn game_message_before_confirmation_is_unexpected() {
    let mut s = awaiting();
    let r = s.receive(NetServerMessage::Game(vec![1]));
    assert!(matches!(r, ClientReaction::Unexpected));
    assert_eq!(s, awaiting());
}

#[test]
fn battle_begins_and_ends() {
    let mut s = ConnectionState::AwaitingOpponent;
    let r = s.receive(NetServerMessage::Game(vec![4, 2]));
    assert!(matches!(r, ClientReaction::Deliver(e) if e == vec![4, 2]));
    assert_eq!(s, ConnectionState::AwaitingOpponent);
    s.receive(NetServerMessage::Begin);
    assert_eq!(s, ConnectionState::InBattle);
    assert!(s.must_leave());
    let r = s.receive(NetServerMessage::Game(vec![7]));
    assert!(matches!(r, ClientReaction::Deliver(e) if e == vec![7]));
    s.receive(NetServerMessage::End);
    assert_eq!(s, ConnectionState::Closed);
    assert!(!s.must_leave());
    assert!(!s.tick(16));
    assert_eq!(s, ConnectionState::Connecting);
}

#[test]
fn validation_during_battle_is_a_refusal() {
    let mut s = ConnectionState::InBattle;
    let r = s.receive(NetServerMessage::Validate(ConnectMessage::WrongVersion));
    assert!(matches!(r, ClientReaction::Unexpected));
    assert_eq!(s, ConnectionState::RejectedVersion { remaining: REJECTED_DISPLAY });
}

#[test]
fn teardown_returns_to_prompt() {
    let s = ConnectionState::AwaitingOpponent;
    assert!(s.must_leave());
    assert_eq!(s.teardown(), ConnectionState::Connecting);
    assert!(!ConnectionState::Connecting.must_leave());
    let mut c = ConnectionState::Connecting;
    assert!(matches!(c.receive(NetServerMessage::Begin), ClientReaction::Unexpected));
    assert_eq!(c, ConnectionState::Connecting);
}
