use battle_net::mailbox::Mailbox;

#[test]
fn messages_leave_in_order() {
    let mut m: Mailbox<&str> = Mailbox::new();
    assert!(m.register(1));
    assert!(m.push(1, "M1"));
    assert!(m.push(1, "M2"));
    assert!(m.push(1, "M3"));
    assert_eq!(m.pending(1), 3);
    assert_eq!(m.pop(1), Some("M1"));
    assert_eq!(m.pop(1), Some("M2"));
    assert_eq!(m.pop(1), Some("M3"));
    assert_eq!(m.pop(1), None);
}

#[test]
fn peers_have_separate_queues() {
    let mut m: Mailbox<u32> = Mailbox::new();
    m.register(1);
    m.register(2);
    assert!(!m.register(2));
    m.push(1, 10);
    m.push(2, 20);
    m.push(1, 11);
    assert_eq!(m.pop(2), Some(20));
    assert_eq!(m.pop(2), None);
    assert_eq!(m.pop(1), Some(10));
    assert_eq!(m.pending(1), 1);
}

#[test]
fn unregistered_peer_drops_messages() {
    let mut m: Mailbox<u32> = Mailbox::new();
    assert!(!m.push(5, 1));
    assert!(!m.contains(5));
    assert_eq!(m.pop(5), None);
    m.register(5);
    m.push(5, 1);
    m.unregister(5);
    assert!(!m.contains(5));
    assert_eq!(m.pending(5), 0);
}
