use battle_net::generate::generate_party;
use battle_net::lobby::{Lobby, PartyOrigin};
use battle_net::protocol::{
    ConnectMessage, NetClientMessage, NetServerMessage, PartyMember, Player, StatSet, VERSION,
};

fn player(name: &str) -> Player {
    Player {
        name: name.to_string(),
        party: vec![PartyMember { species: 1, level: 5, ivs: StatSet::uniform(1), moves: vec![] }],
    }
}

fn is_validate(r: &Option<NetServerMessage>, tag: &str) -> bool {
    match r {
        Some(NetServerMessage::Validate(m)) => format!("{:?}", m).starts_with(tag),
        _ => false,
    }
}

#[test]
fn matching_version_can_join() {
    let mut lobby = Lobby::new(2, PartyOrigin::ServerGenerated);
    let r = lobby.receive(1, NetClientMessage::RequestJoin("0.1.0".to_string()), generate_party(151));
    assert!(VERSION == "0.1.0");
    match r {
        Some(NetServerMessage::Validate(ConnectMessage::CanJoin(Some(p)))) => assert_eq!(p.len(), 6),
        _ => panic!("expected CanJoin"),
    }
}

#[test]
fn other_version_is_wrong_version() {
    let mut lobby = Lobby::new(2, PartyOrigin::ServerGenerated);
    let r = lobby.receive(1, NetClientMessage::RequestJoin("0.9.9".to_string()), generate_party(151));
    assert!(is_validate(&r, "WrongVersion"));
    // no slot was made: a join is refused
    let r = lobby.receive(1, NetClientMessage::Join(player("a")), vec![]);
    assert!(is_validate(&r, "AlreadyConnected"));
    assert_eq!(lobby.filled(), 0);
}

#[test]
fn client_generated_origin_offers_no_party() {
    let mut lobby = Lobby::new(1, PartyOrigin::ClientGenerated);
    let r = lobby.request_join(4, &VERSION.to_string(), generate_party(10));
    assert!(matches!(r, NetServerMessage::Validate(ConnectMessage::CanJoin(None))));
    assert!(lobby.join(4, player("own")).is_none());
    assert!(lobby.ready());
    let (participants, replaced) = lobby.start_battle(7);
    assert_eq!(participants.len(), 1);
    assert_eq!(participants[0].id, 7);
    assert_eq!(participants[0].peer, 4);
    assert_eq!(participants[0].name, "own");
    assert_eq!(participants[0].party[0].level, 5);
    assert!(replaced.is_empty());
}

#[test]
fn duplicate_request_is_already_connected() {
    let mut lobby = Lobby::new(2, PartyOrigin::ClientGenerated);
    lobby.request_join(1, &VERSION.to_string(), vec![]);
    let r = lobby.request_join(1, &VERSION.to_string(), vec![]);
    assert!(matches!(r, NetServerMessage::Validate(ConnectMessage::AlreadyConnected)));
}

#[test]
fn duplicate_join_keeps_first_player() {
    let mut lobby = Lobby::new(2, PartyOrigin::ClientGenerated);
    lobby.request_join(1, &VERSION.to_string(), vec![]);
    assert!(lobby.join(1, player("first")).is_none());
    let r = lobby.join(1, player("second"));
    assert!(is_validate(&r, "AlreadyConnected"));
    assert_eq!(lobby.filled(), 1);
    lobby.request_join(2, &VERSION.to_string(), vec![]);
    lobby.join(2, player("other"));
    let (participants, _) = lobby.start_battle(0);
    assert_eq!(participants[0].name, "first");
}

#[test]
fn join_without_request_is_refused() {
    let mut lobby = Lobby::new(2, PartyOrigin::ClientGenerated);
    let r = lobby.join(3, player("x"));
    assert!(is_validate(&r, "AlreadyConnected"));
    assert_eq!(lobby.filled(), 0);
}

#[test]
fn third_join_with_battle_size_two_is_in_progress() {
    let mut lobby = Lobby::new(2, PartyOrigin::ServerGenerated);
    for peer in [1u64, 2, 3] {
        lobby.request_join(peer, &VERSION.to_string(), generate_party(151));
    }
    assert!(lobby.join(1, player("a")).is_none());
    assert!(!lobby.ready());
    assert!(lobby.join(2, player("b")).is_none());
    assert!(lobby.ready());
    let r = lobby.join(3, player("c"));
    assert!(is_validate(&r, "InProgress"));
    let r = lobby.receive(4, NetClientMessage::RequestJoin(VERSION.to_string()), generate_party(151));
    assert!(is_validate(&r, "InProgress"));
    let (participants, replaced) = lobby.start_battle(10);
    assert_eq!(participants.len(), 2);
    assert_eq!(participants[0].peer, 1);
    assert_eq!(participants[0].id, 10);
    assert_eq!(participants[1].peer, 2);
    assert_eq!(participants[1].id, 11);
    // the server's offered party replaces the player's own
    assert_eq!(participants[0].party.len(), 6);
    assert_eq!(replaced, vec![3]);
}

#[test]
fn leaving_frees_the_slot() {
    let mut lobby = Lobby::new(1, PartyOrigin::ClientGenerated);
    lobby.request_join(1, &VERSION.to_string(), vec![]);
    assert!(lobby.receive(1, NetClientMessage::Join(player("a")), vec![]).is_none());
    assert!(lobby.ready());
    assert!(lobby.receive(1, NetClientMessage::Leave, vec![]).is_none());
    assert!(!lobby.ready());
    assert_eq!(lobby.filled(), 0);
    // the peer may ask again
    let r = lobby.request_join(1, &VERSION.to_string(), vec![]);
    assert!(matches!(r, NetServerMessage::Validate(ConnectMessage::CanJoin(None))));
}

#[test]
fn game_messages_are_ignored_in_the_lobby() {
    let mut lobby = Lobby::new(1, PartyOrigin::ClientGenerated);
    assert!(lobby.receive(1, NetClientMessage::Game(vec![1]), vec![]).is_none());
    assert_eq!(lobby.filled(), 0);
    assert_eq!(lobby.battle_size(), 1);
    assert_eq!(lobby.origin(), PartyOrigin::ClientGenerated);
}

#[test]
fn zero_size_lobby_is_ready_at_once() {
    let mut lobby = Lobby::new(0, PartyOrigin::ClientGenerated);
    assert!(lobby.ready());
    let r = lobby.request_join(1, &VERSION.to_string(), vec![]);
    assert!(matches!(r, NetServerMessage::Validate(ConnectMessage::InProgress)));
}
