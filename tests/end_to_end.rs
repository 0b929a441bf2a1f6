use battle_net::battle::{broadcast, BattleServer, BattleServerPlayer, TickAction};
use battle_net::client::{ClientReaction, ConnectionState};
use battle_net::codec::{decode_client, decode_server, encode_client};
use battle_net::generate::{accepted_player, generate_party};
use battle_net::lobby::{Lobby, PartyOrigin};
use battle_net::protocol::{NetClientMessage, NetServerMessage, VERSION};

const A: u64 = 100;
const B: u64 = 200;

/// The client side of one exchange: the bytes a server sent, taken in.
fn deliver(state: &mut ConnectionState, bytes: &[u8]) -> ClientReaction {
    state.receive(decode_server(bytes).expect("server sent garbage"))
}

#[test]
fn two_clients_battle_and_one_disconnects() {
    let mut lobby = Lobby::new(2, PartyOrigin::ServerGenerated);
    let mut clients = [(A, ConnectionState::new()), (B, ConnectionState::new())];

    // both clients connect, ask to join, and join with the offered party
    for (peer, state) in clients.iter_mut() {
        *state = state.connect_result(true);
        assert!(state.tick(16));
        let request = encode_client(&NetClientMessage::RequestJoin(VERSION.to_string()));
        let msg = decode_client(&request).unwrap();
        let reply = lobby.receive(*peer, msg, generate_party(151)).unwrap();
        let reply = battle_net::codec::encode_server(&reply);
        let offered = match deliver(state, &reply) {
            ClientReaction::Accepted(p) => p,
            _ => panic!("not accepted"),
        };
        assert_eq!(*state, ConnectionState::AwaitingOpponent);
        let player = accepted_player(offered, None, 151);
        let join = encode_client(&NetClientMessage::Join(player));
        assert!(lobby.receive(*peer, decode_client(&join).unwrap(), vec![]).is_none());
    }
    assert!(lobby.ready());

    // the battle is built and begins
    let (participants, replaced) = lobby.start_battle(1);
    assert!(replaced.is_empty());
    let peers: Vec<u64> = participants.iter().map(|p| p.peer).collect();
    assert_eq!(peers, vec![A, B]);
    let mut server = BattleServer::new(peers);
    for (peer, bytes) in broadcast(server.peers_list(), &NetServerMessage::Begin) {
        let state = &mut clients.iter_mut().find(|(p, _)| *p == peer).unwrap().1;
        deliver(state, &bytes);
    }
    assert_eq!(clients[0].1, ConnectionState::InBattle);
    assert_eq!(clients[1].1, ConnectionState::InBattle);

    // client A sends actions; the server's mailbox for A holds them in order
    for action in [vec![1u8], vec![2u8]] {
        let bytes = encode_client(&NetClientMessage::Game(action));
        assert!(server.receive(A, decode_client(&bytes).unwrap()).is_none());
    }
    let endpoint_a = BattleServerPlayer::new(A);
    assert_eq!(endpoint_a.receive(&mut server), Some(vec![1]));
    assert_eq!(endpoint_a.receive(&mut server), Some(vec![2]));
    assert_eq!(endpoint_a.receive(&mut server), None);
    assert_eq!(BattleServerPlayer::new(B).receive(&mut server), None);

    // an event of the battle reaches both clients
    for (peer, state) in clients.iter_mut() {
        let (to, bytes) = BattleServerPlayer::new(*peer).send(vec![42]);
        assert_eq!(to, *peer);
        assert!(matches!(deliver(state, &bytes), ClientReaction::Deliver(e) if e == vec![42]));
    }

    // a late joiner is told the battle is in progress
    let late = server.receive(300, NetClientMessage::RequestJoin(VERSION.to_string()));
    assert!(matches!(late, Some(NetServerMessage::Validate(_))));

    // A disconnects: the loop ends the battle, then leaves, announcing End once
    assert_eq!(server.next_action(false), TickAction::Update);
    server.disconnect(A);
    assert!(!server.running());
    assert!(!server.is_participant(A));
    assert!(server.is_participant(B));
    assert_eq!(server.next_action(false), TickAction::EndBattle);
    assert_eq!(server.next_action(true), TickAction::Exit);
    let ended = server.finish();
    assert_eq!(ended, vec![A, B]);
    let end_packets = broadcast(&ended, &NetServerMessage::End);
    let (_, to_b) = end_packets.iter().find(|(p, _)| *p == B).unwrap();
    deliver(&mut clients[1].1, to_b);
    assert_eq!(clients[1].1, ConnectionState::Closed);
    assert!(server.finish().is_empty());
}

#[test]
fn leave_stops_the_battle() {
    let mut server = BattleServer::new(vec![A, B]);
    assert!(server.running());
    assert!(server.receive(B, NetClientMessage::Leave).is_none());
    assert!(!server.running());
    assert!(!server.is_participant(B));
    assert_eq!(server.next_action(false), TickAction::EndBattle);
}

#[test]
fn actions_from_strangers_are_dropped() {
    let mut server = BattleServer::new(vec![A]);
    assert!(!server.is_participant(999));
    assert!(server.receive(999, NetClientMessage::Game(vec![5])).is_none());
    assert_eq!(server.take_action(999), None);
    assert_eq!(server.take_action(A), None);
}

#[test]
fn interrupt_ends_the_battle_gracefully() {
    let mut server = BattleServer::new(vec![A, B]);
    server.stop();
    assert_eq!(server.next_action(false), TickAction::EndBattle);
    assert!(server.is_participant(A));
    assert_eq!(server.finish(), vec![A, B]);
    assert!(server.finish().is_empty());
}
