use battle_net::codec::{decode_client, decode_server, encode_client, encode_server, frame, next_frame};
use battle_net::protocol::{
    ConnectMessage, NetClientMessage, NetServerMessage, PartyMember, Player, StatSet, VERSION,
};

fn member(species: u16, moves: Vec<u16>) -> PartyMember {
    PartyMember { species, level: 50, ivs: StatSet::uniform(15), moves }
}

#[test]
fn request_join_round_trip() {
    let bytes = encode_client(&NetClientMessage::RequestJoin(VERSION.to_string()));
    match decode_client(&bytes) {
        Ok(NetClientMessage::RequestJoin(v)) => assert_eq!(v, VERSION),
        _ => panic!("wrong message"),
    }
}

#[test]
fn join_round_trip_keeps_player() {
    let player = Player {
        name: "Ash Ketchüm".to_string(),
        party: vec![member(25, vec![84, 85]), member(1, vec![]), member(150, vec![1, 2, 3, 4])],
    };
    let bytes = encode_client(&NetClientMessage::Join(player));
    match decode_client(&bytes) {
        Ok(NetClientMessage::Join(p)) => {
            assert_eq!(p.name, "Ash Ketchüm");
            assert_eq!(p.party.len(), 3);
            assert_eq!(p.party[0].species, 25);
            assert_eq!(p.party[0].moves, vec![84, 85]);
            assert_eq!(p.party[1].moves, Vec::<u16>::new());
            assert_eq!(p.party[2].moves, vec![1, 2, 3, 4]);
            assert_eq!(p.party[2].ivs, StatSet::uniform(15));
            assert_eq!(p.party[2].level, 50);
        },
        _ => panic!("wrong message"),
    }
}

#[test]
fn game_and_leave_round_trip() {
    let bytes = encode_client(&NetClientMessage::Game(vec![9, 8, 7]));
    assert!(matches!(decode_client(&bytes), Ok(NetClientMessage::Game(g)) if g == vec![9, 8, 7]));
    let bytes = encode_client(&NetClientMessage::Leave);
    assert_eq!(bytes, vec![3]);
    assert!(matches!(decode_client(&bytes), Ok(NetClientMessage::Leave)));
}

#[test]
fn server_messages_round_trip() {
    let offered = vec![member(4, vec![10]), member(7, vec![])];
    let bytes = encode_server(&NetServerMessage::Validate(ConnectMessage::CanJoin(Some(offered))));
    match decode_server(&bytes) {
        Ok(NetServerMessage::Validate(ConnectMessage::CanJoin(Some(p)))) => {
            assert_eq!(p.len(), 2);
            assert_eq!(p[0].species, 4);
            assert_eq!(p[0].moves, vec![10]);
            assert_eq!(p[1].species, 7);
        },
        _ => panic!("wrong message"),
    }
    for m in [
        ConnectMessage::CanJoin(None),
        ConnectMessage::NoRequest,
        ConnectMessage::AlreadyConnected,
        ConnectMessage::ConnectionReplaced,
        ConnectMessage::WrongVersion,
        ConnectMessage::InProgress,
    ] {
        let tag = format!("{:?}", m);
        let bytes = encode_server(&NetServerMessage::Validate(m));
        match decode_server(&bytes) {
            Ok(NetServerMessage::Validate(back)) => assert_eq!(format!("{:?}", back), tag),
            _ => panic!("wrong message"),
        }
    }
    assert!(matches!(decode_server(&encode_server(&NetServerMessage::Begin)), Ok(NetServerMessage::Begin)));
    assert!(matches!(decode_server(&encode_server(&NetServerMessage::End)), Ok(NetServerMessage::End)));
    let bytes = encode_server(&NetServerMessage::Game(vec![1, 2]));
    assert!(matches!(decode_server(&bytes), Ok(NetServerMessage::Game(g)) if g == vec![1, 2]));
}

#[test]
fn exact_encodings() {
    let bytes = encode_client(&NetClientMessage::RequestJoin("ab".to_string()));
    assert_eq!(bytes, vec![0, 2, 0, 0, 0, b'a', b'b']);
    let bytes = encode_server(&NetServerMessage::Game(vec![0xff]));
    assert_eq!(bytes, vec![1, 1, 0, 0, 0, 0xff]);
    let bytes = encode_client(&NetClientMessage::Join(Player {
        name: String::new(),
        party: vec![member(0x0102, vec![0x0304])],
    }));
    assert_eq!(
        bytes,
        vec![1, 0, 0, 0, 0, 1, 0x02, 0x01, 50, 15, 15, 15, 15, 15, 15, 1, 0x04, 0x03]
    );
}

#[test]
fn corrupt_payloads_are_refused() {
    assert!(decode_client(&[]).is_err());
    assert!(decode_client(&[9]).is_err());
    assert!(decode_client(&[3, 0]).is_err());
    assert!(decode_client(&[0, 5, 0, 0, 0, b'a']).is_err());
    assert!(decode_client(&[0, 1, 0, 0, 0, 0xff]).is_err());
    assert!(decode_server(&[0, 9]).is_err());
    assert!(decode_server(&[0, 0, 2]).is_err());
    // a party of seven is more than a party can hold
    assert!(decode_server(&[0, 0, 1, 7]).is_err());
    // a creature with five moves is refused
    assert!(decode_server(&[0, 0, 1, 1, 1, 0, 50, 1, 1, 1, 1, 1, 1, 5, 0, 0, 0, 0, 0, 0, 0, 0, 0, 0]).is_err());
}

#[test]
fn frames_split_a_stream() {
    let a = frame(&[1, 2, 3]);
    assert_eq!(a, vec![3, 0, 0, 0, 1, 2, 3]);
    let mut stream = a.clone();
    stream.extend(frame(&[4]));
    let (first, used) = next_frame(&stream).unwrap();
    assert_eq!(first, vec![1, 2, 3]);
    assert_eq!(used, 7);
    let (second, used2) = next_frame(&stream[used..]).unwrap();
    assert_eq!(second, vec![4]);
    assert_eq!(used2, 5);
    assert!(next_frame(&stream[..6]).is_none());
    assert!(next_frame(&[]).is_none());
}
