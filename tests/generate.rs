use battle_net::generate::{accepted_player, choose_name, generate_party, party_from_species, random_name};
use battle_net::protocol::{PartyMember, StatSet};

#[test]
fn generated_party_is_full_and_in_range() {
    let party = generate_party(151);
    assert_eq!(party.len(), 6);
    for m in &party {
        assert!(m.species >= 1 && m.species < 151);
        assert_eq!(m.level, 50);
        assert_eq!(m.ivs, StatSet::uniform(15));
        assert!(m.moves.is_empty());
    }
    let tiny = generate_party(2);
    assert!(tiny.iter().all(|m| m.species == 1));
}

#[test]
fn party_follows_drawn_species() {
    let party = party_from_species(&vec![3, 9, 27]);
    let species: Vec<u16> = party.iter().map(|m| m.species).collect();
    assert_eq!(species, vec![3, 9, 27]);
    assert!(party_from_species(&vec![]).is_empty());
}

#[test]
fn made_up_names_are_seven_alphanumerics() {
    for _ in 0..20 {
        let n = random_name();
        assert_eq!(n.chars().count(), 7);
        assert!(n.chars().all(|c| c.is_ascii_alphanumeric()));
    }
}

#[test]
fn given_name_is_kept() {
    assert_eq!(choose_name(Some("Blue".to_string())), "Blue");
    assert_eq!(choose_name(None).len(), 7);
}

#[test]
fn accepted_player_uses_offered_party() {
    let offered = vec![PartyMember { species: 42, level: 9, ivs: StatSet::uniform(3), moves: vec![1] }];
    let p = accepted_player(Some(offered), Some("Gold".to_string()), 0);
    assert_eq!(p.name, "Gold");
    assert_eq!(p.party.len(), 1);
    assert_eq!(p.party[0].species, 42);
    let p = accepted_player(None, None, 151);
    assert_eq!(p.party.len(), 6);
    assert_eq!(p.name.len(), 7);
}
