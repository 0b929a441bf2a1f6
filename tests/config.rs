use battle_net::config::{default_battle_size, default_port, Configuration};

#[test]
fn defaults() {
    let c = Configuration::default();
    assert_eq!(c.port, 28528);
    assert_eq!(c.battle_size, 1);
    assert_eq!(default_port(), 28528);
    assert_eq!(default_battle_size(), 1);
}
