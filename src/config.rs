//! The server's settings.
use vstd::prelude::*;
use crate::protocol::DEFAULT_PORT;

verus! {

/// Where the server listens and how many players a battle takes.
#[derive(Clone, Copy, Debug, PartialEq, Eq, Structural)]
pub struct Configuration {
    pub port: u16,
    pub battle_size: u8,
}

/// The port used when the configuration names none.
pub fn default_port() -> (r: u16)
    ensures
        r == DEFAULT_PORT,
{
    DEFAULT_PORT
}

/// The battle size used when the configuration names none.
pub fn default_battle_size() -> (r: u8)
    ensures
        r == 1,
{
    1
}

impl Default for Configuration {
    fn default() -> (r: Configuration)
        ensures
            r.port == DEFAULT_PORT,
            r.battle_size == 1,
    {
        Configuration { port: default_port(), battle_size: default_battle_size() }
    }
}

} // verus!
