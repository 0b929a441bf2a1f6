//! Networked battle synchronisation: the wire protocol and its codec, the
//! per-peer mailbox, the server's lobby and battle-phase router, the
//! client's connection state machine and address prompt, and the making of
//! parties and names.
pub mod protocol;
pub mod codec;
pub mod mailbox;
pub mod lobby;
pub mod client;
pub mod generate;
pub mod battle;
pub mod config;
pub mod address;
