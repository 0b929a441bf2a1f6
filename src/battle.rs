//! The server once the battle is built: incoming game actions are routed to
//! each participant's mailbox, the battle engine reaches the network only
//! through [`BattleServerPlayer`], and the end of the battle is announced
//! exactly once.
use vstd::prelude::*;
use crate::codec::{enc_server, encode_server, server_wf};
use crate::mailbox::{after_pop, after_push, popped, Mailbox};
use crate::protocol::{
    ClientView, ConnectMessage, ConnectView, NetClientMessage, NetServerMessage, ServerView,
};

verus! {

/// What the battle loop does on one iteration.
#[derive(Clone, Copy, Debug, PartialEq, Eq, Structural)]
pub enum TickAction {
    /// Run one tick of the battle engine.
    Update,
    /// The battle must stop: tell the engine to end it, without a winner.
    EndBattle,
    /// The battle is over: leave the loop.
    Exit,
}

/// The server's state while a battle runs.
pub struct BattleServer {
    peers: Vec<u64>,
    mailbox: Mailbox<Vec<u8>>,
    running: bool,
    ended: bool,
}

impl BattleServer {
    pub closed spec fn peers(&self) -> Seq<u64> {
        self.peers@
    }

    pub closed spec fn mailbox(&self) -> Map<u64, Seq<Vec<u8>>> {
        self.mailbox@
    }

    pub closed spec fn is_running(&self) -> bool {
        self.running
    }

    pub closed spec fn has_ended(&self) -> bool {
        self.ended
    }

    /// A running battle between `peers`, each with an empty mailbox.
    pub fn new(peers: Vec<u64>) -> (r: BattleServer)
        ensures
            r.peers() == peers@,
            forall|p: u64| #[trigger] r.mailbox().contains_key(p) <==> peers@.contains(p),
            forall|p: u64| #[trigger] r.mailbox().contains_key(p) ==> r.mailbox()[p].len() == 0,
            r.is_running(),
            !r.has_ended(),
    {
        let mut mailbox: Mailbox<Vec<u8>> = Mailbox::new();
        let mut i: usize = 0;
        while i < peers.len()
            invariant
                i <= peers@.len(),
                forall|p: u64| #[trigger]
                    mailbox@.contains_key(p) <==> exists|j: int| 0 <= j < i && peers@[j] == p,
                forall|p: u64| #[trigger] mailbox@.contains_key(p) ==> mailbox@[p].len() == 0,
            decreases peers@.len() - i,
        {
            let ghost before = mailbox@;
            mailbox.register(peers[i]);
            assert forall|p: u64|
                (exists|j: int| 0 <= j < i + 1 && peers@[j] == p) implies #[trigger]
                mailbox@.contains_key(p) by {
                let j = choose|j: int| 0 <= j < i + 1 && peers@[j] == p;
                if j < i {
                    assert(before.contains_key(p));
                }
            }
            assert forall|p: u64| #[trigger]
                mailbox@.contains_key(p) implies exists|j: int| 0 <= j < i + 1 && peers@[j] == p by {
                if p != peers@[i as int] {
                    assert(before.contains_key(p));
                }
            }
            i = i + 1;
        }
        BattleServer { peers, mailbox, running: true, ended: false }
    }

    /// The participants' peers, in battle order.
    pub fn peers_list(&self) -> (r: &Vec<u64>)
        ensures
            r@ == self.peers(),
    {
        &self.peers
    }

    /// Whether `peer` takes part in the battle.
    pub fn is_participant(&self, peer: u64) -> (r: bool)
        ensures
            r == self.mailbox().contains_key(peer),
    {
        self.mailbox.contains(peer)
    }

    /// Whether no stop has been asked for.
    pub fn running(&self) -> (r: bool)
        ensures
            r == self.is_running(),
    {
        self.running
    }

    /// Handles one message from `peer` during the battle: game actions go to
    /// the peer's mailbox (dropped if the peer is not a participant), join
    /// attempts are told a battle is in progress, and `Leave` stops the
    /// battle.
    pub fn receive(&mut self, peer: u64, msg: NetClientMessage) -> (r: Option<NetServerMessage>)
        ensures
            final(self).peers() == old(self).peers(),
            final(self).has_ended() == old(self).has_ended(),
            match msg@ {
                ClientView::Game(a) => {
                    &&& r is None
                    &&& final(self).is_running() == old(self).is_running()
                    &&& exists|v: Vec<u8>|
                        v@ == a && final(self).mailbox() == after_push(old(self).mailbox(), peer, v)
                },
                ClientView::Leave => {
                    &&& r is None
                    &&& !final(self).is_running()
                    &&& final(self).mailbox() == old(self).mailbox().remove(peer)
                },
                _ => {
                    &&& r matches Some(m) && m@ == ServerView::Validate(ConnectView::InProgress)
                    &&& final(self).is_running() == old(self).is_running()
                    &&& final(self).mailbox() == old(self).mailbox()
                },
            },
    {
        match msg {
            NetClientMessage::Game(action) => {
                self.mailbox.push(peer, action);
                None
            },
            NetClientMessage::Leave => {
                self.disconnect(peer);
                None
            },
            _ => Some(NetServerMessage::Validate(ConnectMessage::InProgress)),
        }
    }

    /// `peer` left or its connection was lost: its mailbox goes, and the
    /// battle stops at the next iteration.
    pub fn disconnect(&mut self, peer: u64)
        ensures
            final(self).peers() == old(self).peers(),
            final(self).mailbox() == old(self).mailbox().remove(peer),
            final(self).has_ended() == old(self).has_ended(),
            !final(self).is_running(),
    {
        self.mailbox.unregister(peer);
        self.running = false;
    }

    /// The operator asked to shut down: the battle stops at the next
    /// iteration.
    pub fn stop(&mut self)
        ensures
            final(self).peers() == old(self).peers(),
            final(self).mailbox() == old(self).mailbox(),
            final(self).has_ended() == old(self).has_ended(),
            !final(self).is_running(),
    {
        self.running = false;
    }

    /// What the loop does next, given whether the battle engine reports the
    /// battle finished.
    pub fn next_action(&self, finished: bool) -> (r: TickAction)
        ensures
            finished ==> r == TickAction::Exit,
            !finished && !self.is_running() ==> r == TickAction::EndBattle,
            !finished && self.is_running() ==> r == TickAction::Update,
    {
        if finished {
            TickAction::Exit
        } else if !self.running {
            TickAction::EndBattle
        } else {
            TickAction::Update
        }
    }

    /// Takes the oldest action that `peer` sent, if any; never waits.
    pub fn take_action(&mut self, peer: u64) -> (r: Option<Vec<u8>>)
        ensures
            final(self).peers() == old(self).peers(),
            final(self).is_running() == old(self).is_running(),
            final(self).has_ended() == old(self).has_ended(),
            r == popped(old(self).mailbox(), peer),
            final(self).mailbox() == after_pop(old(self).mailbox(), peer),
    {
        self.mailbox.pop(peer)
    }

    /// The peers to tell that the battle is over: every participant the
    /// first time, nobody after that.
    pub fn finish(&mut self) -> (r: Vec<u64>)
        ensures
            final(self).has_ended(),
            final(self).peers() == old(self).peers(),
            final(self).mailbox() == old(self).mailbox(),
            final(self).is_running() == old(self).is_running(),
            !old(self).has_ended() ==> r@ == old(self).peers(),
            old(self).has_ended() ==> r@.len() == 0,
    {
        if self.ended {
            Vec::new()
        } else {
            self.ended = true;
            let mut r: Vec<u64> = Vec::with_capacity(self.peers.len());
            let mut i: usize = 0;
            while i < self.peers.len()
                invariant
                    i <= self.peers@.len(),
                    r@ == self.peers@.subrange(0, i as int),
                decreases self.peers@.len() - i,
            {
                r.push(self.peers[i]);
                i = i + 1;
            }
            assert(self.peers@.subrange(0, self.peers@.len() as int) =~= self.peers@);
            r
        }
    }
}

/// The packet that carries `msg` to every peer of `peers`, in order.
pub fn broadcast(peers: &Vec<u64>, msg: &NetServerMessage) -> (r: Vec<(u64, Vec<u8>)>)
    requires
        server_wf(msg@),
    ensures
        r@.len() == peers@.len(),
        forall|i: int|
            0 <= i < r@.len() ==> (#[trigger] r@[i]).0 == peers@[i] && r@[i].1@ == enc_server(msg@),
{
    let mut r: Vec<(u64, Vec<u8>)> = Vec::with_capacity(peers.len());
    let mut i: usize = 0;
    while i < peers.len()
        invariant
            server_wf(msg@),
            i <= peers@.len(),
            r@.len() == i,
            forall|j: int|
                0 <= j < i ==> (#[trigger] r@[j]).0 == peers@[j] && r@[j].1@ == enc_server(msg@),
        decreases peers@.len() - i,
    {
        r.push((peers[i], encode_server(msg)));
        i = i + 1;
    }
    r
}

/// The battle engine's endpoint for one participant: it sends the
/// participant its events, and takes the participant's actions from the
/// mailbox, without knowing anything of the transport.
pub struct BattleServerPlayer {
    pub peer: u64,
}

impl BattleServerPlayer {
    pub fn new(peer: u64) -> (r: BattleServerPlayer)
        ensures
            r.peer == peer,
    {
        BattleServerPlayer { peer }
    }

    /// The packet that delivers a battle event to this participant.
    pub fn send(&self, event: Vec<u8>) -> (r: (u64, Vec<u8>))
        requires
            event@.len() <= u32::MAX,
        ensures
            r.0 == self.peer,
            r.1@ == enc_server(ServerView::Game(event@)),
    {
        let msg = NetServerMessage::Game(event);
        (self.peer, encode_server(&msg))
    }

    /// The participant's next action, if one is waiting.
    pub fn receive(&self, server: &mut BattleServer) -> (r: Option<Vec<u8>>)
        ensures
            final(server).peers() == old(server).peers(),
            final(server).is_running() == old(server).is_running(),
            final(server).has_ended() == old(server).has_ended(),
            r == popped(old(server).mailbox(), self.peer),
            final(server).mailbox() == after_pop(old(server).mailbox(), self.peer),
    {
        server.take_action(self.peer)
    }
}

} // verus!
