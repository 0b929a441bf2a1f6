//! The server's lobby: peers ask to join, are validated, fill their slots,
//! and once every slot of the configured battle size is filled the lobby
//! turns into the battle's participants.
use vstd::prelude::*;
use crate::protocol::{
    copy_party, party_view, party_wf, ClientView, ConnectMessage, ConnectView, MemberView,
    NetClientMessage,
    NetServerMessage, PartyMember, Player, PlayerView, ServerView, VERSION,
};

verus! {

/// Which side chooses a player's party.
#[derive(Clone, Copy, Debug, PartialEq, Eq, Structural)]
pub enum PartyOrigin {
    /// The server generates a party and sends it with its acceptance.
    ServerGenerated,
    /// The client brings its own party in its `Join`.
    ClientGenerated,
}

/// One peer's place in the lobby: empty until the peer sends `Join`.
pub struct Slot {
    pub peer: u64,
    pub player: Option<Player>,
    /// The party the server offered when it accepted the peer, if it chose one.
    pub offered: Option<Vec<PartyMember>>,
}

pub struct SlotView {
    pub peer: u64,
    pub player: Option<PlayerView>,
    pub offered: Option<Seq<MemberView>>,
}

impl View for Slot {
    type V = SlotView;

    open spec fn view(&self) -> SlotView {
        SlotView {
            peer: self.peer,
            player: match self.player {
                Some(p) => Some(p@),
                None => None,
            },
            offered: match self.offered {
                Some(p) => Some(party_view(p@)),
                None => None,
            },
        }
    }
}

pub open spec fn slot_views(v: Seq<Slot>) -> Seq<SlotView> {
    v.map_values(|x: Slot| x@)
}

/// The slots that hold a player, in the order the peers were accepted.
pub open spec fn filled_slots(s: Seq<SlotView>) -> Seq<SlotView>
    decreases s.len(),
{
    if s.len() == 0 {
        seq![]
    } else if s.last().player is Some {
        filled_slots(s.drop_last()).push(s.last())
    } else {
        filled_slots(s.drop_last())
    }
}

/// The peers whose slots are still empty, in the order they were accepted.
pub open spec fn pending_peers(s: Seq<SlotView>) -> Seq<u64>
    decreases s.len(),
{
    if s.len() == 0 {
        seq![]
    } else if s.last().player is Some {
        pending_peers(s.drop_last())
    } else {
        pending_peers(s.drop_last()).push(s.last().peer)
    }
}

pub open spec fn has_peer(s: Seq<SlotView>, peer: u64) -> bool {
    exists|i: int| 0 <= i < s.len() && s[i].peer == peer
}

/// The position of `peer`'s slot, where it has one.
pub open spec fn slot_of(s: Seq<SlotView>, peer: u64) -> int {
    choose|i: int| 0 <= i < s.len() && s[i].peer == peer
}

pub open spec fn peers_unique(s: Seq<SlotView>) -> bool {
    forall|i: int, j: int| 0 <= i < s.len() && 0 <= j < s.len() && i != j ==> s[i].peer != s[j].peer
}

pub struct LobbyView {
    pub slots: Seq<SlotView>,
    pub battle_size: u8,
    pub origin: PartyOrigin,
}

impl LobbyView {
    /// Each peer holds at most one slot, never more slots are filled than
    /// the battle has places, and every offered party is well formed.
    pub open spec fn wf(self) -> bool {
        &&& peers_unique(self.slots)
        &&& filled_slots(self.slots).len() <= self.battle_size
        &&& forall|i: int|
            0 <= i < self.slots.len() ==> ((#[trigger] self.slots[i]).offered matches Some(p)
                ==> party_wf(p))
    }

    /// Every place of the battle is filled: the battle can be built.
    pub open spec fn ready(self) -> bool {
        filled_slots(self.slots).len() == self.battle_size
    }

    pub open spec fn with_slots(self, slots: Seq<SlotView>) -> LobbyView {
        LobbyView { slots, ..self }
    }
}

/// The lobby after `RequestJoin(version)` from `peer`, and the reply.
pub open spec fn request_join_spec(
    l: LobbyView,
    peer: u64,
    version: Seq<char>,
    generated: Seq<MemberView>,
) -> (LobbyView, ServerView) {
    if l.ready() {
        (l, ServerView::Validate(ConnectView::InProgress))
    } else if version != VERSION@ {
        (l, ServerView::Validate(ConnectView::WrongVersion))
    } else if has_peer(l.slots, peer) {
        (l, ServerView::Validate(ConnectView::AlreadyConnected))
    } else {
        let offered = if l.origin == PartyOrigin::ServerGenerated {
            Some(generated)
        } else {
            None
        };
        (
            l.with_slots(l.slots.push(SlotView { peer, player: None, offered })),
            ServerView::Validate(ConnectView::CanJoin(offered)),
        )
    }
}

/// The lobby after `Join(player)` from `peer`, and the reply, if any.
pub open spec fn join_spec(l: LobbyView, peer: u64, player: PlayerView) -> (LobbyView, Option<ServerView>) {
    if l.ready() {
        (l, Some(ServerView::Validate(ConnectView::InProgress)))
    } else if has_peer(l.slots, peer) && l.slots[slot_of(l.slots, peer)].player is None {
        let i = slot_of(l.slots, peer);
        (l.with_slots(l.slots.update(i, SlotView { player: Some(player), ..l.slots[i] })), None)
    } else {
        (l, Some(ServerView::Validate(ConnectView::AlreadyConnected)))
    }
}

/// The lobby after `peer` leaves or disconnects.
pub open spec fn leave_spec(l: LobbyView, peer: u64) -> LobbyView {
    if has_peer(l.slots, peer) {
        l.with_slots(l.slots.remove(slot_of(l.slots, peer)))
    } else {
        l
    }
}

proof fn lemma_filled_update(s: Seq<SlotView>, i: int, x: SlotView)
    requires
        0 <= i < s.len(),
        s[i].player is None,
        x.player is Some,
    ensures
        filled_slots(s.update(i, x)).len() == filled_slots(s).len() + 1,
    decreases s.len(),
{
    let u = s.update(i, x);
    if i == s.len() - 1 {
        assert(u.drop_last() =~= s.drop_last());
    } else {
        assert(u.drop_last() =~= s.drop_last().update(i, x));
        lemma_filled_update(s.drop_last(), i, x);
    }
}

proof fn lemma_filled_remove(s: Seq<SlotView>, i: int)
    requires
        0 <= i < s.len(),
    ensures
        filled_slots(s.remove(i)).len() <= filled_slots(s).len(),
    decreases s.len(),
{
    let r = s.remove(i);
    if i == s.len() - 1 {
        assert(r =~= s.drop_last());
    } else {
        assert(r.drop_last() =~= s.drop_last().remove(i));
        assert(r.last() == s.last());
        lemma_filled_remove(s.drop_last(), i);
    }
}

proof fn lemma_filled_prefix(s: Seq<SlotView>, i: int)
    requires
        0 <= i <= s.len(),
    ensures
        filled_slots(s.take(i)).len() <= filled_slots(s).len(),
    decreases s.len() - i,
{
    if i == s.len() {
        assert(s.take(i) =~= s);
    } else {
        assert(s.take(i + 1).drop_last() =~= s.take(i));
        lemma_filled_prefix(s, i + 1);
    }
}

/// A participant of the battle that a full lobby turns into.
pub struct Participant {
    /// A fresh identity, minted when the battle is built.
    pub id: u64,
    pub peer: u64,
    pub name: String,
    pub party: Vec<PartyMember>,
}

pub struct ParticipantView {
    pub id: u64,
    pub peer: u64,
    pub name: Seq<char>,
    pub party: Seq<MemberView>,
}

impl View for Participant {
    type V = ParticipantView;

    open spec fn view(&self) -> ParticipantView {
        ParticipantView { id: self.id, peer: self.peer, name: self.name@, party: party_view(self.party@) }
    }
}

/// The participant a filled slot becomes: the offered party if the server
/// chose one, else the player's own.
pub open spec fn participant_of(s: SlotView, id: u64) -> ParticipantView {
    ParticipantView {
        id,
        peer: s.peer,
        name: s.player.unwrap().name,
        party: match s.offered {
            Some(p) => p,
            None => s.player.unwrap().party,
        },
    }
}

/// The server's waiting room.
pub struct Lobby {
    slots: Vec<Slot>,
    battle_size: u8,
    origin: PartyOrigin,
}

impl View for Lobby {
    type V = LobbyView;

    closed spec fn view(&self) -> LobbyView {
        LobbyView {
            slots: slot_views(self.slots@),
            battle_size: self.battle_size,
            origin: self.origin,
        }
    }
}

impl Lobby {
    /// An empty lobby for a battle of `battle_size` players.
    pub fn new(battle_size: u8, origin: PartyOrigin) -> (r: Lobby)
        ensures
            r@ == (LobbyView { slots: Seq::empty(), battle_size, origin }),
            r@.wf(),
    {
        let r = Lobby { slots: Vec::new(), battle_size, origin };
        assert(r@.slots =~= Seq::<SlotView>::empty());
        r
    }

    pub fn battle_size(&self) -> (r: u8)
        ensures
            r == self@.battle_size,
    {
        self.battle_size
    }

    pub fn origin(&self) -> (r: PartyOrigin)
        ensures
            r == self@.origin,
    {
        self.origin
    }

    /// How many slots hold a player.
    pub fn filled(&self) -> (r: usize)
        ensures
            r == filled_slots(self@.slots).len(),
    {
        let ghost s = self@.slots;
        let mut n: usize = 0;
        let mut i: usize = 0;
        while i < self.slots.len()
            invariant
                s == self@.slots,
                i <= s.len(),
                n == filled_slots(s.take(i as int)).len(),
                n <= i,
            decreases s.len() - i,
        {
            assert(s.take(i + 1).drop_last() =~= s.take(i as int));
            if self.slots[i].player.is_some() {
                n = n + 1;
            }
            i = i + 1;
        }
        assert(s.take(i as int) =~= s);
        n
    }

    /// Whether every place of the battle is filled.
    pub fn ready(&self) -> (r: bool)
        requires
            self@.wf(),
        ensures
            r == self@.ready(),
    {
        self.filled() == self.battle_size as usize
    }

    fn find(&self, peer: u64) -> (r: Option<usize>)
        ensures
            r matches Some(i) ==> i < self@.slots.len() && self@.slots[i as int].peer == peer,
            r is None ==> !has_peer(self@.slots, peer),
    {
        let mut i: usize = 0;
        while i < self.slots.len()
            invariant
                i <= self@.slots.len(),
                forall|j: int| 0 <= j < i ==> self@.slots[j].peer != peer,
            decreases self@.slots.len() - i,
        {
            if self.slots[i].peer == peer {
                return Some(i);
            }
            i = i + 1;
        }
        None
    }

    /// Answers `RequestJoin(version)` from `peer`. A matching version from a
    /// peer without a slot gives it an empty slot and `CanJoin`, carrying
    /// `generated` when the server chooses parties.
    pub fn request_join(&mut self, peer: u64, version: &String, generated: Vec<PartyMember>) -> (r: NetServerMessage)
        requires
            old(self)@.wf(),
            party_wf(party_view(generated@)),
        ensures
            final(self)@.wf(),
            (final(self)@, r@) == request_join_spec(old(self)@, peer, version@, party_view(generated@)),
    {
        if self.ready() {
            return NetServerMessage::Validate(ConnectMessage::InProgress);
        }
        let expected = VERSION.to_owned();
        if !version.eq(&expected) {
            return NetServerMessage::Validate(ConnectMessage::WrongVersion);
        }
        if self.find(peer).is_some() {
            return NetServerMessage::Validate(ConnectMessage::AlreadyConnected);
        }
        let ghost before = self@.slots;
        let (offered, reply) = match self.origin {
            PartyOrigin::ServerGenerated => {
                let sent = copy_party(&generated);
                (Some(generated), Some(sent))
            },
            PartyOrigin::ClientGenerated => (None, None),
        };
        let slot = Slot { peer, player: None, offered };
        self.slots.push(slot);
        assert(self@.slots =~= before.push(slot@));
        assert(self@.slots.drop_last() =~= before);
        assert(filled_slots(self@.slots) == filled_slots(before));
        NetServerMessage::Validate(ConnectMessage::CanJoin(reply))
    }

    /// Answers `Join(player)` from `peer`: fills its empty slot, or replies
    /// with why it cannot.
    pub fn join(&mut self, peer: u64, player: Player) -> (r: Option<NetServerMessage>)
        requires
            old(self)@.wf(),
        ensures
            final(self)@.wf(),
            final(self)@ == join_spec(old(self)@, peer, player@).0,
            r matches Some(m) ==> join_spec(old(self)@, peer, player@).1 == Some(m@),
            r is None ==> join_spec(old(self)@, peer, player@).1 is None,
    {
        if self.ready() {
            return Some(NetServerMessage::Validate(ConnectMessage::InProgress));
        }
        match self.find(peer) {
            Some(i) => {
                let ghost s = self@.slots;
                proof {
                    assert(has_peer(s, peer));
                    assert(slot_of(s, peer) == i);
                }
                if self.slots[i].player.is_some() {
                    return Some(NetServerMessage::Validate(ConnectMessage::AlreadyConnected));
                }
                let old_slot = self.slots.remove(i);
                let slot = Slot { peer: old_slot.peer, player: Some(player), offered: old_slot.offered };
                self.slots.insert(i, slot);
                assert(self@.slots =~= s.update(i as int, slot@));
                proof {
                    lemma_filled_update(s, i as int, slot@);
                }
                None
            },
            None => Some(NetServerMessage::Validate(ConnectMessage::AlreadyConnected)),
        }
    }

    /// Drops `peer`'s slot, filled or not, when it leaves or disconnects.
    pub fn leave(&mut self, peer: u64)
        requires
            old(self)@.wf(),
        ensures
            final(self)@.wf(),
            final(self)@ == leave_spec(old(self)@, peer),
    {
        match self.find(peer) {
            Some(i) => {
                let ghost s = self@.slots;
                proof {
                    assert(has_peer(s, peer));
                    assert(slot_of(s, peer) == i);
                }
                self.slots.remove(i);
                assert(self@.slots =~= s.remove(i as int));
                proof {
                    lemma_filled_remove(s, i as int);
                }
            },
            None => {},
        }
    }

    /// Handles one message from `peer` while the lobby waits: requests and
    /// joins are answered, game messages are ignored, and `Leave` drops the
    /// peer's slot.
    pub fn receive(&mut self, peer: u64, msg: NetClientMessage, generated: Vec<PartyMember>) -> (r: Option<NetServerMessage>)
        requires
            old(self)@.wf(),
            party_wf(party_view(generated@)),
        ensures
            final(self)@.wf(),
            (final(self)@, match r {
                Some(m) => Some(m@),
                None => None,
            }) == receive_spec(old(self)@, peer, msg@, party_view(generated@)),
    {
        match msg {
            NetClientMessage::RequestJoin(version) => Some(self.request_join(peer, &version, generated)),
            NetClientMessage::Join(player) => self.join(peer, player),
            NetClientMessage::Game(_) => None,
            NetClientMessage::Leave => {
                self.leave(peer);
                None
            },
        }
    }

    /// Turns a full lobby into the battle's participants, in the order the
    /// peers were accepted, with fresh identities `first_id`, `first_id + 1`,
    /// ...; also returns the peers whose slots were still empty, whose
    /// connections the battle replaces.
    pub fn start_battle(self, first_id: u64) -> (r: (Vec<Participant>, Vec<u64>))
        requires
            self@.wf(),
            self@.ready(),
            first_id + self@.battle_size <= u64::MAX,
        ensures
            r.0@.len() == filled_slots(self@.slots).len(),
            forall|k: int|
                0 <= k < r.0@.len() ==> (#[trigger] r.0@[k])@ == participant_of(
                    filled_slots(self@.slots)[k],
                    (first_id + k) as u64,
                ),
            r.1@ == pending_peers(self@.slots),
    {
        let ghost s = self@.slots;
        let mut rest = self.slots;
        let mut participants: Vec<Participant> = Vec::new();
        let mut replaced: Vec<u64> = Vec::new();
        let mut i: usize = 0;
        let n = rest.len();
        assert(slot_views(rest@).len() == n);
        while rest.len() > 0
            invariant
                i <= s.len() <= usize::MAX,
                slot_views(rest@) =~= s.skip(i as int),
                participants@.len() == filled_slots(s.take(i as int)).len(),
                filled_slots(s).len() == self.battle_size,
                first_id + self.battle_size <= u64::MAX,
                forall|k: int|
                    0 <= k < participants@.len() ==> (#[trigger] participants@[k])@
                        == participant_of(filled_slots(s.take(i as int))[k], (first_id + k) as u64),
                replaced@ == pending_peers(s.take(i as int)),
            decreases rest@.len(),
        {
            let ghost before = rest@;
            let slot = rest.remove(0);
            assert(slot_views(before)[0] == slot@);
            assert(slot_views(before)[0] == s.skip(i as int)[0]);
            assert(slot_views(rest@) =~= slot_views(before).skip(1));
            assert(slot_views(rest@) =~= s.skip(i + 1));
            assert(s.take(i + 1).drop_last() =~= s.take(i as int));
            assert(s.take(i + 1).last() == s[i as int]);
            proof {
                lemma_filled_prefix(s, i + 1);
            }
            match slot.player {
                Some(player) => {
                    let party = match slot.offered {
                        Some(p) => p,
                        None => player.party,
                    };
                    let k = participants.len();
                    let id = first_id + k as u64;
                    participants.push(Participant { id, peer: slot.peer, name: player.name, party });
                },
                None => {
                    replaced.push(slot.peer);
                },
            }
            i = i + 1;
        }
        assert(s.take(i as int) =~= s);
        (participants, replaced)
    }
}

/// The lobby after one message from `peer`, and the reply, if any.
pub open spec fn receive_spec(l: LobbyView, peer: u64, m: ClientView, generated: Seq<MemberView>) -> (LobbyView, Option<ServerView>) {
    match m {
        ClientView::RequestJoin(v) => {
            let (l2, r) = request_join_spec(l, peer, v, generated);
            (l2, Some(r))
        },
        ClientView::Join(p) => join_spec(l, peer, p),
        ClientView::Game(_) => (l, None),
        ClientView::Leave => (leave_spec(l, peer), None),
    }
}

/// Version negotiation: in a lobby that is not yet full, a request carrying
/// the server's version from a peer without a slot is accepted, and a
/// request carrying any other version is refused as the wrong version.
pub proof fn lemma_version_check(l: LobbyView, peer: u64, version: Seq<char>, generated: Seq<MemberView>)
    requires
        l.wf(),
        !l.ready(),
    ensures
        version == VERSION@ && !has_peer(l.slots, peer) ==> request_join_spec(
            l,
            peer,
            version,
            generated,
        ).1 matches ServerView::Validate(ConnectView::CanJoin(_)),
        version != VERSION@ ==> request_join_spec(l, peer, version, generated).1
            == ServerView::Validate(ConnectView::WrongVersion),
{
}

/// A `Join` for a slot that already holds a player never replaces that
/// player, and while the lobby waits it is refused as already connected.
pub proof fn lemma_duplicate_join(l: LobbyView, peer: u64, player: PlayerView)
    requires
        l.wf(),
        has_peer(l.slots, peer),
        l.slots[slot_of(l.slots, peer)].player is Some,
    ensures
        join_spec(l, peer, player).0 == l,
        !l.ready() ==> join_spec(l, peer, player).1 == Some(
            ServerView::Validate(ConnectView::AlreadyConnected),
        ),
{
}

/// The lobby is done exactly when its filled slots number the battle size:
/// then, and only then, any further `Join` or `RequestJoin` is answered with
/// `InProgress` and changes nothing.
pub proof fn lemma_full_lobby(l: LobbyView, peer: u64, player: PlayerView, version: Seq<char>, generated: Seq<MemberView>)
    requires
        l.wf(),
    ensures
        l.ready() <==> filled_slots(l.slots).len() == l.battle_size,
        join_spec(l, peer, player).1 == Some(ServerView::Validate(ConnectView::InProgress))
            <==> l.ready(),
        request_join_spec(l, peer, version, generated).1 == ServerView::Validate(
            ConnectView::InProgress,
        ) <==> l.ready(),
        l.ready() ==> join_spec(l, peer, player).0 == l && request_join_spec(
            l,
            peer,
            version,
            generated,
        ).0 == l,
{
}

} // verus!
