use vstd::prelude::*;

verus! {

/// The protocol version that a client must present, compared for exact equality.
pub const VERSION: &'static str = "0.1.0";

/// The port a server listens on unless configured otherwise.
pub const DEFAULT_PORT: u16 = 28528;

/// The largest number of creatures in a party.
pub const PARTY_CAPACITY: usize = 6;

/// The largest number of moves a creature knows.
pub const MOVE_CAPACITY: usize = 4;

/// The six base statistics of a creature (or six per-statistic values, such as
/// individual values).
#[derive(Clone, Copy, Debug, PartialEq, Eq, Structural)]
pub struct StatSet {
    pub hp: u8,
    pub attack: u8,
    pub defense: u8,
    pub sp_attack: u8,
    pub sp_defense: u8,
    pub speed: u8,
}

impl StatSet {
    /// A set in which every statistic is `value`.
    pub fn uniform(value: u8) -> (r: StatSet)
        ensures
            r == StatSet::uniform_spec(value),
    {
        StatSet {
            hp: value,
            attack: value,
            defense: value,
            sp_attack: value,
            sp_defense: value,
            speed: value,
        }
    }

    pub open spec fn uniform_spec(value: u8) -> StatSet {
        StatSet {
            hp: value,
            attack: value,
            defense: value,
            sp_attack: value,
            sp_defense: value,
            speed: value,
        }
    }
}

/// A serialisable snapshot of one creature: enough to rebuild it from the
/// species, move and item catalogs.
#[derive(Clone, Debug)]
pub struct PartyMember {
    pub species: u16,
    pub level: u8,
    pub ivs: StatSet,
    pub moves: Vec<u16>,
}

/// The mathematical value of a [`PartyMember`].
pub struct MemberView {
    pub species: u16,
    pub level: u8,
    pub ivs: StatSet,
    pub moves: Seq<u16>,
}

impl View for PartyMember {
    type V = MemberView;

    open spec fn view(&self) -> MemberView {
        MemberView { species: self.species, level: self.level, ivs: self.ivs, moves: self.moves@ }
    }
}

impl MemberView {
    pub open spec fn wf(self) -> bool {
        self.moves.len() <= MOVE_CAPACITY
    }
}

/// The views of a sequence of party members.
pub open spec fn party_view(party: Seq<PartyMember>) -> Seq<MemberView> {
    party.map_values(|m: PartyMember| m@)
}

/// A party holds at most six creatures, each knowing at most four moves.
pub open spec fn party_wf(party: Seq<MemberView>) -> bool {
    &&& party.len() <= PARTY_CAPACITY
    &&& forall|i: int| 0 <= i < party.len() ==> (#[trigger] party[i]).wf()
}

/// A player as it joins a battle: a display name and a party.
#[derive(Clone, Debug)]
pub struct Player {
    pub name: String,
    pub party: Vec<PartyMember>,
}

pub struct PlayerView {
    pub name: Seq<char>,
    pub party: Seq<MemberView>,
}

impl View for Player {
    type V = PlayerView;

    open spec fn view(&self) -> PlayerView {
        PlayerView { name: self.name@, party: party_view(self.party@) }
    }
}

/// The outcome of a request to join a server's lobby.
#[derive(Clone, Debug)]
pub enum ConnectMessage {
    /// The request was accepted, optionally with a party chosen by the server.
    CanJoin(Option<Vec<PartyMember>>),
    /// The client has not requested to join by sending its version.
    NoRequest,
    /// The peer already holds a slot, or holds none that a join could fill.
    AlreadyConnected,
    /// The peer's pending slot was dropped when the battle began without it.
    ConnectionReplaced,
    /// The client's version differs from the server's.
    WrongVersion,
    /// A battle is already under way.
    InProgress,
}

pub enum ConnectView {
    CanJoin(Option<Seq<MemberView>>),
    NoRequest,
    AlreadyConnected,
    ConnectionReplaced,
    WrongVersion,
    InProgress,
}

impl View for ConnectMessage {
    type V = ConnectView;

    open spec fn view(&self) -> ConnectView {
        match self {
            ConnectMessage::CanJoin(None) => ConnectView::CanJoin(None),
            ConnectMessage::CanJoin(Some(p)) => ConnectView::CanJoin(Some(party_view(p@))),
            ConnectMessage::NoRequest => ConnectView::NoRequest,
            ConnectMessage::AlreadyConnected => ConnectView::AlreadyConnected,
            ConnectMessage::ConnectionReplaced => ConnectView::ConnectionReplaced,
            ConnectMessage::WrongVersion => ConnectView::WrongVersion,
            ConnectMessage::InProgress => ConnectView::InProgress,
        }
    }
}

/// A message from a client to a server. Battle actions travel as the battle
/// engine's own encoded bytes.
#[derive(Clone, Debug)]
pub enum NetClientMessage {
    /// Request to join, carrying the client's version.
    RequestJoin(String),
    /// Join the lobby as this player.
    Join(Player),
    /// An action for the battle engine.
    Game(Vec<u8>),
    /// The client leaves.
    Leave,
}

pub enum ClientView {
    RequestJoin(Seq<char>),
    Join(PlayerView),
    Game(Seq<u8>),
    Leave,
}

impl View for NetClientMessage {
    type V = ClientView;

    open spec fn view(&self) -> ClientView {
        match self {
            NetClientMessage::RequestJoin(v) => ClientView::RequestJoin(v@),
            NetClientMessage::Join(p) => ClientView::Join(p@),
            NetClientMessage::Game(b) => ClientView::Game(b@),
            NetClientMessage::Leave => ClientView::Leave,
        }
    }
}

/// A message from a server to a client.
#[derive(Clone, Debug)]
pub enum NetServerMessage {
    /// The answer to a request to join.
    Validate(ConnectMessage),
    /// An event of the battle engine, as its own encoded bytes.
    Game(Vec<u8>),
    /// The battle has begun.
    Begin,
    /// The battle is over.
    End,
}

pub enum ServerView {
    Validate(ConnectView),
    Game(Seq<u8>),
    Begin,
    End,
}

impl View for NetServerMessage {
    type V = ServerView;

    open spec fn view(&self) -> ServerView {
        match self {
            NetServerMessage::Validate(c) => ServerView::Validate(c@),
            NetServerMessage::Game(b) => ServerView::Game(b@),
            NetServerMessage::Begin => ServerView::Begin,
            NetServerMessage::End => ServerView::End,
        }
    }
}


/// A copy of a list of move ids.
fn copy_moves(m: &Vec<u16>) -> (r: Vec<u16>)
    ensures
        r@ == m@,
{
    let mut r: Vec<u16> = Vec::with_capacity(m.len());
    let mut i: usize = 0;
    while i < m.len()
        invariant
            i <= m@.len(),
            r@ == m@.subrange(0, i as int),
        decreases m@.len() - i,
    {
        r.push(m[i]);
        i = i + 1;
    }
    assert(m@.subrange(0, m@.len() as int) =~= m@);
    r
}

impl PartyMember {
    /// A copy of this member.
    pub fn copy(&self) -> (r: PartyMember)
        ensures
            r@ == self@,
    {
        PartyMember {
            species: self.species,
            level: self.level,
            ivs: self.ivs,
            moves: copy_moves(&self.moves),
        }
    }
}

/// A copy of a party.
pub fn copy_party(p: &Vec<PartyMember>) -> (r: Vec<PartyMember>)
    ensures
        party_view(r@) == party_view(p@),
{
    let mut r: Vec<PartyMember> = Vec::with_capacity(p.len());
    let mut i: usize = 0;
    while i < p.len()
        invariant
            i <= p@.len(),
            party_view(r@) =~= party_view(p@).subrange(0, i as int),
        decreases p@.len() - i,
    {
        let m = p[i].copy();
        let ghost before = r@;
        r.push(m);
        assert(r@ == before.push(m));
        assert(party_view(r@) =~= party_view(before).push(p@[i as int]@));
        i = i + 1;
        assert(party_view(r@) =~= party_view(p@).subrange(0, i as int));
    }
    assert(party_view(p@).subrange(0, p@.len() as int) =~= party_view(p@));
    r
}

} // verus!
