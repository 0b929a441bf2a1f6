//! The wire format: a compact binary encoding of the protocol messages.
//!
//! Every value starts with its own discriminant; integers are little-endian;
//! byte strings and text carry a four-byte length; lists carry a one-byte
//! count. Decoding accepts exactly the byte strings that the parsers below
//! describe, and decoding an encoding gives back the encoded value.
use vstd::prelude::*;
use vstd::utf8::*;
use crate::protocol::{
    party_view, party_wf, ClientView, ConnectMessage, ConnectView, MemberView, NetClientMessage,
    NetServerMessage, PartyMember, Player, PlayerView, ServerView, StatSet, MOVE_CAPACITY,
    PARTY_CAPACITY,
};

verus! {

broadcast use vstd::seq::group_seq_axioms;

// ---------------------------------------------------------------------------
// Encodings, over the views of the values.

pub open spec fn enc_u16(v: u16) -> Seq<u8> {
    seq![(v & 0xff) as u8, (v >> 8) as u8]
}

pub open spec fn enc_u32(v: u32) -> Seq<u8> {
    seq![(v & 0xff) as u8, ((v >> 8) & 0xff) as u8, ((v >> 16) & 0xff) as u8, (v >> 24) as u8]
}

pub open spec fn dec_u16(b0: u8, b1: u8) -> u16 {
    (b0 as u16) | ((b1 as u16) << 8)
}

pub open spec fn dec_u32(b0: u8, b1: u8, b2: u8, b3: u8) -> u32 {
    (b0 as u32) | ((b1 as u32) << 8) | ((b2 as u32) << 16) | ((b3 as u32) << 24)
}

/// A byte string: its length, then its bytes.
pub open spec fn enc_bytes(b: Seq<u8>) -> Seq<u8> {
    enc_u32(b.len() as u32) + b
}

/// Text: its UTF-8 encoding as a byte string.
pub open spec fn enc_str(s: Seq<char>) -> Seq<u8> {
    enc_bytes(encode_utf8(s))
}

// ---------------------------------------------------------------------------
// Parsers: each reads a value from the front of `b` and says how many bytes
// it took.

pub open spec fn parse_u8(b: Seq<u8>) -> Option<(u8, int)> {
    if b.len() >= 1 {
        Some((b[0], 1))
    } else {
        None
    }
}

pub open spec fn parse_u16(b: Seq<u8>) -> Option<(u16, int)> {
    if b.len() >= 2 {
        Some((dec_u16(b[0], b[1]), 2))
    } else {
        None
    }
}

pub open spec fn parse_u32(b: Seq<u8>) -> Option<(u32, int)> {
    if b.len() >= 4 {
        Some((dec_u32(b[0], b[1], b[2], b[3]), 4))
    } else {
        None
    }
}

pub open spec fn parse_bytes(b: Seq<u8>) -> Option<(Seq<u8>, int)> {
    match parse_u32(b) {
        Some((n, k)) => if b.len() - k >= n {
            Some((b.subrange(k, k + n), k + n))
        } else {
            None
        },
        None => None,
    }
}

pub open spec fn parse_str(b: Seq<u8>) -> Option<(Seq<char>, int)> {
    match parse_bytes(b) {
        Some((raw, k)) => if valid_utf8(raw) {
            Some((decode_utf8(raw), k))
        } else {
            None
        },
        None => None,
    }
}

// ---------------------------------------------------------------------------
// Round trips of the primitives.

proof fn lemma_u16_bits(v: u16)
    ensures
        (((v & 0xff) as u8) as u16) | ((((v >> 8) as u8) as u16) << 8) == v,
{
    assert((((v & 0xff) as u8) as u16) | ((((v >> 8) as u8) as u16) << 8) == v) by (bit_vector);
}

proof fn lemma_u32_bits(v: u32)
    ensures
        (((v & 0xff) as u8) as u32) | (((((v >> 8) & 0xff) as u8) as u32) << 8) | (((((v >> 16)
            & 0xff) as u8) as u32) << 16) | ((((v >> 24) as u8) as u32) << 24) == v,
{
    assert((((v & 0xff) as u8) as u32) | (((((v >> 8) & 0xff) as u8) as u32) << 8) | (((((v
        >> 16) & 0xff) as u8) as u32) << 16) | ((((v >> 24) as u8) as u32) << 24) == v)
        by (bit_vector);
}

pub proof fn lemma_parse_u8(v: u8, rest: Seq<u8>)
    ensures
        parse_u8(seq![v] + rest) == Some((v, 1int)),
{
}

pub proof fn lemma_parse_u16(v: u16, rest: Seq<u8>)
    ensures
        parse_u16(enc_u16(v) + rest) == Some((v, 2int)),
{
    lemma_u16_bits(v);
}

pub proof fn lemma_parse_u32(v: u32, rest: Seq<u8>)
    ensures
        parse_u32(enc_u32(v) + rest) == Some((v, 4int)),
{
    lemma_u32_bits(v);
}

pub proof fn lemma_parse_bytes(b: Seq<u8>, rest: Seq<u8>)
    requires
        b.len() <= u32::MAX,
    ensures
        parse_bytes(enc_bytes(b) + rest) == Some((b, enc_bytes(b).len() as int)),
{
    lemma_parse_u32(b.len() as u32, b + rest);
    assert(enc_bytes(b) + rest =~= enc_u32(b.len() as u32) + (b + rest));
    assert((enc_bytes(b) + rest).subrange(4, 4 + b.len() as int) =~= b);
}

pub proof fn lemma_parse_str(s: Seq<char>, rest: Seq<u8>)
    requires
        encode_utf8(s).len() <= u32::MAX,
    ensures
        parse_str(enc_str(s) + rest) == Some((s, enc_str(s).len() as int)),
{
    lemma_parse_bytes(encode_utf8(s), rest);
    encode_utf8_valid_utf8(s);
    encode_utf8_decode_utf8(s);
}

// ---------------------------------------------------------------------------
// Executable reading and writing of the primitives.

/// `r` is what the parser `s` finds at `pos`: the same value, and the position
/// just after it.
pub open spec fn reads<T: View>(r: Option<(T, usize)>, pos: usize, s: Option<(T::V, int)>) -> bool {
    match r {
        Some((v, p)) => s == Some((v@, p - pos)),
        None => s is None,
    }
}

pub open spec fn within<T>(r: Option<(T, usize)>, pos: usize, len: int) -> bool {
    match r {
        Some((_, p)) => pos <= p <= len,
        None => true,
    }
}

fn read_u8(b: &[u8], pos: usize) -> (r: Option<(u8, usize)>)
    requires
        pos <= b@.len(),
    ensures
        reads(r, pos, parse_u8(b@.skip(pos as int))),
        within(r, pos, b@.len() as int),
{
    if b.len() - pos >= 1 {
        Some((b[pos], pos + 1))
    } else {
        None
    }
}

fn read_u16(b: &[u8], pos: usize) -> (r: Option<(u16, usize)>)
    requires
        pos <= b@.len(),
    ensures
        reads(r, pos, parse_u16(b@.skip(pos as int))),
        within(r, pos, b@.len() as int),
{
    if b.len() - pos >= 2 {
        let v = (b[pos] as u16) | ((b[pos + 1] as u16) << 8);
        Some((v, pos + 2))
    } else {
        None
    }
}

fn read_u32(b: &[u8], pos: usize) -> (r: Option<(u32, usize)>)
    requires
        pos <= b@.len(),
    ensures
        reads(r, pos, parse_u32(b@.skip(pos as int))),
        within(r, pos, b@.len() as int),
{
    if b.len() - pos >= 4 {
        let v = (b[pos] as u32) | ((b[pos + 1] as u32) << 8) | ((b[pos + 2] as u32) << 16) | ((
        b[pos + 3] as u32) << 24);
        Some((v, pos + 4))
    } else {
        None
    }
}

/// A copy of `b[from..to]`.
fn copy_range(b: &[u8], from: usize, to: usize) -> (r: Vec<u8>)
    requires
        from <= to <= b@.len(),
    ensures
        r@ == b@.subrange(from as int, to as int),
{
    let mut r: Vec<u8> = Vec::with_capacity(to - from);
    let mut i: usize = from;
    while i < to
        invariant
            from <= i <= to <= b@.len(),
            r@ == b@.subrange(from as int, i as int),
        decreases to - i,
    {
        r.push(b[i]);
        i = i + 1;
    }
    r
}

fn read_bytes(b: &[u8], pos: usize) -> (r: Option<(Vec<u8>, usize)>)
    requires
        pos <= b@.len(),
    ensures
        reads(r, pos, parse_bytes(b@.skip(pos as int))),
        within(r, pos, b@.len() as int),
{
    match read_u32(b, pos) {
        Some((n, p)) => {
            if (b.len() - p) as u64 >= n as u64 {
                let end = p + n as usize;
                let v = copy_range(b, p, end);
                assert(v@ =~= b@.skip(pos as int).subrange(4, 4 + n));
                Some((v, end))
            } else {
                None
            }
        },
        None => None,
    }
}

/// Relies on `String::from_utf8`: it succeeds exactly on valid UTF-8, and the
/// text it returns is the one those bytes encode.
#[verifier::external_body]
pub(crate) fn string_from_utf8(bytes: Vec<u8>) -> (r: Option<String>)
    ensures
        r is Some <==> valid_utf8(bytes@),
        r matches Some(s) ==> s@ == decode_utf8(bytes@),
{
    String::from_utf8(bytes).ok()
}

fn read_str(b: &[u8], pos: usize) -> (r: Option<(String, usize)>)
    requires
        pos <= b@.len(),
    ensures
        reads(r, pos, parse_str(b@.skip(pos as int))),
        within(r, pos, b@.len() as int),
{
    match read_bytes(b, pos) {
        Some((raw, p)) => match string_from_utf8(raw) {
            Some(s) => Some((s, p)),
            None => None,
        },
        None => None,
    }
}

fn write_u16(out: &mut Vec<u8>, v: u16)
    ensures
        final(out)@ == old(out)@ + enc_u16(v),
{
    out.push((v & 0xff) as u8);
    out.push((v >> 8) as u8);
    assert(final(out)@ =~= old(out)@ + enc_u16(v));
}

fn write_u32(out: &mut Vec<u8>, v: u32)
    ensures
        final(out)@ == old(out)@ + enc_u32(v),
{
    out.push((v & 0xff) as u8);
    out.push(((v >> 8) & 0xff) as u8);
    out.push(((v >> 16) & 0xff) as u8);
    out.push((v >> 24) as u8);
    assert(final(out)@ =~= old(out)@ + enc_u32(v));
}

fn write_raw(out: &mut Vec<u8>, b: &[u8])
    ensures
        final(out)@ == old(out)@ + b@,
{
    let mut i: usize = 0;
    while i < b.len()
        invariant
            i <= b@.len(),
            out@ == old(out)@ + b@.subrange(0, i as int),
        decreases b.len() - i,
    {
        out.push(b[i]);
        i = i + 1;
        assert(out@ =~= old(out)@ + b@.subrange(0, i as int));
    }
    assert(b@.subrange(0, b@.len() as int) =~= b@);
}

fn write_bytes(out: &mut Vec<u8>, b: &[u8])
    requires
        b@.len() <= u32::MAX,
    ensures
        final(out)@ == old(out)@ + enc_bytes(b@),
{
    write_u32(out, b.len() as u32);
    write_raw(out, b);
    assert(final(out)@ =~= old(out)@ + enc_bytes(b@));
}

fn write_str(out: &mut Vec<u8>, s: &String)
    requires
        encode_utf8(s@).len() <= u32::MAX,
    ensures
        final(out)@ == old(out)@ + enc_str(s@),
{
    write_bytes(out, s.as_str().as_bytes());
}


// ---------------------------------------------------------------------------
// Party members and players.

pub open spec fn enc_stats(s: StatSet) -> Seq<u8> {
    seq![s.hp, s.attack, s.defense, s.sp_attack, s.sp_defense, s.speed]
}

pub open spec fn parse_stats(b: Seq<u8>) -> Option<(StatSet, int)> {
    if b.len() >= 6 {
        Some(
            (
                StatSet {
                    hp: b[0],
                    attack: b[1],
                    defense: b[2],
                    sp_attack: b[3],
                    sp_defense: b[4],
                    speed: b[5],
                },
                6,
            ),
        )
    } else {
        None
    }
}

pub open spec fn enc_u16_list(m: Seq<u16>) -> Seq<u8>
    decreases m.len(),
{
    if m.len() == 0 {
        seq![]
    } else {
        enc_u16(m[0]) + enc_u16_list(m.skip(1))
    }
}

pub open spec fn parse_u16_list(b: Seq<u8>, n: nat) -> Option<(Seq<u16>, int)>
    decreases n,
{
    if n == 0 {
        Some((seq![], 0))
    } else {
        match parse_u16(b) {
            Some((v, k)) => match parse_u16_list(b.skip(k), (n - 1) as nat) {
                Some((r, k2)) => Some((seq![v] + r, k + k2)),
                None => None,
            },
            None => None,
        }
    }
}

/// The moves a creature knows: their count, then each move's id.
pub open spec fn enc_moves(m: Seq<u16>) -> Seq<u8> {
    seq![m.len() as u8] + enc_u16_list(m)
}

pub open spec fn parse_moves(b: Seq<u8>) -> Option<(Seq<u16>, int)> {
    match parse_u8(b) {
        Some((n, k)) => if n <= MOVE_CAPACITY {
            match parse_u16_list(b.skip(k), n as nat) {
                Some((m, k2)) => Some((m, k + k2)),
                None => None,
            }
        } else {
            None
        },
        None => None,
    }
}

pub open spec fn enc_member(m: MemberView) -> Seq<u8> {
    enc_u16(m.species) + seq![m.level] + enc_stats(m.ivs) + enc_moves(m.moves)
}

pub open spec fn parse_member(b: Seq<u8>) -> Option<(MemberView, int)> {
    match parse_u16(b) {
        Some((species, k1)) => match parse_u8(b.skip(k1)) {
            Some((level, k2)) => match parse_stats(b.skip(k1 + k2)) {
                Some((ivs, k3)) => match parse_moves(b.skip(k1 + k2 + k3)) {
                    Some((moves, k4)) => Some(
                        (MemberView { species, level, ivs, moves }, k1 + k2 + k3 + k4),
                    ),
                    None => None,
                },
                None => None,
            },
            None => None,
        },
        None => None,
    }
}

pub open spec fn enc_members(p: Seq<MemberView>) -> Seq<u8>
    decreases p.len(),
{
    if p.len() == 0 {
        seq![]
    } else {
        enc_member(p[0]) + enc_members(p.skip(1))
    }
}

pub open spec fn parse_members(b: Seq<u8>, n: nat) -> Option<(Seq<MemberView>, int)>
    decreases n,
{
    if n == 0 {
        Some((seq![], 0))
    } else {
        match parse_member(b) {
            Some((m, k)) => match parse_members(b.skip(k), (n - 1) as nat) {
                Some((r, k2)) => Some((seq![m] + r, k + k2)),
                None => None,
            },
            None => None,
        }
    }
}

/// A party: its size, then each member.
pub open spec fn enc_party(p: Seq<MemberView>) -> Seq<u8> {
    seq![p.len() as u8] + enc_members(p)
}

pub open spec fn parse_party(b: Seq<u8>) -> Option<(Seq<MemberView>, int)> {
    match parse_u8(b) {
        Some((n, k)) => if n <= PARTY_CAPACITY {
            match parse_members(b.skip(k), n as nat) {
                Some((p, k2)) => Some((p, k + k2)),
                None => None,
            }
        } else {
            None
        },
        None => None,
    }
}

pub open spec fn enc_player(p: PlayerView) -> Seq<u8> {
    enc_str(p.name) + enc_party(p.party)
}

pub open spec fn parse_player(b: Seq<u8>) -> Option<(PlayerView, int)> {
    match parse_str(b) {
        Some((name, k1)) => match parse_party(b.skip(k1)) {
            Some((party, k2)) => Some((PlayerView { name, party }, k1 + k2)),
            None => None,
        },
        None => None,
    }
}

/// A player can be encoded: its name's encoding fits a four-byte length and
/// its party is well formed.
pub open spec fn player_wf(p: PlayerView) -> bool {
    &&& encode_utf8(p.name).len() <= u32::MAX
    &&& party_wf(p.party)
}

proof fn lemma_parse_stats(s: StatSet, rest: Seq<u8>)
    ensures
        parse_stats(enc_stats(s) + rest) == Some((s, 6int)),
{
}

proof fn lemma_parse_u16_list(m: Seq<u16>, rest: Seq<u8>)
    ensures
        parse_u16_list(enc_u16_list(m) + rest, m.len()) == Some((m, enc_u16_list(m).len() as int)),
    decreases m.len(),
{
    if m.len() > 0 {
        let tail = enc_u16_list(m.skip(1)) + rest;
        let e = enc_u16_list(m) + rest;
        assert(e =~= enc_u16(m[0]) + tail);
        lemma_parse_u16(m[0], tail);
        assert(e.skip(2) =~= tail);
        lemma_parse_u16_list(m.skip(1), rest);
        assert(seq![m[0]] + m.skip(1) =~= m);
    }
}

proof fn lemma_parse_moves(m: Seq<u16>, rest: Seq<u8>)
    requires
        m.len() <= MOVE_CAPACITY,
    ensures
        parse_moves(enc_moves(m) + rest) == Some((m, enc_moves(m).len() as int)),
{
    let e = enc_moves(m) + rest;
    assert(e.skip(1) =~= enc_u16_list(m) + rest);
    lemma_parse_u16_list(m, rest);
}

proof fn lemma_parse_member(m: MemberView, rest: Seq<u8>)
    requires
        m.wf(),
    ensures
        parse_member(enc_member(m) + rest) == Some((m, enc_member(m).len() as int)),
{
    let e = enc_member(m) + rest;
    let t3 = enc_moves(m.moves) + rest;
    let t2 = enc_stats(m.ivs) + t3;
    let t1 = seq![m.level] + t2;
    assert(e =~= enc_u16(m.species) + t1);
    lemma_parse_u16(m.species, t1);
    assert(e.skip(2) =~= t1);
    lemma_parse_u8(m.level, t2);
    assert(e.skip(3) =~= t2);
    lemma_parse_stats(m.ivs, t3);
    assert(e.skip(9) =~= t3);
    lemma_parse_moves(m.moves, rest);
}

proof fn lemma_parse_members(p: Seq<MemberView>, rest: Seq<u8>)
    requires
        forall|i: int| 0 <= i < p.len() ==> (#[trigger] p[i]).wf(),
    ensures
        parse_members(enc_members(p) + rest, p.len()) == Some((p, enc_members(p).len() as int)),
    decreases p.len(),
{
    if p.len() > 0 {
        let tail = enc_members(p.skip(1)) + rest;
        let e = enc_members(p) + rest;
        assert(e =~= enc_member(p[0]) + tail);
        lemma_parse_member(p[0], tail);
        assert(e.skip(enc_member(p[0]).len() as int) =~= tail);
        assert forall|i: int| 0 <= i < p.skip(1).len() implies (#[trigger] p.skip(1)[i]).wf() by {
            assert(p.skip(1)[i] == p[i + 1]);
        }
        lemma_parse_members(p.skip(1), rest);
        assert(seq![p[0]] + p.skip(1) =~= p);
    }
}

proof fn lemma_parse_party(p: Seq<MemberView>, rest: Seq<u8>)
    requires
        party_wf(p),
    ensures
        parse_party(enc_party(p) + rest) == Some((p, enc_party(p).len() as int)),
{
    let e = enc_party(p) + rest;
    assert(e.skip(1) =~= enc_members(p) + rest);
    lemma_parse_members(p, rest);
}

proof fn lemma_parse_player(p: PlayerView, rest: Seq<u8>)
    requires
        player_wf(p),
    ensures
        parse_player(enc_player(p) + rest) == Some((p, enc_player(p).len() as int)),
{
    let e = enc_player(p) + rest;
    let t = enc_party(p.party) + rest;
    assert(e =~= enc_str(p.name) + t);
    lemma_parse_str(p.name, t);
    assert(e.skip(enc_str(p.name).len() as int) =~= t);
    lemma_parse_party(p.party, rest);
}


// ---------------------------------------------------------------------------
// Messages.

pub open spec fn enc_connect(c: ConnectView) -> Seq<u8> {
    match c {
        ConnectView::CanJoin(None) => seq![0u8, 0u8],
        ConnectView::CanJoin(Some(p)) => seq![0u8, 1u8] + enc_party(p),
        ConnectView::NoRequest => seq![1u8],
        ConnectView::AlreadyConnected => seq![2u8],
        ConnectView::ConnectionReplaced => seq![3u8],
        ConnectView::WrongVersion => seq![4u8],
        ConnectView::InProgress => seq![5u8],
    }
}

pub open spec fn parse_connect(b: Seq<u8>) -> Option<(ConnectView, int)> {
    match parse_u8(b) {
        Some((tag, _)) => if tag == 0 {
            match parse_u8(b.skip(1)) {
                Some((has_party, _)) => if has_party == 0 {
                    Some((ConnectView::CanJoin(None), 2))
                } else if has_party == 1 {
                    match parse_party(b.skip(2)) {
                        Some((p, k)) => Some((ConnectView::CanJoin(Some(p)), 2 + k)),
                        None => None,
                    }
                } else {
                    None
                },
                None => None,
            }
        } else if tag == 1 {
            Some((ConnectView::NoRequest, 1))
        } else if tag == 2 {
            Some((ConnectView::AlreadyConnected, 1))
        } else if tag == 3 {
            Some((ConnectView::ConnectionReplaced, 1))
        } else if tag == 4 {
            Some((ConnectView::WrongVersion, 1))
        } else if tag == 5 {
            Some((ConnectView::InProgress, 1))
        } else {
            None
        },
        None => None,
    }
}

pub open spec fn connect_wf(c: ConnectView) -> bool {
    match c {
        ConnectView::CanJoin(Some(p)) => party_wf(p),
        _ => true,
    }
}

pub open spec fn enc_client(m: ClientView) -> Seq<u8> {
    match m {
        ClientView::RequestJoin(v) => seq![0u8] + enc_str(v),
        ClientView::Join(p) => seq![1u8] + enc_player(p),
        ClientView::Game(b) => seq![2u8] + enc_bytes(b),
        ClientView::Leave => seq![3u8],
    }
}

pub open spec fn parse_client_prefix(b: Seq<u8>) -> Option<(ClientView, int)> {
    match parse_u8(b) {
        Some((tag, _)) => if tag == 0 {
            match parse_str(b.skip(1)) {
                Some((v, k)) => Some((ClientView::RequestJoin(v), 1 + k)),
                None => None,
            }
        } else if tag == 1 {
            match parse_player(b.skip(1)) {
                Some((p, k)) => Some((ClientView::Join(p), 1 + k)),
                None => None,
            }
        } else if tag == 2 {
            match parse_bytes(b.skip(1)) {
                Some((g, k)) => Some((ClientView::Game(g), 1 + k)),
                None => None,
            }
        } else if tag == 3 {
            Some((ClientView::Leave, 1))
        } else {
            None
        },
        None => None,
    }
}

/// The message that `b` encodes, if `b` is exactly one client message.
pub open spec fn parse_client(b: Seq<u8>) -> Option<ClientView> {
    match parse_client_prefix(b) {
        Some((m, k)) => if k == b.len() {
            Some(m)
        } else {
            None
        },
        None => None,
    }
}

/// A client message can be encoded: every length fits its field.
pub open spec fn client_wf(m: ClientView) -> bool {
    match m {
        ClientView::RequestJoin(v) => encode_utf8(v).len() <= u32::MAX,
        ClientView::Join(p) => player_wf(p),
        ClientView::Game(b) => b.len() <= u32::MAX,
        ClientView::Leave => true,
    }
}

pub open spec fn enc_server(m: ServerView) -> Seq<u8> {
    match m {
        ServerView::Validate(c) => seq![0u8] + enc_connect(c),
        ServerView::Game(b) => seq![1u8] + enc_bytes(b),
        ServerView::Begin => seq![2u8],
        ServerView::End => seq![3u8],
    }
}

pub open spec fn parse_server_prefix(b: Seq<u8>) -> Option<(ServerView, int)> {
    match parse_u8(b) {
        Some((tag, _)) => if tag == 0 {
            match parse_connect(b.skip(1)) {
                Some((c, k)) => Some((ServerView::Validate(c), 1 + k)),
                None => None,
            }
        } else if tag == 1 {
            match parse_bytes(b.skip(1)) {
                Some((g, k)) => Some((ServerView::Game(g), 1 + k)),
                None => None,
            }
        } else if tag == 2 {
            Some((ServerView::Begin, 1))
        } else if tag == 3 {
            Some((ServerView::End, 1))
        } else {
            None
        },
        None => None,
    }
}

/// The message that `b` encodes, if `b` is exactly one server message.
pub open spec fn parse_server(b: Seq<u8>) -> Option<ServerView> {
    match parse_server_prefix(b) {
        Some((m, k)) => if k == b.len() {
            Some(m)
        } else {
            None
        },
        None => None,
    }
}

/// A server message can be encoded: every length fits its field.
pub open spec fn server_wf(m: ServerView) -> bool {
    match m {
        ServerView::Validate(c) => connect_wf(c),
        ServerView::Game(b) => b.len() <= u32::MAX,
        _ => true,
    }
}

proof fn lemma_parse_connect(c: ConnectView, rest: Seq<u8>)
    requires
        connect_wf(c),
    ensures
        parse_connect(enc_connect(c) + rest) == Some((c, enc_connect(c).len() as int)),
{
    let e = enc_connect(c) + rest;
    if let ConnectView::CanJoin(Some(p)) = c {
        assert(e.skip(2) =~= enc_party(p) + rest);
        lemma_parse_party(p, rest);
    }
}

/// Decoding the encoding of a client message gives back that message.
pub proof fn lemma_client_round_trip(m: ClientView)
    requires
        client_wf(m),
    ensures
        parse_client(enc_client(m)) == Some(m),
{
    let e = enc_client(m);
    let empty = Seq::<u8>::empty();
    match m {
        ClientView::RequestJoin(v) => {
            assert(e.skip(1) =~= enc_str(v) + empty);
            lemma_parse_str(v, empty);
        },
        ClientView::Join(p) => {
            assert(e.skip(1) =~= enc_player(p) + empty);
            lemma_parse_player(p, empty);
        },
        ClientView::Game(b) => {
            assert(e.skip(1) =~= enc_bytes(b) + empty);
            lemma_parse_bytes(b, empty);
        },
        ClientView::Leave => {},
    }
}

/// Decoding the encoding of a server message gives back that message.
pub proof fn lemma_server_round_trip(m: ServerView)
    requires
        server_wf(m),
    ensures
        parse_server(enc_server(m)) == Some(m),
{
    let e = enc_server(m);
    let empty = Seq::<u8>::empty();
    match m {
        ServerView::Validate(c) => {
            assert(e.skip(1) =~= enc_connect(c) + empty);
            lemma_parse_connect(c, empty);
        },
        ServerView::Game(b) => {
            assert(e.skip(1) =~= enc_bytes(b) + empty);
            lemma_parse_bytes(b, empty);
        },
        _ => {},
    }
}


// ---------------------------------------------------------------------------
// Only encodings parse: whatever a parser accepts is the encoding of what it
// returns.

proof fn lemma_u16_bytes_back(b0: u8, b1: u8)
    ensures
        enc_u16(dec_u16(b0, b1)) == seq![b0, b1],
{
    let v = dec_u16(b0, b1);
    assert(((((b0 as u16) | ((b1 as u16) << 8)) & 0xff) as u8) == b0) by (bit_vector);
    assert(((((b0 as u16) | ((b1 as u16) << 8)) >> 8) as u8) == b1) by (bit_vector);
    assert(enc_u16(v) =~= seq![b0, b1]);
}

proof fn lemma_u32_bytes_back(b0: u8, b1: u8, b2: u8, b3: u8)
    ensures
        enc_u32(dec_u32(b0, b1, b2, b3)) == seq![b0, b1, b2, b3],
{
    let v = dec_u32(b0, b1, b2, b3);
    assert(((((b0 as u32) | ((b1 as u32) << 8) | ((b2 as u32) << 16) | ((b3 as u32) << 24))
        & 0xff) as u8) == b0) by (bit_vector);
    assert((((((b0 as u32) | ((b1 as u32) << 8) | ((b2 as u32) << 16) | ((b3 as u32) << 24))
        >> 8) & 0xff) as u8) == b1) by (bit_vector);
    assert((((((b0 as u32) | ((b1 as u32) << 8) | ((b2 as u32) << 16) | ((b3 as u32) << 24))
        >> 16) & 0xff) as u8) == b2) by (bit_vector);
    assert(((((b0 as u32) | ((b1 as u32) << 8) | ((b2 as u32) << 16) | ((b3 as u32) << 24))
        >> 24) as u8) == b3) by (bit_vector);
    assert(enc_u32(v) =~= seq![b0, b1, b2, b3]);
}

proof fn lemma_bytes_canonical(b: Seq<u8>)
    requires
        parse_bytes(b) is Some,
    ensures
        ({
            let (v, k) = parse_bytes(b).unwrap();
            &&& 0 <= k <= b.len()
            &&& v.len() <= u32::MAX
            &&& b.take(k) == enc_bytes(v)
        }),
{
    let (v, k) = parse_bytes(b).unwrap();
    lemma_u32_bytes_back(b[0], b[1], b[2], b[3]);
    assert(b.take(k) =~= enc_bytes(v));
}

proof fn lemma_str_canonical(b: Seq<u8>)
    requires
        parse_str(b) is Some,
    ensures
        ({
            let (v, k) = parse_str(b).unwrap();
            &&& 0 <= k <= b.len()
            &&& encode_utf8(v).len() <= u32::MAX
            &&& b.take(k) == enc_str(v)
        }),
{
    lemma_bytes_canonical(b);
    let (raw, k) = parse_bytes(b).unwrap();
    decode_utf8_encode_utf8(raw);
}

proof fn lemma_u16_list_canonical(b: Seq<u8>, n: nat)
    requires
        parse_u16_list(b, n) is Some,
    ensures
        ({
            let (m, k) = parse_u16_list(b, n).unwrap();
            &&& 0 <= k <= b.len()
            &&& m.len() == n
            &&& b.take(k) == enc_u16_list(m)
        }),
    decreases n,
{
    if n > 0 {
        let (m, k) = parse_u16_list(b, n).unwrap();
        let (v, k1) = parse_u16(b).unwrap();
        lemma_u16_bytes_back(b[0], b[1]);
        lemma_u16_list_canonical(b.skip(2), (n - 1) as nat);
        let (r, k2) = parse_u16_list(b.skip(2), (n - 1) as nat).unwrap();
        assert(m.skip(1) =~= r);
        assert(b.take(k) =~= b.take(2) + b.skip(2).take(k2));
        assert(b.take(2) =~= enc_u16(v));
    } else {
        assert(b.take(0) =~= Seq::<u8>::empty());
    }
}

proof fn lemma_moves_canonical(b: Seq<u8>)
    requires
        parse_moves(b) is Some,
    ensures
        ({
            let (m, k) = parse_moves(b).unwrap();
            &&& 0 <= k <= b.len()
            &&& m.len() <= MOVE_CAPACITY
            &&& b.take(k) == enc_moves(m)
        }),
{
    let (m, k) = parse_moves(b).unwrap();
    lemma_u16_list_canonical(b.skip(1), b[0] as nat);
    let (_, k2) = parse_u16_list(b.skip(1), b[0] as nat).unwrap();
    assert(b.take(k) =~= seq![b[0]] + b.skip(1).take(k2));
}

proof fn lemma_member_canonical(b: Seq<u8>)
    requires
        parse_member(b) is Some,
    ensures
        ({
            let (m, k) = parse_member(b).unwrap();
            &&& 0 <= k <= b.len()
            &&& m.wf()
            &&& b.take(k) == enc_member(m)
        }),
{
    let (m, k) = parse_member(b).unwrap();
    lemma_u16_bytes_back(b[0], b[1]);
    assert(b.skip(2).skip(1) =~= b.skip(3));
    assert(b.skip(3).skip(6) =~= b.skip(9));
    lemma_moves_canonical(b.skip(9));
    let (_, k4) = parse_moves(b.skip(9)).unwrap();
    assert(b.take(k) =~= b.take(2) + seq![b[2]] + b.skip(3).take(6) + b.skip(9).take(k4));
    assert(b.take(2) =~= enc_u16(m.species));
    assert(b.skip(3).take(6) =~= enc_stats(m.ivs));
}

proof fn lemma_members_canonical(b: Seq<u8>, n: nat)
    requires
        parse_members(b, n) is Some,
    ensures
        ({
            let (p, k) = parse_members(b, n).unwrap();
            &&& 0 <= k <= b.len()
            &&& p.len() == n
            &&& forall|i: int| 0 <= i < p.len() ==> (#[trigger] p[i]).wf()
            &&& b.take(k) == enc_members(p)
        }),
    decreases n,
{
    if n > 0 {
        let (p, k) = parse_members(b, n).unwrap();
        let (m, k1) = parse_member(b).unwrap();
        lemma_member_canonical(b);
        lemma_members_canonical(b.skip(k1), (n - 1) as nat);
        let (r, k2) = parse_members(b.skip(k1), (n - 1) as nat).unwrap();
        assert(p.skip(1) =~= r);
        assert(p[0] == m);
        assert forall|i: int| 0 <= i < p.len() implies (#[trigger] p[i]).wf() by {
            if i > 0 {
                assert(p[i] == r[i - 1]);
            }
        }
        assert(b.take(k) =~= b.take(k1) + b.skip(k1).take(k2));
    } else {
        assert(b.take(0) =~= Seq::<u8>::empty());
    }
}

proof fn lemma_party_canonical(b: Seq<u8>)
    requires
        parse_party(b) is Some,
    ensures
        ({
            let (p, k) = parse_party(b).unwrap();
            &&& 0 <= k <= b.len()
            &&& party_wf(p)
            &&& b.take(k) == enc_party(p)
        }),
{
    let (p, k) = parse_party(b).unwrap();
    lemma_members_canonical(b.skip(1), b[0] as nat);
    let (_, k2) = parse_members(b.skip(1), b[0] as nat).unwrap();
    assert(b.take(k) =~= seq![b[0]] + b.skip(1).take(k2));
}

proof fn lemma_player_canonical(b: Seq<u8>)
    requires
        parse_player(b) is Some,
    ensures
        ({
            let (p, k) = parse_player(b).unwrap();
            &&& 0 <= k <= b.len()
            &&& player_wf(p)
            &&& b.take(k) == enc_player(p)
        }),
{
    let (p, k) = parse_player(b).unwrap();
    lemma_str_canonical(b);
    let (_, k1) = parse_str(b).unwrap();
    lemma_party_canonical(b.skip(k1));
    let (_, k2) = parse_party(b.skip(k1)).unwrap();
    assert(b.take(k) =~= b.take(k1) + b.skip(k1).take(k2));
}

proof fn lemma_connect_canonical(b: Seq<u8>)
    requires
        parse_connect(b) is Some,
    ensures
        ({
            let (c, k) = parse_connect(b).unwrap();
            &&& 0 <= k <= b.len()
            &&& connect_wf(c)
            &&& b.take(k) == enc_connect(c)
        }),
{
    let (c, k) = parse_connect(b).unwrap();
    if b[0] == 0 {
        if b[1] == 1 {
            lemma_party_canonical(b.skip(2));
            let (_, k2) = parse_party(b.skip(2)).unwrap();
            assert(b.take(k) =~= seq![b[0], b[1]] + b.skip(2).take(k2));
        } else {
            assert(b.take(k) =~= seq![b[0], b[1]]);
        }
    } else {
        assert(b.take(k) =~= seq![b[0]]);
    }
}

/// Only encodings decode: a byte string that decodes to a client message is
/// that message's encoding.
pub proof fn lemma_client_canonical(b: Seq<u8>)
    requires
        parse_client(b) is Some,
    ensures
        client_wf(parse_client(b).unwrap()),
        b == enc_client(parse_client(b).unwrap()),
{
    let (m, k) = parse_client_prefix(b).unwrap();
    let t = b.skip(1);
    if b[0] == 0 {
        lemma_str_canonical(t);
        let (_, k1) = parse_str(t).unwrap();
        assert(b.take(k) =~= seq![b[0]] + t.take(k1));
    } else if b[0] == 1 {
        lemma_player_canonical(t);
        let (_, k1) = parse_player(t).unwrap();
        assert(b.take(k) =~= seq![b[0]] + t.take(k1));
    } else if b[0] == 2 {
        lemma_bytes_canonical(t);
        let (_, k1) = parse_bytes(t).unwrap();
        assert(b.take(k) =~= seq![b[0]] + t.take(k1));
    } else {
        assert(b.take(k) =~= seq![b[0]]);
    }
    assert(b.take(k) =~= b);
}

/// Only encodings decode: a byte string that decodes to a server message is
/// that message's encoding.
pub proof fn lemma_server_canonical(b: Seq<u8>)
    requires
        parse_server(b) is Some,
    ensures
        server_wf(parse_server(b).unwrap()),
        b == enc_server(parse_server(b).unwrap()),
{
    let (m, k) = parse_server_prefix(b).unwrap();
    let t = b.skip(1);
    if b[0] == 0 {
        lemma_connect_canonical(t);
        let (_, k1) = parse_connect(t).unwrap();
        assert(b.take(k) =~= seq![b[0]] + t.take(k1));
    } else if b[0] == 1 {
        lemma_bytes_canonical(t);
        let (_, k1) = parse_bytes(t).unwrap();
        assert(b.take(k) =~= seq![b[0]] + t.take(k1));
    } else {
        assert(b.take(k) =~= seq![b[0]]);
    }
    assert(b.take(k) =~= b);
}

// ---------------------------------------------------------------------------
// Executable encoders.

fn write_stats(out: &mut Vec<u8>, s: StatSet)
    ensures
        final(out)@ == old(out)@ + enc_stats(s),
{
    out.push(s.hp);
    out.push(s.attack);
    out.push(s.defense);
    out.push(s.sp_attack);
    out.push(s.sp_defense);
    out.push(s.speed);
    assert(final(out)@ =~= old(out)@ + enc_stats(s));
}

/// Writes the moves from index `i` on.
fn write_u16_list(out: &mut Vec<u8>, m: &Vec<u16>, i: usize)
    requires
        i <= m@.len(),
    ensures
        final(out)@ == old(out)@ + enc_u16_list(m@.skip(i as int)),
    decreases m@.len() - i,
{
    if i == m.len() {
        assert(m@.skip(i as int) =~= Seq::<u16>::empty());
        assert(final(out)@ =~= old(out)@ + enc_u16_list(m@.skip(i as int)));
    } else {
        write_u16(out, m[i]);
        write_u16_list(out, m, i + 1);
        assert(m@.skip(i as int).skip(1) =~= m@.skip(i + 1));
        assert(final(out)@ =~= old(out)@ + enc_u16_list(m@.skip(i as int)));
    }
}

fn write_member(out: &mut Vec<u8>, m: &PartyMember)
    requires
        m@.wf(),
    ensures
        final(out)@ == old(out)@ + enc_member(m@),
{
    write_u16(out, m.species);
    out.push(m.level);
    write_stats(out, m.ivs);
    out.push(m.moves.len() as u8);
    write_u16_list(out, &m.moves, 0);
    assert(m.moves@.skip(0) =~= m.moves@);
    assert(final(out)@ =~= old(out)@ + enc_member(m@));
}

/// Writes the members from index `i` on.
fn write_members(out: &mut Vec<u8>, p: &Vec<PartyMember>, i: usize)
    requires
        i <= p@.len(),
        forall|j: int| 0 <= j < p@.len() ==> (#[trigger] p@[j])@.wf(),
    ensures
        final(out)@ == old(out)@ + enc_members(party_view(p@).skip(i as int)),
    decreases p@.len() - i,
{
    let ghost pv = party_view(p@);
    if i == p.len() {
        assert(pv.skip(i as int) =~= Seq::<MemberView>::empty());
        assert(final(out)@ =~= old(out)@ + enc_members(pv.skip(i as int)));
    } else {
        write_member(out, &p[i]);
        write_members(out, p, i + 1);
        assert(pv.skip(i as int).skip(1) =~= pv.skip(i + 1));
        assert(pv.skip(i as int)[0] == p@[i as int]@);
        assert(final(out)@ =~= old(out)@ + enc_members(pv.skip(i as int)));
    }
}

fn write_party(out: &mut Vec<u8>, p: &Vec<PartyMember>)
    requires
        party_wf(party_view(p@)),
    ensures
        final(out)@ == old(out)@ + enc_party(party_view(p@)),
{
    let ghost pv = party_view(p@);
    assert forall|j: int| 0 <= j < p@.len() implies (#[trigger] p@[j])@.wf() by {
        assert(pv[j] == p@[j]@);
    }
    out.push(p.len() as u8);
    write_members(out, p, 0);
    assert(pv.skip(0) =~= pv);
    assert(final(out)@ =~= old(out)@ + enc_party(pv));
}

fn write_player(out: &mut Vec<u8>, p: &Player)
    requires
        player_wf(p@),
    ensures
        final(out)@ == old(out)@ + enc_player(p@),
{
    write_str(out, &p.name);
    write_party(out, &p.party);
    assert(final(out)@ =~= old(out)@ + enc_player(p@));
}

fn write_connect(out: &mut Vec<u8>, c: &ConnectMessage)
    requires
        connect_wf(c@),
    ensures
        final(out)@ == old(out)@ + enc_connect(c@),
{
    match c {
        ConnectMessage::CanJoin(None) => {
            out.push(0);
            out.push(0);
        },
        ConnectMessage::CanJoin(Some(p)) => {
            out.push(0);
            out.push(1);
            write_party(out, p);
        },
        ConnectMessage::NoRequest => out.push(1),
        ConnectMessage::AlreadyConnected => out.push(2),
        ConnectMessage::ConnectionReplaced => out.push(3),
        ConnectMessage::WrongVersion => out.push(4),
        ConnectMessage::InProgress => out.push(5),
    }
    assert(final(out)@ =~= old(out)@ + enc_connect(c@));
}

/// The wire encoding of a client message.
pub fn encode_client(m: &NetClientMessage) -> (r: Vec<u8>)
    requires
        client_wf(m@),
    ensures
        r@ == enc_client(m@),
{
    let mut out: Vec<u8> = Vec::new();
    match m {
        NetClientMessage::RequestJoin(v) => {
            out.push(0);
            write_str(&mut out, v);
        },
        NetClientMessage::Join(p) => {
            out.push(1);
            write_player(&mut out, p);
        },
        NetClientMessage::Game(b) => {
            out.push(2);
            write_bytes(&mut out, b.as_slice());
        },
        NetClientMessage::Leave => out.push(3),
    }
    assert(out@ =~= enc_client(m@));
    out
}

/// The wire encoding of a server message.
pub fn encode_server(m: &NetServerMessage) -> (r: Vec<u8>)
    requires
        server_wf(m@),
    ensures
        r@ == enc_server(m@),
{
    let mut out: Vec<u8> = Vec::new();
    match m {
        NetServerMessage::Validate(c) => {
            out.push(0);
            write_connect(&mut out, c);
        },
        NetServerMessage::Game(b) => {
            out.push(1);
            write_bytes(&mut out, b.as_slice());
        },
        NetServerMessage::Begin => out.push(2),
        NetServerMessage::End => out.push(3),
    }
    assert(out@ =~= enc_server(m@));
    out
}


// ---------------------------------------------------------------------------
// Executable decoders.

/// A payload that is not exactly one encoded message.
#[derive(Clone, Copy, Debug, PartialEq, Eq, Structural)]
pub struct DecodeError;

/// `r` is what the party parser `s` finds at `pos`.
pub open spec fn reads_party(r: Option<(Vec<PartyMember>, usize)>, pos: usize, s: Option<(Seq<MemberView>, int)>) -> bool {
    match r {
        Some((v, p)) => s == Some((party_view(v@), p - pos)),
        None => s is None,
    }
}

fn read_stats(b: &[u8], pos: usize) -> (r: Option<(StatSet, usize)>)
    requires
        pos <= b@.len(),
    ensures
        r matches Some((v, p)) ==> parse_stats(b@.skip(pos as int)) == Some((v, p - pos)),
        r is None ==> parse_stats(b@.skip(pos as int)) is None,
        within(r, pos, b@.len() as int),
{
    if b.len() - pos >= 6 {
        let v = StatSet {
            hp: b[pos],
            attack: b[pos + 1],
            defense: b[pos + 2],
            sp_attack: b[pos + 3],
            sp_defense: b[pos + 4],
            speed: b[pos + 5],
        };
        Some((v, pos + 6))
    } else {
        None
    }
}

fn read_u16_list(b: &[u8], pos: usize, n: u8) -> (r: Option<(Vec<u16>, usize)>)
    requires
        pos <= b@.len(),
    ensures
        reads(r, pos, parse_u16_list(b@.skip(pos as int), n as nat)),
        within(r, pos, b@.len() as int),
    decreases n,
{
    if n == 0 {
        Some((Vec::new(), pos))
    } else {
        match read_u16(b, pos) {
            Some((v, p1)) => {
                assert(b@.skip(pos as int).skip(p1 - pos) =~= b@.skip(p1 as int));
                match read_u16_list(b, p1, n - 1) {
                    Some((mut rest, p2)) => {
                        let ghost old_rest = rest@;
                        rest.insert(0, v);
                        assert(rest@ =~= seq![v] + old_rest);
                        Some((rest, p2))
                    },
                    None => None,
                }
            },
            None => None,
        }
    }
}

fn read_moves(b: &[u8], pos: usize) -> (r: Option<(Vec<u16>, usize)>)
    requires
        pos <= b@.len(),
    ensures
        reads(r, pos, parse_moves(b@.skip(pos as int))),
        within(r, pos, b@.len() as int),
{
    match read_u8(b, pos) {
        Some((n, p1)) => {
            if n as usize <= MOVE_CAPACITY {
                assert(b@.skip(pos as int).skip(1) =~= b@.skip(p1 as int));
                read_u16_list(b, p1, n)
            } else {
                None
            }
        },
        None => None,
    }
}

fn read_member(b: &[u8], pos: usize) -> (r: Option<(PartyMember, usize)>)
    requires
        pos <= b@.len(),
    ensures
        reads(r, pos, parse_member(b@.skip(pos as int))),
        within(r, pos, b@.len() as int),
{
    let ghost s = b@.skip(pos as int);
    match read_u16(b, pos) {
        Some((species, p1)) => {
            assert(s.skip(2) =~= b@.skip(p1 as int));
            match read_u8(b, p1) {
                Some((level, p2)) => {
                    assert(s.skip(3) =~= b@.skip(p2 as int));
                    match read_stats(b, p2) {
                        Some((ivs, p3)) => {
                            assert(s.skip(9) =~= b@.skip(p3 as int));
                            match read_moves(b, p3) {
                                Some((moves, p4)) => Some(
                                    (PartyMember { species, level, ivs, moves }, p4),
                                ),
                                None => None,
                            }
                        },
                        None => None,
                    }
                },
                None => None,
            }
        },
        None => None,
    }
}

fn read_members(b: &[u8], pos: usize, n: u8) -> (r: Option<(Vec<PartyMember>, usize)>)
    requires
        pos <= b@.len(),
    ensures
        reads_party(r, pos, parse_members(b@.skip(pos as int), n as nat)),
        within(r, pos, b@.len() as int),
    decreases n,
{
    if n == 0 {
        let v: Vec<PartyMember> = Vec::new();
        assert(party_view(v@) =~= Seq::<MemberView>::empty());
        Some((v, pos))
    } else {
        match read_member(b, pos) {
            Some((m, p1)) => {
                assert(b@.skip(pos as int).skip(p1 - pos) =~= b@.skip(p1 as int));
                match read_members(b, p1, n - 1) {
                    Some((mut rest, p2)) => {
                        let ghost old_rest = rest@;
                        let ghost mv = m@;
                        rest.insert(0, m);
                        assert(party_view(rest@) =~= seq![mv] + party_view(old_rest));
                        Some((rest, p2))
                    },
                    None => None,
                }
            },
            None => None,
        }
    }
}

fn read_party(b: &[u8], pos: usize) -> (r: Option<(Vec<PartyMember>, usize)>)
    requires
        pos <= b@.len(),
    ensures
        reads_party(r, pos, parse_party(b@.skip(pos as int))),
        within(r, pos, b@.len() as int),
{
    match read_u8(b, pos) {
        Some((n, p1)) => {
            if n as usize <= PARTY_CAPACITY {
                assert(b@.skip(pos as int).skip(1) =~= b@.skip(p1 as int));
                read_members(b, p1, n)
            } else {
                None
            }
        },
        None => None,
    }
}

fn read_player(b: &[u8], pos: usize) -> (r: Option<(Player, usize)>)
    requires
        pos <= b@.len(),
    ensures
        reads(r, pos, parse_player(b@.skip(pos as int))),
        within(r, pos, b@.len() as int),
{
    match read_str(b, pos) {
        Some((name, p1)) => {
            assert(b@.skip(pos as int).skip(p1 - pos) =~= b@.skip(p1 as int));
            match read_party(b, p1) {
                Some((party, p2)) => Some((Player { name, party }, p2)),
                None => None,
            }
        },
        None => None,
    }
}

fn read_connect(b: &[u8], pos: usize) -> (r: Option<(ConnectMessage, usize)>)
    requires
        pos <= b@.len(),
    ensures
        reads(r, pos, parse_connect(b@.skip(pos as int))),
        within(r, pos, b@.len() as int),
{
    match read_u8(b, pos) {
        Some((tag, p1)) => {
            if tag == 0 {
                assert(b@.skip(pos as int).skip(1) =~= b@.skip(p1 as int));
                match read_u8(b, p1) {
                    Some((has_party, p2)) => {
                        if has_party == 0 {
                            Some((ConnectMessage::CanJoin(None), p2))
                        } else if has_party == 1 {
                            assert(b@.skip(pos as int).skip(2) =~= b@.skip(p2 as int));
                            match read_party(b, p2) {
                                Some((p, p3)) => Some((ConnectMessage::CanJoin(Some(p)), p3)),
                                None => None,
                            }
                        } else {
                            None
                        }
                    },
                    None => None,
                }
            } else if tag == 1 {
                Some((ConnectMessage::NoRequest, p1))
            } else if tag == 2 {
                Some((ConnectMessage::AlreadyConnected, p1))
            } else if tag == 3 {
                Some((ConnectMessage::ConnectionReplaced, p1))
            } else if tag == 4 {
                Some((ConnectMessage::WrongVersion, p1))
            } else if tag == 5 {
                Some((ConnectMessage::InProgress, p1))
            } else {
                None
            }
        },
        None => None,
    }
}

fn read_client(b: &[u8]) -> (r: Option<(NetClientMessage, usize)>)
    ensures
        reads(r, 0, parse_client_prefix(b@.skip(0))),
        within(r, 0, b@.len() as int),
{
    match read_u8(b, 0) {
        Some((tag, p1)) => {
            assert(b@.skip(0).skip(1) =~= b@.skip(1));
            if tag == 0 {
                match read_str(b, p1) {
                    Some((v, p)) => Some((NetClientMessage::RequestJoin(v), p)),
                    None => None,
                }
            } else if tag == 1 {
                match read_player(b, p1) {
                    Some((pl, p)) => Some((NetClientMessage::Join(pl), p)),
                    None => None,
                }
            } else if tag == 2 {
                match read_bytes(b, p1) {
                    Some((g, p)) => Some((NetClientMessage::Game(g), p)),
                    None => None,
                }
            } else if tag == 3 {
                Some((NetClientMessage::Leave, p1))
            } else {
                None
            }
        },
        None => None,
    }
}

fn read_server(b: &[u8]) -> (r: Option<(NetServerMessage, usize)>)
    ensures
        reads(r, 0, parse_server_prefix(b@.skip(0))),
        within(r, 0, b@.len() as int),
{
    match read_u8(b, 0) {
        Some((tag, p1)) => {
            assert(b@.skip(0).skip(1) =~= b@.skip(1));
            if tag == 0 {
                match read_connect(b, p1) {
                    Some((c, p)) => Some((NetServerMessage::Validate(c), p)),
                    None => None,
                }
            } else if tag == 1 {
                match read_bytes(b, p1) {
                    Some((g, p)) => Some((NetServerMessage::Game(g), p)),
                    None => None,
                }
            } else if tag == 2 {
                Some((NetServerMessage::Begin, p1))
            } else if tag == 3 {
                Some((NetServerMessage::End, p1))
            } else {
                None
            }
        },
        None => None,
    }
}

/// Decodes one client message; anything but exactly one encoded message is
/// a `DecodeError`.
pub fn decode_client(b: &[u8]) -> (r: Result<NetClientMessage, DecodeError>)
    ensures
        r matches Ok(m) ==> parse_client(b@) == Some(m@) && b@ == enc_client(m@) && client_wf(m@),
        r is Err <==> parse_client(b@) is None,
        r is Err ==> forall|m: ClientView| client_wf(m) ==> enc_client(m) != b@,
{
    assert(b@.skip(0) =~= b@);
    let r = match read_client(b) {
        Some((m, p)) => {
            if p == b.len() {
                Ok(m)
            } else {
                Err(DecodeError)
            }
        },
        None => Err(DecodeError),
    };
    proof {
        if r is Ok {
            lemma_client_canonical(b@);
        } else {
            assert forall|m: ClientView| client_wf(m) implies enc_client(m) != b@ by {
                lemma_client_round_trip(m);
            }
        }
    }
    r
}

/// Decodes one server message; anything but exactly one encoded message is
/// a `DecodeError`.
pub fn decode_server(b: &[u8]) -> (r: Result<NetServerMessage, DecodeError>)
    ensures
        r matches Ok(m) ==> parse_server(b@) == Some(m@) && b@ == enc_server(m@) && server_wf(m@),
        r is Err <==> parse_server(b@) is None,
        r is Err ==> forall|m: ServerView| server_wf(m) ==> enc_server(m) != b@,
{
    assert(b@.skip(0) =~= b@);
    let r = match read_server(b) {
        Some((m, p)) => {
            if p == b.len() {
                Ok(m)
            } else {
                Err(DecodeError)
            }
        },
        None => Err(DecodeError),
    };
    proof {
        if r is Ok {
            lemma_server_canonical(b@);
        } else {
            assert forall|m: ServerView| server_wf(m) implies enc_server(m) != b@ by {
                lemma_server_round_trip(m);
            }
        }
    }
    r
}


// ---------------------------------------------------------------------------
// Framing on a byte stream.

/// One message framed for a byte stream: its length, then its bytes.
pub fn frame(payload: &[u8]) -> (r: Vec<u8>)
    requires
        payload@.len() <= u32::MAX,
    ensures
        r@ == enc_bytes(payload@),
{
    let mut out: Vec<u8> = Vec::new();
    write_bytes(&mut out, payload);
    assert(out@ =~= enc_bytes(payload@));
    out
}

/// The first complete frame at the front of `buf`, and how many bytes it
/// took; nothing while the frame is incomplete.
pub fn next_frame(buf: &[u8]) -> (r: Option<(Vec<u8>, usize)>)
    ensures
        reads(r, 0, parse_bytes(buf@)),
        within(r, 0, buf@.len() as int),
{
    assert(buf@.skip(0) =~= buf@);
    read_bytes(buf, 0)
}

} // verus!
