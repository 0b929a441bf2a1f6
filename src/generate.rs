//! Parties and display names made up from random draws.
use rand::Rng;
use vstd::prelude::*;
use vstd::utf8::*;
use crate::codec::string_from_utf8;
use crate::protocol::{
    party_view, party_wf, MemberView, PartyMember, Player, StatSet, PARTY_CAPACITY,
};

verus! {

/// The level of every generated creature.
pub const GENERATED_LEVEL: u8 = 50;

/// The individual value of every statistic of a generated creature.
pub const GENERATED_IV: u8 = 15;

/// The length of a made-up display name.
pub const NAME_LENGTH: usize = 7;

/// Relies on `rand::Rng::gen_range` over `rand::thread_rng()`: a value in
/// `low..high`; it panics on an empty range.
#[verifier::external_body]
fn random_in(low: u16, high: u16) -> (r: u16)
    requires
        low < high,
    ensures
        low <= r < high,
{
    rand::thread_rng().gen_range(low..high)
}

/// Relies on `rand::distributions::Alphanumeric`: one byte drawn from
/// `A-Z`, `a-z` and `0-9`.
#[verifier::external_body]
fn random_alphanumeric() -> (r: u8)
    ensures
        is_alphanumeric(r),
{
    rand::thread_rng().sample(rand::distributions::Alphanumeric)
}

pub open spec fn is_alphanumeric(b: u8) -> bool {
    (65 <= b <= 90) || (97 <= b <= 122) || (48 <= b <= 57)
}

pub open spec fn is_alphanumeric_char(c: char) -> bool {
    ('A' <= c <= 'Z') || ('a' <= c <= 'z') || ('0' <= c <= '9')
}

/// The creature generated for a species: level 50, every individual value
/// 15, and no moves yet (the battle engine teaches its level's moves).
pub open spec fn generated_member(species: u16) -> MemberView {
    MemberView {
        species,
        level: GENERATED_LEVEL,
        ivs: StatSet::uniform_spec(GENERATED_IV),
        moves: Seq::empty(),
    }
}

/// The party generated from drawn species, one creature for each.
pub fn party_from_species(species: &Vec<u16>) -> (r: Vec<PartyMember>)
    requires
        species@.len() <= PARTY_CAPACITY,
    ensures
        party_view(r@) == species@.map_values(|s: u16| generated_member(s)),
        party_wf(party_view(r@)),
{
    let mut r: Vec<PartyMember> = Vec::with_capacity(species.len());
    let mut i: usize = 0;
    while i < species.len()
        invariant
            i <= species@.len() <= PARTY_CAPACITY,
            party_view(r@) =~= species@.subrange(0, i as int).map_values(|s: u16| generated_member(s)),
        decreases species@.len() - i,
    {
        let m = PartyMember {
            species: species[i],
            level: GENERATED_LEVEL,
            ivs: StatSet::uniform(GENERATED_IV),
            moves: Vec::new(),
        };
        let ghost before = r@;
        r.push(m);
        assert(r@ == before.push(m));
        assert(m@.moves =~= Seq::<u16>::empty());
        assert(party_view(r@) =~= party_view(before).push(generated_member(species@[i as int])));
        i = i + 1;
        assert(party_view(r@) =~= species@.subrange(0, i as int).map_values(|s: u16| generated_member(s)));
    }
    assert(species@.subrange(0, species@.len() as int) =~= species@);
    r
}

/// A full party of random creatures, each of a species drawn from
/// `1..pokedex_len`.
pub fn generate_party(pokedex_len: u16) -> (r: Vec<PartyMember>)
    requires
        pokedex_len > 1,
    ensures
        r@.len() == PARTY_CAPACITY,
        party_wf(party_view(r@)),
        forall|i: int|
            0 <= i < r@.len() ==> (#[trigger] r@[i])@ == generated_member(r@[i].species) && 1
                <= r@[i].species < pokedex_len,
{
    let mut species: Vec<u16> = Vec::with_capacity(PARTY_CAPACITY);
    let mut i: usize = 0;
    while i < PARTY_CAPACITY
        invariant
            i <= PARTY_CAPACITY,
            pokedex_len > 1,
            species@.len() == i,
            forall|j: int| 0 <= j < i ==> 1 <= #[trigger] species@[j] < pokedex_len,
        decreases PARTY_CAPACITY - i,
    {
        species.push(random_in(1, pokedex_len));
        i = i + 1;
    }
    let r = party_from_species(&species);
    assert forall|i: int| 0 <= i < r@.len() implies (#[trigger] r@[i])@ == generated_member(
        r@[i].species,
    ) && 1 <= r@[i].species < pokedex_len by {
        assert(party_view(r@)[i] == r@[i]@);
    }
    r
}

proof fn lemma_ascii_text(b: Seq<u8>)
    requires
        forall|i: int| 0 <= i < b.len() ==> is_alphanumeric(#[trigger] b[i]),
    ensures
        valid_utf8(b),
        decode_utf8(b) == b.map_values(|x: u8| x as char),
{
    let chars = b.map_values(|x: u8| x as char);
    assert(is_ascii_chars(chars));
    is_ascii_chars_encode_utf8(chars);
    assert(encode_utf8(chars) =~= b);
    encode_utf8_valid_utf8(chars);
    encode_utf8_decode_utf8(chars);
}

/// A made-up display name: seven random letters and digits.
pub fn random_name() -> (r: String)
    ensures
        r@.len() == NAME_LENGTH,
        forall|i: int| 0 <= i < r@.len() ==> is_alphanumeric_char(#[trigger] r@[i]),
{
    let mut bytes: Vec<u8> = Vec::with_capacity(NAME_LENGTH);
    let mut i: usize = 0;
    while i < NAME_LENGTH
        invariant
            i <= NAME_LENGTH,
            bytes@.len() == i,
            forall|j: int| 0 <= j < i ==> is_alphanumeric(#[trigger] bytes@[j]),
        decreases NAME_LENGTH - i,
    {
        bytes.push(random_alphanumeric());
        i = i + 1;
    }
    let ghost b = bytes@;
    proof {
        lemma_ascii_text(b);
    }
    match string_from_utf8(bytes) {
        Some(s) => {
            assert forall|i: int| 0 <= i < s@.len() implies is_alphanumeric_char(#[trigger] s@[i]) by {
                assert(s@[i] == b[i] as char);
                assert(is_alphanumeric(b[i]));
            }
            s
        },
        None => {
            assert(false);
            String::new()
        },
    }
}

/// The display name to join with: the one given, or a made-up one.
pub fn choose_name(provided: Option<String>) -> (r: String)
    ensures
        provided matches Some(n) ==> r@ == n@,
        provided is None ==> r@.len() == NAME_LENGTH && forall|i: int|
            0 <= i < r@.len() ==> is_alphanumeric_char(#[trigger] r@[i]),
{
    match provided {
        Some(n) => n,
        None => random_name(),
    }
}

/// The player a client joins as once accepted: its chosen name, and the
/// party the server offered or, if it offered none, a party of its own.
pub fn accepted_player(offered: Option<Vec<PartyMember>>, name: Option<String>, pokedex_len: u16) -> (r: Player)
    requires
        offered is None ==> pokedex_len > 1,
    ensures
        name matches Some(n) ==> r.name@ == n@,
        name is None ==> r.name@.len() == NAME_LENGTH,
        offered matches Some(p) ==> r@.party == party_view(p@),
        offered is None ==> r.party@.len() == PARTY_CAPACITY && forall|i: int|
            0 <= i < r.party@.len() ==> (#[trigger] r.party@[i])@ == generated_member(
                r.party@[i].species,
            ) && 1 <= r.party@[i].species < pokedex_len,
{
    let party = match offered {
        Some(p) => p,
        None => generate_party(pokedex_len),
    };
    Player { name: choose_name(name), party }
}

} // verus!
