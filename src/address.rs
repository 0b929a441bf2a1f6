//! The client's address prompt: one line read as `host[:port] [name]`.
use vstd::prelude::*;
use vstd::string::StrSliceExecFns;
use crate::protocol::DEFAULT_PORT;

verus! {

/// Rust's ASCII whitespace: space, tab, line feed, form feed, carriage return.
pub open spec fn is_ascii_ws(c: char) -> bool {
    c == ' ' || c == '\t' || c == '\n' || c == '\x0C' || c == '\r'
}

pub open spec fn is_digit(c: char) -> bool {
    '0' <= c <= '9'
}

pub open spec fn digit_value(c: char) -> nat {
    (c as u32 - '0' as u32) as nat
}

/// The number that a string of decimal digits spells.
pub open spec fn decimal(s: Seq<char>) -> nat
    decreases s.len(),
{
    if s.len() == 0 {
        0
    } else {
        decimal(s.drop_last()) * 10 + digit_value(s.last())
    }
}

pub open spec fn all_digits(s: Seq<char>) -> bool {
    forall|i: int| 0 <= i < s.len() ==> is_digit(#[trigger] s[i])
}

/// A port number as Rust's `u16` parser reads it: an optional `+`, then one
/// or more decimal digits, worth at most 65535.
pub open spec fn port_value(s: Seq<char>) -> Option<u16> {
    let d = if s.len() > 0 && s[0] == '+' {
        s.skip(1)
    } else {
        s
    };
    if d.len() > 0 && all_digits(d) && decimal(d) <= u16::MAX {
        Some(decimal(d) as u16)
    } else {
        None
    }
}

/// The first position at or after `i` that holds `c`, or the length.
pub open spec fn find_char(s: Seq<char>, c: char, i: int) -> int
    decreases s.len() - i,
{
    if i >= s.len() {
        s.len() as int
    } else if s[i] == c {
        i
    } else {
        find_char(s, c, i + 1)
    }
}

/// The first position at or after `i` that is not whitespace, or the length.
pub open spec fn skip_ws(s: Seq<char>, i: int) -> int
    decreases s.len() - i,
{
    if i >= s.len() {
        s.len() as int
    } else if is_ascii_ws(s[i]) {
        skip_ws(s, i + 1)
    } else {
        i
    }
}

/// The first position at or after `i` that is whitespace, or the length.
pub open spec fn token_end(s: Seq<char>, i: int) -> int
    decreases s.len() - i,
{
    if i >= s.len() {
        s.len() as int
    } else if is_ascii_ws(s[i]) {
        i
    } else {
        token_end(s, i + 1)
    }
}

/// The host of `host[:port[:...]]`: everything before the first colon.
pub open spec fn host_of(s: Seq<char>) -> Seq<char> {
    s.subrange(0, find_char(s, ':', 0))
}

/// The port of `host[:port[:...]]`: the text between the first colon and the
/// next, if it is a port number, else the default port.
pub open spec fn port_of(s: Seq<char>) -> u16 {
    let k = find_char(s, ':', 0);
    if k >= s.len() {
        DEFAULT_PORT
    } else {
        match port_value(s.subrange(k + 1, find_char(s, ':', k + 1))) {
            Some(p) => p,
            None => DEFAULT_PORT,
        }
    }
}

proof fn lemma_find_char_bounds(s: Seq<char>, c: char, i: int)
    requires
        0 <= i <= s.len(),
    ensures
        i <= find_char(s, c, i) <= s.len(),
    decreases s.len() - i,
{
    if i < s.len() && s[i] != c {
        lemma_find_char_bounds(s, c, i + 1);
    }
}

proof fn lemma_skip_ws_bounds(s: Seq<char>, i: int)
    requires
        0 <= i <= s.len(),
    ensures
        i <= skip_ws(s, i) <= s.len(),
    decreases s.len() - i,
{
    if i < s.len() && is_ascii_ws(s[i]) {
        lemma_skip_ws_bounds(s, i + 1);
    }
}

proof fn lemma_token_end_bounds(s: Seq<char>, i: int)
    requires
        0 <= i <= s.len(),
    ensures
        i <= token_end(s, i) <= s.len(),
    decreases s.len() - i,
{
    if i < s.len() && !is_ascii_ws(s[i]) {
        lemma_token_end_bounds(s, i + 1);
    }
}

proof fn lemma_decimal_prefix(s: Seq<char>, i: int)
    requires
        0 <= i <= s.len(),
        all_digits(s),
    ensures
        decimal(s.take(i)) <= decimal(s),
    decreases s.len() - i,
{
    if i < s.len() {
        let t = s.take(i + 1);
        assert(t.drop_last() =~= s.take(i));
        lemma_decimal_prefix(s, i + 1);
    } else {
        assert(s.take(i) =~= s);
    }
}

fn find_char_exec(s: &str, c: char, from: usize, len: usize) -> (r: usize)
    requires
        len == s@.len(),
        from <= len,
    ensures
        r == find_char(s@, c, from as int),
{
    let mut i = from;
    while i < len
        invariant
            len == s@.len(),
            from <= i <= len,
            find_char(s@, c, i as int) == find_char(s@, c, from as int),
        decreases len - i,
    {
        if s.get_char(i) == c {
            return i;
        }
        i = i + 1;
    }
    i
}

fn skip_ws_exec(s: &str, from: usize, len: usize) -> (r: usize)
    requires
        len == s@.len(),
        from <= len,
    ensures
        r == skip_ws(s@, from as int),
{
    let mut i = from;
    while i < len
        invariant
            len == s@.len(),
            from <= i <= len,
            skip_ws(s@, i as int) == skip_ws(s@, from as int),
        decreases len - i,
    {
        let c = s.get_char(i);
        if !(c == ' ' || c == '\t' || c == '\n' || c == '\x0C' || c == '\r') {
            return i;
        }
        i = i + 1;
    }
    i
}

fn token_end_exec(s: &str, from: usize, len: usize) -> (r: usize)
    requires
        len == s@.len(),
        from <= len,
    ensures
        r == token_end(s@, from as int),
{
    let mut i = from;
    while i < len
        invariant
            len == s@.len(),
            from <= i <= len,
            token_end(s@, i as int) == token_end(s@, from as int),
        decreases len - i,
    {
        let c = s.get_char(i);
        if c == ' ' || c == '\t' || c == '\n' || c == '\x0C' || c == '\r' {
            return i;
        }
        i = i + 1;
    }
    i
}

/// Reads a port number: an optional `+` and decimal digits worth at most
/// 65535.
pub fn parse_port(s: &str) -> (r: Option<u16>)
    ensures
        r == port_value(s@),
{
    let len = s.unicode_len();
    let start: usize = if len > 0 && s.get_char(0) == '+' {
        1
    } else {
        0
    };
    let ghost d = s@.skip(start as int);
    assert(d =~= (if s@.len() > 0 && s@[0] == '+' {
        s@.skip(1)
    } else {
        s@
    }));
    if start == len {
        return None;
    }
    let mut value: u32 = 0;
    let mut i = start;
    while i < len
        invariant
            len == s@.len(),
            start <= i <= len,
            d == s@.skip(start as int),
            d == (if s@.len() > 0 && s@[0] == '+' {
                s@.skip(1)
            } else {
                s@
            }),
            value == decimal(d.take(i - start)),
            value <= u16::MAX,
            all_digits(d.take(i - start)),
        decreases len - i,
    {
        let c = s.get_char(i);
        assert(d.take(i - start + 1).drop_last() =~= d.take(i - start));
        assert(d.take(i - start + 1).last() == c);
        if !('0' <= c && c <= '9') {
            assert(d[i - start] == c);
            assert(!is_digit(d[i - start]));
            return None;
        }
        let next = value * 10 + (c as u32 - '0' as u32);
        assert(all_digits(d.take(i - start + 1)));
        assert(decimal(d.take(i - start + 1)) == next);
        if next > 65535 {
            proof {
                if all_digits(d) {
                    lemma_decimal_prefix(d, i - start + 1);
                }
            }
            return None;
        }
        value = next;
        i = i + 1;
    }
    assert(d.take(i - start) =~= d);
    Some(value as u16)
}


/// The whitespace-separated word that starts at or after `i`, if any.
pub open spec fn token_at(s: Seq<char>, i: int) -> Option<Seq<char>> {
    let b = skip_ws(s, i);
    if b >= s.len() {
        None
    } else {
        Some(s.subrange(b, token_end(s, b)))
    }
}

/// Where the first word of `s` ends.
pub open spec fn first_token_end(s: Seq<char>) -> int {
    token_end(s, skip_ws(s, 0))
}

/// Splits `host[:port[:...]]` into its host and its port, falling back to
/// the default port where the port is missing or unreadable.
pub fn parse_address(addr: &str) -> (r: (String, u16))
    ensures
        r.0@ == host_of(addr@),
        r.1 == port_of(addr@),
{
    let len = addr.unicode_len();
    let k = find_char_exec(addr, ':', 0, len);
    proof {
        lemma_find_char_bounds(addr@, ':', 0);
    }
    let host = addr.substring_char(0, k).to_owned();
    if k >= len {
        return (host, DEFAULT_PORT);
    }
    let k2 = find_char_exec(addr, ':', k + 1, len);
    proof {
        lemma_find_char_bounds(addr@, ':', k + 1);
    }
    let port = match parse_port(addr.substring_char(k + 1, k2)) {
        Some(p) => p,
        None => DEFAULT_PORT,
    };
    (host, port)
}

/// Where to connect, and the name to join with if the user gave one.
pub struct ConnectRequest {
    pub host: String,
    pub port: u16,
    pub name: Option<String>,
}

/// Reads the prompt's line: its first word is the address, its second, if
/// any, the display name. A line without words gives nothing.
pub fn parse_input(input: &str) -> (r: Option<ConnectRequest>)
    ensures
        r is None <==> token_at(input@, 0) is None,
        r matches Some(c) ==> {
            let a = token_at(input@, 0).unwrap();
            &&& c.host@ == host_of(a)
            &&& c.port == port_of(a)
            &&& c.name matches Some(n) ==> token_at(input@, first_token_end(input@)) == Some(n@)
            &&& c.name is None ==> token_at(input@, first_token_end(input@)) is None
        },
{
    let len = input.unicode_len();
    let b1 = skip_ws_exec(input, 0, len);
    proof {
        lemma_skip_ws_bounds(input@, 0);
    }
    if b1 >= len {
        return None;
    }
    let e1 = token_end_exec(input, b1, len);
    proof {
        lemma_token_end_bounds(input@, b1 as int);
    }
    let (host, port) = parse_address(input.substring_char(b1, e1));
    let b2 = skip_ws_exec(input, e1, len);
    proof {
        lemma_skip_ws_bounds(input@, e1 as int);
    }
    let name = if b2 >= len {
        None
    } else {
        let e2 = token_end_exec(input, b2, len);
        proof {
            lemma_token_end_bounds(input@, b2 as int);
        }
        Some(input.substring_char(b2, e2).to_owned())
    };
    Some(ConnectRequest { host, port, name })
}

} // verus!
