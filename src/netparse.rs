//! Parsing an IPv4 address (`a.b.c.d` and its shorter legacy forms) and an
//! `address[:port]` pair.
use vstd::prelude::*;
use crate::addr::{Ipv4Addr, SocketAddrV4};
use crate::numeral::{is_numeral_upto, numeral_value, parse_decimal};
use crate::tokens::{split_on, tokens_of, views, lemma_tokens_len};

verus! {

/// The legacy placement of one to four components: `d` is `0.0.0.d`,
/// `a.d` is `a.0.0.d`, `a.c.d` is `a.0.c.d` and `a.b.c.d` stays as it is.
pub open spec fn pad_octets(v: Seq<u8>) -> Ipv4Addr
    recommends
        1 <= v.len() <= 4,
{
    if v.len() == 1 {
        Ipv4Addr { a: 0, b: 0, c: 0, d: v[0] }
    } else if v.len() == 2 {
        Ipv4Addr { a: v[0], b: 0, c: 0, d: v[1] }
    } else if v.len() == 3 {
        Ipv4Addr { a: v[0], b: 0, c: v[1], d: v[2] }
    } else {
        Ipv4Addr { a: v[0], b: v[1], c: v[2], d: v[3] }
    }
}

/// A component of an address: a numeral of at most 255.
pub open spec fn is_octet(t: Seq<char>) -> bool {
    is_numeral_upto(t, 255)
}

/// The value of each component.
pub open spec fn octet_values(t: Seq<Seq<char>>) -> Seq<u8> {
    t.map_values(|x: Seq<char>| numeral_value(x) as u8)
}

/// What `s` denotes as an IPv4 address: its `.`-separated pieces must be at
/// most four, each an octet, and are placed by `pad_octets`.
pub open spec fn ip_of(s: Seq<char>) -> Result<Ipv4Addr, ()> {
    let t = tokens_of(s, '.');
    if t.len() <= 4 && forall|i: int| 0 <= i < t.len() ==> is_octet(#[trigger] t[i]) {
        Ok(pad_octets(octet_values(t)))
    } else {
        Err(())
    }
}

/// What `s` denotes as an `address[:port]` pair: at most one `:`, an address
/// before it, and after it a numeral of at most 65535; no `:` means port 0.
pub open spec fn host_of(s: Seq<char>) -> Result<SocketAddrV4, ()> {
    let t = tokens_of(s, ':');
    if t.len() > 2 {
        Err(())
    } else {
        match ip_of(t[0]) {
            Err(e) => Err(e),
            Ok(ip) => if t.len() == 1 {
                Ok(SocketAddrV4 { ip, port: 0 })
            } else if is_numeral_upto(t[1], 65535) {
                Ok(SocketAddrV4 { ip, port: numeral_value(t[1]) as u16 })
            } else {
                Err(())
            },
        }
    }
}

/// Places one to four address components as the legacy convention does.
pub fn normalize(octets: &[u8]) -> (r: Ipv4Addr)
    requires
        1 <= octets@.len() <= 4,
    ensures
        r == pad_octets(octets@),
{
    let n = octets.len();
    if n == 1 {
        Ipv4Addr::new(0, 0, 0, octets[0])
    } else if n == 2 {
        Ipv4Addr::new(octets[0], 0, 0, octets[1])
    } else if n == 3 {
        Ipv4Addr::new(octets[0], 0, octets[1], octets[2])
    } else {
        Ipv4Addr::new(octets[0], octets[1], octets[2], octets[3])
    }
}

/// The characters of `s`, in order.
fn chars_of(s: &str) -> (r: Vec<char>)
    ensures
        r@ == s@,
{
    let mut out: Vec<char> = Vec::new();
    for c in it: s.chars()
        invariant
            it.seq() == s@,
            out@ == it.seq().take(it.index() as int),
    {
        out.push(c);
    }
    assert(s@.take(s@.len() as int) =~= s@);
    out
}

/// `parse_ip` on the characters of its input.
fn ip_from_chars(s: &[char]) -> (r: Result<Ipv4Addr, ()>)
    ensures
        r == ip_of(s@),
{
    let tokens = split_on(s, '.');
    let ghost t = tokens_of(s@, '.');
    proof {
        lemma_tokens_len(s@, '.');
    }
    let mut octets: Vec<u8> = Vec::new();
    let mut i: usize = 0;
    while i < tokens.len()
        invariant
            views(tokens@) == t,
            t == tokens_of(s@, '.'),
            i <= tokens@.len(),
            octets@ == octet_values(t.take(i as int)),
            forall|k: int| 0 <= k < i ==> is_octet(#[trigger] t[k]),
        decreases tokens.len() - i,
    {
        assert(t[i as int] == tokens@[i as int]@);
        match parse_decimal(tokens[i].as_slice(), 255) {
            None => {
                return Err(());
            },
            Some(v) => {
                octets.push(v as u8);
                assert(octets@ =~= octet_values(t.take(i + 1)));
            },
        }
        i = i + 1;
    }
    assert(t.take(i as int) =~= t);
    if octets.len() > 4 {
        return Err(());
    }
    Ok(normalize(octets.as_slice()))
}

/// Parses an IPv4 address in dotted form, accepting the legacy forms with one
/// to three components. Fails when a component is not a decimal number in
/// `0..=255` or when there are more than four components.
pub fn parse_ip(input: &str) -> (r: Result<Ipv4Addr, ()>)
    ensures
        r == ip_of(input@),
{
    let chars = chars_of(input);
    ip_from_chars(chars.as_slice())
}

/// Parses `address` or `address:port` into an address and a port, the port
/// being 0 when absent. Fails when the address is malformed, the port is not a
/// decimal number in `0..=65535`, or there is more than one `:`.
pub fn parse_host(input: &str) -> (r: Result<SocketAddrV4, ()>)
    ensures
        r == host_of(input@),
{
    let chars = chars_of(input);
    let tokens = split_on(chars.as_slice(), ':');
    let ghost t = tokens_of(input@, ':');
    proof {
        lemma_tokens_len(input@, ':');
        assert(t[0] == tokens@[0]@);
    }
    if tokens.len() > 2 {
        return Err(());
    }
    let ip = match ip_from_chars(tokens[0].as_slice()) {
        Err(e) => {
            return Err(e);
        },
        Ok(ip) => ip,
    };
    if tokens.len() == 1 {
        Ok(SocketAddrV4::new(ip, 0))
    } else {
        assert(t[1] == tokens@[1]@);
        match parse_decimal(tokens[1].as_slice(), 65535) {
            None => Err(()),
            Some(port) => Ok(SocketAddrV4::new(ip, port as u16)),
        }
    }
}

} // verus!
