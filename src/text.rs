//! The canonical text of an address: `a.b.c.d` and `a.b.c.d:port`, each
//! number in decimal without leading zeros.
use vstd::prelude::*;
use crate::addr::{Ipv4Addr, SocketAddrV4};

verus! {

pub open spec fn digit_char(n: nat) -> char {
    if n == 0 {
        '0'
    } else if n == 1 {
        '1'
    } else if n == 2 {
        '2'
    } else if n == 3 {
        '3'
    } else if n == 4 {
        '4'
    } else if n == 5 {
        '5'
    } else if n == 6 {
        '6'
    } else if n == 7 {
        '7'
    } else if n == 8 {
        '8'
    } else {
        '9'
    }
}

/// `n` in decimal, without leading zeros.
pub open spec fn decimal_text(n: nat) -> Seq<char>
    decreases n,
{
    if n < 10 {
        seq![digit_char(n)]
    } else {
        decimal_text(n / 10).push(digit_char(n % 10))
    }
}

pub open spec fn ip_text(ip: Ipv4Addr) -> Seq<char> {
    decimal_text(ip.a as nat) + seq!['.'] + decimal_text(ip.b as nat) + seq!['.']
        + decimal_text(ip.c as nat) + seq!['.'] + decimal_text(ip.d as nat)
}

pub open spec fn host_text(h: SocketAddrV4) -> Seq<char> {
    ip_text(h.ip) + seq![':'] + decimal_text(h.port as nat)
}

fn digit_str(n: u32) -> (r: &'static str)
    requires
        n < 10,
    ensures
        r@ == seq![digit_char(n as nat)],
{
    let r = if n == 0 {
        "0"
    } else if n == 1 {
        "1"
    } else if n == 2 {
        "2"
    } else if n == 3 {
        "3"
    } else if n == 4 {
        "4"
    } else if n == 5 {
        "5"
    } else if n == 6 {
        "6"
    } else if n == 7 {
        "7"
    } else if n == 8 {
        "8"
    } else {
        "9"
    };
    proof {
        reveal_strlit("0");
        reveal_strlit("1");
        reveal_strlit("2");
        reveal_strlit("3");
        reveal_strlit("4");
        reveal_strlit("5");
        reveal_strlit("6");
        reveal_strlit("7");
        reveal_strlit("8");
        reveal_strlit("9");
    }
    assert(r@ =~= seq![digit_char(n as nat)]);
    r
}

/// Appends `n` in decimal to `out`.
fn push_decimal(out: &mut String, n: u32)
    ensures
        final(out)@ == old(out)@ + decimal_text(n as nat),
    decreases n,
{
    if n >= 10 {
        push_decimal(out, n / 10);
        out.append(digit_str(n % 10));
        assert(final(out)@ =~= old(out)@ + decimal_text(n as nat));
    } else {
        out.append(digit_str(n));
        assert(final(out)@ =~= old(out)@ + decimal_text(n as nat));
    }
}

fn push_ip(out: &mut String, ip: &Ipv4Addr)
    ensures
        final(out)@ == old(out)@ + ip_text(*ip),
{
    let dot = ".";
    proof {
        reveal_strlit(".");
    }
    push_decimal(out, ip.a as u32);
    out.append(dot);
    push_decimal(out, ip.b as u32);
    out.append(dot);
    push_decimal(out, ip.c as u32);
    out.append(dot);
    push_decimal(out, ip.d as u32);
    assert(final(out)@ =~= old(out)@ + ip_text(*ip));
}

impl Ipv4Addr {
    /// The address as `a.b.c.d`.
    pub fn to_string(&self) -> (r: String)
        ensures
            r@ == ip_text(*self),
    {
        let mut out = String::new();
        push_ip(&mut out, self);
        assert(out@ =~= ip_text(*self));
        out
    }
}

impl SocketAddrV4 {
    /// The address and port as `a.b.c.d:port`.
    pub fn to_string(&self) -> (r: String)
        ensures
            r@ == host_text(*self),
    {
        let mut out = String::new();
        push_ip(&mut out, &self.ip);
        let colon = ":";
        proof {
            reveal_strlit(":");
        }
        out.append(colon);
        push_decimal(&mut out, self.port as u32);
        assert(out@ =~= host_text(*self));
        out
    }
}

} // verus!
