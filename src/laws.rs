//! Properties of the parsers, stated over their models and proved.
use vstd::prelude::*;
use crate::addr::{Ipv4Addr, SocketAddrV4};
use crate::netparse::{host_of, ip_of, is_octet, octet_values};
use crate::numeral::{digit_value, digits_value, is_digit, is_numeral, numeral_digits, numeral_value};
use crate::text::{decimal_text, digit_char, host_text, ip_text};
use crate::tokens::{lemma_tokens_join, lemma_tokens_len, lemma_tokens_without_sep, occurrences, tokens_of};

verus! {

proof fn lemma_digit_char(n: nat)
    requires
        n < 10,
    ensures
        is_digit(digit_char(n)),
        digit_value(digit_char(n)) == n,
{
}

/// The decimal text of `n` is a run of digits whose value is `n`.
proof fn lemma_decimal_text(n: nat)
    ensures
        decimal_text(n).len() > 0,
        forall|i: int| 0 <= i < decimal_text(n).len() ==> is_digit(#[trigger] decimal_text(n)[i]),
        digits_value(decimal_text(n)) == n,
    decreases n,
{
    let s = decimal_text(n);
    if n < 10 {
        lemma_digit_char(n);
        assert(s.drop_last() =~= Seq::empty());
        assert(digits_value(s.drop_last()) == 0);
    } else {
        lemma_decimal_text(n / 10);
        lemma_digit_char(n % 10);
        assert(s.drop_last() =~= decimal_text(n / 10));
        assert forall|i: int| 0 <= i < s.len() implies is_digit(#[trigger] s[i]) by {
            if i < s.len() - 1 {
                assert(s[i] == decimal_text(n / 10)[i]);
            }
        }
        assert(n == (n / 10) * 10 + n % 10) by (nonlinear_arith);
        assert(digits_value(s) == digits_value(decimal_text(n / 10)) * 10 + n % 10);
    }
}

/// The decimal text of `n` is a numeral of value `n`.
proof fn lemma_decimal_numeral(n: nat)
    ensures
        is_numeral(decimal_text(n)),
        numeral_value(decimal_text(n)) == n,
{
    lemma_decimal_text(n);
    assert(!is_digit('+'));
    assert(numeral_digits(decimal_text(n)) == decimal_text(n));
}

/// A numeral holds neither `.` nor `:`.
proof fn lemma_numeral_without_separators(t: Seq<char>)
    requires
        is_numeral(t),
    ensures
        !t.contains('.'),
        !t.contains(':'),
{
    let d = numeral_digits(t);
    assert forall|k: int| 0 <= k < t.len() implies t[k] != '.' && t[k] != ':' by {
        if t[0] == '+' {
            if k > 0 {
                assert(t[k] == d[k - 1]);
                assert(is_digit(d[k - 1]));
            }
        } else {
            assert(is_digit(d[k]));
        }
    }
}

proof fn lemma_concat_without(a: Seq<char>, b: Seq<char>, c: char)
    requires
        !a.contains(c),
        !b.contains(c),
    ensures
        !(a + b).contains(c),
{
    assert forall|k: int| 0 <= k < (a + b).len() implies (a + b)[k] != c by {
        if k < a.len() {
            assert((a + b)[k] == a[k]);
        } else {
            assert((a + b)[k] == b[k - a.len()]);
        }
    }
}

/// The pieces of four texts joined by dots are those four texts, provided
/// none holds a dot.
proof fn lemma_four_pieces(t0: Seq<char>, t1: Seq<char>, t2: Seq<char>, t3: Seq<char>)
    requires
        !t0.contains('.'),
        !t1.contains('.'),
        !t2.contains('.'),
        !t3.contains('.'),
    ensures
        tokens_of(t0 + seq!['.'] + t1 + seq!['.'] + t2 + seq!['.'] + t3, '.') == seq![
            t0,
            t1,
            t2,
            t3,
        ],
{
    let x2 = t0 + seq!['.'] + t1;
    let x3 = x2 + seq!['.'] + t2;
    lemma_tokens_join(t0, t1, '.');
    lemma_tokens_join(x2, t2, '.');
    lemma_tokens_join(x3, t3, '.');
    lemma_tokens_without_sep(t0, '.');
    lemma_tokens_without_sep(t1, '.');
    lemma_tokens_without_sep(t2, '.');
    lemma_tokens_without_sep(t3, '.');
    assert(seq![t0] + seq![t1] + seq![t2] + seq![t3] =~= seq![t0, t1, t2, t3]);
}

/// Four dot-separated components, each a decimal number in `0..=255`, give
/// the address made of those four numbers in the same order.
pub proof fn lemma_four_octets(t0: Seq<char>, t1: Seq<char>, t2: Seq<char>, t3: Seq<char>)
    requires
        is_octet(t0),
        is_octet(t1),
        is_octet(t2),
        is_octet(t3),
    ensures
        ip_of(t0 + seq!['.'] + t1 + seq!['.'] + t2 + seq!['.'] + t3) == Ok::<Ipv4Addr, ()>(
            Ipv4Addr {
                a: numeral_value(t0) as u8,
                b: numeral_value(t1) as u8,
                c: numeral_value(t2) as u8,
                d: numeral_value(t3) as u8,
            },
        ),
{
    lemma_numeral_without_separators(t0);
    lemma_numeral_without_separators(t1);
    lemma_numeral_without_separators(t2);
    lemma_numeral_without_separators(t3);
    lemma_four_pieces(t0, t1, t2, t3);
    let t = seq![t0, t1, t2, t3];
    assert(forall|i: int| 0 <= i < t.len() ==> is_octet(#[trigger] t[i]));
    assert(octet_values(t) =~= seq![
        numeral_value(t0) as u8,
        numeral_value(t1) as u8,
        numeral_value(t2) as u8,
        numeral_value(t3) as u8,
    ]);
}

/// The canonical text of any address parses back to that address.
pub proof fn lemma_ip_text_round_trip(ip: Ipv4Addr)
    ensures
        ip_of(ip_text(ip)) == Ok::<Ipv4Addr, ()>(ip),
{
    lemma_decimal_numeral(ip.a as nat);
    lemma_decimal_numeral(ip.b as nat);
    lemma_decimal_numeral(ip.c as nat);
    lemma_decimal_numeral(ip.d as nat);
    lemma_four_octets(
        decimal_text(ip.a as nat),
        decimal_text(ip.b as nat),
        decimal_text(ip.c as nat),
        decimal_text(ip.d as nat),
    );
}

/// The canonical text of any address and port parses back to them.
pub proof fn lemma_host_text_round_trip(h: SocketAddrV4)
    ensures
        host_of(host_text(h)) == Ok::<SocketAddrV4, ()>(h),
{
    let ip = h.ip;
    let da = decimal_text(ip.a as nat);
    let db = decimal_text(ip.b as nat);
    let dc = decimal_text(ip.c as nat);
    let dd = decimal_text(ip.d as nat);
    let dp = decimal_text(h.port as nat);
    lemma_decimal_numeral(ip.a as nat);
    lemma_decimal_numeral(ip.b as nat);
    lemma_decimal_numeral(ip.c as nat);
    lemma_decimal_numeral(ip.d as nat);
    lemma_decimal_numeral(h.port as nat);
    lemma_numeral_without_separators(da);
    lemma_numeral_without_separators(db);
    lemma_numeral_without_separators(dc);
    lemma_numeral_without_separators(dd);
    lemma_numeral_without_separators(dp);
    assert(!seq!['.'].contains(':')) by {
        assert(seq!['.'][0] == '.');
    }
    lemma_concat_without(da, seq!['.'], ':');
    lemma_concat_without(da + seq!['.'], db, ':');
    lemma_concat_without(da + seq!['.'] + db, seq!['.'], ':');
    lemma_concat_without(da + seq!['.'] + db + seq!['.'], dc, ':');
    lemma_concat_without(da + seq!['.'] + db + seq!['.'] + dc, seq!['.'], ':');
    lemma_concat_without(da + seq!['.'] + db + seq!['.'] + dc + seq!['.'], dd, ':');
    lemma_tokens_join(ip_text(ip), dp, ':');
    lemma_tokens_without_sep(ip_text(ip), ':');
    lemma_tokens_without_sep(dp, ':');
    assert(tokens_of(host_text(h), ':') =~= seq![ip_text(ip), dp]);
    lemma_ip_text_round_trip(ip);
}

/// Printing a successfully parsed address in canonical form and parsing that
/// text again gives the same address.
pub proof fn lemma_parse_ip_idempotent(s: Seq<char>, ip: Ipv4Addr)
    requires
        ip_of(s) == Ok::<Ipv4Addr, ()>(ip),
    ensures
        ip_of(ip_text(ip)) == ip_of(s),
{
    lemma_ip_text_round_trip(ip);
}

/// Printing a successfully parsed address and port in canonical form and
/// parsing that text again gives the same address and port.
pub proof fn lemma_parse_host_idempotent(s: Seq<char>, h: SocketAddrV4)
    requires
        host_of(s) == Ok::<SocketAddrV4, ()>(h),
    ensures
        host_of(host_text(h)) == host_of(s),
{
    lemma_host_text_round_trip(h);
}

/// An address fails to parse when any of its components is not a decimal
/// number in `0..=255`.
pub proof fn lemma_bad_component_fails(s: Seq<char>, i: int)
    requires
        0 <= i < tokens_of(s, '.').len(),
        !is_octet(tokens_of(s, '.')[i]),
    ensures
        ip_of(s) is Err,
{
}

/// An address with more than four components fails to parse.
pub proof fn lemma_too_many_components_fails(s: Seq<char>)
    requires
        tokens_of(s, '.').len() > 4,
    ensures
        ip_of(s) is Err,
{
}

/// A host text with more than one `:` fails to parse.
pub proof fn lemma_many_colons_fail(s: Seq<char>)
    requires
        occurrences(s, ':') > 1,
    ensures
        host_of(s) is Err,
{
    lemma_tokens_len(s, ':');
}

} // verus!
