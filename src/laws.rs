//! Properties of descriptor reading that relate the parser to the canonical way of
//! writing addresses and ports.
use vstd::prelude::*;

use crate::addr::{dotted_quad, is_multicast, octet_field, port_field, wildcard, Ipv4, DOT};
use crate::digits::{all_digits, decimal_value, digit_run_end, is_digit};
use crate::source::{
    find_byte, has_prefix, multicast_prefix, scheme_of, source_of, udp_endpoint,
    unicast_prefix, Scheme, Source, UriError, COLON,
};
use crate::udp::{multicast_plan, unicast_plan, SocketStep};

verus! {

/// The decimal digits of `n`, most significant first, without leading zeros.
pub open spec fn decimal_text(n: nat) -> Seq<u8>
    decreases n,
{
    if n < 10 {
        seq![(48 + n) as u8]
    } else {
        decimal_text(n / 10).push((48 + n % 10) as u8)
    }
}

/// `ip` written as a dotted quad, each octet in `decimal_text`.
pub open spec fn dotted_text(ip: Ipv4) -> Seq<u8> {
    decimal_text(ip.a as nat).push(DOT) + decimal_text(ip.b as nat).push(DOT) + decimal_text(
        ip.c as nat,
    ).push(DOT) + decimal_text(ip.d as nat)
}

/// The descriptor `<prefix><ip>:<port>`.
pub open spec fn udp_text(prefix: Seq<u8>, ip: Ipv4, port: u16) -> Seq<u8> {
    prefix + dotted_text(ip) + seq![COLON] + decimal_text(port as nat)
}

proof fn lemma_decimal_text(n: nat)
    ensures
        decimal_text(n).len() >= 1,
        all_digits(decimal_text(n), 0, decimal_text(n).len() as int),
        decimal_value(decimal_text(n)) == n,
        n >= 1 ==> decimal_text(n)[0] != 48,
        n < 10 ==> decimal_text(n).len() == 1,
        n < 100 ==> decimal_text(n).len() <= 2,
        n < 1000 ==> decimal_text(n).len() <= 3,
    decreases n,
{
    let t = decimal_text(n);
    if n < 10 {
        assert(t.drop_last() =~= Seq::<u8>::empty());
        assert(decimal_value(t.drop_last()) == 0);
    } else {
        lemma_decimal_text(n / 10);
        let p = decimal_text(n / 10);
        assert(t.drop_last() =~= p);
        assert(n / 10 * 10 + n % 10 == n);
        assert(t[0] == p[0]);
    }
}

proof fn lemma_run_end(s: Seq<u8>, i: int, j: int, end: int)
    requires
        0 <= i <= j <= end <= s.len(),
        all_digits(s, i, j),
        j == end || !is_digit(s[j]),
    ensures
        digit_run_end(s, i, end) == j,
    decreases j - i,
{
    if i < j {
        lemma_run_end(s, i + 1, j, end);
    }
}

proof fn lemma_find_byte(s: Seq<u8>, i: int, j: int, b: u8)
    requires
        0 <= i <= j < s.len(),
        s[j] == b,
        forall|k: int| i <= k < j ==> s[k] != b,
    ensures
        find_byte(s, i, b) == j,
    decreases j - i,
{
    if i < j {
        lemma_find_byte(s, i + 1, j, b);
    }
}

/// `s[i..end]` begins with the decimal text of `n`, followed by a byte that is not
/// a digit or by `end`.
proof fn lemma_field(s: Seq<u8>, i: int, end: int, n: nat)
    requires
        0 <= i,
        i + decimal_text(n).len() <= end <= s.len(),
        s.subrange(i, i + decimal_text(n).len()) == decimal_text(n),
        i + decimal_text(n).len() == end || !is_digit(s[i + decimal_text(n).len()]),
    ensures
        digit_run_end(s, i, end) == i + decimal_text(n).len(),
        all_digits(s, i, i + decimal_text(n).len()),
        decimal_value(s.subrange(i, i + decimal_text(n).len())) == n,
        n <= 255 ==> octet_field(s, i, i + decimal_text(n).len()) == Some(n as u8),
        n <= 65535 && i + decimal_text(n).len() == end ==> port_field(s, i, end) == Some(
            n as u16,
        ),
{
    let t = decimal_text(n);
    let j = i + t.len();
    lemma_decimal_text(n);
    assert forall|k: int| i <= k < j implies is_digit(#[trigger] s[k]) by {
        assert(s.subrange(i, j)[k - i] == s[k]);
        assert(is_digit(t[k - i]));
    }
    lemma_run_end(s, i, j, end);
    assert(s.subrange(i, j)[0] == s[i]);
}

proof fn lemma_split(s: Seq<u8>, i: int, j: int, x: Seq<u8>, y: Seq<u8>)
    requires
        0 <= i <= j <= s.len(),
        s.subrange(i, j) == x + y,
    ensures
        x.len() + y.len() == j - i,
        s.subrange(i, i + x.len()) == x,
        s.subrange(i + x.len(), j) == y,
{
    assert(s.subrange(i, j).len() == j - i);
    assert((x + y).len() == x.len() + y.len());
    assert(s.subrange(i, i + x.len()) =~= x) by {
        assert forall|k: int| 0 <= k < x.len() implies s.subrange(i, i + x.len())[k] == x[k] by {
            assert(s.subrange(i, i + x.len())[k] == s[i + k]);
            assert(s.subrange(i, j)[k] == s[i + k]);
            assert(s.subrange(i, j)[k] == (x + y)[k]);
            assert((x + y)[k] == x[k]);
        }
    }
    assert(s.subrange(i + x.len(), j) =~= y) by {
        assert forall|k: int| 0 <= k < y.len() implies s.subrange(i + x.len(), j)[k] == y[k] by {
            assert(s.subrange(i + x.len(), j)[k] == s[i + x.len() + k]);
            assert(s.subrange(i, j)[x.len() + k] == s[i + x.len() + k]);
            assert(s.subrange(i, j)[x.len() + k] == (x + y)[x.len() + k]);
            assert((x + y)[x.len() + k] == y[k]);
        }
    }
}

proof fn lemma_split_dot(s: Seq<u8>, i: int, j: int, x: Seq<u8>)
    requires
        0 <= i <= j <= s.len(),
        s.subrange(i, j) == x.push(DOT),
    ensures
        x.len() + 1 == j - i,
        s.subrange(i, j - 1) == x,
        s[j - 1] == DOT,
{
    assert(s.subrange(i, j).len() == j - i);
    assert(x.push(DOT).len() == x.len() + 1);
    assert(s.subrange(i, j)[x.len() as int] == DOT);
    assert(s.subrange(i, j - 1) =~= x) by {
        assert forall|k: int| 0 <= k < x.len() implies s.subrange(i, j - 1)[k] == x[k] by {
            assert(s.subrange(i, j - 1)[k] == s[i + k]);
            assert(s.subrange(i, j)[k] == s[i + k]);
            assert(s.subrange(i, j)[k] == x.push(DOT)[k]);
            assert(x.push(DOT)[k] == x[k]);
        }
    }
}

/// `s[start..end]` is the dotted-quad text of `ip`: it reads back as `ip`, and
/// holds only digits and dots.
proof fn lemma_dotted(s: Seq<u8>, start: int, end: int, ip: Ipv4)
    requires
        0 <= start <= end <= s.len(),
        s.subrange(start, end) == dotted_text(ip),
    ensures
        dotted_quad(s, start, end) == Some(ip),
        forall|k: int| start <= k < end ==> is_digit(#[trigger] s[k]) || s[k] == DOT,
{
    let ta = decimal_text(ip.a as nat);
    let tb = decimal_text(ip.b as nat);
    let tc = decimal_text(ip.c as nat);
    let td = decimal_text(ip.d as nat);
    let e0 = start + ta.len();
    let e1 = e0 + 1 + tb.len();
    let e2 = e1 + 1 + tc.len();
    lemma_split(s, start, end, ta.push(DOT) + tb.push(DOT) + tc.push(DOT), td);
    lemma_split(s, start, e2 + 1, ta.push(DOT) + tb.push(DOT), tc.push(DOT));
    lemma_split(s, start, e1 + 1, ta.push(DOT), tb.push(DOT));
    lemma_split_dot(s, start, e0 + 1, ta);
    lemma_split_dot(s, e0 + 1, e1 + 1, tb);
    lemma_split_dot(s, e1 + 1, e2 + 1, tc);
    lemma_field(s, start, end, ip.a as nat);
    lemma_field(s, e0 + 1, end, ip.b as nat);
    lemma_field(s, e1 + 1, end, ip.c as nat);
    lemma_field(s, e2 + 1, end, ip.d as nat);
    assert(octet_field(s, e2 + 1, end) == Some(ip.d));
    assert forall|k: int| start <= k < end implies is_digit(#[trigger] s[k]) || s[k] == DOT by {
        if k < e0 {
            assert(all_digits(s, start, e0));
        } else if e0 < k < e1 {
            assert(all_digits(s, e0 + 1, e1));
        } else if e1 < k < e2 {
            assert(all_digits(s, e1 + 1, e2));
        } else if e2 < k {
            assert(all_digits(s, e2 + 1, end));
        }
    }
}

/// `udp_text(prefix, ip, port)` read after `prefix` gives `ip` and `port`.
proof fn lemma_udp_text(prefix: Seq<u8>, ip: Ipv4, port: u16)
    ensures
        udp_endpoint(udp_text(prefix, ip, port), prefix.len() as int) == Ok::<
            (Ipv4, u16),
            UriError,
        >((ip, port)),
        udp_text(prefix, ip, port).subrange(0, prefix.len() as int) == prefix,
        is_digit(udp_text(prefix, ip, port)[prefix.len() as int]),
{
    let s = udp_text(prefix, ip, port);
    let p = prefix.len() as int;
    let c = p + dotted_text(ip).len();
    let tp = decimal_text(port as nat);
    assert(s.subrange(0, s.len() as int) =~= s);
    lemma_split(s, 0, s.len() as int, prefix + dotted_text(ip) + seq![COLON], tp);
    lemma_split(s, 0, c + 1, prefix + dotted_text(ip), seq![COLON]);
    lemma_split(s, 0, c, prefix, dotted_text(ip));
    assert(s.subrange(c, c + 1)[0] == s[c]);
    lemma_dotted(s, p, c, ip);
    lemma_find_byte(s, p, c, COLON);
    lemma_field(s, c + 1, s.len() as int, port as nat);
    lemma_decimal_text(ip.a as nat);
    assert(s.subrange(p, c)[0] == s[p]);
    assert(dotted_text(ip)[0] == decimal_text(ip.a as nat)[0]);
}

proof fn lemma_multicast_text(group: Ipv4, port: u16)
    ensures
        scheme_of(udp_text(multicast_prefix(), group, port)) == Scheme::Multicast,
        udp_endpoint(udp_text(multicast_prefix(), group, port), 7) == Ok::<(Ipv4, u16), UriError>(
            (group, port),
        ),
{
    lemma_udp_text(multicast_prefix(), group, port);
    assert(multicast_prefix().len() == 7);
}

/// A descriptor `udp://@G:P`, with the group G written as a dotted quad and the
/// port P in decimal, names the multicast source G at P. Its socket joins G on the
/// wildcard interface 0.0.0.0 and is bound to 0.0.0.0:P.
pub proof fn law_multicast_descriptor(
    group: Ipv4,
    port: u16,
    text: Seq<char>,
    r: Result<Source, UriError>)
    requires
        is_multicast(group),
        source_of(udp_text(multicast_prefix(), group, port), text, r),
    ensures
        r == Ok::<Source, UriError>(Source::Multicast { group, port }),
        multicast_plan(group, port).contains(
            SocketStep::JoinMulticast { group, interface: wildcard() },
        ),
        multicast_plan(group, port).last() == (SocketStep::Bind { addr: wildcard(), port }),
{
    lemma_multicast_text(group, port);
    let plan = multicast_plan(group, port);
    assert(plan[3] == SocketStep::JoinMulticast { group, interface: wildcard() });
}

/// A descriptor `udp://H:P`, with the host H written as a dotted quad and the port
/// P in decimal, names the unicast source H:P. Its socket is bound to H:P and
/// joins no multicast group.
pub proof fn law_unicast_descriptor(
    host: Ipv4,
    port: u16,
    text: Seq<char>,
    r: Result<Source, UriError>)
    requires
        source_of(udp_text(unicast_prefix(), host, port), text, r),
    ensures
        r == Ok::<Source, UriError>(Source::Unicast { host, port }),
        forall|k: int|
            0 <= k < unicast_plan(host, port).len() ==> !(#[trigger] unicast_plan(
                host,
                port,
            )[k] is JoinMulticast),
        unicast_plan(host, port).last() == (SocketStep::Bind { addr: host, port }),
{
    let s = udp_text(unicast_prefix(), host, port);
    lemma_udp_text(unicast_prefix(), host, port);
    assert(!has_prefix(s, multicast_prefix())) by {
        assert(s.subrange(0, 7)[6] == s[6]);
    }
    assert(scheme_of(s) == Scheme::Unicast);
}

/// A UDP descriptor (one that begins `udp://`) with no `:` after its prefix is
/// refused with `MissingPort`; one whose port, after the first `:`, is empty or
/// holds a byte that is not a digit is refused with `BadPort`.
pub proof fn law_udp_port_required(b: Seq<u8>, text: Seq<char>, r: Result<Source, UriError>)
    requires
        has_prefix(b, unicast_prefix()),
        source_of(b, text, r),
    ensures
        ({
            let start: int = if has_prefix(b, multicast_prefix()) {
                7
            } else {
                6
            };
            let c = find_byte(b, start, COLON);
            &&& c >= b.len() ==> r == Err::<Source, UriError>(UriError::MissingPort)
            &&& (c < b.len() && (c + 1 == b.len() || exists|k: int|
                c < k < b.len() && !is_digit(#[trigger] b[k]))) ==> r == Err::<
                Source,
                UriError,
            >(UriError::BadPort)
        }),
{
}

} // verus!
