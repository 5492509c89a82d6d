//! IPv4 addresses in dotted-quad form, and port numbers.
use vstd::prelude::*;

use crate::digits::{
    all_digits, capped, capped_decimal, decimal_value, digit_run_end, is_digit, scan_digits,
};

verus! {

pub const DOT: u8 = 46;

/// An IPv4 address, by its four octets, most significant first.
#[derive(Clone, Copy, Debug, PartialEq, Eq, Structural)]
pub struct Ipv4 {
    pub a: u8,
    pub b: u8,
    pub c: u8,
    pub d: u8,
}

pub open spec fn wildcard() -> Ipv4 {
    Ipv4 { a: 0, b: 0, c: 0, d: 0 }
}

/// Addresses 224.0.0.0 to 239.255.255.255, the multicast range.
pub open spec fn is_multicast(ip: Ipv4) -> bool {
    224 <= ip.a <= 239
}

impl Ipv4 {
    pub fn new(a: u8, b: u8, c: u8, d: u8) -> (r: Ipv4)
        ensures
            r == (Ipv4 { a, b, c, d }),
    {
        Ipv4 { a, b, c, d }
    }

    /// The address 0.0.0.0, which stands for every local interface.
    pub fn unspecified() -> (r: Ipv4)
        ensures
            r == wildcard(),
    {
        Ipv4 { a: 0, b: 0, c: 0, d: 0 }
    }

    pub fn octets(&self) -> (r: [u8; 4])
        ensures
            r@ == seq![self.a, self.b, self.c, self.d],
    {
        [self.a, self.b, self.c, self.d]
    }

    pub fn is_multicast(&self) -> (r: bool)
        ensures
            r == is_multicast(*self),
    {
        224 <= self.a && self.a <= 239
    }
}

/// The octet that `s[start..end]` writes: one to three digits, without a leading
/// zero, worth at most 255.
pub open spec fn octet_field(s: Seq<u8>, start: int, end: int) -> Option<u8> {
    if 1 <= end - start <= 3 && all_digits(s, start, end) && (end - start == 1 || s[start] != 48)
        && decimal_value(s.subrange(start, end)) <= 255 {
        Some(decimal_value(s.subrange(start, end)) as u8)
    } else {
        None
    }
}

/// The address that `s[start..end]` writes as four octets separated by dots.
pub open spec fn dotted_quad(s: Seq<u8>, start: int, end: int) -> Option<Ipv4> {
    let e0 = digit_run_end(s, start, end);
    let e1 = digit_run_end(s, e0 + 1, end);
    let e2 = digit_run_end(s, e1 + 1, end);
    let e3 = digit_run_end(s, e2 + 1, end);
    if e0 < end && s[e0] == DOT && e1 < end && s[e1] == DOT && e2 < end && s[e2] == DOT && e3
        == end {
        match (
            octet_field(s, start, e0),
            octet_field(s, e0 + 1, e1),
            octet_field(s, e1 + 1, e2),
            octet_field(s, e2 + 1, e3),
        ) {
            (Some(a), Some(b), Some(c), Some(d)) => Some(Ipv4 { a, b, c, d }),
            _ => None,
        }
    } else {
        None
    }
}

/// The port that `s[start..end]` writes: one or more digits, worth at most 65535.
pub open spec fn port_field(s: Seq<u8>, start: int, end: int) -> Option<u16> {
    if start < end && all_digits(s, start, end) && decimal_value(s.subrange(start, end)) <= 65535 {
        Some(decimal_value(s.subrange(start, end)) as u16)
    } else {
        None
    }
}

fn parse_octet(s: &[u8], start: usize, end: usize) -> (r: Option<u8>)
    requires
        start <= end <= s@.len(),
        all_digits(s@, start as int, end as int),
    ensures
        r == octet_field(s@, start as int, end as int),
{
    if end - start < 1 || end - start > 3 || (end - start > 1 && s[start] == 48) {
        return None;
    }
    let v = capped_decimal(s, start, end, 255);
    if v > 255 {
        None
    } else {
        Some(v as u8)
    }
}

/// Reads `s[start..end]` as a dotted-quad IPv4 address.
pub fn parse_ipv4(s: &[u8], start: usize, end: usize) -> (r: Option<Ipv4>)
    requires
        start <= end <= s@.len(),
    ensures
        r == dotted_quad(s@, start as int, end as int),
{
    let e0 = scan_digits(s, start, end);
    if e0 >= end || s[e0] != DOT {
        return None;
    }
    let e1 = scan_digits(s, e0 + 1, end);
    if e1 >= end || s[e1] != DOT {
        return None;
    }
    let e2 = scan_digits(s, e1 + 1, end);
    if e2 >= end || s[e2] != DOT {
        return None;
    }
    let e3 = scan_digits(s, e2 + 1, end);
    if e3 != end {
        return None;
    }
    let a = parse_octet(s, start, e0);
    let b = parse_octet(s, e0 + 1, e1);
    let c = parse_octet(s, e1 + 1, e2);
    let d = parse_octet(s, e2 + 1, e3);
    match (a, b, c, d) {
        (Some(a), Some(b), Some(c), Some(d)) => Some(Ipv4 { a, b, c, d }),
        _ => None,
    }
}

/// Reads `s[start..end]` as a decimal port number.
pub fn parse_port(s: &[u8], start: usize, end: usize) -> (r: Option<u16>)
    requires
        start <= end <= s@.len(),
    ensures
        r == port_field(s@, start as int, end as int),
{
    if start == end {
        return None;
    }
    let e = scan_digits(s, start, end);
    if e != end {
        assert(!is_digit(s@[e as int]));
        return None;
    }
    let v = capped_decimal(s, start, end, 65535);
    if v > 65535 {
        None
    } else {
        Some(v as u16)
    }
}

} // verus!
