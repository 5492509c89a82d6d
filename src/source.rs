//! Reading a source descriptor: which transport it names, and with what endpoint.
use vstd::prelude::*;

use vstd::string::StringSliceAdditionalSpecFns;

use crate::addr::{dotted_quad, parse_ipv4, parse_port, port_field, Ipv4};

verus! {

pub const COLON: u8 = 58;

/// Why a descriptor that names a UDP source cannot be read.
#[derive(Clone, Copy, Debug, PartialEq, Eq, Structural)]
pub enum UriError {
    /// No `:` separates the address from the port.
    MissingPort,
    /// What follows the `:` is not a decimal number from 0 to 65535.
    BadPort,
    /// What precedes the `:` is not a dotted-quad IPv4 address.
    BadAddress,
}

/// The transport that a descriptor names, by its prefix.
#[derive(Clone, Copy, Debug, PartialEq, Eq, Structural)]
pub enum Scheme {
    Multicast,
    Unicast,
    Http,
    File,
}

/// A byte source, as a descriptor names it.
#[derive(Clone, Debug, PartialEq, Eq)]
pub enum Source {
    /// The process's standard input.
    Stdin,
    /// A UDP multicast group, received on every local interface at `port`.
    Multicast { group: Ipv4, port: u16 },
    /// A UDP socket bound to `host:port`.
    Unicast { host: Ipv4, port: u16 },
    /// A resource fetched with a GET request; `url` is the whole descriptor.
    Http { url: String },
    /// A local file; `path` is the whole descriptor.
    File { path: String },
}

/// `udp://@`
pub open spec fn multicast_prefix() -> Seq<u8> {
    seq![117u8, 100, 112, 58, 47, 47, 64]
}

/// `udp://`
pub open spec fn unicast_prefix() -> Seq<u8> {
    seq![117u8, 100, 112, 58, 47, 47]
}

/// `http://`
pub open spec fn http_prefix() -> Seq<u8> {
    seq![104u8, 116, 116, 112, 58, 47, 47]
}

/// `https://`
pub open spec fn https_prefix() -> Seq<u8> {
    seq![104u8, 116, 116, 112, 115, 58, 47, 47]
}

pub open spec fn has_prefix(s: Seq<u8>, p: Seq<u8>) -> bool {
    p.len() <= s.len() && s.subrange(0, p.len() as int) == p
}

/// The prefixes are tried in a fixed order: `udp://@` before `udp://`, which it
/// extends, then the two HTTP prefixes; anything else is a file path.
pub open spec fn scheme_of(s: Seq<u8>) -> Scheme {
    if has_prefix(s, multicast_prefix()) {
        Scheme::Multicast
    } else if has_prefix(s, unicast_prefix()) {
        Scheme::Unicast
    } else if has_prefix(s, http_prefix()) || has_prefix(s, https_prefix()) {
        Scheme::Http
    } else {
        Scheme::File
    }
}

/// The first index at or after `i` where `s` holds `b`, or `s.len()` if there is none.
pub open spec fn find_byte(s: Seq<u8>, i: int, b: u8) -> int
    decreases s.len() - i,
{
    if i < 0 || i >= s.len() {
        s.len() as int
    } else if s[i] == b {
        i
    } else {
        find_byte(s, i + 1, b)
    }
}

/// `s[start..]` read as `<address>:<port>`, split at its first `:`. The port is
/// read before the address, so a bad port is reported before a bad address.
pub open spec fn udp_endpoint(s: Seq<u8>, start: int) -> Result<(Ipv4, u16), UriError> {
    let c = find_byte(s, start, COLON);
    if c >= s.len() {
        Err(UriError::MissingPort)
    } else {
        match port_field(s, c + 1, s.len() as int) {
            None => Err(UriError::BadPort),
            Some(port) => match dotted_quad(s, start, c) {
                None => Err(UriError::BadAddress),
                Some(ip) => Ok((ip, port)),
            },
        }
    }
}

/// What reading the descriptor whose bytes are `b` and whose text is `text` gives.
pub open spec fn source_of(b: Seq<u8>, text: Seq<char>, r: Result<Source, UriError>) -> bool {
    match scheme_of(b) {
        Scheme::Multicast => match udp_endpoint(b, 7) {
            Ok((group, port)) => r == Ok::<Source, UriError>(Source::Multicast { group, port }),
            Err(e) => r == Err::<Source, UriError>(e),
        },
        Scheme::Unicast => match udp_endpoint(b, 6) {
            Ok((host, port)) => r == Ok::<Source, UriError>(Source::Unicast { host, port }),
            Err(e) => r == Err::<Source, UriError>(e),
        },
        Scheme::Http => r matches Ok(Source::Http { url }) && url@ == text,
        Scheme::File => r matches Ok(Source::File { path }) && path@ == text,
    }
}

fn starts_with_bytes(s: &[u8], p: &[u8]) -> (r: bool)
    ensures
        r == has_prefix(s@, p@),
{
    if p.len() > s.len() {
        return false;
    }
    let mut i: usize = 0;
    while i < p.len()
        invariant
            p@.len() <= s@.len(),
            i <= p@.len(),
            forall|k: int| 0 <= k < i ==> s@[k] == p@[k],
        decreases p@.len() - i,
    {
        if s[i] != p[i] {
            assert(s@.subrange(0, p@.len() as int)[i as int] != p@[i as int]);
            return false;
        }
        i = i + 1;
    }
    assert(s@.subrange(0, p@.len() as int) =~= p@);
    true
}

/// Which transport the descriptor whose bytes are `s` names.
pub fn scheme(s: &[u8]) -> (r: Scheme)
    ensures
        r == scheme_of(s@),
{
    let mcast: [u8; 7] = [117u8, 100, 112, 58, 47, 47, 64];
    let udp: [u8; 6] = [117u8, 100, 112, 58, 47, 47];
    let http: [u8; 7] = [104u8, 116, 116, 112, 58, 47, 47];
    let https: [u8; 8] = [104u8, 116, 116, 112, 115, 58, 47, 47];
    assert(mcast@ =~= multicast_prefix());
    assert(udp@ =~= unicast_prefix());
    assert(http@ =~= http_prefix());
    assert(https@ =~= https_prefix());
    if starts_with_bytes(s, &mcast) {
        Scheme::Multicast
    } else if starts_with_bytes(s, &udp) {
        Scheme::Unicast
    } else if starts_with_bytes(s, &http) || starts_with_bytes(s, &https) {
        Scheme::Http
    } else {
        Scheme::File
    }
}

fn find_colon(s: &[u8], start: usize) -> (r: usize)
    requires
        start <= s@.len(),
    ensures
        r as int == find_byte(s@, start as int, COLON),
        start <= r <= s@.len(),
{
    let mut i: usize = start;
    while i < s.len() && s[i] != COLON
        invariant
            start <= i <= s@.len(),
            find_byte(s@, start as int, COLON) == find_byte(s@, i as int, COLON),
        decreases s@.len() - i,
    {
        i = i + 1;
    }
    i
}

/// Reads `s[start..]` as `<address>:<port>`.
pub fn parse_udp_endpoint(s: &[u8], start: usize) -> (r: Result<(Ipv4, u16), UriError>)
    requires
        start <= s@.len(),
    ensures
        r == udp_endpoint(s@, start as int),
{
    let c = find_colon(s, start);
    if c >= s.len() {
        return Err(UriError::MissingPort);
    }
    match parse_port(s, c + 1, s.len()) {
        None => Err(UriError::BadPort),
        Some(port) => match parse_ipv4(s, start, c) {
            None => Err(UriError::BadAddress),
            Some(ip) => Ok((ip, port)),
        },
    }
}

/// Reads a source descriptor; `None` stands for standard input.
pub fn parse_source(src: Option<&str>) -> (r: Result<Source, UriError>)
    ensures
        match src {
            None => r == Ok::<Source, UriError>(Source::Stdin),
            Some(s) => source_of(s.spec_bytes(), s@, r),
        },
{
    match src {
        None => Ok(Source::Stdin),
        Some(s) => {
            let b = s.as_bytes();
            match scheme(b) {
                Scheme::Multicast => match parse_udp_endpoint(b, 7) {
                    Ok((group, port)) => Ok(Source::Multicast { group, port }),
                    Err(e) => Err(e),
                },
                Scheme::Unicast => match parse_udp_endpoint(b, 6) {
                    Ok((host, port)) => Ok(Source::Unicast { host, port }),
                    Err(e) => Err(e),
                },
                Scheme::Http => Ok(Source::Http { url: s.to_owned() }),
                Scheme::File => Ok(Source::File { path: s.to_owned() }),
            }
        },
    }
}

} // verus!
