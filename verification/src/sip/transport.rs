//! The address bookkeeping a SIP element needs.
use vstd::prelude::*;

use super::uri::Uri;
use crate::net;
use crate::net::{IpAddr, SocketAddr};
use crate::text;

verus! {

pub const MAX_DATAGRAM: usize = 65535;

/// Where the SIP socket is bound, and the address to advertise instead.
#[derive(Debug, Clone, Copy)]
pub struct Transport {
    pub bound: SocketAddr,
    pub public_ip: Option<IpAddr>,
}

/// The address to advertise: the configured one, the bound one where it is a single one, the one
/// the routing table gives, and otherwise loopback.
pub open spec fn advertised(t: Transport, route: Option<IpAddr>) -> IpAddr {
    match t.public_ip {
        Some(ip) => ip,
        None => if !t.bound.ip.unspecified() {
            t.bound.ip
        } else {
            match route {
                Some(ip) => ip,
                None => IpAddr::V4(0x7f00_0001),
            }
        },
    }
}

impl Transport {
    pub fn bound(&self) -> (r: SocketAddr)
        ensures
            r == self.bound,
    {
        self.bound
    }

    pub fn port(&self) -> (r: u16)
        ensures
            r == self.bound.port,
    {
        self.bound.port
    }

    /// The address we should put in Via, Contact and SDP, given the source address the routing table
    /// would use for the destination.
    pub fn advertised_ip(&self, route: Option<IpAddr>) -> (r: IpAddr)
        ensures
            r == advertised(*self, route),
    {
        match self.public_ip {
            Some(ip) => ip,
            None => if !self.bound.ip.is_unspecified() {
                self.bound.ip
            } else {
                match route {
                    Some(ip) => ip,
                    None => IpAddr::V4(0x7f00_0001),
                }
            },
        }
    }
}

/// The local end of the socket that asks the routing table for a source address.
pub fn probe_address(dest: SocketAddr) -> (r: SocketAddr)
    ensures
        r.port == 0,
        r.scope == 0,
        r.ip.unspecified(),
        (r.ip is V6) == (dest.ip is V6),
{
    if dest.ip.is_ipv6() {
        SocketAddr { ip: IpAddr::V6(0), port: 0, scope: 0 }
    } else {
        SocketAddr { ip: IpAddr::V4(0), port: 0, scope: 0 }
    }
}

/// How to reach a URI.
#[derive(Debug)]
pub enum Route {
    /// The host is an address.
    Address(SocketAddr),
    /// The host has to be looked up.
    Lookup { host: String, port: u16 },
}

pub open spec fn is_bracket(c: char) -> bool {
    c == '[' || c == ']'
}

pub open spec fn unbracketed_start(s: Seq<char>) -> Seq<char>
    decreases s.len(),
{
    if s.len() > 0 && is_bracket(s[0]) {
        unbracketed_start(s.skip(1))
    } else {
        s
    }
}

pub open spec fn unbracketed_end(s: Seq<char>) -> Seq<char>
    decreases s.len(),
{
    if s.len() > 0 && is_bracket(s.last()) {
        unbracketed_end(s.drop_last())
    } else {
        s
    }
}

fn unbracket(s: &[char]) -> (r: &[char])
    ensures
        r@ == unbracketed_end(unbracketed_start(s@)),
{
    let mut i: usize = 0;
    assert(s@.skip(0) =~= s@);
    while i < s.len() && (s[i] == '[' || s[i] == ']')
        invariant
            i <= s@.len(),
            unbracketed_start(s@) == unbracketed_start(s@.skip(i as int)),
        decreases s@.len() - i,
    {
        assert(s@.skip(i as int).skip(1) =~= s@.skip(i + 1));
        i += 1;
    }
    let t = text::skip(s, i);
    let mut n: usize = t.len();
    assert(t@.take(n as int) =~= t@);
    while n > 0 && (t[n - 1] == '[' || t[n - 1] == ']')
        invariant
            n <= t@.len(),
            unbracketed_end(t@) == unbracketed_end(t@.take(n as int)),
        decreases n,
    {
        assert(t@.take(n as int).drop_last() =~= t@.take(n - 1));
        n -= 1;
    }
    text::take(t, n)
}

/// Resolve a SIP URI as far as it names an address: A/AAAA and the explicit port, defaulting to
/// 5060.
pub fn resolve_uri(uri: &Uri) -> (r: Route)
    ensures
        ({
            let host = unbracketed_end(unbracketed_start(uri@.host));
            let port = match uri@.port {
                Some(p) => p,
                None => 5060,
            };
            match r {
                Route::Address(a) => net::ip_of(host) == Some(a.ip) && a.port == port && a.scope
                    == 0,
                Route::Lookup { host: h, port: p } => net::ip_of(host).is_none() && h@ == host && p
                    == port,
            }
        }),
{
    let port = match uri.port {
        Some(p) => p,
        None => 5060,
    };
    let c = text::chars_of(uri.host.as_str());
    let host = unbracket(c.as_slice());
    match net::parse_ip_chars(host) {
        Some(ip) => Route::Address(SocketAddr { ip, port, scope: 0 }),
        None => Route::Lookup { host: text::string_of(host), port },
    }
}

} // verus!
