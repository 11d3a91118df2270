//! Optional outbound registration to an upstream registrar (PBX).
//!
//! Keeps retrying forever; a registrar that is down must never take the gateway down with it.
use vstd::prelude::*;

use super::engine;
use super::engine::{Element, SipCore};
use super::message;
use super::message::{Method, Request, Response};
use super::transport;
use super::uri;
use super::uri::{NameAddr, Uri};
use crate::config::Upstream;
use crate::net;
use crate::net::IpAddr;
use crate::text;

verus! {

/// Why a registration did not succeed.
#[derive(Debug, PartialEq, Eq)]
pub enum RegisterError {
    /// The registrar's URI cannot be read.
    InvalidRegistrar,
    /// 423 Interval Too Brief, with no minimum above what was asked for.
    NoUsableMinimum,
    /// The registrar wants a longer registration; its minimum is asked for from now on.
    TooBrief { min: u32 },
    Refused { code: u16, reason: String },
    /// A 200 that grants nothing is a refusal dressed as success.
    ZeroLifetime,
}

impl RegisterError {
    pub fn message(&self) -> (r: String)
        ensures
            r@ == match *self {
                RegisterError::InvalidRegistrar => "invalid registrar URI"@,
                RegisterError::NoUsableMinimum =>
                    "423 Interval Too Brief without a usable Min-Expires"@,
                RegisterError::TooBrief { min } =>
                    "retrying with the registrar's minimum expiry of "@ + text::dec(min as nat)
                    + "s"@,
                RegisterError::Refused { code, reason } => "registrar replied "@ + text::dec(
                    code as nat,
                ) + " "@ + reason@,
                RegisterError::ZeroLifetime => "registrar granted a zero lifetime"@,
            },
    {
        match self {
            RegisterError::InvalidRegistrar => text::owned("invalid registrar URI"),
            RegisterError::NoUsableMinimum => text::owned(
                "423 Interval Too Brief without a usable Min-Expires",
            ),
            RegisterError::TooBrief { min } => {
                let mut out = text::owned("retrying with the registrar's minimum expiry of ");
                text::push_dec(&mut out, *min as u64);
                out.append("s");
                out
            },
            RegisterError::Refused { code, reason } => {
                let mut out = text::owned("registrar replied ");
                text::push_dec(&mut out, *code as u64);
                out.append(" ");
                out.append(reason.as_str());
                out
            },
            RegisterError::ZeroLifetime => text::owned("registrar granted a zero lifetime"),
        }
    }
}

// ------------------------------------------------------------------ timing

/// How long to wait before refreshing a registration, in seconds: about four fifths of the granted
/// lifetime, between five seconds and an hour, but never after the lifetime has lapsed.
pub open spec fn refresh_time(granted: u32) -> nat {
    let wanted = granted as nat * 4 / 5;
    let clamped = if wanted < 5 {
        5
    } else if wanted > 3600 {
        3600
    } else {
        wanted
    };
    let cap = if granted < 2 {
        1
    } else {
        (granted - 1) as nat
    };
    if clamped < cap {
        clamped
    } else {
        cap
    }
}

pub fn refresh_after(granted: u32) -> (r: u64)
    ensures
        r == refresh_time(granted),
{
    let wanted = granted as u64 * 4 / 5;
    // The floor comes first and the cap last, or the floor wins over "inside the lifetime" and a
    // short grant lapses between refreshes.
    let clamped = if wanted < 5 {
        5
    } else if wanted > 3600 {
        3600
    } else {
        wanted
    };
    let cap = if granted < 2 {
        1
    } else {
        granted as u64 - 1
    };
    if clamped < cap {
        clamped
    } else {
        cap
    }
}

/// A registration is refreshed before it lapses, where it lasts at least two seconds, and never in
/// a flood.
pub proof fn law_a_refresh_comes_in_time(granted: u32)
    ensures
        refresh_time(granted) >= 1,
        refresh_time(granted) <= 3600,
        granted >= 2 ==> refresh_time(granted) < granted,
{
}

/// The wait after a failed attempt, and the one after that: they double up to five minutes.
pub open spec fn longer(wait: u64) -> u64 {
    if wait * 2 < 300 {
        (wait * 2) as u64
    } else {
        300
    }
}

/// How the attempts at a registration are paced.
#[derive(Debug, Clone, Copy, PartialEq, Eq, Structural)]
pub struct Pace {
    /// The wait after the next failed attempt, in seconds.
    pub backoff: u64,
}

impl Pace {
    pub open spec fn wf(&self) -> bool {
        2 <= self.backoff <= 300
    }

    pub fn new() -> (r: Self)
        ensures
            r.wf(),
            r.backoff == 2,
    {
        Pace { backoff: 2 }
    }

    /// How long to wait before the next attempt, given what the last one granted.
    pub fn after(&mut self, granted: Option<u32>) -> (r: u64)
        requires
            old(self).wf(),
        ensures
            final(self).wf(),
            match granted {
                Some(n) => r == refresh_time(n) && final(self).backoff == 2,
                None => r == old(self).backoff && final(self).backoff == longer(
                    old(self).backoff,
                ),
            },
    {
        match granted {
            Some(n) => {
                self.backoff = 2;
                refresh_after(n)
            },
            None => {
                let wait = self.backoff;
                self.backoff = if wait * 2 < 300 {
                    wait * 2
                } else {
                    300
                };
                wait
            },
        }
    }
}

// ------------------------------------------------------------------ the request

/// The user part registered.
pub open spec fn aor_user(up: Upstream) -> Seq<char> {
    match up.from_user {
        Some(u) => u@,
        None => up.username@,
    }
}

/// The user part of the contact.
pub open spec fn contact_user(up: Upstream) -> Seq<char> {
    match up.contact_user {
        Some(u) => u@,
        None => aor_user(up),
    }
}

pub open spec fn plain_address(user: Option<Seq<char>>, host: Seq<char>, port: Option<u16>) ->
    uri::Address {
    uri::Address {
        scheme: "sip"@,
        user,
        password: None,
        host,
        port,
        params: seq![],
        headers: seq![],
    }
}

/// The REGISTER for an upstream registrar.
pub open spec fn register_request(
    e: Element,
    up: Upstream,
    registrar: uri::Address,
    call_id: Seq<char>,
    tag: Seq<char>,
    expires: u32,
    route: Option<IpAddr>,
    branch: Seq<char>,
) -> message::Asked {
    let aor = uri::Party {
        display: None,
        uri: plain_address(Some(aor_user(up)), registrar.host, registrar.port),
        params: seq![],
    };
    let base = engine::own_request(
        e.transport,
        e.cfg.user_agent@,
        Method::Register,
        plain_address(None, registrar.host, registrar.port),
        uri::party_with(aor, "tag"@, tag),
        aor,
        call_id,
        e.cseq,
        route,
        false,
        branch,
    );
    let f = message::with_field(
        base.headers,
        "contact"@,
        engine::own_contact(e.transport, route, Some(contact_user(up))),
    );
    let f = message::with_field(f, "expires"@, text::dec(expires as nat));
    message::Asked {
        headers: message::with_field(
            f,
            "allow"@,
            "INVITE, ACK, CANCEL, BYE, OPTIONS, INFO, MESSAGE"@,
        ),
        ..base
    }
}

/// Our contact as the registrar lists it.
pub open spec fn own_binding(e: Element, up: Upstream, route: Option<IpAddr>) -> uri::Address {
    uri::bare_address(
        plain_address(
            Some(contact_user(up)),
            net::ip_text(transport::advertised(e.transport, route)),
            Some(e.transport.bound.port),
        ),
    )
}

/// The registrar that an upstream names.
pub fn registrar_uri(up: &Upstream) -> (r: Result<Uri, RegisterError>)
    ensures
        match r {
            Ok(u) => uri::uri_of(up.registrar@) == Some(u@),
            Err(e) => uri::uri_of(up.registrar@).is_none() && e is InvalidRegistrar,
        },
{
    match Uri::parse(up.registrar.as_str()) {
        Some(u) => Ok(u),
        None => Err(RegisterError::InvalidRegistrar),
    }
}

/// The REGISTER for an upstream registrar, and our contact as the registrar will list it. `route` is
/// the source address towards the registrar and `branch` the random part of the branch.
///
/// RFC 3261 §10.2: every registration for an address of record shares one Call-ID with an increasing
/// CSeq. Registrars that key bindings on the Call-ID accumulate a new binding per refresh otherwise.
pub fn build_register(
    core: &mut SipCore,
    up: &Upstream,
    registrar: &Uri,
    call_id: &str,
    tag: &str,
    expires: u32,
    route: Option<IpAddr>,
    branch: &str,
) -> (r: (Request, Uri))
    requires
        old(core).wf(),
    ensures
        final(core).wf(),
        final(core)@ == (Element {
            cseq: ((old(core)@.cseq + 1) % 0x1_0000_0000) as u32,
            ..old(core)@
        }),
        r.0@ == register_request(
            old(core)@,
            *up,
            registrar@,
            call_id@,
            tag@,
            expires,
            route,
            branch@,
        ),
        r.1@ == own_binding(old(core)@, *up, route),
{
    let user = match &up.from_user {
        Some(u) => text::owned(u.as_str()),
        None => text::owned(up.username.as_str()),
    };
    let aor = Uri::new(Some(user.as_str()), registrar.host.as_str(), registrar.port);
    let to = NameAddr::new(aor);
    let from = to.clone().with_tag(tag);
    let n = core.next_cseq();
    let mut req = core.build_request_with(
        Method::Register,
        Uri::new(None, registrar.host.as_str(), registrar.port),
        &from,
        &to,
        call_id,
        n,
        route,
        false,
        branch,
    );
    let contact_user = match &up.contact_user {
        Some(u) => text::owned(u.as_str()),
        None => user,
    };
    let ip = core.transport.advertised_ip(route);
    let plain = Uri::new(
        Some(contact_user.as_str()),
        net::ip_string(ip).as_str(),
        Some(core.transport.port()),
    );
    let value = core.contact_for(route, &Some(contact_user));
    req.headers.set("contact", value.as_str());
    req.headers.set("expires", text::decimal(expires as u64).as_str());
    req.headers.set("allow", "INVITE, ACK, CANCEL, BYE, OPTIONS, INFO, MESSAGE");
    (req, plain.bare())
}

// ------------------------------------------------------------------ the answer

pub open spec fn number_field(v: Option<Seq<char>>) -> Option<nat> {
    match v {
        Some(v) => text::number(text::trim(v), 0xffff_ffff),
        None => None,
    }
}

/// The first contact of a list that is ours, leaving parameters aside.
pub open spec fn find_own(values: Seq<Seq<char>>, own: uri::Address) -> Option<uri::Party>
    decreases values.len(),
{
    if values.len() == 0 {
        None
    } else {
        match uri::party_of(values[0]) {
            Some(p) => if uri::bare_address(p.uri) == own {
                Some(p)
            } else {
                find_own(values.skip(1), own)
            },
            None => find_own(values.skip(1), own),
        }
    }
}

/// The lifetime that a success grants. A 200 OK lists every binding for the address of record, so the
/// expiry is read from our contact - a co-registered handset's longer lifetime would otherwise let
/// ours lapse. Failing that it is the one of the whole answer, or the one asked for.
pub open spec fn granted_by(resp: message::Answered, own: uri::Address, asked: u32) -> nat {
    let from_contact = match find_own(
        message::values_of(resp.headers, message::canonical_name("contact"@)),
        own,
    ) {
        Some(p) => number_field(uri::pair_value(p.params, "expires"@)),
        None => None,
    };
    match from_contact {
        Some(n) => n,
        None => match number_field(message::field(resp.headers, "expires"@)) {
            Some(n) => n,
            None => asked as nat,
        },
    }
}

/// The minimum a registrar states, where it is above what was asked for.
pub open spec fn usable_minimum(resp: message::Answered, asked: u32) -> Option<nat> {
    match number_field(message::field(resp.headers, "min-expires"@)) {
        Some(n) => if n > asked {
            Some(n)
        } else {
            None
        },
        None => None,
    }
}

fn number_of(v: Option<&str>) -> (r: Option<u32>)
    ensures
        text::opt_nat_u32(r) == number_field(text::opt_str(v)),
{
    match v {
        Some(v) => {
            let v = text::chars_of(v);
            text::parse_u32(text::trimmed(v.as_slice()))
        },
        None => None,
    }
}

fn own_contact_in(values: &Vec<&str>, own: &Uri) -> (r: Option<NameAddr>)
    requires
        uri::bare_address(own@) == own@,
    ensures
        message::opt_party(r) == find_own(Seq::new(values@.len(), |i: int| values@[i]@), own@),
{
    let ghost all = Seq::new(values@.len(), |i: int| values@[i]@);
    let mut i: usize = 0;
    assert(all.skip(0) =~= all);
    while i < values.len()
        invariant
            i <= values@.len(),
            all == Seq::new(values@.len(), |i: int| values@[i]@),
            uri::bare_address(own@) == own@,
            find_own(all.skip(i as int), own@) == find_own(all, own@),
        decreases values@.len() - i,
    {
        assert(all.skip(i as int)[0] == values@[i as int]@);
        assert(all.skip(i as int).skip(1) =~= all.skip(i + 1));
        if let Some(p) = NameAddr::parse(values[i]) {
            if uri::same_target(&p.uri, own) {
                return Some(p);
            }
        }
        i += 1;
    }
    None
}

/// What a registrar granted, in seconds. A registrar with a higher minimum raises what is asked for.
///
/// RFC 3261 §10.2.8: the registrar states its minimum in Min-Expires and expects the request again
/// with at least that.
pub fn register_once(resp: &Response, own: &Uri, expires: &mut u32) -> (r: Result<
    u32,
    RegisterError,
>)
    requires
        uri::bare_address(own@) == own@,
    ensures
        ({
            let asked = *old(expires);
            let min = usable_minimum(resp@, asked);
            let granted = granted_by(resp@, own@, asked);
            if resp@.code == 423 {
                match min {
                    Some(n) => r == Err::<u32, _>(RegisterError::TooBrief { min: n as u32 })
                        && *final(expires) == n,
                    None => r == Err::<u32, _>(RegisterError::NoUsableMinimum) && *final(expires)
                        == asked,
                }
            } else {
                &&& *final(expires) == asked
                &&& if !(200 <= resp@.code < 300) {
                    match r {
                        Err(RegisterError::Refused { code, reason }) => code == resp@.code
                            && reason@ == resp@.reason,
                        _ => false,
                    }
                } else if granted == 0 {
                    r == Err::<u32, _>(RegisterError::ZeroLifetime)
                } else {
                    r == Ok::<_, RegisterError>(granted as u32)
                }
            }
        }),
{
    if resp.code == 423 {
        return match number_of(resp.headers.get("min-expires")) {
            Some(min) => if min > *expires {
                *expires = min;
                Err(RegisterError::TooBrief { min })
            } else {
                Err(RegisterError::NoUsableMinimum)
            },
            None => Err(RegisterError::NoUsableMinimum),
        };
    }
    if !resp.is_success() {
        return Err(
            RegisterError::Refused {
                code: resp.code,
                reason: text::owned(resp.reason.as_str()),
            },
        );
    }
    let values = resp.headers.get_all("contact");
    let from_contact = match own_contact_in(&values, own) {
        Some(c) => number_of(c.param("expires")),
        None => None,
    };
    let granted = match from_contact {
        Some(n) => n,
        None => match number_of(resp.headers.get("expires")) {
            Some(n) => n,
            None => *expires,
        },
    };
    if granted == 0 {
        Err(RegisterError::ZeroLifetime)
    } else {
        Ok(granted)
    }
}

/// A registrar that states a minimum gets it: the same answer no longer finds it too brief.
pub proof fn law_a_minimum_is_adopted(resp: message::Answered, asked: u32)
    requires
        usable_minimum(resp, asked).is_some(),
    ensures
        usable_minimum(resp, asked).unwrap() > asked,
        usable_minimum(resp, asked).unwrap() <= u32::MAX,
        usable_minimum(resp, usable_minimum(resp, asked).unwrap() as u32).is_none(),
{
}

} // verus!
