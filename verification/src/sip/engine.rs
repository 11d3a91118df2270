//! The SIP element: what it answers itself, what it hands on, and what it remembers.
//!
//! Requests that belong to the gateway (INVITE, ACK, BYE, CANCEL, INFO, MESSAGE) are handed on;
//! REGISTER and OPTIONS are answered here. The sockets and timers are the caller's: every operation
//! takes the time it happens at, in milliseconds of a clock that never goes back.
use vstd::prelude::*;

use super::auth;
use super::auth::{Credentials, NonceFactory};
use super::message;
use super::message::{Fields, Headers, Message, Method, Request, Response, Via};
use super::registrar;
use super::registrar::{Binding, Registrar};
use super::transport;
use super::transport::{Route, Transport};
use super::txn;
use super::txn::{Claim, ServerTxn};
use super::uri;
use super::uri::{NameAddr, Uri};
use crate::config::Sip;
use crate::net;
use crate::net::{IpAddr, SocketAddr};
use crate::table::Table;
use crate::text;

verus! {

/// How long the use of a nonce is remembered.
pub const NONCE_MEMORY: u64 = 600_000;

/// Longest registration this registrar hands out, whatever the user agent asks for.
pub const MAX_REGISTER_EXPIRES: u32 = 3600;

/// How old a nonce may be, in seconds.
pub const NONCE_AGE: i64 = 300;

/// Requests the gateway state machine has to deal with.
#[derive(Debug)]
pub enum SipEvent {
    Request { req: Request, src: SocketAddr },
}

/// The state of the SIP element.
#[derive(Debug)]
pub struct SipCore {
    pub cfg: Sip,
    pub transport: Transport,
    pub registrar: Registrar,
    pub nonce: NonceFactory,
    /// The method each outstanding client transaction sent, by branch. A CANCEL reuses the branch
    /// of the INVITE it cancels, so the branch alone does not identify a response.
    pub client_txns: Table<Method>,
    /// Server transactions, by branch, sequence number and method.
    pub server_cache: Table<ServerTxn>,
    /// Highest nonce-count seen per issued nonce, and when the nonce was first used, so a captured
    /// Authorization header cannot simply be replayed.
    pub nonce_seen: Table<(u32, u64)>,
    /// 2xx answers to an INVITE that are still waiting for their ACK, by Call-ID and the INVITE's
    /// sequence number. The number names the retransmission timer.
    pub pending_ack: Table<u64>,
    /// Whether the modem is usable right now; drives 503 responses.
    pub modem_ready: bool,
    pub cseq: u32,
    /// The number the next retransmission timer gets.
    pub timers: u64,
}

/// The state of the SIP element, mathematically.
#[verifier::ext_equal]
pub struct Element {
    pub cfg: Sip,
    pub transport: Transport,
    pub bindings: Seq<registrar::Bound>,
    pub secret: Seq<char>,
    pub clients: Map<Seq<char>, Method>,
    pub txns: Map<Seq<char>, txn::Txn>,
    pub seen: Map<Seq<char>, (u32, u64)>,
    pub pending: Map<Seq<char>, u64>,
    pub modem_ready: bool,
    pub cseq: u32,
    pub timers: u64,
}

impl View for SipCore {
    type V = Element;

    open spec fn view(&self) -> Element {
        Element {
            cfg: self.cfg,
            transport: self.transport,
            bindings: self.registrar@,
            secret: self.nonce.secret(),
            clients: self.client_txns@,
            txns: txn::txns(self.server_cache@),
            seen: self.nonce_seen@,
            pending: self.pending_ack@,
            modem_ready: self.modem_ready,
            cseq: self.cseq,
            timers: self.timers,
        }
    }
}

/// A configured public address that is none.
#[derive(Debug, PartialEq, Eq)]
pub struct BadPublicIp;

impl BadPublicIp {
    pub fn message(&self) -> (r: &'static str)
        ensures
            r@ == "sip.public_ip is not an IP address"@,
    {
        "sip.public_ip is not an IP address"
    }
}

/// The configured public address; the outer option is none where it is not an address.
pub open spec fn public_ip_of(cfg: Sip) -> Option<Option<IpAddr>> {
    match cfg.public_ip {
        Some(s) => match net::ip_of(s@) {
            Some(ip) => Some(Some(ip)),
            None => None,
        },
        None => Some(None),
    }
}

/// The realm and default host: the configured one or the bound address.
pub open spec fn domain_of(e: Element) -> Seq<char> {
    match e.cfg.domain {
        Some(d) => d@,
        None => net::ip_text(e.transport.bound.ip),
    }
}

impl SipCore {
    pub open spec fn wf(&self) -> bool {
        self.client_txns.wf() && self.server_cache.wf() && self.nonce_seen.wf()
            && self.pending_ack.wf()
    }

    pub fn new(cfg: Sip, bound: SocketAddr, modem_ready: bool) -> (r: Result<SipCore, BadPublicIp>)
        ensures
            match r {
                Ok(c) => {
                    &&& c.wf()
                    &&& public_ip_of(cfg) == Some(c@.transport.public_ip)
                    &&& auth::is_hex_text(c@.secret, 16)
                    &&& c@ == (Element {
                        cfg,
                        transport: Transport { bound, public_ip: c@.transport.public_ip },
                        bindings: seq![],
                        secret: c@.secret,
                        clients: Map::empty(),
                        txns: Map::empty(),
                        seen: Map::empty(),
                        pending: Map::empty(),
                        modem_ready,
                        cseq: 1,
                        timers: 0,
                    })
                },
                Err(_) => public_ip_of(cfg).is_none(),
            },
    {
        let public_ip = match &cfg.public_ip {
            Some(s) => match net::parse_ip(s.as_str()) {
                Some(ip) => Some(ip),
                None => {
                    return Err(BadPublicIp);
                },
            },
            None => None,
        };
        let c = SipCore {
            cfg,
            transport: Transport { bound, public_ip },
            registrar: Registrar::new(),
            nonce: NonceFactory::new(),
            client_txns: Table::new(),
            server_cache: Table::new(),
            nonce_seen: Table::new(),
            pending_ack: Table::new(),
            modem_ready,
            cseq: 1,
            timers: 0,
        };
        assert(c@.txns =~= Map::<Seq<char>, txn::Txn>::empty());
        Ok(c)
    }

    pub fn modem_ready(&self) -> (r: bool)
        ensures
            r == self@.modem_ready,
    {
        self.modem_ready
    }

    /// The next sequence number, wrapping round after the last.
    pub fn next_cseq(&mut self) -> (r: u32)
        ensures
            r == old(self)@.cseq,
            final(self)@ == (Element { cseq: ((r + 1) % 0x1_0000_0000) as u32, ..old(self)@ }),
            old(self).wf() ==> final(self).wf(),
    {
        let n = self.cseq;
        self.cseq = if n == 0xffff_ffff {
            0
        } else {
            n + 1
        };
        n
    }

    pub fn domain(&self) -> (r: String)
        ensures
            r@ == domain_of(self@),
    {
        match &self.cfg.domain {
            Some(d) => text::owned(d.as_str()),
            None => net::ip_string(self.transport.bound.ip),
        }
    }
}

// ------------------------------------------------------------------ responses

/// A response to a request: what the request dictates, our name, and a To tag.
pub open spec fn response_for(
    user_agent: Seq<char>,
    req: message::Asked,
    code: u16,
    reason: Option<Seq<char>>,
    tag: Seq<char>,
) -> message::Answered {
    let base = message::reply_to(
        req,
        code,
        match reason {
            Some(t) => t,
            None => message::phrase(code),
        },
    );
    let f = message::with_field(base.headers, "user-agent"@, user_agent);
    message::Answered {
        headers: match message::party_field(f, "to"@) {
            Some(t) => if code != 100 && uri::pair_value(t.params, "tag"@).is_none() {
                message::with_field(f, "to"@, uri::party_text(uri::party_with(t, "tag"@, tag)))
            } else {
                f
            },
            None => f,
        },
        ..base
    }
}

pub open spec fn annotated(via: message::Hop, src: SocketAddr) -> message::Hop {
    let a = message::Hop {
        params: uri::without_param(via.params, "received"@).push(
            ("received"@, Some(net::ip_text(src.ip))),
        ),
        ..via
    };
    if uri::find_param(a.params, "rport"@).is_some() {
        message::Hop {
            params: uri::without_param(a.params, "rport"@).push(
                ("rport"@, Some(text::dec(src.port as nat))),
            ),
            ..a
        }
    } else {
        a
    }
}

/// The topmost Via with the source reflected (RFC 3581). One field may hold several comma separated
/// values, and only the first of them is ours to annotate.
pub open spec fn reflected(raw: Seq<char>, src: SocketAddr) -> Option<Seq<char>> {
    match text::split_once(raw, ',') {
        Some((first, rest)) => match message::via_of(first) {
            Some(v) => Some(message::via_text(annotated(v, src)) + ","@ + rest),
            None => None,
        },
        None => match message::via_of(raw) {
            Some(v) => Some(message::via_text(annotated(v, src))),
            None => None,
        },
    }
}

/// The contact of this element for a user.
pub open spec fn own_contact(t: Transport, route: Option<IpAddr>, user: Option<Seq<char>>) -> Seq<
    char,
> {
    uri::party_text(
        uri::Party {
            display: None,
            uri: uri::Address {
                scheme: "sip"@,
                user,
                password: None,
                host: net::ip_text(transport::advertised(t, route)),
                port: Some(t.bound.port),
                params: seq![("transport"@, Some("udp"@))],
                headers: seq![],
            },
            params: seq![],
        },
    )
}

/// A response as it is sent: the source reflected in the Via, and a contact where it needs one.
pub open spec fn sent_response(
    t: Transport,
    req: message::Asked,
    resp: message::Answered,
    src: SocketAddr,
    route: Option<IpAddr>,
) -> message::Answered {
    let f = match message::field(resp.headers, "via"@) {
        Some(raw) => match reflected(raw, src) {
            Some(v) => message::replaced_field(resp.headers, "via"@, v),
            None => resp.headers,
        },
        None => resp.headers,
    };
    message::Answered {
        headers: if message::field(f, "contact"@).is_none() && resp.code < 300 && resp.code != 100 {
            message::with_field(f, "contact"@, own_contact(t, route, req.uri.user))
        } else {
            f
        },
        ..resp
    }
}

/// The transactions once a response went out: a final one completes its transaction, a provisional
/// one is kept while the request is being handled.
pub open spec fn after_response(
    m: Map<Seq<char>, txn::Txn>,
    req: message::Asked,
    code: u16,
    bytes: Seq<u8>,
    now: u64,
) -> Map<Seq<char>, txn::Txn> {
    match txn::txn_key_of(req) {
        Some(k) => if code >= 200 {
            m.insert(k, txn::Txn::Completed { bytes, at: now })
        } else if m.contains_key(k) {
            match m[k] {
                txn::Txn::InProgress { since, .. } => m.insert(
                    k,
                    txn::Txn::InProgress { since, provisional: Some(bytes) },
                ),
                txn::Txn::Completed { .. } => m,
            }
        } else {
            m
        },
        None => m,
    }
}

/// The key under which a response waits for its ACK.
pub open spec fn awaits_ack(req: message::Asked, code: u16) -> Option<Seq<char>> {
    if req.method == Method::Invite && 200 <= code < 300 {
        txn::dialog_key_of(req)
    } else {
        None
    }
}

/// A datagram to send, with the retransmission that goes with it.
#[derive(Debug)]
pub struct Outgoing {
    pub bytes: Vec<u8>,
    /// Repeat the datagram until its ACK comes: the key and the number of the timer to start.
    pub repeat: Option<(String, u64)>,
    /// The number of a timer that this one replaces.
    pub stop: Option<u64>,
}

/// The state once a response went out.
pub open spec fn responded(
    e: Element,
    req: message::Asked,
    resp: message::Answered,
    src: SocketAddr,
    route: Option<IpAddr>,
    now: u64,
) -> Element {
    let bytes = message::response_bytes(sent_response(e.transport, req, resp, src, route));
    Element {
        txns: after_response(e.txns, req, resp.code, bytes, now),
        pending: match awaits_ack(req, resp.code) {
            Some(k) => e.pending.insert(k, e.timers),
            None => e.pending,
        },
        timers: match awaits_ack(req, resp.code) {
            Some(_) => ((e.timers + 1) % 0x1_0000_0000_0000_0000) as u64,
            None => e.timers,
        },
        ..e
    }
}

/// What goes out for a response.
pub open spec fn is_outgoing(
    o: Outgoing,
    e: Element,
    req: message::Asked,
    resp: message::Answered,
    src: SocketAddr,
    route: Option<IpAddr>,
) -> bool {
    &&& o.bytes@ == message::response_bytes(sent_response(e.transport, req, resp, src, route))
    &&& match (o.repeat, awaits_ack(req, resp.code)) {
        (Some((k, n)), Some(key)) => k@ == key && n == e.timers,
        (None, None) => true,
        _ => false,
    }
    &&& o.stop == match awaits_ack(req, resp.code) {
        Some(k) => if e.pending.contains_key(k) {
            Some(e.pending[k])
        } else {
            None
        },
        None => None,
    }
}

fn reflect(raw: &str, src: SocketAddr) -> (r: Option<String>)
    ensures
        text::opt_text(r) == reflected(raw@, src),
{
    let c = text::chars_of(raw);
    let (first, rest) = match text::cut(c.as_slice(), ',') {
        Some((a, b)) => (text::string_of(a), Some(text::string_of(b))),
        None => (text::owned(raw), None),
    };
    match Via::parse(first.as_str()) {
        Some(v) => {
            let mut via = v;
            via.set_param("received", Some(net::ip_string(src.ip).as_str()));
            if via.has_param("rport") {
                via.set_param("rport", Some(text::decimal(src.port as u64).as_str()));
            }
            let mut out = via.to_string();
            if let Some(rest) = rest {
                out.append(",");
                out.append(rest.as_str());
            }
            Some(out)
        },
        None => None,
    }
}

fn borrowed(v: &Option<String>) -> (r: Option<&str>)
    ensures
        text::opt_str(r) == text::opt_text(*v),
{
    match v {
        Some(s) => Some(s.as_str()),
        None => None,
    }
}

impl SipCore {
    /// The contact of this element, as a header value.
    pub(crate) fn contact_for(&self, route: Option<IpAddr>, user: &Option<String>) -> (r: String)
        ensures
            r@ == own_contact(self.transport, route, text::opt_text(*user)),
    {
        let ip = self.transport.advertised_ip(route);
        let mut c = Uri::new(
            borrowed(user),
            net::ip_string(ip).as_str(),
            Some(self.transport.port()),
        );
        c.set_param("transport", Some("udp"));
        assert(c@.params =~= seq![("transport"@, Some("udp"@))]);
        NameAddr::new(c).to_string()
    }

    /// A response to a request, with the tag to put into its To.
    ///
    /// RFC 3261 §8.2.6.2: every response except a 100 Trying carries a To tag - it is half of what
    /// identifies the dialog, and peers that take that seriously reject a final response without
    /// one. A call the gateway tracks overwrites this with the tag it stored for the dialog.
    pub fn make_response_with(&self, req: &Request, code: u16, reason: Option<&str>, tag: &str) -> (r:
        Response)
        ensures
            r@ == response_for(self@.cfg.user_agent@, req@, code, text::opt_str(reason), tag@),
    {
        let reason = match reason {
            Some(t) => t,
            None => message::reason_phrase(code),
        };
        let mut resp = req.reply(code, reason);
        resp.headers.set("user-agent", self.cfg.user_agent.as_str());
        if code != 100 {
            if let Some(to) = resp.headers.to() {
                if to.tag().is_none() {
                    resp.headers.set("to", to.with_tag(tag).to_string().as_str());
                }
            }
        }
        resp
    }

    pub fn make_response(&self, req: &Request, code: u16, reason: Option<&str>) -> (r: Response)
        ensures
            exists|tag: Seq<char>|
                auth::is_hex_text(tag, 6) && r@ == #[trigger] response_for(
                    self@.cfg.user_agent@,
                    req@,
                    code,
                    text::opt_str(reason),
                    tag,
                ),
    {
        let tag = auth::random_hex(6);
        self.make_response_with(req, code, reason, tag.as_str())
    }

    /// Prepare a response for sending, applying rport/received and remembering it so that request
    /// retransmissions can be answered without re-running logic.
    ///
    /// RFC 3261 §13.3.1.4: the 2xx that answers an INVITE is the one response nothing else will
    /// recover, so it is repeated until the ACK comes.
    pub fn respond(
        &mut self,
        req: &Request,
        src: SocketAddr,
        resp: Response,
        route: Option<IpAddr>,
        now: u64,
    ) -> (r: Outgoing)
        requires
            old(self).wf(),
        ensures
            final(self).wf(),
            final(self)@ == responded(old(self)@, req@, resp@, src, route, now),
            is_outgoing(r, old(self)@, req@, resp@, src, route),
    {
        let mut resp = resp;
        let ghost before = resp@;
        let reflected_via = match resp.headers.get("via") {
            Some(raw) => reflect(raw, src),
            None => None,
        };
        if let Some(v) = reflected_via {
            resp.headers.replace_first("via", v.as_str());
        }
        if resp.headers.get("contact").is_none() && resp.code < 300 && resp.code != 100 {
            let c = self.contact_for(route, &req.uri.user);
            resp.headers.set("contact", c.as_str());
        }
        assert(resp@ =~= sent_response(self.transport, req@, before, src, route));
        let bytes = resp.encode();
        let ghost cache = self.server_cache@;
        if let Some(key) = txn::txn_key(req) {
            if resp.code >= 200 {
                self.server_cache.insert(
                    key.as_str(),
                    ServerTxn::Completed {
                        bytes: vstd::slice::slice_to_vec(bytes.as_slice()),
                        at: now,
                    },
                );
            } else {
                let started = match self.server_cache.get(key.as_str()) {
                    Some(ServerTxn::InProgress { since, .. }) => Some(*since),
                    _ => None,
                };
                if let Some(since) = started {
                    self.server_cache.insert(
                        key.as_str(),
                        ServerTxn::InProgress {
                            since,
                            provisional: Some(vstd::slice::slice_to_vec(bytes.as_slice())),
                        },
                    );
                }
            }
        }
        assert(txn::txns(self.server_cache@) =~= after_response(
            txn::txns(cache),
            req@,
            resp.code,
            bytes@,
            now,
        ));
        let mut repeat: Option<(String, u64)> = None;
        let mut stop: Option<u64> = None;
        if req.method == Method::Invite && resp.code >= 200 && resp.code < 300 {
            if let Some(key) = txn::dialog_key(req) {
                // A re-INVITE answered while the first 2xx is still unacknowledged replaces it:
                // only the newest answer is worth repeating.
                stop = match self.pending_ack.get(key.as_str()) {
                    Some(n) => Some(*n),
                    None => None,
                };
                let n = self.timers;
                self.pending_ack.insert(key.as_str(), n);
                self.timers = if n == 0xffff_ffff_ffff_ffff {
                    0
                } else {
                    n + 1
                };
                repeat = Some((key, n));
            }
        }
        Outgoing { bytes, repeat, stop }
    }
}

// ------------------------------------------------------------------ nonces

/// The credentials are counted: they were made with `qop=auth`, so that the digest covers the count.
pub open spec fn is_counted(c: auth::Shown) -> bool {
    c.qop.is_some() && text::eq_nocase(c.qop.unwrap(), "auth"@)
}

/// The nonce count of credentials; zero where there is none. A count that the digest does not cover
/// is anybody's claim and counts for nothing.
pub open spec fn count_of(c: auth::Shown) -> nat {
    if is_counted(c) && c.nc.is_some() {
        match text::hex_number(text::trim(c.nc.unwrap()), 0xffff_ffff) {
            Some(n) => n,
            None => 0,
        }
    } else {
        0
    }
}

/// A use of a nonce that was not seen before.
pub open spec fn is_unused(seen: Map<Seq<char>, (u32, u64)>, c: auth::Shown) -> bool {
    !seen.contains_key(c.nonce) || count_of(c) > seen[c.nonce].0
}

/// The uses seen once these credentials were used.
pub open spec fn after_use(seen: Map<Seq<char>, (u32, u64)>, c: auth::Shown, now: u64) -> Map<
    Seq<char>,
    (u32, u64),
> {
    if !seen.contains_key(c.nonce) {
        seen.insert(c.nonce, (count_of(c) as u32, now))
    } else if is_unused(seen, c) {
        seen.insert(c.nonce, (count_of(c) as u32, seen[c.nonce].1))
    } else {
        seen
    }
}

fn nonce_count(c: &Credentials) -> (r: u32)
    ensures
        r == count_of(c@),
{
    let counted = match &c.qop {
        Some(q) => text::str_is_nocase(q.as_str(), "auth"),
        None => false,
    };
    if !counted {
        return 0;
    }
    match &c.nc {
        Some(v) => {
            let v = text::chars_of(v.as_str());
            match text::parse_hex(text::trimmed(v.as_slice()), 0xffff_ffff) {
                Some(n) => n as u32,
                None => 0,
            }
        },
        None => 0,
    }
}

impl SipCore {
    /// Consume one use of the nonce in the credentials.
    ///
    /// Digest over UDP is otherwise trivially replayable: the whole `Authorization` header can be
    /// lifted off the wire and pasted onto a different request until the nonce ages out. With
    /// `qop=auth` the client supplies a counter, so each value is accepted once and never again;
    /// without one the nonce itself becomes single-use.
    pub fn claim_nonce(&mut self, creds: &Credentials, now: u64) -> (r: bool)
        requires
            old(self).wf(),
        ensures
            final(self).wf(),
            r == is_unused(old(self)@.seen, creds@),
            final(self)@ == (Element {
                seen: after_use(old(self)@.seen, creds@, now),
                ..old(self)@
            }),
    {
        let nc = nonce_count(creds);
        let first = match self.nonce_seen.get(creds.nonce.as_str()) {
            Some((highest, t)) => if nc > *highest {
                *t
            } else {
                return false;
            },
            None => now,
        };
        self.nonce_seen.insert(creds.nonce.as_str(), (nc, first));
        true
    }
}

/// Credentials that were used are never good for another use, whatever else is used in between.
pub proof fn law_a_use_is_accepted_once(
    seen: Map<Seq<char>, (u32, u64)>,
    c: auth::Shown,
    d: auth::Shown,
    now: u64,
    later: u64,
)
    ensures
        count_of(c) <= 0xffff_ffff,
        !is_unused(after_use(seen, c, now), c),
        !is_unused(seen, c) ==> !is_unused(after_use(seen, d, later), c),
{
    if let Some(v) = c.nc {
        assert(text::hex_number(text::trim(v), 0xffff_ffff).is_some() ==> count_of(c)
            <= 0xffff_ffff);
    }
    if let Some(v) = d.nc {
        assert(text::hex_number(text::trim(v), 0xffff_ffff).is_some() ==> count_of(d)
            <= 0xffff_ffff);
    }
}

/// Without a count a nonce is accepted once: whatever number a header claims, it is not let in on a
/// nonce that was used before. With one, it is let in only on a higher count than every one before.
pub proof fn law_an_uncounted_nonce_is_accepted_once(
    seen: Map<Seq<char>, (u32, u64)>,
    c: auth::Shown,
    d: auth::Shown,
    now: u64,
)
    requires
        c.nonce == d.nonce,
    ensures
        !is_counted(d) ==> !is_unused(after_use(seen, c, now), d),
        is_unused(after_use(seen, c, now), d) ==> count_of(d) > count_of(c),
{
    law_a_use_is_accepted_once(seen, c, d, now, now);
}

// ------------------------------------------------------------------ authentication

/// Whether a request may proceed.
#[derive(Debug, Clone, Copy, PartialEq, Eq, Structural)]
pub enum Access {
    Granted,
    /// Ask for credentials. `stale` means that the credentials were right and only the nonce was
    /// not, which tells a user agent to retry silently instead of asking for a password it has.
    Challenge { stale: bool },
}

/// The request names the dialog it belongs to.
pub open spec fn has_to_tag(req: message::Asked) -> bool {
    match message::party_field(req.headers, "to"@) {
        Some(t) => uri::pair_value(t.params, "tag"@).is_some(),
        None => false,
    }
}

/// Requests that need no credentials of their own: all where none are configured, a CANCEL, which
/// stands on the INVITE it matches (RFC 3261 §22.1), and a BYE or INFO inside a dialog.
pub open spec fn needs_no_credentials(cfg: Sip, req: message::Asked) -> bool {
    cfg.auth.is_none() || req.method == Method::Cancel || has_to_tag(req) && (req.method
        == Method::Bye || req.method == Method::Info)
}

/// The credentials a request shows.
pub open spec fn shown(req: message::Asked) -> Option<auth::Shown> {
    match message::field(req.headers, "authorization"@) {
        Some(v) => auth::credentials_of(v),
        None => None,
    }
}

/// The URI that the digest covers is the one addressed: the Request-URI, or the URI of the To.
/// Compared as parsed URIs, not as strings: user agents differ on scheme case and on which
/// parameters they carry.
pub open spec fn covers_request(c: auth::Shown, req: message::Asked) -> bool {
    match uri::uri_of(c.uri) {
        Some(u) => uri::bare_address(u) == uri::bare_address(req.uri)
            || match message::party_field(req.headers, "to"@) {
            Some(t) => uri::bare_address(u) == uri::bare_address(t.uri),
            None => false,
        },
        None => false,
    }
}

/// The credentials are right for this request, leaving the nonce aside.
pub open spec fn credentials_right(e: Element, c: auth::Shown, req: message::Asked) -> bool {
    match e.cfg.auth {
        Some(a) => c.username == a.username@ && c.realm == domain_of(e) && covers_request(c, req)
            && auth::verifies(c, a.password@, message::method_text(req.method), req.body),
        None => false,
    }
}

/// The nonce is one of ours, young enough, and this use of it was not seen.
pub open spec fn nonce_good(e: Element, c: auth::Shown, unix: int) -> bool {
    auth::nonce_valid(c.nonce, e.secret, NONCE_AGE as int, unix) && is_unused(e.seen, c)
}

pub open spec fn access_of(e: Element, req: message::Asked, unix: int) -> Access {
    if needs_no_credentials(e.cfg, req) {
        Access::Granted
    } else {
        match shown(req) {
            Some(c) => if !credentials_right(e, c, req) {
                Access::Challenge { stale: false }
            } else if !nonce_good(e, c, unix) {
                Access::Challenge { stale: true }
            } else {
                Access::Granted
            },
            None => Access::Challenge { stale: false },
        }
    }
}

/// Using a nonce is what consumes it, and it happens for credentials that are right alone.
pub open spec fn after_access(e: Element, req: message::Asked, now: u64, unix: int) -> Element {
    match shown(req) {
        Some(c) => if !needs_no_credentials(e.cfg, req) && credentials_right(e, c, req)
            && auth::nonce_valid(c.nonce, e.secret, NONCE_AGE as int, unix) {
            Element { seen: after_use(e.seen, c, now), ..e }
        } else {
            e
        },
        None => e,
    }
}

pub open spec fn challenge_value(realm: Seq<char>, nonce: Seq<char>, stale: bool) -> Seq<char> {
    let base = "Digest realm=\""@ + realm + "\", nonce=\""@ + nonce
        + "\", algorithm=MD5, qop=\"auth\""@;
    if stale {
        base + ", stale=true"@
    } else {
        base
    }
}

/// The 401 that asks for credentials.
pub open spec fn challenge_for(
    e: Element,
    req: message::Asked,
    stale: bool,
    unix: int,
    tag: Seq<char>,
) -> message::Answered {
    let base = response_for(e.cfg.user_agent@, req, 401, None, tag);
    message::Answered {
        headers: message::with_field(
            base.headers,
            "www-authenticate"@,
            challenge_value(domain_of(e), auth::nonce_text(unix, e.secret), stale),
        ),
        ..base
    }
}

fn to_has_tag(req: &Request) -> (r: bool)
    ensures
        r == has_to_tag(req@),
{
    match req.headers.to() {
        Some(t) => t.tag().is_some(),
        None => false,
    }
}

fn addresses_request(c: &Credentials, req: &Request) -> (r: bool)
    ensures
        r == covers_request(c@, req@),
{
    match Uri::parse(c.uri.as_str()) {
        Some(u) => uri::same_target(&u, &req.uri) || match req.headers.to() {
            Some(t) => uri::same_target(&u, &t.uri),
            None => false,
        },
        None => false,
    }
}

impl SipCore {
    /// Whether a request may proceed, at a time of the clock and a Unix time in seconds.
    pub fn check_auth(&mut self, req: &Request, now: u64, unix: i64) -> (r: Access)
        requires
            old(self).wf(),
        ensures
            final(self).wf(),
            r == access_of(old(self)@, req@, unix as int),
            final(self)@ == after_access(old(self)@, req@, now, unix as int),
    {
        let domain = self.domain();
        let (user, password) = match &self.cfg.auth {
            Some(a) => (text::owned(a.username.as_str()), text::owned(a.password.as_str())),
            None => {
                return Access::Granted;
            },
        };
        if req.method == Method::Cancel {
            return Access::Granted;
        }
        if to_has_tag(req) && (req.method == Method::Bye || req.method == Method::Info) {
            return Access::Granted;
        }
        let provided = match req.headers.get("authorization") {
            Some(v) => Credentials::parse(v),
            None => None,
        };
        let c = match provided {
            Some(c) => c,
            None => {
                return Access::Challenge { stale: false };
            },
        };
        let right = text::str_is(c.username.as_str(), user.as_str()) && text::str_is(
            c.realm.as_str(),
            domain.as_str(),
        ) && addresses_request(&c, req) && auth::verify(
            &c,
            password.as_str(),
            req.method.as_str(),
            req.body.as_slice(),
        );
        if !right {
            return Access::Challenge { stale: false };
        }
        let valid = self.nonce.is_valid_at(c.nonce.as_str(), NONCE_AGE, unix);
        if valid && self.claim_nonce(&c, now) {
            Access::Granted
        } else {
            Access::Challenge { stale: true }
        }
    }

    /// The 401 that asks for credentials, with a nonce issued at a Unix time.
    pub fn challenge_with(&self, req: &Request, stale: bool, unix: i64, tag: &str) -> (r: Response)
        ensures
            r@ == challenge_for(self@, req@, stale, unix as int, tag@),
    {
        let mut resp = self.make_response_with(req, 401, None, tag);
        let mut v = text::owned("Digest realm=\"");
        v.append(self.domain().as_str());
        v.append("\", nonce=\"");
        v.append(self.nonce.issue_at(unix).as_str());
        v.append("\", algorithm=MD5, qop=\"auth\"");
        if stale {
            v.append(", stale=true");
        }
        resp.headers.set("www-authenticate", v.as_str());
        resp
    }
}

/// A request that was let in on its credentials is not let in again on the same ones.
pub proof fn law_credentials_let_in_once(
    e: Element,
    req: message::Asked,
    again: message::Asked,
    now: u64,
    unix: int,
    later: int,
)
    requires
        access_of(e, req, unix) == Access::Granted,
        !needs_no_credentials(e.cfg, req),
        !needs_no_credentials(e.cfg, again),
        message::field(again.headers, "authorization"@) == message::field(
            req.headers,
            "authorization"@,
        ),
    ensures
        access_of(after_access(e, req, now, unix), again, later) is Challenge,
{
    let c = shown(req).unwrap();
    law_a_use_is_accepted_once(e.seen, c, c, now, now);
}

/// Once a request was let in on a nonce, no other is let in on it without a count of its own: a
/// captured header is of no use whatever number is put into it.
pub proof fn law_a_captured_header_is_not_let_in(
    e: Element,
    req: message::Asked,
    again: message::Asked,
    now: u64,
    unix: int,
    later: int,
)
    requires
        access_of(e, req, unix) == Access::Granted,
        !needs_no_credentials(e.cfg, req),
        !needs_no_credentials(e.cfg, again),
        shown(again).is_some(),
        shown(again).unwrap().nonce == shown(req).unwrap().nonce,
        !is_counted(shown(again).unwrap()) || count_of(shown(again).unwrap()) <= count_of(
            shown(req).unwrap(),
        ),
    ensures
        access_of(after_access(e, req, now, unix), again, later) is Challenge,
{
    law_an_uncounted_nonce_is_accepted_once(e.seen, shown(req).unwrap(), shown(again).unwrap(), now);
}

/// Wrong credentials use up no nonce: the legitimate client can still use it.
pub proof fn law_wrong_credentials_use_nothing(
    e: Element,
    req: message::Asked,
    now: u64,
    unix: int,
)
    requires
        shown(req).is_some() ==> !credentials_right(e, shown(req).unwrap(), req),
    ensures
        after_access(e, req, now, unix) == e,
{
}

/// Credentials are good for one address alone: shown with a request for another, or for another
/// realm, they are challenged, so a captured header cannot be moved onto a different request.
pub proof fn law_credentials_are_for_their_request(
    e: Element,
    c: auth::Shown,
    req: message::Asked,
    unix: int,
)
    requires
        !needs_no_credentials(e.cfg, req),
        shown(req) == Some(c),
        !covers_request(c, req) || c.realm != domain_of(e),
    ensures
        access_of(e, req, unix) == (Access::Challenge { stale: false }),
{
}

// ------------------------------------------------------------------ registration

/// An entry of a contact list, unless it is empty.
pub open spec fn entry(s: Seq<char>) -> Seq<Seq<char>> {
    if text::trim(s).len() == 0 {
        seq![]
    } else {
        seq![text::trim(s)]
    }
}

/// The entries of a contact list from inside an entry: what was read of it, and whether an angle
/// bracket or a quotation mark is open.
pub open spec fn contacts_from(s: Seq<char>, read: Seq<char>, angle: bool, quote: bool) -> Seq<
    Seq<char>,
>
    decreases s.len(),
{
    if s.len() == 0 {
        entry(read)
    } else if s[0] == ',' && !angle && !quote {
        entry(read) + contacts_from(s.skip(1), seq![], false, false)
    } else {
        contacts_from(
            s.skip(1),
            read.push(s[0]),
            if s[0] == '<' && !quote {
                true
            } else if s[0] == '>' && !quote {
                false
            } else {
                angle
            },
            if s[0] == '"' && !angle {
                !quote
            } else {
                quote
            },
        )
    }
}

/// The comma separated entries of a Contact field, trimmed and without the empty ones. Commas inside
/// `<...>` or a quoted display name are part of an entry.
pub open spec fn contact_list(s: Seq<char>) -> Seq<Seq<char>> {
    contacts_from(s, seq![], false, false)
}

fn push_entry(out: &mut Vec<String>, s: &[char])
    ensures
        text::texts(final(out)@) == text::texts(old(out)@) + entry(s@),
{
    let t = text::trimmed(s);
    if t.len() > 0 {
        out.push(text::string_of(t));
    }
    assert(text::texts(out@) =~= text::texts(old(out)@) + entry(s@));
}

/// Split one Contact header field into its comma separated entries.
pub fn split_contacts(field: &str) -> (r: Vec<String>)
    ensures
        text::texts(r@) == contact_list(field@),
{
    let c = text::chars_of(field);
    let s = c.as_slice();
    let mut out: Vec<String> = Vec::new();
    let mut start: usize = 0;
    let mut angle = false;
    let mut quote = false;
    let mut i: usize = 0;
    assert(s@.skip(0) =~= s@);
    assert(s@.subrange(0, 0) =~= seq![]);
    assert(text::texts(out@) + contact_list(s@) =~= contact_list(s@));
    while i < s.len()
        invariant
            start <= i <= s@.len(),
            text::texts(out@) + contacts_from(
                s@.skip(i as int),
                s@.subrange(start as int, i as int),
                angle,
                quote,
            ) == contact_list(s@),
        decreases s@.len() - i,
    {
        let ch = s[i];
        let ghost so_far = text::texts(out@);
        let ghost piece = s@.subrange(start as int, i as int);
        assert(s@.skip(i as int).skip(1) =~= s@.skip(i + 1));
        if ch == ',' && !angle && !quote {
            push_entry(&mut out, vstd::slice::slice_subrange(s, start, i));
            start = i + 1;
            assert(s@.subrange(i + 1, i + 1) =~= seq![]);
            assert(text::texts(out@) + contacts_from(s@.skip(i + 1), seq![], false, false)
                =~= so_far + (entry(piece) + contacts_from(s@.skip(i + 1), seq![], false, false)));
        } else {
            assert(s@.subrange(start as int, i as int).push(ch) =~= s@.subrange(
                start as int,
                i + 1,
            ));
            let was_angle = angle;
            if ch == '<' && !quote {
                angle = true;
            } else if ch == '>' && !quote {
                angle = false;
            }
            if ch == '"' && !was_angle {
                quote = !quote;
            }
        }
        i += 1;
    }
    push_entry(&mut out, vstd::slice::slice_subrange(s, start, s.len()));
    out
}

/// The time of the clock leaves room for the longest registration.
pub open spec fn room_to_register(now: u64) -> bool {
    now + MAX_REGISTER_EXPIRES * 1000 <= u64::MAX
}

/// A lifetime in seconds as it was asked for, cut to what this registrar hands out.
pub open spec fn lifetime_of(asked: Option<Seq<char>>, otherwise: u32) -> u32 {
    let n = match asked {
        Some(v) => match text::number(text::trim(v), 0xffff_ffff) {
            Some(n) => n,
            None => otherwise as nat,
        },
        None => otherwise as nat,
    };
    if n > MAX_REGISTER_EXPIRES {
        MAX_REGISTER_EXPIRES
    } else {
        n as u32
    }
}

/// The lifetime of the contacts that name none.
pub open spec fn default_lifetime(f: Fields) -> u32 {
    lifetime_of(message::field(f, "expires"@), MAX_REGISTER_EXPIRES)
}

/// The entries of several Contact fields, one after the other.
pub open spec fn all_contacts(values: Seq<Seq<char>>) -> Seq<Seq<char>>
    decreases values.len(),
{
    if values.len() == 0 {
        seq![]
    } else {
        all_contacts(values.drop_last()) + contact_list(values.last())
    }
}

/// The bindings once every entry was registered. An entry carries its own expiry, including the
/// zero that de-registers it; one that is no contact is passed over.
pub open spec fn register_each(
    b: Seq<registrar::Bound>,
    aor: Seq<char>,
    entries: Seq<Seq<char>>,
    src: SocketAddr,
    lifetime: u32,
    now: u64,
) -> Seq<registrar::Bound>
    decreases entries.len(),
{
    if entries.len() == 0 {
        b
    } else {
        let before = register_each(b, aor, entries.drop_last(), src, lifetime, now);
        match uri::party_of(entries.last()) {
            Some(p) => registrar::updated(
                before,
                aor,
                p,
                src,
                lifetime_of(uri::pair_value(p.params, "expires"@), lifetime),
                now,
            ),
            None => before,
        }
    }
}

pub open spec fn is_star(values: Seq<Seq<char>>) -> bool {
    exists|i: int| 0 <= i < values.len() && text::trim(#[trigger] values[i]) == "*"@
}

/// The bindings after a REGISTER for an address of record, lapsed ones dropped.
pub open spec fn after_register(
    b: Seq<registrar::Bound>,
    aor: Seq<char>,
    req: message::Asked,
    src: SocketAddr,
    now: u64,
) -> Seq<registrar::Bound> {
    let values = message::values_of(req.headers, message::canonical_name("contact"@));
    registrar::live(
        if is_star(values) {
            registrar::without_aor(b, aor)
        } else {
            register_each(
                b,
                aor,
                all_contacts(values),
                src,
                default_lifetime(req.headers),
                now,
            )
        },
        now,
    )
}

pub open spec fn seconds_left(expires_at: u64, now: u64) -> nat {
    if expires_at > now {
        ((expires_at - now) / 1000) as nat
    } else {
        0
    }
}

/// The stored contact still carries the client's own expires parameter; ours is the authoritative
/// one, so it replaces it.
pub open spec fn binding_value(b: registrar::Bound, now: u64) -> Seq<char> {
    uri::party_text(
        uri::party_with(b.contact, "expires"@, text::dec(seconds_left(b.expires_at, now))),
    )
}

pub open spec fn with_bindings(f: Fields, b: Seq<registrar::Bound>, now: u64) -> Fields
    decreases b.len(),
{
    if b.len() == 0 {
        f
    } else {
        message::added_field(
            with_bindings(f, b.drop_last(), now),
            "contact"@,
            binding_value(b.last(), now),
        )
    }
}

/// The address of record that a REGISTER is about.
pub open spec fn aor_of(req: message::Asked) -> Option<Seq<char>> {
    match message::party_field(req.headers, "to"@) {
        Some(t) => Some(uri::uri_text(uri::bare_address(t.uri))),
        None => None,
    }
}

pub open spec fn registered(e: Element, req: message::Asked, src: SocketAddr, now: u64) -> Element {
    match aor_of(req) {
        Some(aor) => Element { bindings: after_register(e.bindings, aor, req, src, now), ..e },
        None => e,
    }
}

/// The answer to a REGISTER that may proceed: the bindings of its address of record.
pub open spec fn register_answer(
    e: Element,
    req: message::Asked,
    src: SocketAddr,
    now: u64,
    tag: Seq<char>,
) -> message::Answered {
    match aor_of(req) {
        Some(aor) => {
            let base = response_for(e.cfg.user_agent@, req, 200, None, tag);
            let b = registrar::of_aor(after_register(e.bindings, aor, req, src, now), aor);
            message::Answered {
                headers: message::with_field(
                    with_bindings(base.headers, b, now),
                    "expires"@,
                    text::dec(default_lifetime(req.headers) as nat),
                ),
                ..base
            }
        },
        None => response_for(e.cfg.user_agent@, req, 400, None, tag),
    }
}

fn lifetime(asked: Option<&str>, otherwise: u32) -> (r: u32)
    ensures
        r == lifetime_of(text::opt_str(asked), otherwise),
        r <= MAX_REGISTER_EXPIRES,
{
    let n = match asked {
        Some(v) => {
            let v = text::chars_of(v);
            match text::parse_u32(text::trimmed(v.as_slice())) {
                Some(n) => n,
                None => otherwise,
            }
        },
        None => otherwise,
    };
    if n > MAX_REGISTER_EXPIRES {
        MAX_REGISTER_EXPIRES
    } else {
        n
    }
}

fn any_star(values: &Vec<&str>) -> (r: bool)
    ensures
        r == is_star(Seq::new(values@.len(), |i: int| values@[i]@)),
{
    let ghost all = Seq::new(values@.len(), |i: int| values@[i]@);
    let mut i: usize = 0;
    while i < values.len()
        invariant
            i <= values@.len(),
            all == Seq::new(values@.len(), |i: int| values@[i]@),
            forall|j: int| 0 <= j < i ==> text::trim(#[trigger] all[j]) != "*"@,
        decreases values@.len() - i,
    {
        let v = text::chars_of(values[i]);
        if text::is(text::trimmed(v.as_slice()), "*") {
            assert(text::trim(all[i as int]) == "*"@);
            return true;
        }
        i += 1;
    }
    false
}

fn register_entries(
    reg: &mut Registrar,
    aor: &str,
    values: &Vec<&str>,
    src: SocketAddr,
    default_expires: u32,
    now: u64,
)
    requires
        room_to_register(now),
    ensures
        final(reg)@ == register_each(
            old(reg)@,
            aor@,
            all_contacts(Seq::new(values@.len(), |i: int| values@[i]@)),
            src,
            default_expires,
            now,
        ),
{
    let ghost b = reg@;
    let ghost all = Seq::new(values@.len(), |i: int| values@[i]@);
    let mut i: usize = 0;
    assert(all_contacts(all.take(0)) =~= seq![]);
    while i < values.len()
        invariant
            i <= values@.len(),
            room_to_register(now),
            all == Seq::new(values@.len(), |i: int| values@[i]@),
            reg@ == register_each(
                b,
                aor@,
                all_contacts(all.take(i as int)),
                src,
                default_expires,
                now,
            ),
        decreases values@.len() - i,
    {
        let list = split_contacts(values[i]);
        let ghost front = all_contacts(all.take(i as int));
        let ghost entries = text::texts(list@);
        let mut j: usize = 0;
        assert(front + entries.take(0) =~= front);
        while j < list.len()
            invariant
                j <= list@.len(),
                room_to_register(now),
                entries == text::texts(list@),
                reg@ == register_each(
                    b,
                    aor@,
                    front + entries.take(j as int),
                    src,
                    default_expires,
                    now,
                ),
            decreases list@.len() - j,
        {
            assert((front + entries.take(j + 1)).drop_last() =~= front + entries.take(j as int));
            assert((front + entries.take(j + 1)).last() == list@[j as int]@);
            if let Some(contact) = NameAddr::parse(list[j].as_str()) {
                let expires = lifetime(contact.param("expires"), default_expires);
                reg.update(aor, contact, src, expires, now);
            }
            j += 1;
        }
        assert(entries.take(j as int) =~= entries);
        assert(all.take(i + 1).drop_last() =~= all.take(i as int));
        i += 1;
    }
    assert(all.take(i as int) =~= all);
}

fn push_bindings(headers: &mut Headers, bindings: &Vec<Binding>, now: u64)
    ensures
        final(headers)@ == with_bindings(old(headers)@, registrar::bounds(bindings@), now),
{
    let ghost f = headers@;
    let ghost all = registrar::bounds(bindings@);
    let mut i: usize = 0;
    while i < bindings.len()
        invariant
            i <= bindings@.len(),
            all == registrar::bounds(bindings@),
            headers@ == with_bindings(f, all.take(i as int), now),
        decreases bindings@.len() - i,
    {
        let b = &bindings[i];
        let secs = if b.expires_at > now {
            (b.expires_at - now) / 1000
        } else {
            0
        };
        let mut contact = b.contact.clone();
        contact.set_param("expires", Some(text::decimal(secs).as_str()));
        headers.push("contact", contact.to_string().as_str());
        assert(all.take(i + 1).drop_last() =~= all.take(i as int));
        assert(all.take(i + 1).last() == b@);
        i += 1;
    }
    assert(all.take(i as int) =~= all);
}

impl SipCore {
    /// Carry out a REGISTER that may proceed, and answer it.
    ///
    /// An unbounded Expires would create a binding that never lapses, so the registrar decides the
    /// lifetime and tells the user agent what it got.
    pub fn handle_register(&mut self, req: &Request, src: SocketAddr, now: u64, tag: &str) -> (r:
        Response)
        requires
            old(self).wf(),
            room_to_register(now),
        ensures
            final(self).wf(),
            final(self)@ == registered(old(self)@, req@, src, now),
            r@ == register_answer(old(self)@, req@, src, now, tag@),
    {
        let to = match req.headers.to() {
            Some(t) => t,
            None => {
                return self.make_response_with(req, 400, None, tag);
            },
        };
        let aor = to.uri.bare().to_string();
        let default_expires = lifetime(req.headers.get("expires"), MAX_REGISTER_EXPIRES);
        let contacts = req.headers.get_all("contact");
        if any_star(&contacts) {
            self.registrar.remove_all(aor.as_str());
        } else {
            register_entries(
                &mut self.registrar,
                aor.as_str(),
                &contacts,
                src,
                default_expires,
                now,
            );
        }
        let bindings = self.registrar.contacts(aor.as_str(), now);
        let mut resp = self.make_response_with(req, 200, None, tag);
        push_bindings(&mut resp.headers, &bindings, now);
        resp.headers.set("expires", text::decimal(default_expires as u64).as_str());
        resp
    }
}

/// No binding that a REGISTER makes outlives the longest registration.
pub proof fn law_lifetimes_are_bounded(asked: Option<Seq<char>>, otherwise: u32)
    ensures
        lifetime_of(asked, otherwise) <= MAX_REGISTER_EXPIRES,
        asked.is_none() && otherwise <= MAX_REGISTER_EXPIRES ==> lifetime_of(asked, otherwise)
            == otherwise,
{
}

// ------------------------------------------------------------------ options

/// The methods this element handles.
pub open spec fn allowed_methods() -> Seq<char> {
    "INVITE, ACK, CANCEL, BYE, OPTIONS, INFO, MESSAGE, REGISTER"@
}

/// The answer to OPTIONS: 503 with a time to come back while the modem is unusable, if that is to be
/// reflected, and 200 otherwise; what is accepted either way.
pub open spec fn options_answer(e: Element, req: message::Asked, tag: Seq<char>) -> message::Answered {
    let base = if e.cfg.options_reflect_modem && !e.modem_ready {
        let r = response_for(e.cfg.user_agent@, req, 503, None, tag);
        message::Answered {
            headers: message::with_field(
                message::with_field(
                    r.headers,
                    "retry-after"@,
                    text::dec(e.cfg.retry_after_secs as nat),
                ),
                "warning"@,
                "399 modem2sip \"modem not available\""@,
            ),
            ..r
        }
    } else {
        response_for(e.cfg.user_agent@, req, 200, None, tag)
    };
    message::Answered {
        headers: message::with_field(
            message::with_field(base.headers, "allow"@, allowed_methods()),
            "accept"@,
            "application/sdp, text/plain, application/json"@,
        ),
        ..base
    }
}

/// The answer to a method this element does not handle.
pub open spec fn refusal_of_method(e: Element, req: message::Asked, tag: Seq<char>) ->
    message::Answered {
    let r = response_for(e.cfg.user_agent@, req, 405, None, tag);
    message::Answered {
        headers: message::with_field(r.headers, "allow"@, allowed_methods()),
        ..r
    }
}

impl SipCore {
    pub fn handle_options(&self, req: &Request, tag: &str) -> (r: Response)
        ensures
            r@ == options_answer(self@, req@, tag@),
    {
        let down = self.cfg.options_reflect_modem && !self.modem_ready;
        let mut resp = if down {
            let mut r = self.make_response_with(req, 503, None, tag);
            r.headers.set(
                "retry-after",
                text::decimal(self.cfg.retry_after_secs as u64).as_str(),
            );
            r.headers.set("warning", "399 modem2sip \"modem not available\"");
            r
        } else {
            self.make_response_with(req, 200, None, tag)
        };
        resp.headers.set("allow", "INVITE, ACK, CANCEL, BYE, OPTIONS, INFO, MESSAGE, REGISTER");
        resp.headers.set("accept", "application/sdp, text/plain, application/json");
        resp
    }

    fn refuse_method(&self, req: &Request, tag: &str) -> (r: Response)
        ensures
            r@ == refusal_of_method(self@, req@, tag@),
    {
        let mut resp = self.make_response_with(req, 405, None, tag);
        resp.headers.set("allow", "INVITE, ACK, CANCEL, BYE, OPTIONS, INFO, MESSAGE, REGISTER");
        resp
    }
}

/// While the modem is down and that is reflected, OPTIONS is answered 503; otherwise 200.
pub proof fn law_options_reflect_the_modem(e: Element, req: message::Asked, tag: Seq<char>)
    ensures
        options_answer(e, req, tag).code == if e.cfg.options_reflect_modem && !e.modem_ready {
            503u16
        } else {
            200u16
        },
{
}

// ------------------------------------------------------------------ requests

/// What becomes of a request.
#[derive(Debug)]
pub enum Action {
    /// Nothing is sent.
    Ignore,
    /// Send these bytes again.
    Replay(Vec<u8>),
    /// Send this response.
    Respond(Outgoing),
    /// The gateway deals with it.
    HandOn,
}

#[derive(Debug)]
pub struct Step {
    pub action: Action,
    /// The number of a retransmission timer to stop: its response is confirmed.
    pub confirmed: Option<u64>,
}

/// What becomes of a request, mathematically.
pub enum Handling {
    Ignore,
    Replay(Seq<u8>),
    Answer(message::Answered),
    HandOn,
}

/// The methods the gateway deals with.
pub open spec fn for_gateway(m: Method) -> bool {
    m == Method::Invite || m == Method::Ack || m == Method::Bye || m == Method::Cancel || m
        == Method::Info || m == Method::Message
}

/// The answered 2xx that an ACK confirms.
pub open spec fn confirmed_key(req: message::Asked) -> Option<Seq<char>> {
    if req.method == Method::Ack {
        txn::dialog_key_of(req)
    } else {
        None
    }
}

/// The transaction that a request belongs to; an ACK has none of its own here.
pub open spec fn claimed_key(req: message::Asked) -> Option<Seq<char>> {
    if req.method == Method::Ack {
        None
    } else {
        txn::txn_key_of(req)
    }
}

pub open spec fn request_claim(e: Element, req: message::Asked, now: u64) -> txn::Claimed {
    match claimed_key(req) {
        Some(k) => txn::claim_of(e.txns, k, now),
        None => txn::Claimed::Fresh,
    }
}

/// The state once the request was matched to what is known: an ACK ends the wait for it, anything
/// else takes its transaction.
pub open spec fn noted(e: Element, req: message::Asked, now: u64) -> Element {
    Element {
        pending: match confirmed_key(req) {
            Some(k) => e.pending.remove(k),
            None => e.pending,
        },
        txns: match claimed_key(req) {
            Some(k) => txn::after_claim(e.txns, k, now),
            None => e.txns,
        },
        ..e
    }
}

/// What becomes of a request that was not seen before.
pub open spec fn fresh_handling(
    e: Element,
    req: message::Asked,
    src: SocketAddr,
    now: u64,
    unix: int,
    tag: Seq<char>,
) -> Handling {
    if req.method == Method::Options {
        Handling::Answer(options_answer(e, req, tag))
    } else if req.method == Method::Ack {
        Handling::HandOn
    } else if req.method == Method::Register || for_gateway(req.method) {
        match access_of(e, req, unix) {
            Access::Challenge { stale } => Handling::Answer(
                challenge_for(e, req, stale, unix, tag),
            ),
            Access::Granted => if req.method == Method::Register {
                Handling::Answer(
                    register_answer(after_access(e, req, now, unix), req, src, now, tag),
                )
            } else {
                Handling::HandOn
            },
        }
    } else {
        Handling::Answer(refusal_of_method(e, req, tag))
    }
}

pub open spec fn fresh_handled(
    e: Element,
    req: message::Asked,
    src: SocketAddr,
    now: u64,
    unix: int,
) -> Element {
    if req.method == Method::Register || for_gateway(req.method) && req.method != Method::Ack {
        let a = after_access(e, req, now, unix);
        if req.method == Method::Register && access_of(e, req, unix) is Granted {
            registered(a, req, src, now)
        } else {
            a
        }
    } else {
        e
    }
}

/// What becomes of a request: a disallowed source is refused; a retransmission is answered with what
/// its transaction holds, and dropped where that is nothing; anything else is handled.
pub open spec fn handling(
    e: Element,
    req: message::Asked,
    src: SocketAddr,
    now: u64,
    unix: int,
    tag: Seq<char>,
) -> Handling {
    if !txn::admitted(text::texts(e.cfg.allow@), src.ip) {
        Handling::Answer(response_for(e.cfg.user_agent@, req, 403, None, tag))
    } else {
        match request_claim(e, req, now) {
            txn::Claimed::Answered(b) => Handling::Replay(b),
            txn::Claimed::InFlight(Some(b)) => Handling::Replay(b),
            txn::Claimed::InFlight(None) => Handling::Ignore,
            txn::Claimed::Fresh => fresh_handling(noted(e, req, now), req, src, now, unix, tag),
        }
    }
}

/// The state after a request, before any response to it went out.
pub open spec fn handled(
    e: Element,
    req: message::Asked,
    src: SocketAddr,
    now: u64,
    unix: int,
) -> Element {
    if !txn::admitted(text::texts(e.cfg.allow@), src.ip) {
        e
    } else if request_claim(e, req, now) is Fresh {
        fresh_handled(noted(e, req, now), req, src, now, unix)
    } else {
        noted(e, req, now)
    }
}

/// The state after a request and the response to it.
pub open spec fn after_request(
    e: Element,
    req: message::Asked,
    src: SocketAddr,
    route: Option<IpAddr>,
    now: u64,
    unix: int,
    tag: Seq<char>,
) -> Element {
    let h = handled(e, req, src, now, unix);
    match handling(e, req, src, now, unix, tag) {
        Handling::Answer(a) => responded(h, req, a, src, route, now),
        _ => h,
    }
}

/// An action carries a handling out.
pub open spec fn carries_out(
    a: Action,
    h: Handling,
    e: Element,
    req: message::Asked,
    src: SocketAddr,
    route: Option<IpAddr>,
) -> bool {
    match (a, h) {
        (Action::Ignore, Handling::Ignore) => true,
        (Action::Replay(b), Handling::Replay(bytes)) => b@ == bytes,
        (Action::Respond(o), Handling::Answer(resp)) => is_outgoing(o, e, req, resp, src, route),
        (Action::HandOn, Handling::HandOn) => true,
        _ => false,
    }
}

impl SipCore {
    /// Take note of a request: the timer that an ACK stops, and the claim on its transaction.
    fn note(&mut self, req: &Request, now: u64) -> (r: (Option<u64>, Claim))
        requires
            old(self).wf(),
        ensures
            final(self).wf(),
            final(self)@ == noted(old(self)@, req@, now),
            r.0 == match confirmed_key(req@) {
                Some(k) => if old(self)@.pending.contains_key(k) {
                    Some(old(self)@.pending[k])
                } else {
                    None
                },
                None => None,
            },
            r.1@ == request_claim(old(self)@, req@, now),
    {
        let mut confirmed: Option<u64> = None;
        let mut claim = Claim::Fresh;
        if req.method == Method::Ack {
            // The ACK is what tells us the 2xx arrived; until it does, that response is
            // retransmitted. It carries the INVITE's sequence number, so it identifies the answer
            // it acknowledges even though it is a transaction of its own.
            if let Some(key) = txn::dialog_key(req) {
                confirmed = self.pending_ack.remove(key.as_str());
            }
        } else {
            // Answering a request twice is not just noise: a repeated MESSAGE sends the SMS again,
            // and a repeated INVITE looks like a re-INVITE for a call that is still dialling.
            // Requests are therefore claimed before any work starts.
            if let Some(key) = txn::txn_key(req) {
                claim = txn::claim_txn(&mut self.server_cache, key.as_str(), now);
            }
        }
        (confirmed, claim)
    }

    fn handle_fresh(
        &mut self,
        req: &Request,
        src: SocketAddr,
        now: u64,
        unix: i64,
        tag: &str,
    ) -> (r: Option<Response>)
        requires
            old(self).wf(),
            room_to_register(now),
        ensures
            final(self).wf(),
            final(self)@ == fresh_handled(old(self)@, req@, src, now, unix as int),
            match (r, fresh_handling(old(self)@, req@, src, now, unix as int, tag@)) {
                (Some(a), Handling::Answer(resp)) => a@ == resp,
                (None, Handling::HandOn) => true,
                _ => false,
            },
    {
        match req.method {
            Method::Options => Some(self.handle_options(req, tag)),
            Method::Ack => None,
            Method::Register
            | Method::Invite
            | Method::Bye
            | Method::Cancel
            | Method::Info
            | Method::Message => {
                match self.check_auth(req, now, unix) {
                    Access::Challenge { stale } => Some(
                        self.challenge_with(req, stale, unix, tag),
                    ),
                    Access::Granted => if req.method == Method::Register {
                        Some(self.handle_register(req, src, now, tag))
                    } else {
                        None
                    },
                }
            },
            _ => Some(self.refuse_method(req, tag)),
        }
    }

    /// Deal with a request: `route` is the source address towards its sender, `unix` the Unix time
    /// in seconds, and `tag` the tag for a response that needs one.
    pub fn on_request(
        &mut self,
        req: &Request,
        src: SocketAddr,
        route: Option<IpAddr>,
        now: u64,
        unix: i64,
        tag: &str,
    ) -> (r: Step)
        requires
            old(self).wf(),
            room_to_register(now),
        ensures
            final(self).wf(),
            final(self)@ == after_request(old(self)@, req@, src, route, now, unix as int, tag@),
            carries_out(
                r.action,
                handling(old(self)@, req@, src, now, unix as int, tag@),
                handled(old(self)@, req@, src, now, unix as int),
                req@,
                src,
                route,
            ),
            r.confirmed == match confirmed_key(req@) {
                Some(k) => if txn::admitted(text::texts(old(self)@.cfg.allow@), src.ip) && old(
                    self,
                )@.pending.contains_key(k) {
                    Some(old(self)@.pending[k])
                } else {
                    None
                },
                None => None,
            },
    {
        if !txn::source_allowed(&self.cfg.allow, src.ip) {
            let resp = self.make_response_with(req, 403, None, tag);
            return Step {
                action: Action::Respond(self.respond(req, src, resp, route, now)),
                confirmed: None,
            };
        }
        let (confirmed, claim) = self.note(req, now);
        let action = match claim {
            Claim::Answered(bytes) => Action::Replay(bytes),
            Claim::InFlight(Some(bytes)) => Action::Replay(bytes),
            Claim::InFlight(None) => Action::Ignore,
            Claim::Fresh => match self.handle_fresh(req, src, now, unix, tag) {
                Some(resp) => Action::Respond(self.respond(req, src, resp, route, now)),
                None => Action::HandOn,
            },
        };
        Step { action, confirmed }
    }
}

/// A request from a source that is not allowed changes nothing but the record of its refusal, and
/// reaches no handler.
pub proof fn law_a_disallowed_source_gets_403(
    e: Element,
    req: message::Asked,
    src: SocketAddr,
    now: u64,
    unix: int,
    tag: Seq<char>,
)
    requires
        !txn::admitted(text::texts(e.cfg.allow@), src.ip),
    ensures
        handled(e, req, src, now, unix) == e,
        handling(e, req, src, now, unix, tag) matches Handling::Answer(a) && a.code == 403,
{
}

/// A request is handed on once: a second copy within the lifetime of its transaction is not, and
/// consumes nothing.
pub proof fn law_a_request_is_handed_on_once(
    e: Element,
    req: message::Asked,
    src: SocketAddr,
    route: Option<IpAddr>,
    t0: u64,
    t1: u64,
    unix0: int,
    unix1: int,
    tag0: Seq<char>,
    tag1: Seq<char>,
)
    requires
        claimed_key(req).is_some(),
        handling(e, req, src, t0, unix0, tag0) is HandOn,
        t0 <= t1,
        t1 - t0 < txn::TXN_LIFETIME,
    ensures
        handling(
            after_request(e, req, src, route, t0, unix0, tag0),
            req,
            src,
            t1,
            unix1,
            tag1,
        ) is Ignore,
{
}

/// A request that was answered is answered again with the same bytes for the lifetime of its
/// transaction.
pub proof fn law_a_retransmission_gets_the_same_answer(
    e: Element,
    req: message::Asked,
    resp: message::Answered,
    src: SocketAddr,
    route: Option<IpAddr>,
    t0: u64,
    t1: u64,
    unix: int,
    tag: Seq<char>,
)
    requires
        claimed_key(req).is_some(),
        txn::admitted(text::texts(e.cfg.allow@), src.ip),
        resp.code >= 200,
        t0 <= t1,
        t1 - t0 < txn::TXN_LIFETIME,
    ensures
        handling(responded(e, req, resp, src, route, t0), req, src, t1, unix, tag)
            == Handling::Replay(
            message::response_bytes(sent_response(e.transport, req, resp, src, route)),
        ),
{
}

/// A request whose credentials are refused is not handed on.
pub proof fn law_nothing_is_handed_on_without_access(
    e: Element,
    req: message::Asked,
    src: SocketAddr,
    now: u64,
    unix: int,
    tag: Seq<char>,
)
    requires
        req.method != Method::Ack,
        access_of(noted(e, req, now), req, unix) is Challenge,
    ensures
        !(handling(e, req, src, now, unix, tag) is HandOn),
{
}

/// Registration goes on while the modem is missing, so that user agents stay bound and get calls as
/// soon as it is back.
pub proof fn law_registration_goes_on_without_the_modem(
    e: Element,
    ready: bool,
    req: message::Asked,
    src: SocketAddr,
    now: u64,
    unix: int,
    tag: Seq<char>,
)
    requires
        req.method == Method::Register,
    ensures
        handling(Element { modem_ready: ready, ..e }, req, src, now, unix, tag) == handling(
            e,
            req,
            src,
            now,
            unix,
            tag,
        ),
        handled(Element { modem_ready: ready, ..e }, req, src, now, unix) == (Element {
            modem_ready: ready,
            ..handled(e, req, src, now, unix)
        }),
{
}

// ------------------------------------------------------------------ datagrams

/// White space as a byte.
pub open spec fn is_blank(b: u8) -> bool {
    b == 0x20 || b == 0x09 || b == 0x0a || b == 0x0c || b == 0x0d
}

/// What a datagram is.
#[derive(Debug)]
pub enum Datagram {
    /// A keep-alive ping.
    KeepAlive,
    /// Not SIP.
    Unreadable,
    Message(Message),
}

/// Tell keep-alive pings (CRLFCRLF) and other noise from messages.
pub fn read_datagram(data: &[u8]) -> (r: Datagram)
    ensures
        match r {
            Datagram::KeepAlive => forall|i: int| 0 <= i < data@.len() ==> is_blank(
                #[trigger] data@[i],
            ),
            Datagram::Unreadable => !(forall|i: int|
                0 <= i < data@.len() ==> is_blank(#[trigger] data@[i]))
                && message::message_of(data@).is_none(),
            Datagram::Message(m) => !(forall|i: int|
                0 <= i < data@.len() ==> is_blank(#[trigger] data@[i])) && message::message_of(
                data@,
            ) == Some(m@),
        },
{
    let mut i: usize = 0;
    while i < data.len()
        invariant
            i <= data@.len(),
            forall|j: int| 0 <= j < i ==> is_blank(#[trigger] data@[j]),
        decreases data@.len() - i,
    {
        let b = data[i];
        if !(b == 0x20 || b == 0x09 || b == 0x0a || b == 0x0c || b == 0x0d) {
            assert(!is_blank(data@[i as int]));
            return match Message::parse(data) {
                Some(m) => Datagram::Message(m),
                None => Datagram::Unreadable,
            };
        }
        i += 1;
    }
    Datagram::KeepAlive
}

// ------------------------------------------------------------------ client transactions

/// The transaction a response belongs to, and whether it ends the retransmission of the request.
///
/// RFC 3261 §17.1.2.2: a non-INVITE transaction keeps retransmitting after a provisional, because
/// the server side only re-sends its final answer when it sees the request again. For an INVITE the
/// provisional is the signal to stop.
pub open spec fn delivery(clients: Map<Seq<char>, Method>, resp: message::Answered) -> Option<
    (Seq<char>, bool),
> {
    match (txn::top_branch(resp.headers), txn::sequence_of(resp.headers)) {
        (Some(b), Some((_, m))) => if clients.contains_key(b) && clients[b] == m {
            Some((b, resp.code >= 200 || m == Method::Invite))
        } else {
            None
        },
        _ => None,
    }
}

/// A request that cannot be sent in a transaction.
#[derive(Debug, PartialEq, Eq)]
pub struct NoBranch;

impl NoBranch {
    pub fn message(&self) -> (r: &'static str)
        ensures
            r@ == "outgoing request has no Via branch"@,
    {
        "outgoing request has no Via branch"
    }
}

impl SipCore {
    /// The client transaction that a response is for.
    ///
    /// A CANCEL carries the branch of the INVITE it cancels, so its 200 OK would otherwise be
    /// delivered as if the INVITE had been answered.
    pub fn on_response(&self, resp: &Response) -> (r: Option<(String, bool)>)
        requires
            self.wf(),
        ensures
            match r {
                Some((b, stop)) => delivery(self@.clients, resp@) == Some((b@, stop)),
                None => delivery(self@.clients, resp@).is_none(),
            },
    {
        match (txn::branch_of(&resp.headers), resp.headers.cseq()) {
            (Some(b), Some((_, m))) => match self.client_txns.get(b.as_str()) {
                Some(sent) => if *sent == m {
                    Some((b, resp.code >= 200 || m == Method::Invite))
                } else {
                    None
                },
                None => None,
            },
            _ => None,
        }
    }

    /// Open the transaction of a request: its branch, and the bytes to send.
    pub fn send_request(&mut self, req: &Request) -> (r: Result<(String, Vec<u8>), NoBranch>)
        requires
            old(self).wf(),
        ensures
            final(self).wf(),
            match r {
                Ok((branch, bytes)) => txn::top_branch(req@.headers) == Some(branch@) && bytes@
                    == message::request_bytes(req@) && final(self)@ == (Element {
                    clients: old(self)@.clients.insert(branch@, req@.method),
                    ..old(self)@
                }),
                Err(_) => txn::top_branch(req@.headers).is_none() && final(self)@ == old(self)@,
            },
    {
        match txn::branch_of(&req.headers) {
            Some(branch) => {
                self.client_txns.insert(branch.as_str(), req.method);
                Ok((branch, req.encode()))
            },
            None => Err(NoBranch),
        }
    }

    /// Forget a client transaction.
    pub fn close_transaction(&mut self, branch: &str)
        requires
            old(self).wf(),
        ensures
            final(self).wf(),
            final(self)@ == (Element {
                clients: old(self)@.clients.remove(branch@),
                ..old(self)@
            }),
    {
        let _ = self.client_txns.remove(branch);
    }

    /// A retransmission timer gave up: drop its entry, and only its own. A re-INVITE may have
    /// replaced it, and that newer answer is still waiting for an ACK of its own.
    pub fn give_up(&mut self, key: &str, timer: u64)
        requires
            old(self).wf(),
        ensures
            final(self).wf(),
            final(self)@ == (Element {
                pending: if old(self)@.pending.contains_key(key@) && old(self)@.pending[key@]
                    == timer {
                    old(self)@.pending.remove(key@)
                } else {
                    old(self)@.pending
                },
                ..old(self)@
            }),
    {
        let own = match self.pending_ack.get(key) {
            Some(n) => *n == timer,
            None => false,
        };
        if own {
            let _ = self.pending_ack.remove(key);
        }
    }
}

/// The response to a CANCEL is not taken for one to the INVITE it cancels, although they share the
/// branch.
pub proof fn law_a_response_finds_its_own_method(
    clients: Map<Seq<char>, Method>,
    resp: message::Answered,
)
    ensures
        match delivery(clients, resp) {
            Some((b, _)) => clients.contains_key(b) && txn::sequence_of(resp.headers).unwrap().1
                == clients[b],
            None => true,
        },
{
}

/// A retransmission timer: how long to wait, and how much time passed.
#[derive(Debug, Clone, Copy, PartialEq, Eq, Structural)]
pub struct Resend {
    pub delay: u64,
    pub elapsed: u64,
}

/// The timer after one more transmission.
pub open spec fn resent(t: Resend) -> Resend {
    Resend {
        delay: if t.delay * 2 < 4000 {
            (t.delay * 2) as u64
        } else {
            4000
        },
        elapsed: (t.elapsed + t.delay) as u64,
    }
}

/// A timer that still has a transmission to make.
pub open spec fn still_running(t: Resend) -> bool {
    t.elapsed < txn::TXN_LIFETIME
}

impl Resend {
    pub open spec fn wf(&self) -> bool {
        500 <= self.delay <= 4000 && self.elapsed < txn::TXN_LIFETIME + 4000
    }

    /// T1, as a transmission starts.
    pub fn start() -> (r: Self)
        ensures
            r == (Resend { delay: 500, elapsed: 0 }),
            r.wf(),
    {
        Resend { delay: 500, elapsed: 0 }
    }

    /// How long to wait before the next transmission, unless it is time to give up.
    pub fn wait(&self) -> (r: Option<u64>)
        ensures
            r == if still_running(*self) {
                Some(self.delay)
            } else {
                None
            },
    {
        if self.elapsed < txn::TXN_LIFETIME {
            Some(self.delay)
        } else {
            None
        }
    }

    /// One more transmission was made. The waits double up to four seconds.
    pub fn sent(&mut self)
        requires
            old(self).wf(),
            still_running(*old(self)),
        ensures
            final(self).wf(),
            *final(self) == resent(*old(self)),
    {
        self.elapsed = self.elapsed + self.delay;
        self.delay = if self.delay * 2 < 4000 {
            self.delay * 2
        } else {
            4000
        };
    }
}

/// A retransmission ends: every transmission brings the end nearer, and no wait is longer than four
/// seconds.
pub proof fn law_retransmission_ends(t: Resend)
    requires
        t.wf(),
        still_running(t),
    ensures
        resent(t).elapsed >= t.elapsed + 500,
        resent(t).wf(),
        resent(t).delay <= 4000,
{
}

// ------------------------------------------------------------------ forgetting

/// The transactions that are not too old to matter.
pub open spec fn recent_txns(m: Map<Seq<char>, txn::Txn>, now: u64) -> Map<Seq<char>, txn::Txn> {
    Map::new(|k: Seq<char>| txn::known(m, k, now), |k: Seq<char>| m[k])
}

pub open spec fn is_recent(seen: Map<Seq<char>, (u32, u64)>, k: Seq<char>, now: u64) -> bool {
    seen.contains_key(k) && txn::elapsed(seen[k].1, now) < NONCE_MEMORY
}

pub open spec fn recent_nonces(seen: Map<Seq<char>, (u32, u64)>, now: u64) -> Map<
    Seq<char>,
    (u32, u64),
> {
    Map::new(|k: Seq<char>| is_recent(seen, k, now), |k: Seq<char>| seen[k])
}

fn forget_txns(t: &mut Table<ServerTxn>, now: u64)
    requires
        old(t).wf(),
    ensures
        final(t).wf(),
        txn::txns(final(t)@) == recent_txns(txn::txns(old(t)@), now),
{
    let ghost all = t@;
    let mut i: usize = 0;
    while i < t.len()
        invariant
            t.wf(),
            i <= t.size(),
            forall|k: Seq<char>| #[trigger] t@.contains_key(k) ==> all.contains_key(k) && all[k]
                == t@[k],
            forall|k: Seq<char>|
                txn::known(txn::txns(all), k, now) ==> #[trigger] t@.contains_key(k),
            forall|j: int| 0 <= j < i ==> txn::known(txn::txns(all), #[trigger] t.key(j), now),
        decreases t.size() - i,
    {
        let ghost before = *t;
        if txn::since(t.value_at(i).started(), now) < txn::TXN_LIFETIME {
            assert(txn::known(txn::txns(all), t.key(i as int), now));
            i += 1;
        } else {
            assert(!txn::known(txn::txns(all), t.key(i as int), now));
            let _ = t.remove_index(i);
            assert forall|j: int| 0 <= j < i implies txn::known(
                txn::txns(all),
                #[trigger] t.key(j),
                now,
            ) by {
                assert(before.key(j) == t.key(j));
            }
        }
    }
    proof {
        t.lemma_keys();
        assert forall|k: Seq<char>| #[trigger] t@.contains_key(k) implies txn::known(
            txn::txns(all),
            k,
            now,
        ) by {
            let j = choose|j: int| 0 <= j < t.size() && #[trigger] t.key(j) == k;
            assert(txn::known(txn::txns(all), t.key(j), now));
        }
        assert(txn::txns(t@) =~= recent_txns(txn::txns(all), now));
    }
}

fn forget_nonces(t: &mut Table<(u32, u64)>, now: u64)
    requires
        old(t).wf(),
    ensures
        final(t).wf(),
        final(t)@ == recent_nonces(old(t)@, now),
{
    let ghost all = t@;
    let mut i: usize = 0;
    while i < t.len()
        invariant
            t.wf(),
            i <= t.size(),
            forall|k: Seq<char>| #[trigger] t@.contains_key(k) ==> all.contains_key(k) && all[k]
                == t@[k],
            forall|k: Seq<char>| is_recent(all, k, now) ==> #[trigger] t@.contains_key(k),
            forall|j: int| 0 <= j < i ==> is_recent(all, #[trigger] t.key(j), now),
        decreases t.size() - i,
    {
        let ghost before = *t;
        if txn::since(t.value_at(i).1, now) < NONCE_MEMORY {
            assert(is_recent(all, t.key(i as int), now));
            i += 1;
        } else {
            assert(!is_recent(all, t.key(i as int), now));
            let _ = t.remove_index(i);
            assert forall|j: int| 0 <= j < i implies is_recent(all, #[trigger] t.key(j), now) by {
                assert(before.key(j) == t.key(j));
            }
        }
    }
    proof {
        t.lemma_keys();
        assert forall|k: Seq<char>| #[trigger] t@.contains_key(k) implies is_recent(
            all,
            k,
            now,
        ) by {
            let j = choose|j: int| 0 <= j < t.size() && #[trigger] t.key(j) == k;
            assert(is_recent(all, t.key(j), now));
        }
        assert(t@ =~= recent_nonces(all, now));
    }
}

impl SipCore {
    /// Forget what is too old to matter, once there is much of it.
    pub fn gc(&mut self, now: u64)
        requires
            old(self).wf(),
        ensures
            final(self).wf(),
            final(self)@ == (Element {
                txns: if old(self).server_cache.size() > 64 {
                    recent_txns(old(self)@.txns, now)
                } else {
                    old(self)@.txns
                },
                seen: if old(self).nonce_seen.size() > 64 {
                    recent_nonces(old(self)@.seen, now)
                } else {
                    old(self)@.seen
                },
                ..old(self)@
            }),
    {
        if self.server_cache.len() > 64 {
            forget_txns(&mut self.server_cache, now);
        }
        if self.nonce_seen.len() > 64 {
            forget_nonces(&mut self.nonce_seen, now);
        }
    }
}

/// Forgetting changes no claim: what is forgotten had expired.
pub proof fn law_forgetting_is_unnoticed(
    m: Map<Seq<char>, txn::Txn>,
    key: Seq<char>,
    now: u64,
    later: u64,
)
    requires
        now <= later,
    ensures
        txn::claim_of(recent_txns(m, now), key, later) == txn::claim_of(m, key, later),
{
}

/// Forgetting a nonce lets nobody in: one that was valid when it was first used is past its age by
/// the time it is forgotten, so that every request is answered as if it were remembered. The wall
/// clock, which dates nonces, keeps step with the other to a second.
pub proof fn law_a_forgotten_nonce_is_past_its_age(
    e: Element,
    req: message::Asked,
    later: u64,
    unix: int,
    unix_later: int,
)
    requires
        shown(req).is_some(),
        e.seen.contains_key(shown(req).unwrap().nonce),
        auth::nonce_valid(shown(req).unwrap().nonce, e.secret, NONCE_AGE as int, unix),
        unix_later - unix >= txn::elapsed(e.seen[shown(req).unwrap().nonce].1, later) / 1000 - 1,
    ensures
        access_of(Element { seen: recent_nonces(e.seen, later), ..e }, req, unix_later)
            == access_of(e, req, unix_later),
        !is_recent(e.seen, shown(req).unwrap().nonce, later) && !needs_no_credentials(e.cfg, req)
            ==> access_of(e, req, unix_later) is Challenge,
{
    let k = shown(req).unwrap().nonce;
    assert(domain_of(Element { seen: recent_nonces(e.seen, later), ..e }) == domain_of(e));
    if is_recent(e.seen, k, later) {
        assert(recent_nonces(e.seen, later).contains_key(k));
    }
}

// ------------------------------------------------------------------ own requests

/// The Via of an own request.
pub open spec fn own_via(t: Transport, route: Option<IpAddr>, branch: Seq<char>) -> Seq<char> {
    "SIP/2.0/UDP "@ + uri::wire_host(net::ip_text(transport::advertised(t, route))) + ":"@
        + text::dec(t.bound.port as nat) + ";rport;branch=z9hG4bK"@ + branch
}

pub open spec fn cseq_value(n: u32, m: Method) -> Seq<char> {
    text::dec(n as nat) + " "@ + message::method_text(m)
}

/// An out-of-dialog request with all mandatory headers filled in.
pub open spec fn own_request(
    t: Transport,
    user_agent: Seq<char>,
    method: Method,
    target: uri::Address,
    from: uri::Party,
    to: uri::Party,
    call_id: Seq<char>,
    cseq: u32,
    route: Option<IpAddr>,
    with_contact: bool,
    branch: Seq<char>,
) -> message::Asked {
    let f = message::added_field(seq![], "via"@, own_via(t, route, branch));
    let f = message::with_field(f, "max-forwards"@, "70"@);
    let f = message::with_field(f, "from"@, uri::party_text(from));
    let f = message::with_field(f, "to"@, uri::party_text(to));
    let f = message::with_field(f, "call-id"@, call_id);
    let f = message::with_field(f, "cseq"@, cseq_value(cseq, method));
    let f = if with_contact {
        message::with_field(f, "contact"@, own_contact(t, route, from.uri.user))
    } else {
        f
    };
    message::Asked {
        method,
        uri: target,
        headers: message::with_field(f, "user-agent"@, user_agent),
        body: seq![],
    }
}

pub(crate) fn cseq_string(n: u32, m: Method) -> (r: String)
    ensures
        r@ == cseq_value(n, m),
{
    let mut out = text::decimal(n as u64);
    out.append(" ");
    out.append(m.as_str());
    out
}

impl SipCore {
    /// Build an out-of-dialog request with all mandatory headers filled in, given the random part
    /// of its branch.
    pub fn build_request_with(
        &self,
        method: Method,
        request_uri: Uri,
        from: &NameAddr,
        to: &NameAddr,
        call_id: &str,
        cseq: u32,
        route: Option<IpAddr>,
        with_contact: bool,
        branch: &str,
    ) -> (r: Request)
        ensures
            r@ == own_request(
                self@.transport,
                self@.cfg.user_agent@,
                method,
                request_uri@,
                from@,
                to@,
                call_id@,
                cseq,
                route,
                with_contact,
                branch@,
            ),
    {
        let mut req = Request::new(method, request_uri);
        let ip = self.transport.advertised_ip(route);
        let mut via = text::owned("SIP/2.0/UDP ");
        via.append(uri::host_for_wire(net::ip_string(ip).as_str()).as_str());
        via.append(":");
        text::push_dec(&mut via, self.transport.port() as u64);
        via.append(";rport;branch=z9hG4bK");
        via.append(branch);
        req.headers.push("via", via.as_str());
        req.headers.set("max-forwards", "70");
        req.headers.set("from", from.to_string().as_str());
        req.headers.set("to", to.to_string().as_str());
        req.headers.set("call-id", call_id);
        req.headers.set("cseq", cseq_string(cseq, method).as_str());
        if with_contact {
            let c = self.contact_for(route, &from.uri.user);
            req.headers.set("contact", c.as_str());
        }
        req.headers.set("user-agent", self.cfg.user_agent.as_str());
        req
    }

    pub fn build_request(
        &self,
        method: Method,
        request_uri: Uri,
        from: &NameAddr,
        to: &NameAddr,
        call_id: &str,
        cseq: u32,
        route: Option<IpAddr>,
        with_contact: bool,
    ) -> (r: Request)
        ensures
            exists|branch: Seq<char>|
                auth::is_hex_text(branch, 8) && r@ == #[trigger] own_request(
                    self@.transport,
                    self@.cfg.user_agent@,
                    method,
                    request_uri@,
                    from@,
                    to@,
                    call_id@,
                    cseq,
                    route,
                    with_contact,
                    branch,
                ),
    {
        let branch = auth::random_hex(8);
        self.build_request_with(
            method,
            request_uri,
            from,
            to,
            call_id,
            cseq,
            route,
            with_contact,
            branch.as_str(),
        )
    }
}

/// The headers with a new branch in the topmost Via, which is then the only one.
pub open spec fn with_branch(f: Fields, branch: Seq<char>) -> Fields {
    match message::field(f, "via"@) {
        Some(raw) => match message::via_of(raw) {
            Some(v) => message::with_field(
                f,
                "via"@,
                message::via_text(
                    message::Hop {
                        params: uri::without_param(v.params, "branch"@).push(
                            ("branch"@, Some("z9hG4bK"@ + branch)),
                        ),
                        ..v
                    },
                ),
            ),
            None => f,
        },
        None => f,
    }
}

pub fn refresh_via_branch_with(headers: &mut Headers, branch: &str)
    ensures
        final(headers)@ == with_branch(old(headers)@, branch@),
{
    let parsed = match headers.get("via") {
        Some(raw) => Via::parse(raw),
        None => None,
    };
    if let Some(v) = parsed {
        let mut via = v;
        let mut b = text::owned("z9hG4bK");
        b.append(branch);
        via.set_param("branch", Some(b.as_str()));
        headers.set("via", via.to_string().as_str());
    }
}

pub fn refresh_via_branch(headers: &mut Headers)
    ensures
        exists|branch: Seq<char>|
            auth::is_hex_text(branch, 8) && final(headers)@ == #[trigger] with_branch(
                old(headers)@,
                branch,
            ),
{
    let branch = auth::random_hex(8);
    refresh_via_branch_with(headers, branch.as_str());
}

/// The header a challenge comes in and the one it is answered in.
pub open spec fn challenge_headers(code: u16) -> (Seq<char>, Seq<char>) {
    if code == 401 {
        ("www-authenticate"@, "authorization"@)
    } else {
        ("proxy-authenticate"@, "proxy-authorization"@)
    }
}

pub open spec fn is_challenge(code: u16) -> bool {
    code == 401 || code == 407
}

/// RFC 8760: a peer may offer several challenges, strongest first, and only some of them are ones we
/// can answer.
pub open spec fn posed(resp: message::Answered) -> Option<auth::Posed> {
    auth::first_supported(
        message::values_of(
            resp.headers,
            message::canonical_name(challenge_headers(resp.code).0),
        ),
    )
}

/// The request again, with credentials, the next sequence number and a branch of its own.
pub open spec fn authorised_request(
    req: message::Asked,
    resp: message::Answered,
    user: Seq<char>,
    password: Seq<char>,
    cseq: u32,
    cnonce: Seq<char>,
    branch: Seq<char>,
) -> message::Asked {
    let creds = auth::answered(
        posed(resp).unwrap(),
        user,
        password,
        message::method_text(req.method),
        uri::uri_text(req.uri),
        req.body,
        1,
        cnonce,
    );
    message::Asked {
        headers: message::with_field(
            with_branch(
                message::with_field(req.headers, "cseq"@, cseq_value(cseq, req.method)),
                branch,
            ),
            challenge_headers(resp.code).1,
            auth::header_text(creds),
        ),
        ..req
    }
}

/// What to do with the final response to a request.
#[derive(Debug)]
pub enum Transaction {
    /// The response stands.
    Done,
    /// Send this request instead.
    Again(Request),
    /// The challenge cannot be answered (MD5 only).
    Unanswerable { code: u16 },
}

impl SipCore {
    /// What to do with the final response to a request, given the random parts of an answer to a
    /// challenge. One challenge is answered, if credentials are available.
    pub fn transact_with(
        &mut self,
        req: &Request,
        resp: &Response,
        creds: Option<(&str, &str)>,
        cnonce: &str,
        branch: &str,
    ) -> (r: Transaction)
        requires
            old(self).wf(),
        ensures
            final(self).wf(),
            match (r, creds) {
                (Transaction::Done, None) => final(self)@ == old(self)@,
                (Transaction::Done, Some(_)) => !is_challenge(resp@.code) && final(self)@ == old(
                    self,
                )@,
                (Transaction::Unanswerable { code }, Some(_)) => code == resp@.code && is_challenge(
                    code,
                ) && posed(resp@).is_none() && final(self)@ == old(self)@,
                (Transaction::Again(again), Some((user, password))) => {
                    &&& is_challenge(resp@.code)
                    &&& posed(resp@).is_some()
                    &&& again@ == authorised_request(
                        req@,
                        resp@,
                        user@,
                        password@,
                        old(self)@.cseq,
                        cnonce@,
                        branch@,
                    )
                    &&& final(self)@ == (Element {
                        cseq: ((old(self)@.cseq + 1) % 0x1_0000_0000) as u32,
                        ..old(self)@
                    })
                },
                _ => false,
            },
    {
        let (user, password) = match creds {
            Some(c) => c,
            None => {
                return Transaction::Done;
            },
        };
        if resp.code != 401 && resp.code != 407 {
            return Transaction::Done;
        }
        let (asked_in, answer_in) = if resp.code == 401 {
            ("www-authenticate", "authorization")
        } else {
            ("proxy-authenticate", "proxy-authorization")
        };
        let values = resp.headers.get_all(asked_in);
        let challenge = match auth::pick_challenge(&values) {
            Some(c) => c,
            None => {
                return Transaction::Unanswerable { code: resp.code };
            },
        };
        let answer = auth::answer_with(
            &challenge,
            user,
            password,
            req.method.as_str(),
            req.uri.to_string().as_str(),
            req.body.as_slice(),
            1,
            cnonce,
        );
        let mut again = req.clone();
        let n = self.next_cseq();
        again.headers.set("cseq", cseq_string(n, req.method).as_str());
        refresh_via_branch_with(&mut again.headers, branch);
        again.headers.set(answer_in, answer.to_header().as_str());
        Transaction::Again(again)
    }

    /// What to do with the final response to a request.
    pub fn transact(&mut self, req: &Request, resp: &Response, creds: Option<(&str, &str)>) -> (r:
        Transaction)
        requires
            old(self).wf(),
        ensures
            final(self).wf(),
            match (r, creds) {
                (Transaction::Done, _) => creds.is_none() || !is_challenge(resp@.code),
                (Transaction::Unanswerable { code }, _) => creds.is_some() && code == resp@.code
                    && is_challenge(code) && posed(resp@).is_none(),
                (Transaction::Again(again), Some((user, password))) => is_challenge(resp@.code)
                    && posed(resp@).is_some() && exists|cnonce: Seq<char>, branch: Seq<char>|
                    auth::is_hex_text(cnonce, 8) && auth::is_hex_text(branch, 8) && again@
                        == #[trigger] authorised_request(
                        req@,
                        resp@,
                        user@,
                        password@,
                        old(self)@.cseq,
                        cnonce,
                        branch,
                    ),
                (Transaction::Again(_), None) => false,
            },
            final(self)@ == if r is Again {
                Element {
                    cseq: ((old(self)@.cseq + 1) % 0x1_0000_0000) as u32,
                    ..old(self)@
                }
            } else {
                old(self)@
            },
    {
        let cnonce = auth::random_hex(8);
        let branch = auth::random_hex(8);
        self.transact_with(req, resp, creds, cnonce.as_str(), branch.as_str())
    }
}

// ------------------------------------------------------------------ targets

/// Why gateway-originated requests have nowhere to go.
#[derive(Debug, PartialEq, Eq)]
pub enum NoTarget {
    Invalid(String),
    NobodyRegistered,
}

impl NoTarget {
    pub fn message(&self) -> (r: String)
        ensures
            r@ == match *self {
                NoTarget::Invalid(t) => "invalid SIP target: "@ + t@,
                NoTarget::NobodyRegistered => "no SIP target configured and nobody is registered"@,
            },
    {
        match self {
            NoTarget::Invalid(t) => {
                let mut out = text::owned("invalid SIP target: ");
                out.append(t.as_str());
                out
            },
            NoTarget::NobodyRegistered => text::owned(
                "no SIP target configured and nobody is registered",
            ),
        }
    }
}

/// A configured target, and how it is reached.
pub open spec fn is_route_to(r: Route, u: uri::Address) -> bool {
    let host = transport::unbracketed_end(transport::unbracketed_start(u.host));
    let p = match u.port {
        Some(p) => p,
        None => 5060,
    };
    match r {
        Route::Address(a) => net::ip_of(host) == Some(a.ip) && a.port == p && a.scope == 0,
        Route::Lookup { host: h, port } => net::ip_of(host).is_none() && h@ == host && port == p,
    }
}

/// Resolve where gateway-originated requests should go: the configured target if any, otherwise the
/// freshest registration, at the source address the user agent registered from (NAT).
pub fn resolve_target(core: &mut SipCore, configured: Option<&str>, now: u64) -> (r: Result<
    (Uri, Route),
    NoTarget,
>)
    requires
        old(core).wf(),
    ensures
        final(core).wf(),
        match configured {
            Some(t) => final(core)@ == old(core)@ && match r {
                Ok((u, route)) => uri::uri_of(t@) == Some(u@) && is_route_to(route, u@),
                Err(e) => uri::uri_of(t@).is_none() && (e matches NoTarget::Invalid(x) && x@ == t@),
            },
            None => final(core)@ == (Element {
                bindings: registrar::live(old(core)@.bindings, now),
                ..old(core)@
            }) && match (r, registrar::newest_of(registrar::live(old(core)@.bindings, now))) {
                (Ok((u, route)), Some(b)) => u@ == b.contact.uri && route == Route::Address(
                    b.source,
                ),
                (Err(e), None) => e is NobodyRegistered,
                _ => false,
            },
        },
{
    if let Some(t) = configured {
        return match Uri::parse(t) {
            Some(u) => {
                let route = transport::resolve_uri(&u);
                Ok((u, route))
            },
            None => Err(NoTarget::Invalid(text::owned(t))),
        };
    }
    match core.registrar.newest(now) {
        Some(b) => Ok((b.contact.uri, Route::Address(b.source))),
        None => Err(NoTarget::NobodyRegistered),
    }
}

} // verus!
