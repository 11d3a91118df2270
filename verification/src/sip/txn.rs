//! Server transactions, the identities of requests, and the sources that may send them.
use vstd::arithmetic::power2::{lemma2_to64, lemma_pow2_adds, lemma_pow2_unfold, pow2};
use vstd::prelude::*;

use super::message;
use super::message::{Fields, Headers, Method, Request};
use super::uri;
use crate::net;
use crate::net::IpAddr;
use crate::table::Table;
use crate::text;

verus! {

/// How long a server transaction is remembered (RFC 3261 Timer H / 64*T1).
pub const TXN_LIFETIME: u64 = 32_000;

// ------------------------------------------------------------------ server transactions

/// Server-side transaction state, kept so that a retransmitted request is never executed twice.
#[derive(Debug)]
pub enum ServerTxn {
    /// Handed to a handler; the final response has not been produced yet. The most recent
    /// provisional, if any, is kept so a retransmission can be answered with it.
    InProgress { since: u64, provisional: Option<Vec<u8>> },
    /// Answered. Retransmissions get this response replayed verbatim.
    Completed { bytes: Vec<u8>, at: u64 },
}

/// A server transaction, mathematically.
pub enum Txn {
    InProgress { since: u64, provisional: Option<Seq<u8>> },
    Completed { bytes: Seq<u8>, at: u64 },
}

pub open spec fn opt_bytes(v: Option<Vec<u8>>) -> Option<Seq<u8>> {
    match v {
        Some(b) => Some(b@),
        None => None,
    }
}

impl View for ServerTxn {
    type V = Txn;

    open spec fn view(&self) -> Txn {
        match *self {
            ServerTxn::InProgress { since, provisional } => Txn::InProgress {
                since,
                provisional: opt_bytes(provisional),
            },
            ServerTxn::Completed { bytes, at } => Txn::Completed { bytes: bytes@, at },
        }
    }
}

/// The transactions of a table.
pub open spec fn txns(m: Map<Seq<char>, ServerTxn>) -> Map<Seq<char>, Txn> {
    Map::new(|k: Seq<char>| m.contains_key(k), |k: Seq<char>| m[k]@)
}

pub open spec fn started(t: Txn) -> u64 {
    match t {
        Txn::InProgress { since, .. } => since,
        Txn::Completed { at, .. } => at,
    }
}

/// The time between two moments; nothing where the second is not later.
pub open spec fn elapsed(from: u64, now: u64) -> int {
    if now >= from {
        now - from
    } else {
        0
    }
}

impl ServerTxn {
    pub(crate) fn started(&self) -> (r: u64)
        ensures
            r == started(self@),
    {
        match self {
            ServerTxn::InProgress { since, .. } => *since,
            ServerTxn::Completed { at, .. } => *at,
        }
    }
}

pub(crate) fn since(from: u64, now: u64) -> (r: u64)
    ensures
        r == elapsed(from, now),
{
    if now >= from {
        now - from
    } else {
        0
    }
}

/// What to do with a request whose transaction may already be known.
#[derive(Debug, PartialEq, Eq)]
pub enum Claim {
    /// Not seen before (or long expired): run the handler.
    Fresh,
    /// Still being handled; this copy is a retransmission. The most recent provisional is sent
    /// again, which stops the caller retransmitting; with nothing to send the copy is dropped.
    InFlight(Option<Vec<u8>>),
    /// Already answered; replay these bytes.
    Answered(Vec<u8>),
}

/// A claim, mathematically.
pub enum Claimed {
    Fresh,
    InFlight(Option<Seq<u8>>),
    Answered(Seq<u8>),
}

impl View for Claim {
    type V = Claimed;

    open spec fn view(&self) -> Claimed {
        match *self {
            Claim::Fresh => Claimed::Fresh,
            Claim::InFlight(p) => Claimed::InFlight(opt_bytes(p)),
            Claim::Answered(b) => Claimed::Answered(b@),
        }
    }
}

/// A transaction that is remembered and has not expired.
pub open spec fn known(m: Map<Seq<char>, Txn>, key: Seq<char>, now: u64) -> bool {
    m.contains_key(key) && elapsed(started(m[key]), now) < TXN_LIFETIME
}

pub open spec fn claim_of(m: Map<Seq<char>, Txn>, key: Seq<char>, now: u64) -> Claimed {
    if known(m, key, now) {
        match m[key] {
            Txn::Completed { bytes, .. } => Claimed::Answered(bytes),
            Txn::InProgress { provisional, .. } => Claimed::InFlight(provisional),
        }
    } else {
        Claimed::Fresh
    }
}

pub open spec fn after_claim(m: Map<Seq<char>, Txn>, key: Seq<char>, now: u64) -> Map<
    Seq<char>,
    Txn,
> {
    if known(m, key, now) {
        m
    } else {
        m.insert(key, Txn::InProgress { since: now, provisional: None })
    }
}

fn copy_bytes(v: &Option<Vec<u8>>) -> (r: Option<Vec<u8>>)
    ensures
        opt_bytes(r) == opt_bytes(*v),
{
    match v {
        Some(b) => Some(vstd::slice::slice_to_vec(b.as_slice())),
        None => None,
    }
}

/// Take ownership of a server transaction, or say why we cannot.
///
/// Claiming happens before any work starts, not after the response exists: a MESSAGE that spends
/// seconds at the modem would otherwise be handled once per retransmission and send the SMS several
/// times.
pub fn claim_txn(cache: &mut Table<ServerTxn>, key: &str, now: u64) -> (r: Claim)
    requires
        old(cache).wf(),
    ensures
        final(cache).wf(),
        r@ == claim_of(txns(old(cache)@), key@, now),
        txns(final(cache)@) == after_claim(txns(old(cache)@), key@, now),
{
    if let Some(txn) = cache.get(key) {
        if since(txn.started(), now) < TXN_LIFETIME {
            return match txn {
                ServerTxn::Completed { bytes, .. } => Claim::Answered(
                    vstd::slice::slice_to_vec(bytes.as_slice()),
                ),
                ServerTxn::InProgress { provisional, .. } => Claim::InFlight(
                    copy_bytes(provisional),
                ),
            };
        }
    }
    // Anything older than the transaction lifetime is a stale collision from a user agent that
    // restarted its branch counter, not a retransmission.
    let ghost before = cache@;
    cache.insert(key, ServerTxn::InProgress { since: now, provisional: None });
    assert(txns(cache@) =~= after_claim(txns(before), key@, now));
    Claim::Fresh
}

/// A transaction is handled once: the first copy is fresh, a copy within the lifetime is not, one
/// after the lifetime is fresh again.
pub proof fn law_a_transaction_is_claimed_once(
    m: Map<Seq<char>, Txn>,
    key: Seq<char>,
    t0: u64,
    t1: u64,
)
    requires
        !known(m, key, t0),
        t0 <= t1,
    ensures
        claim_of(m, key, t0) is Fresh,
        claim_of(after_claim(m, key, t0), key, t1) is Fresh == (t1 - t0 >= TXN_LIFETIME),
        t1 - t0 < TXN_LIFETIME ==> claim_of(after_claim(m, key, t0), key, t1)
            == Claimed::InFlight(None),
{
}

/// An answer is replayed for the lifetime of the transaction, and handled again after it.
pub proof fn law_an_answer_is_replayed(
    m: Map<Seq<char>, Txn>,
    key: Seq<char>,
    bytes: Seq<u8>,
    at: u64,
    now: u64,
)
    requires
        at <= now,
    ensures
        ({
            let answered = m.insert(key, Txn::Completed { bytes, at });
            claim_of(answered, key, now) == if now - at < TXN_LIFETIME {
                Claimed::Answered(bytes)
            } else {
                Claimed::Fresh
            }
        }),
{
}

/// Claiming one transaction touches no other.
pub proof fn law_claims_are_independent(
    m: Map<Seq<char>, Txn>,
    key: Seq<char>,
    other: Seq<char>,
    t: u64,
    now: u64,
)
    requires
        key != other,
    ensures
        claim_of(after_claim(m, key, t), other, now) == claim_of(m, other, now),
{
}

// ------------------------------------------------------------------ identities

pub open spec fn top_branch(f: Fields) -> Option<Seq<char>> {
    match message::field(f, "via"@) {
        Some(v) => match message::via_of(v) {
            Some(h) => uri::param_value(h.params, "branch"@),
            None => None,
        },
        None => None,
    }
}

pub open spec fn sequence_of(f: Fields) -> Option<(u32, Method)> {
    match message::field(f, "cseq"@) {
        Some(v) => message::cseq_of(v),
        None => None,
    }
}

pub open spec fn txn_text(branch: Seq<char>, cseq: u32, m: Method) -> Seq<char> {
    branch + "|"@ + text::dec(cseq as nat) + "|"@ + message::method_text(m)
}

pub open spec fn dialog_text(call_id: Seq<char>, cseq: u32) -> Seq<char> {
    call_id + "|"@ + text::dec(cseq as nat)
}

/// Transaction identity for server-side retransmission detection.
pub open spec fn txn_key_of(r: message::Asked) -> Option<Seq<char>> {
    match (top_branch(r.headers), sequence_of(r.headers)) {
        (Some(b), Some((n, _))) => Some(txn_text(b, n, r.method)),
        _ => None,
    }
}

/// Identity shared by an INVITE and the ACK that confirms its 2xx.
pub open spec fn dialog_key_of(r: message::Asked) -> Option<Seq<char>> {
    match (message::field(r.headers, "call-id"@), sequence_of(r.headers)) {
        (Some(c), Some((n, _))) => Some(dialog_text(c, n)),
        _ => None,
    }
}

pub(crate) fn branch_of(headers: &Headers) -> (r: Option<String>)
    ensures
        text::opt_text(r) == top_branch(headers@),
{
    match headers.top_via() {
        Some(via) => match via.branch() {
            Some(b) => Some(text::owned(b)),
            None => None,
        },
        None => None,
    }
}

/// The ACK for a 2xx is a transaction of its own with a branch of its own, so it cannot be matched
/// on the branch; what it does carry is the Call-ID and the INVITE's sequence number.
pub fn dialog_key(req: &Request) -> (r: Option<String>)
    ensures
        text::opt_text(r) == dialog_key_of(req@),
{
    match (req.headers.call_id(), req.headers.cseq()) {
        (Some(c), Some((n, _))) => {
            let mut out = text::owned(c);
            out.append("|");
            text::push_dec(&mut out, n as u64);
            Some(out)
        },
        _ => None,
    }
}

/// CANCEL shares the branch of the INVITE it cancels, so the method is part of the identity.
pub fn txn_key(req: &Request) -> (r: Option<String>)
    ensures
        text::opt_text(r) == txn_key_of(req@),
{
    match (branch_of(&req.headers), req.headers.cseq()) {
        (Some(b), Some((n, _))) => {
            let mut out = b;
            out.append("|");
            text::push_dec(&mut out, n as u64);
            out.append("|");
            out.append(req.method.as_str());
            Some(out)
        },
        _ => None,
    }
}

/// Requests of different methods never share a transaction, whatever their branch and number.
pub proof fn law_methods_have_transactions_of_their_own(
    branch: Seq<char>,
    cseq: u32,
    a: Method,
    b: Method,
)
    requires
        a != b,
    ensures
        txn_text(branch, cseq, a) != txn_text(branch, cseq, b),
{
    let p = branch + "|"@ + text::dec(cseq as nat) + "|"@;
    let x = txn_text(branch, cseq, a);
    let y = txn_text(branch, cseq, b);
    message::law_method_round_trip(a);
    message::law_method_round_trip(b);
    if x == y {
        assert(x.skip(p.len() as int) =~= message::method_text(a));
        assert(y.skip(p.len() as int) =~= message::method_text(b));
    }
}

/// An ACK has the identity of the INVITE it confirms, and of no other of the call.
pub proof fn law_an_ack_finds_its_invite(invite: message::Asked, ack: message::Asked)
    requires
        dialog_key_of(invite).is_some(),
        message::field(ack.headers, "call-id"@) == message::field(invite.headers, "call-id"@),
        sequence_of(ack.headers).is_some(),
    ensures
        (dialog_key_of(ack) == dialog_key_of(invite)) == (sequence_of(ack.headers).unwrap().0
            == sequence_of(invite.headers).unwrap().0),
{
    let c = message::field(invite.headers, "call-id"@).unwrap();
    let n = sequence_of(invite.headers).unwrap().0;
    let m = sequence_of(ack.headers).unwrap().0;
    let x = dialog_text(c, n);
    let y = dialog_text(c, m);
    let p = c + "|"@;
    assert(x.skip(p.len() as int) =~= text::dec(n as nat));
    assert(y.skip(p.len() as int) =~= text::dec(m as nat));
    text::lemma_dec_reads_back(n as nat);
    text::lemma_dec_reads_back(m as nat);
}

// ------------------------------------------------------------------ allowed sources

/// A number without its last `k` binary digits.
pub open spec fn leading_bits(n: nat, k: nat) -> nat
    decreases k,
{
    if k == 0 {
        n
    } else {
        leading_bits(n / 2, (k - 1) as nat)
    }
}

fn drop_bits(n: u128, k: u32) -> (r: u128)
    ensures
        r == leading_bits(n as nat, k as nat),
    decreases k,
{
    if k == 0 {
        n
    } else {
        drop_bits(n / 2, k - 1)
    }
}

/// An address lies in a network: the leading bits agree.
pub open spec fn in_network(n: IpAddr, prefix: nat, ip: IpAddr) -> bool {
    match (n, ip) {
        (IpAddr::V4(a), IpAddr::V4(b)) => prefix <= 32 && leading_bits(
            a as nat,
            (32 - prefix) as nat,
        ) == leading_bits(b as nat, (32 - prefix) as nat),
        (IpAddr::V6(a), IpAddr::V6(b)) => prefix <= 128 && leading_bits(
            a as nat,
            (128 - prefix) as nat,
        ) == leading_bits(b as nat, (128 - prefix) as nat),
        _ => false,
    }
}

/// A rule, an address or a network, admits an address.
pub open spec fn rule_admits(rule: Seq<char>, ip: IpAddr) -> bool {
    let r = text::trim(rule);
    match text::split_once(r, '/') {
        Some((n, p)) => match (
            net::ip_of(text::trim(n)),
            text::number(text::trim(p), 0xffff_ffff),
        ) {
            (Some(n), Some(p)) => in_network(n, p, ip),
            _ => false,
        },
        None => net::ip_of(r) == Some(ip),
    }
}

pub fn ip_matches(rule: &str, ip: IpAddr) -> (r: bool)
    ensures
        r == rule_admits(rule@, ip),
{
    let c = text::chars_of(rule);
    let rule = text::trimmed(c.as_slice());
    match text::cut(rule, '/') {
        Some((n, p)) => match (
            net::parse_ip_chars(text::trimmed(n)),
            text::parse_u32(text::trimmed(p)),
        ) {
            (Some(n), Some(p)) => match (n, ip) {
                (IpAddr::V4(a), IpAddr::V4(b)) => p <= 32 && drop_bits(a as u128, 32 - p)
                    == drop_bits(b as u128, 32 - p),
                (IpAddr::V6(a), IpAddr::V6(b)) => p <= 128 && drop_bits(a, 128 - p) == drop_bits(
                    b,
                    128 - p,
                ),
                _ => false,
            },
            _ => false,
        },
        None => match net::parse_ip_chars(rule) {
            Some(a) => a == ip,
            None => false,
        },
    }
}

/// An empty list admits everybody.
pub open spec fn admitted(rules: Seq<Seq<char>>, ip: IpAddr) -> bool {
    rules.len() == 0 || exists|i: int| 0 <= i < rules.len() && rule_admits(#[trigger] rules[i], ip)
}

pub fn source_allowed(allow: &Vec<String>, ip: IpAddr) -> (r: bool)
    ensures
        r == admitted(text::texts(allow@), ip),
{
    if allow.len() == 0 {
        return true;
    }
    let ghost rules = text::texts(allow@);
    let mut i: usize = 0;
    while i < allow.len()
        invariant
            i <= allow@.len(),
            rules == text::texts(allow@),
            forall|j: int| 0 <= j < i ==> !rule_admits(#[trigger] rules[j], ip),
        decreases allow@.len() - i,
    {
        if ip_matches(allow[i].as_str(), ip) {
            assert(rule_admits(rules[i as int], ip));
            return true;
        }
        i += 1;
    }
    false
}

proof fn lemma_no_bits(n: nat, k: nat)
    requires
        n < pow2(k),
    ensures
        leading_bits(n, k) == 0,
    decreases k,
{
    lemma2_to64();
    if k > 0 {
        lemma_pow2_unfold(k);
        lemma_no_bits(n / 2, (k - 1) as nat);
    }
}

/// A network of prefix zero holds every address of its family, one of full prefix only itself, and
/// none an address of the other family.
pub proof fn law_networks(n: u32, a: u32, m: u128, b: u128, prefix: nat)
    ensures
        in_network(IpAddr::V4(n), 0, IpAddr::V4(a)),
        in_network(IpAddr::V4(n), 32, IpAddr::V4(a)) == (a == n),
        in_network(IpAddr::V6(m), 0, IpAddr::V6(b)),
        in_network(IpAddr::V6(m), 128, IpAddr::V6(b)) == (b == m),
        !in_network(IpAddr::V4(n), prefix, IpAddr::V6(b)),
        !in_network(IpAddr::V6(b), prefix, IpAddr::V4(n)),
{
    lemma2_to64();
    lemma_pow2_adds(64, 64);
    lemma_no_bits(n as nat, 32);
    lemma_no_bits(a as nat, 32);
    lemma_no_bits(m as nat, 128);
    lemma_no_bits(b as nat, 128);
}

} // verus!
