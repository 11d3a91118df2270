//! Short messages and multimedia messages, on their way to and from SIP.
use vstd::prelude::*;
use vstd::utf8::*;

use super::modem_side;
use super::number;
use super::sip_side;
use super::{Gate, Gateway};
use crate::config::{Config, Sms};
use crate::db;
use crate::db::{Attachment, Direction, NewMessage, StoredMessage};
use crate::mm;
use crate::mm::proxies::sms as sms_state;
use crate::mm::SmsInfo;
use crate::mms::manager::SendRequest;
use crate::net::IpAddr;
use crate::sip::auth;
use crate::sip::engine;
use crate::sip::engine::{Element, SipCore};
use crate::sip::message;
use crate::sip::message::{Method, Request};
use crate::sip::round_trip;
use crate::sip::uri;
use crate::sip::uri::{NameAddr, Uri};
use crate::state;
use crate::text;

verus! {

/// Messages crossing the SIP boundary carry `messagetype=sms` as a parameter of the To header, set
/// on everything the gateway sends out and required on everything it is asked to send, so that a
/// MESSAGE meant for something else is never put on the air.
pub const MESSAGE_TYPE_PARAM: &'static str = "messagetype";

pub const MESSAGE_TYPE_SMS: &'static str = "sms";

// ------------------------------------------------------------------ MESSAGE from SIP

/// What a MESSAGE asks for.
#[derive(Debug)]
pub enum MessageStep {
    Refuse(u16),
    /// The body is a request to submit a multimedia message, to this number where it names none.
    Mms(String),
    /// A short message is to be sent.
    Sms { number: String, text: String },
}

/// What a MESSAGE asks for, mathematically.
#[verifier::ext_equal]
pub enum Messaged {
    Refuse(u16),
    Mms(Seq<char>),
    Sms { number: Seq<char>, text: Seq<char> },
}

impl View for MessageStep {
    type V = Messaged;

    open spec fn view(&self) -> Messaged {
        match *self {
            MessageStep::Refuse(code) => Messaged::Refuse(code),
            MessageStep::Mms(number) => Messaged::Mms(number@),
            MessageStep::Sms { number, text } => Messaged::Sms { number: number@, text: text@ },
        }
    }
}

/// The address that a MESSAGE is for.
pub open spec fn addressee(req: message::Asked) -> uri::Address {
    match message::party_field(req.headers, "to"@) {
        Some(p) => p.uri,
        None => req.uri,
    }
}

/// What a MESSAGE declares itself to be: a parameter of the To header, or else of the address.
pub open spec fn declared_type(req: message::Asked) -> Option<Seq<char>> {
    let inside = uri::param_value(addressee(req).params, MESSAGE_TYPE_PARAM@);
    match message::party_field(req.headers, "to"@) {
        Some(p) => match uri::pair_value(p.params, MESSAGE_TYPE_PARAM@) {
            Some(v) => Some(v),
            None => inside,
        },
        None => inside,
    }
}

/// Only messages explicitly marked as short messages are put on the air.
pub open spec fn is_marked(req: message::Asked) -> bool {
    match declared_type(req) {
        Some(v) => text::eq_nocase(v, MESSAGE_TYPE_SMS@),
        None => false,
    }
}

pub open spec fn messaged(g: Gate, req: message::Asked) -> Messaged {
    let kind = sip_side::media_type_or(req.headers, "text/plain"@);
    let number = sip_side::asked_number(addressee(req));
    if !is_marked(req) {
        Messaged::Refuse(415)
    } else if !g.modem {
        Messaged::Refuse(503)
    } else if text::find_text(kind, "json"@) >= 0 {
        Messaged::Mms(number)
    } else if !text::has_prefix(kind, "text/plain"@) {
        Messaged::Refuse(415)
    } else if number.len() == 0 {
        Messaged::Refuse(484)
    } else {
        Messaged::Sms { number, text: text::lossy(req.body) }
    }
}

fn marked(req: &Request, to: &Option<NameAddr>) -> (r: bool)
    requires
        message::opt_party(*to) == message::party_field(req@.headers, "to"@),
    ensures
        r == is_marked(req@),
{
    let inside = match to {
        Some(p) => p.uri.param(MESSAGE_TYPE_PARAM),
        None => req.uri.param(MESSAGE_TYPE_PARAM),
    };
    let declared = match to {
        Some(p) => match p.param(MESSAGE_TYPE_PARAM) {
            Some(v) => Some(v),
            None => inside,
        },
        None => inside,
    };
    match declared {
        Some(v) => text::str_is_nocase(v, MESSAGE_TYPE_SMS),
        None => false,
    }
}

impl Gateway {
    /// SIP MESSAGE: send an SMS (text/plain) or an MMS (JSON body).
    pub fn on_sip_message(&self, req: &Request) -> (r: MessageStep)
        ensures
            r@ == messaged(self@, req@),
    {
        let to = req.headers.to();
        if !marked(req, &to) {
            return MessageStep::Refuse(415);
        }
        if !self.modem {
            return MessageStep::Refuse(503);
        }
        let kind = match req.headers.content_type() {
            Some(t) => text::chars_of(t),
            None => text::chars_of("text/plain"),
        };
        let number = match &to {
            Some(p) => sip_side::number_in(&p.uri),
            None => sip_side::number_in(&req.uri),
        };
        if text::contains_text(kind.as_slice(), "json") {
            return MessageStep::Mms(number);
        }
        if !text::starts_with(kind.as_slice(), "text/plain") {
            return MessageStep::Refuse(415);
        }
        if text::chars_of(number.as_str()).len() == 0 {
            return MessageStep::Refuse(484);
        }
        MessageStep::Sms { number, text: req.body_str() }
    }
}

/// Nothing goes on the air that is not marked.
pub proof fn law_an_unmarked_message_is_refused(g: Gate, req: message::Asked)
    requires
        !is_marked(req),
    ensures
        messaged(g, req) == Messaged::Refuse(415),
{
}

/// Without a modem, a message is refused as a call is.
pub proof fn law_a_missing_modem_refuses_messages(g: Gate, req: message::Asked)
    requires
        !g.modem,
        is_marked(req),
    ensures
        messaged(g, req) == Messaged::Refuse(503),
{
}

/// What became of a submission.
#[derive(Debug, Clone, Copy, PartialEq, Eq, Structural)]
pub enum Submitted {
    /// The body could not be read.
    Unreadable,
    Failed,
    Accepted,
}

/// The answer to a MESSAGE once its submission was tried.
pub fn submission_code(outcome: Submitted) -> (r: u16)
    ensures
        r == match outcome {
            Submitted::Unreadable => 400u16,
            Submitted::Failed => 500u16,
            Submitted::Accepted => 202u16,
        },
{
    match outcome {
        Submitted::Unreadable => 400,
        Submitted::Failed => 500,
        Submitted::Accepted => 202,
    }
}

/// A submission that names no recipient goes to the number that the MESSAGE is for.
pub fn add_recipient(sr: &mut SendRequest, number: &str)
    ensures
        text::texts(final(sr).to@) == if old(sr).to@.len() == 0 && number@.len() > 0 {
            seq![number@]
        } else {
            text::texts(old(sr).to@)
        },
        final(sr).subject == old(sr).subject,
        final(sr).text == old(sr).text,
        final(sr).attachments == old(sr).attachments,
{
    if sr.to.len() == 0 && text::chars_of(number).len() > 0 {
        sr.to.push(text::owned(number));
        assert(text::texts(sr.to@) =~= seq![number@]);
    }
}

// ------------------------------------------------------------------ identities and records

/// Identity of a message that we sent: its object and when.
///
/// ModemManager numbers its SMS objects from zero on every start, so the bare object path collides
/// with one from a previous run. The path is kept only because it links the record to the object.
pub fn outgoing_sms_id_at(path: &str, now: &str) -> (r: String)
    ensures
        r@ == path@ + "|"@ + now@,
{
    let mut out = text::owned(path);
    out.append("|");
    out.append(now);
    out
}

/// Identity of a message that we sent just now: its object and the text of the time.
pub fn outgoing_sms_id(path: &str) -> (r: String)
    ensures
        exists|now: Seq<char>|
            #[trigger] db::is_time_text(now) && now.len() >= 25 && r@ == path@ + "|"@ + now,
{
    let now = db::now_iso();
    outgoing_sms_id_at(path, now.as_str())
}

/// Whether a message we sent is dropped from the modem: recorded and on its way it need not be kept
/// there, unless its delivery report is still to come.
pub fn deletes_sent(cfg: &Sms) -> (r: bool)
    ensures
        r == (cfg.delete_from_modem && !cfg.delivery_report),
{
    cfg.delete_from_modem && !cfg.delivery_report
}

/// What the network said of a message: when it arrived and who sent it, and what it contained.
/// Without a network timestamp there is nothing stable to go by, so the object path is used after
/// all.
pub open spec fn incoming_id(
    path: Seq<char>,
    timestamp: Option<Seq<char>>,
    peer: Seq<char>,
    body: Seq<char>,
    data: Seq<u8>,
) -> Seq<char> {
    let when = match timestamp {
        Some(t) => text::trim(t),
        None => seq![],
    };
    (if when.len() > 0 {
        when
    } else {
        path
    }) + "|"@ + peer + "|"@ + auth::md5_text(encode_utf8(body) + data)
}

/// Identity of a received message, for de-duplication.
///
/// A message the modem keeps in its own storage is announced again every time the modem comes back,
/// and ModemManager renumbers its objects when it does, so a key built on the object path would let
/// the same message in twice.
pub fn incoming_sms_id(path: &str, info: &SmsInfo, peer: &str) -> (r: String)
    ensures
        r@ == incoming_id(path@, text::opt_text(info.timestamp), peer@, info.text@, info.data@),
{
    let mut content = vstd::slice::slice_to_vec(info.text.as_str().as_bytes());
    text::append_bytes(&mut content, info.data.as_slice());
    let digest = auth::md5_hex(content.as_slice());
    let when = match &info.timestamp {
        Some(t) => {
            let c = text::chars_of(t.as_str());
            text::string_of(text::trimmed(c.as_slice()))
        },
        None => text::string_of(&[]),
    };
    assert(info.timestamp.is_none() ==> when@ =~= Seq::<char>::empty());
    let mut out = if text::chars_of(when.as_str()).len() > 0 {
        when
    } else {
        text::owned(path)
    };
    out.append("|");
    out.append(peer);
    out.append("|");
    out.append(digest.as_str());
    out
}

/// A message that is announced again under another object is still the same message, where the
/// network said when it arrived.
pub proof fn law_a_renumbered_message_is_the_same(
    path: Seq<char>,
    other: Seq<char>,
    timestamp: Seq<char>,
    peer: Seq<char>,
    body: Seq<char>,
    data: Seq<u8>,
)
    requires
        text::trim(timestamp).len() > 0,
    ensures
        incoming_id(path, Some(timestamp), peer, body, data) == incoming_id(
            other,
            Some(timestamp),
            peer,
            body,
            data,
        ),
{
}

/// The record of a short message that was received.
pub fn text_record(cfg: &Config, info: &SmsInfo, own_number: &Option<String>) -> (r: NewMessage)
    ensures
        r.kind@ == "sms"@,
        r.direction == Direction::Incoming,
        r.peer@ == number::shown_number(*cfg, info.number@),
        text::opt_text(r.own_number) == text::opt_text(*own_number),
        r.subject.is_none(),
        text::opt_text(r.text) == Some(info.text@),
        text::opt_text(r.timestamp) == text::opt_text(info.timestamp),
        r.status@ == "received"@,
        text::opt_text(r.external_id) == Some(
            incoming_id(
                info.path@,
                text::opt_text(info.timestamp),
                r.peer@,
                info.text@,
                info.data@,
            ),
        ),
        match r.raw {
            Some(raw) => info.data@.len() > 0 && raw@ == info.data@,
            None => info.data@.len() == 0,
        },
{
    let peer = number::show_number(cfg, info.number.as_str());
    let id = incoming_sms_id(info.path.as_str(), info, peer.as_str());
    NewMessage {
        kind: "sms",
        direction: Direction::Incoming,
        peer,
        own_number: text::copy_option(own_number),
        subject: None,
        text: Some(text::owned(info.text.as_str())),
        timestamp: text::copy_option(&info.timestamp),
        status: text::owned("received"),
        external_id: Some(id),
        raw: if info.data.len() == 0 {
            None
        } else {
            Some(vstd::slice::slice_to_vec(info.data.as_slice()))
        },
    }
}

/// The record of a short message that was sent, given its identity.
pub fn sent_record(number: String, body: String, id: String) -> (r: NewMessage)
    ensures
        r.kind@ == "sms"@,
        r.direction == Direction::Outgoing,
        r.peer@ == number@,
        text::opt_text(r.text) == Some(body@),
        r.status@ == "sent"@,
        text::opt_text(r.external_id) == Some(id@),
        r.own_number.is_none() && r.subject.is_none() && r.timestamp.is_none() && r.raw.is_none(),
{
    NewMessage {
        kind: "sms",
        direction: Direction::Outgoing,
        peer: number,
        own_number: None,
        subject: None,
        text: Some(body),
        timestamp: None,
        status: text::owned("sent"),
        external_id: Some(id),
        raw: None,
    }
}

// ------------------------------------------------------------------ messages from the modem

/// How often a message that is still arriving is read again.
///
/// ModemManager announces a concatenated message when its first part lands and never signals again
/// once the rest arrives, so a message that is not complete has to be looked at again or it is lost.
pub const SMS_ASSEMBLY_ATTEMPTS: u32 = 10;

/// How far apart, in seconds. Ten seconds cover the segments of a long message; one that is still
/// incomplete after that has lost parts on the air and never completes.
pub const SMS_ASSEMBLY_INTERVAL: u64 = 1;

/// What to do with a message object.
#[derive(Debug, Clone, Copy, PartialEq, Eq, Structural)]
pub enum SmsStep {
    /// It is not an incoming message.
    Ignore,
    /// It never finished arriving.
    Lost,
    /// It is still arriving: look again, for the time that is given.
    Again { attempt: u32 },
    /// It announces a multimedia message.
    Push,
    Text,
}

pub open spec fn is_incoming(info: SmsInfo, received: bool) -> bool {
    info.pdu_type == sms_state::PDU_DELIVER || (received && info.pdu_type != sms_state::PDU_SUBMIT)
}

pub open spec fn sms_step(info: SmsInfo, received: bool, attempt: u32) -> SmsStep {
    if !is_incoming(info, received) {
        SmsStep::Ignore
    } else if info.state == sms_state::STATE_RECEIVING {
        if attempt >= SMS_ASSEMBLY_ATTEMPTS {
            SmsStep::Lost
        } else {
            SmsStep::Again { attempt: (attempt + 1) as u32 }
        }
    } else if info.state == sms_state::STATE_RECEIVED || info.state == sms_state::STATE_STORED {
        if mm::is_binary_push(info.text@, info.data@) {
            SmsStep::Push
        } else {
            SmsStep::Text
        }
    } else {
        SmsStep::Ignore
    }
}

pub fn on_sms_added(info: &SmsInfo, received: bool, attempt: u32) -> (r: SmsStep)
    ensures
        r == sms_step(*info, received, attempt),
{
    let incoming = info.pdu_type == sms_state::PDU_DELIVER || (received && info.pdu_type
        != sms_state::PDU_SUBMIT);
    if !incoming {
        return SmsStep::Ignore;
    }
    if info.state == sms_state::STATE_RECEIVING {
        if attempt >= SMS_ASSEMBLY_ATTEMPTS {
            return SmsStep::Lost;
        }
        return SmsStep::Again { attempt: attempt + 1 };
    }
    if info.state != sms_state::STATE_RECEIVED && info.state != sms_state::STATE_STORED {
        return SmsStep::Ignore;
    }
    if info.looks_like_wap_push() {
        SmsStep::Push
    } else {
        SmsStep::Text
    }
}

/// Looking again ends: every further look is counted, and the count is bounded.
pub proof fn law_assembly_ends(info: SmsInfo, received: bool, attempt: u32)
    ensures
        sms_step(info, received, attempt) matches SmsStep::Again { attempt: next } ==> next == attempt
            + 1 && next <= SMS_ASSEMBLY_ATTEMPTS,
{
}

// ------------------------------------------------------------------ MESSAGE to SIP

/// Where a message is announced: the target for messages, or else the one for calls.
pub fn message_target(cfg: &Config) -> (r: Option<&str>)
    ensures
        text::opt_str(r) == match text::opt_text(cfg.sip.sms_target) {
            Some(t) => Some(t),
            None => text::opt_text(cfg.sip.call_target),
        },
{
    match &cfg.sip.sms_target {
        Some(t) => Some(t.as_str()),
        None => match &cfg.sip.call_target {
            Some(t) => Some(t.as_str()),
            None => None,
        },
    }
}

/// The sender of a message as a party: reduced to what can be dialled, since it goes into a header.
pub open spec fn sender_party(e: Element, peer: Seq<char>, tag: Seq<char>) -> uri::Party {
    let user = if number::sanitized(peer).len() == 0 {
        "unknown"@
    } else {
        number::sanitized(peer)
    };
    uri::party_with(
        uri::Party {
            display: Some(user),
            uri: modem_side::plain_address(user, engine::domain_of(e)),
            params: seq![],
        },
        "tag"@,
        tag,
    )
}

/// The target of a message as a party, marked with what this is.
pub open spec fn marked_party(target: uri::Address) -> uri::Party {
    uri::party_with(
        uri::Party { display: None, uri: uri::bare_address(target), params: seq![] },
        MESSAGE_TYPE_PARAM@,
        MESSAGE_TYPE_SMS@,
    )
}

/// The MESSAGE that tells of a message from the mobile network.
pub open spec fn announcement(
    e: Element,
    target: uri::Address,
    peer: Seq<char>,
    content_type: Seq<char>,
    body: Seq<char>,
    route: Option<IpAddr>,
    tag: Seq<char>,
    random: Seq<char>,
    branch: Seq<char>,
) -> message::Asked {
    let base = engine::own_request(
        e.transport,
        e.cfg.user_agent@,
        Method::Message,
        target,
        sender_party(e, peer, tag),
        marked_party(target),
        modem_side::own_call_id(random),
        e.cseq,
        route,
        false,
        branch,
    );
    message::Asked {
        headers: message::with_field(base.headers, "content-type"@, content_type),
        body: encode_utf8(body),
        ..base
    }
}

/// Deliver an incoming message to the SIP side as a MESSAGE request, given the source address towards
/// the target and the random parts of the request.
///
/// The peer is a number the network reported; for MMS it is a free-form address decoded from a PDU an
/// SMS sender wrote, so it can hold anything at all, CRLF too.
pub fn notify_sip_message(
    core: &mut SipCore,
    target: Uri,
    peer: &str,
    content_type: &str,
    body: &str,
    route: Option<IpAddr>,
    tag: &str,
    random: &str,
    branch: &str,
) -> (r: Request)
    requires
        old(core).wf(),
    ensures
        final(core).wf(),
        final(core)@ == (Element {
            cseq: ((old(core)@.cseq + 1) % 0x1_0000_0000) as u32,
            ..old(core)@
        }),
        r@ == announcement(
            old(core)@,
            target@,
            peer@,
            content_type@,
            body@,
            route,
            tag@,
            random@,
            branch@,
        ),
{
    let domain = core.domain();
    let dialled = number::sanitize_number(peer);
    let user = if text::chars_of(dialled.as_str()).len() == 0 {
        text::owned("unknown")
    } else {
        dialled
    };
    let from = NameAddr {
        display: Some(text::owned(user.as_str())),
        uri: Uri::new(Some(user.as_str()), domain.as_str(), None),
        params: Vec::new(),
    }.with_tag(tag);
    let mut to = NameAddr::new(target.bare());
    to.set_param(MESSAGE_TYPE_PARAM, Some(MESSAGE_TYPE_SMS));
    let mut call_id = text::owned(random);
    call_id.append("@modem2sip");
    let cseq = core.next_cseq();
    let mut req = core.build_request_with(
        Method::Message,
        target,
        &from,
        &to,
        call_id.as_str(),
        cseq,
        route,
        false,
        branch,
    );
    req.headers.set("content-type", content_type);
    req.body = vstd::slice::slice_to_vec(body.as_bytes());
    req
}

// ------------------------------------------------------------------ sizes

/// The step between neighbouring numbers of the size of `n` that have 53 significant bits.
pub open spec fn grain(n: nat) -> nat
    decreases n,
{
    if n < 0x20_0000_0000_0000 {
        1
    } else {
        2 * grain(n / 2)
    }
}

/// A quotient rounded to the nearest whole number, and to the even one of two that are as near.
pub open spec fn rounded(n: nat, d: nat) -> nat {
    let q = n / d;
    let twice = 2 * (n % d);
    if twice > d || (twice == d && q % 2 == 1) {
        q + 1
    } else {
        q
    }
}

/// A number of bytes, to 53 significant bits.
pub open spec fn significant(n: nat) -> nat {
    rounded(n, grain(n)) * grain(n)
}

/// The largest unit of which there is at least one: 1024 bytes, the square of it, or the cube.
pub open spec fn size_unit(n: nat) -> (nat, Seq<char>) {
    if n < 0x10_0000 {
        (0x400, "KB"@)
    } else if n < 0x4000_0000 {
        (0x10_0000, "MB"@)
    } else {
        (0x4000_0000, "GB"@)
    }
}

/// A size for people: whole bytes below 1024, and otherwise tenths of a larger unit.
pub open spec fn size_text(bytes: int) -> Seq<char> {
    if bytes < 1024 {
        text::dec_int(bytes) + " B"@
    } else {
        let n = significant(bytes as nat);
        let tenths = rounded(10 * n, size_unit(n).0);
        text::dec(tenths / 10) + "."@ + text::dec(tenths % 10) + " "@ + size_unit(n).1
    }
}

fn round(n: u128, d: u128) -> (r: u128)
    requires
        d > 0,
        n < 0x1_0000_0000_0000_0000_0000,
        d < 0x1_0000_0000_0000_0000,
    ensures
        r == rounded(n as nat, d as nat),
        r <= n,
{
    let q = n / d;
    let twice = 2 * (n % d);
    assert(q <= n) by (nonlinear_arith)
        requires
            d > 0,
            q == n / d,
    ;
    if twice > d || (twice == d && q % 2 == 1) {
        assert(q + 1 <= n) by (nonlinear_arith)
            requires
                d > 0,
                q == n / d,
                2 * (n % d) >= d,
        ;
        q + 1
    } else {
        q
    }
}

proof fn lemma_grain(n: nat)
    requires
        n < 0x8000_0000_0000_0000,
    ensures
        1 <= grain(n) <= 1024,
{
    reveal_with_fuel(grain, 12);
}

fn grain_of(n: u64) -> (r: u64)
    requires
        n < 0x8000_0000_0000_0000,
    ensures
        r == grain(n as nat),
        1 <= r <= 1024,
{
    let mut m = n;
    let mut step: u64 = 1;
    proof {
        lemma_grain(n as nat);
    }
    while m >= 0x20_0000_0000_0000
        invariant
            1 <= step,
            step * grain(m as nat) == grain(n as nat),
            grain(n as nat) <= 1024,
            grain(m as nat) >= 1,
        decreases m,
    {
        let ghost before = grain(m as nat);
        assert(before == 2 * grain((m / 2) as nat));
        assert(step <= 1024) by (nonlinear_arith)
            requires
                step * before <= 1024,
                before >= 1,
        ;
        assert((step * 2) * grain((m / 2) as nat) == step * before) by (nonlinear_arith)
            requires
                before == 2 * grain((m / 2) as nat),
        ;
        step = step * 2;
        m = m / 2;
    }
    assert(grain(m as nat) == 1);
    assert(step * 1 == step);
    step
}

fn human_size(bytes: i64) -> (r: String)
    ensures
        r@ == size_text(bytes as int),
{
    if bytes < 1024 {
        let mut out = text::decimal_i64(bytes);
        out.append(" B");
        return out;
    }
    let g = grain_of(bytes as u64);
    let q = round(bytes as u128, g as u128);
    assert(q * g <= 0x8000_0000_0000_0000 * 1024) by (nonlinear_arith)
        requires
            q <= 0x7fff_ffff_ffff_ffff,
            g <= 1024,
    ;
    let n = q * g as u128;
    let (unit, name) = if n < 0x10_0000 {
        (0x400u128, "KB")
    } else if n < 0x4000_0000 {
        (0x10_0000u128, "MB")
    } else {
        (0x4000_0000u128, "GB")
    };
    let tenths = round(10 * n, unit);
    assert(tenths / 10 <= u64::MAX) by {
        lemma_tenths(n as nat, unit as nat);
    }
    let mut out = text::decimal((tenths / 10) as u64);
    out.append(".");
    text::push_dec(&mut out, (tenths % 10) as u64);
    out.append(" ");
    out.append(name);
    out
}

proof fn lemma_tenths(n: nat, unit: nat)
    requires
        n <= 0x8000_0000_0000_0000 * 1024,
        unit >= 1024,
    ensures
        rounded(10 * n, unit) / 10 <= u64::MAX,
{
    assert((10 * n) / unit <= 10 * 0x8000_0000_0000_0000) by (nonlinear_arith)
        requires
            n <= 0x8000_0000_0000_0000 * 1024,
            unit >= 1024,
    ;
}

// ------------------------------------------------------------------ the summary

pub open spec fn attachment_name(a: Attachment) -> Seq<char> {
    match a.name {
        Some(n) => n@,
        None => "part"@ + text::dec_int(a.index as int),
    }
}

/// The lines on an attachment, with the address at which it can be had.
pub open spec fn attachment_lines(a: Attachment, base: Seq<char>, id: int) -> Seq<char> {
    text::dec_int(a.index as int) + ". "@ + attachment_name(a) + " ("@ + a.content_type@ + ", "@
        + size_text(a.size as int) + ")\n   "@ + base + "/messages/"@ + text::dec_int(id)
        + "/attachments/"@ + text::dec_int(a.index as int) + "\n"@
}

pub open spec fn attachments_text(v: Seq<Attachment>, base: Seq<char>, id: int) -> Seq<char>
    decreases v.len(),
{
    if v.len() == 0 {
        seq![]
    } else {
        attachments_text(v.drop_last(), base, id) + attachment_lines(v.last(), base, id)
    }
}

pub open spec fn subject_line(subject: Option<Seq<char>>) -> Seq<char> {
    match subject {
        Some(s) => if s.len() > 0 {
            "Subject: "@ + s + "\n"@
        } else {
            seq![]
        },
        None => seq![],
    }
}

pub open spec fn body_lines(body: Option<Seq<char>>) -> Seq<char> {
    match body {
        Some(t) => if t.len() > 0 {
            "\n"@ + t + "\n"@
        } else {
            seq![]
        },
        None => seq![],
    }
}

pub open spec fn attachment_part(v: Seq<Attachment>, base: Seq<char>, id: int) -> Seq<char> {
    if v.len() > 0 {
        "\n-- "@ + text::dec(v.len()) + " attachment(s) --\n"@ + attachments_text(v, base, id)
    } else {
        seq![]
    }
}

pub open spec fn status_part(status: Seq<char>) -> Seq<char> {
    if status == "received"@ {
        seq![]
    } else {
        "\n(status: "@ + status + ")\n"@
    }
}

/// A multimedia message for people.
pub open spec fn summary(base: Seq<char>, msg: StoredMessage) -> Seq<char> {
    "[MMS] from "@ + msg.peer@ + "\n"@ + subject_line(text::opt_text(msg.subject)) + body_lines(
        text::opt_text(msg.text),
    ) + attachment_part(msg.attachments@, base, msg.id as int) + status_part(msg.status@)
}

fn push_attachment(out: &mut String, a: &Attachment, base: &str, id: i64)
    ensures
        final(out)@ == old(out)@ + attachment_lines(*a, base@, id as int),
{
    let mut line = text::decimal_i64(a.index);
    line.append(". ");
    match &a.name {
        Some(n) => line.append(n.as_str()),
        None => {
            let mut name = text::owned("part");
            name.append(text::decimal_i64(a.index).as_str());
            line.append(name.as_str());
        },
    }
    line.append(" (");
    line.append(a.content_type.as_str());
    line.append(", ");
    line.append(human_size(a.size).as_str());
    line.append(")\n   ");
    line.append(base);
    line.append("/messages/");
    line.append(text::decimal_i64(id).as_str());
    line.append("/attachments/");
    line.append(text::decimal_i64(a.index).as_str());
    line.append("\n");
    out.append(line.as_str());
}

fn push_attachments(out: &mut String, v: &Vec<Attachment>, base: &str, id: i64)
    ensures
        final(out)@ == old(out)@ + attachments_text(v@, base@, id as int),
{
    let ghost before = out@;
    let mut i: usize = 0;
    assert(out@ =~= before + attachments_text(v@.take(0), base@, id as int));
    while i < v.len()
        invariant
            i <= v@.len(),
            before == old(out)@,
            out@ == before + attachments_text(v@.take(i as int), base@, id as int),
        decreases v@.len() - i,
    {
        assert(v@.take(i + 1).drop_last() =~= v@.take(i as int));
        let ghost so_far = attachments_text(v@.take(i as int), base@, id as int);
        push_attachment(out, &v[i], base, id);
        assert(out@ =~= before + (so_far + attachment_lines(v@[i as int], base@, id as int)));
        i += 1;
    }
    assert(v@.take(i as int) =~= v@);
}

/// Human readable, deliberately small: the full MMS with its attachments stays in the database and is
/// reachable over the HTTP API.
pub fn format_mms_summary(cfg: &Config, msg: &StoredMessage) -> (r: String)
    ensures
        r@ == summary(
            match text::opt_text(cfg.http.base_url) {
                Some(u) => u,
                None => "http://"@ + cfg.http.bind@,
            },
            *msg,
        ),
{
    let base = state::http_base_url(cfg);
    let mut out = text::owned("[MMS] from ");
    out.append(msg.peer.as_str());
    out.append("\n");
    let ghost head = out@;
    if let Some(s) = &msg.subject {
        if text::chars_of(s.as_str()).len() > 0 {
            let mut line = text::owned("Subject: ");
            line.append(s.as_str());
            line.append("\n");
            out.append(line.as_str());
        }
    }
    assert(out@ =~= head + subject_line(text::opt_text(msg.subject)));
    let ghost head = out@;
    if let Some(t) = &msg.text {
        if text::chars_of(t.as_str()).len() > 0 {
            let mut part = text::owned("\n");
            part.append(t.as_str());
            part.append("\n");
            out.append(part.as_str());
        }
    }
    assert(out@ =~= head + body_lines(text::opt_text(msg.text)));
    let ghost head = out@;
    if msg.attachments.len() > 0 {
        let mut part = text::owned("\n-- ");
        text::push_dec(&mut part, msg.attachments.len() as u64);
        part.append(" attachment(s) --\n");
        push_attachments(&mut part, &msg.attachments, base.as_str(), msg.id);
        out.append(part.as_str());
    }
    assert(out@ =~= head + attachment_part(msg.attachments@, base@, msg.id as int));
    let ghost head = out@;
    if !text::str_is(msg.status.as_str(), "received") {
        let mut part = text::owned("\n(status: ");
        part.append(msg.status.as_str());
        part.append(")\n");
        out.append(part.as_str());
    }
    assert(out@ =~= head + status_part(msg.status@));
    out
}


// ------------------------------------------------------------------ laws

pub proof fn lemma_marked_party_writable(target: uri::Address)
    requires
        round_trip::uri_writable(uri::bare_address(target)),
        !uri::uri_text(uri::bare_address(target)).contains('>'),
    ensures
        round_trip::party_writable(marked_party(target)),
{
    let p = marked_party(target);
    let name = MESSAGE_TYPE_PARAM@;
    let sms = MESSAGE_TYPE_SMS@;
    reveal_strlit("messagetype");
    reveal_strlit("sms");
    reveal_strlit("=");
    assert(text::lower(name) =~= name);
    assert(uri::without_pair(seq![], name) =~= seq![]);
    assert(p.params =~= seq![(name, sms)]);
    let piece = round_trip::pair_piece((name, sms));
    assert(piece =~= name + seq!['='] + sms);
    assert(!piece.contains(';'));
    assert(round_trip::pair_writable((name, sms)));
}

proof fn lemma_header_names()
    ensures
        message::canonical_name("to"@) == "to"@ && "to"@.len() == 2,
        message::canonical_name("call-id"@) == "call-id"@ && "call-id"@.len() == 7,
        message::canonical_name("cseq"@) == "cseq"@ && "cseq"@.len() == 4,
        message::canonical_name("user-agent"@) == "user-agent"@ && "user-agent"@.len() == 10,
        message::canonical_name("content-type"@) == "content-type"@ && "content-type"@.len() == 12,
{
    reveal_strlit("to");
    reveal_strlit("call-id");
    reveal_strlit("cseq");
    reveal_strlit("user-agent");
    reveal_strlit("content-type");
    assert(text::lower("to"@) =~= "to"@);
    assert(text::lower("call-id"@) =~= "call-id"@);
    assert(text::lower("cseq"@) =~= "cseq"@);
    assert(text::lower("user-agent"@) =~= "user-agent"@);
    assert(text::lower("content-type"@) =~= "content-type"@);
    message::lemma_plain_name("to"@);
    message::lemma_plain_name("call-id"@);
    message::lemma_plain_name("cseq"@);
    message::lemma_plain_name("user-agent"@);
    message::lemma_plain_name("content-type"@);
}

/// Everything that is handed to SIP carries the mark that is asked of what comes from there.
pub proof fn law_what_is_announced_is_marked(
    e: Element,
    target: uri::Address,
    peer: Seq<char>,
    content_type: Seq<char>,
    body: Seq<char>,
    route: Option<IpAddr>,
    tag: Seq<char>,
    random: Seq<char>,
    branch: Seq<char>,
)
    requires
        round_trip::uri_writable(uri::bare_address(target)),
        !uri::uri_text(uri::bare_address(target)).contains('>'),
    ensures
        is_marked(announcement(e, target, peer, content_type, body, route, tag, random, branch)),
{
    let req = announcement(e, target, peer, content_type, body, route, tag, random, branch);
    let to = uri::party_text(marked_party(target));
    lemma_header_names();
    let f = message::added_field(seq![], "via"@, engine::own_via(e.transport, route, branch));
    let f = message::with_field(f, "max-forwards"@, "70"@);
    let f = message::with_field(f, "from"@, uri::party_text(sender_party(e, peer, tag)));
    message::law_set_then_get(f, "to"@, to, "to"@);
    let f = message::with_field(f, "to"@, to);
    let id = modem_side::own_call_id(random);
    message::law_set_then_get(f, "call-id"@, id, "to"@);
    let f = message::with_field(f, "call-id"@, id);
    let n = engine::cseq_value(e.cseq, Method::Message);
    message::law_set_then_get(f, "cseq"@, n, "to"@);
    let f = message::with_field(f, "cseq"@, n);
    message::law_set_then_get(f, "user-agent"@, e.cfg.user_agent@, "to"@);
    let f = message::with_field(f, "user-agent"@, e.cfg.user_agent@);
    message::law_set_then_get(f, "content-type"@, content_type, "to"@);
    assert(message::field(req.headers, "to"@) == Some(to));
    lemma_marked_party_writable(target);
    round_trip::law_a_party_reads_back(marked_party(target));
    round_trip::law_a_set_party_parameter_is_found(
        uri::Party { display: None, uri: uri::bare_address(target), params: seq![] },
        MESSAGE_TYPE_PARAM@,
        MESSAGE_TYPE_SMS@,
        MESSAGE_TYPE_PARAM@,
    );
}

} // verus!
