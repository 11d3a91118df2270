//! MMS orchestration: from a notification to its retrieval, and submission.
//!
//! The database and the network are the caller's; what is stored, sent and made of the replies is
//! decided here.
use vstd::prelude::*;
use vstd::utf8::*;

use super::http::{HttpOptions, HttpResponse};
use super::pdu;
use super::pdu::msg_type;
use super::pdu::{MmsMessage, MmsPart, SendReq};
use super::wsp;
use super::PushError;
use crate::config::{Config, Mms, ModemMatch};
use crate::db;
use crate::db::{Direction, NewMessage};
use crate::mm::{BearerNet, SmsInfo};
use crate::net::IpAddr;
use crate::sip::auth;
use crate::state;
use crate::text;

verus! {

/// What the HTTP API and the SIP side hand over when submitting an MMS.
#[derive(Debug)]
pub struct SendRequest {
    pub to: Vec<String>,
    pub subject: Option<String>,
    pub text: Option<String>,
    pub attachments: Vec<SendAttachment>,
}

#[derive(Debug)]
pub struct SendAttachment {
    pub content_type: String,
    pub name: Option<String>,
    /// base64 payload, or use `path` to read from disk.
    pub data_base64: Option<String>,
    pub path: Option<String>,
}

// ------------------------------------------------------------------ transport

/// The configuration leaves something to the data bearer: where traffic leaves from, or who resolves
/// names.
pub open spec fn wants_bearer(cfg: Mms) -> bool {
    cfg.interface.is_none() && cfg.local_ip.is_none() || cfg.dns@.len() == 0
}

pub fn needs_bearer(cfg: &Mms) -> (r: bool)
    ensures
        r == wants_bearer(*cfg),
{
    (cfg.interface.is_none() && cfg.local_ip.is_none()) || cfg.dns.len() == 0
}

fn copy_ips(v: &Vec<IpAddr>) -> (r: Vec<IpAddr>)
    ensures
        r@ == v@,
{
    let mut out: Vec<IpAddr> = Vec::new();
    let mut i: usize = 0;
    while i < v.len()
        invariant
            i <= v@.len(),
            out@ =~= v@.take(i as int),
        decreases v@.len() - i,
    {
        out.push(v[i]);
        i += 1;
    }
    assert(v@.take(i as int) =~= v@);
    out
}

/// Transport options for one request. When the configuration does not pin an interface or source
/// address, they are taken from the modem's connected data bearer - which is where MMS has to go, and
/// whose address changes on every attach.
pub fn http_options(cfg: &Mms, bearer: Option<&BearerNet>) -> (r: HttpOptions)
    ensures
        text::opt_text(r.proxy) == text::opt_text(cfg.proxy),
        r.timeout_secs == cfg.timeout_secs,
        r.user_agent@ == cfg.user_agent@,
        text::opt_text(r.ua_profile) == text::opt_text(cfg.ua_profile),
        r.max_size == cfg.max_size,
        match bearer {
            Some(b) => if cfg.interface.is_none() && cfg.local_ip.is_none() {
                text::opt_text(r.interface) == Some(b.interface@) && r.local_ip == b.address
            } else {
                text::opt_text(r.interface) == text::opt_text(cfg.interface) && r.local_ip
                    == cfg.local_ip
            },
            None => text::opt_text(r.interface) == text::opt_text(cfg.interface) && r.local_ip
                == cfg.local_ip,
        },
        r.dns_servers@ == match bearer {
            Some(b) => if cfg.dns@.len() == 0 {
                b.dns@
            } else {
                cfg.dns@
            },
            None => cfg.dns@,
        },
{
    let unbound = cfg.interface.is_none() && cfg.local_ip.is_none();
    let mut opts = HttpOptions {
        proxy: text::copy_option(&cfg.proxy),
        interface: text::copy_option(&cfg.interface),
        local_ip: cfg.local_ip,
        timeout_secs: cfg.timeout_secs,
        user_agent: text::owned(cfg.user_agent.as_str()),
        ua_profile: text::copy_option(&cfg.ua_profile),
        max_size: cfg.max_size,
        dns_servers: copy_ips(&cfg.dns),
    };
    if let Some(b) = bearer {
        if unbound {
            opts.interface = Some(text::owned(b.interface.as_str()));
            opts.local_ip = b.address;
        }
        if opts.dns_servers.len() == 0 {
            opts.dns_servers = copy_ips(&b.dns);
        }
    }
    opts
}

// ------------------------------------------------------------------ notifications

/// `chrono`'s `DateTime::from_timestamp(secs, 0)` in the local time zone, and the `local_minus_utc` of
/// its offset; none for a time that has no calendar date. Which offset it is depends on the time zone
/// of the machine and is left unstated.
#[verifier::external_body]
fn local_offset(secs: i64) -> (r: Option<i32>)
    ensures
        r.is_some() == db::has_date(secs as int),
        r matches Some(o) ==> db::is_offset(o as int),
{
    Some(
        chrono::DateTime::<chrono::Utc>::from_timestamp(secs, 0)?.with_timezone(
            &chrono::Local,
        ).offset().local_minus_utc(),
    )
}

/// `chrono`'s `DateTime::from_timestamp(secs, 0)` at the offset of `FixedOffset::east_opt`, and the
/// `to_rfc3339` of it: the text of this time at this offset, a date, a time and the offset; none for a
/// time that has no calendar date or an offset of a day or more.
#[verifier::external_body]
fn rfc3339_at(secs: i64, offset: i32) -> (r: Option<String>)
    ensures
        r.is_some() == (db::has_date(secs as int) && db::is_offset(offset as int)),
        r matches Some(t) ==> t@ == db::rfc3339_text(secs as int, 0, offset as int) && t@.len()
            >= 25,
{
    Some(
        chrono::DateTime::<chrono::Utc>::from_timestamp(secs, 0)?.with_timezone(
            &chrono::FixedOffset::east_opt(offset)?,
        ).to_rfc3339(),
    )
}

/// The text of a Unix time at an offset; empty for a time that has no date.
pub open spec fn iso_text(secs: int, offset: int) -> Seq<char> {
    if db::has_date(secs) {
        db::rfc3339_text(secs, 0, offset)
    } else {
        seq![]
    }
}

/// The text of a Unix time at an offset from UTC in seconds.
pub fn unix_to_iso_at(secs: u64, offset: i32) -> (r: String)
    requires
        db::is_offset(offset as int),
    ensures
        r@ == iso_text((secs as i64) as int, offset as int),
        db::has_date((secs as i64) as int) ==> r@.len() >= 25,
{
    match rfc3339_at(#[verifier::truncate] (secs as i64), offset) {
        Some(t) => t,
        None => String::new(),
    }
}

/// A text of a Unix time: of this time, at some offset.
pub open spec fn is_iso_of(t: Seq<char>, secs: int) -> bool {
    exists|offset: int| db::is_offset(offset) && t == #[trigger] iso_text(secs, offset)
}

/// The text of a Unix time in the time zone of the machine; empty for one that has no date.
pub fn unix_to_iso(secs: u64) -> (r: String)
    ensures
        is_iso_of(r@, (secs as i64) as int),
        db::has_date((secs as i64) as int) ==> r@.len() >= 25,
{
    let offset: i32 = match local_offset(#[verifier::truncate] (secs as i64)) {
        Some(o) => o,
        None => 0,
    };
    unix_to_iso_at(secs, offset)
}

/// Why a push is not an MMS that can be handled.
#[derive(Debug, Clone, Copy, PartialEq, Eq, Structural)]
pub enum PushFailure {
    Push(PushError),
    Pdu,
}

/// The notification in a push; none where it is not an MMS.
pub open spec fn notification_in(data: Seq<u8>) -> Result<Option<(pdu::Message, Seq<u8>)>, PushFailure> {
    match super::push_of(data) {
        Err(e) => Err(PushFailure::Push(e)),
        Ok((_, t, body)) => if !super::is_mms_type(t) {
            Ok(None)
        } else {
            match pdu::message_of(body) {
                Some(m) => Ok(Some((m, body))),
                None => Err(PushFailure::Pdu),
            }
        },
    }
}

/// Whom a notification is from: the sender it names, or the number of the SMS it came in, as it is
/// written where the line lives.
pub open spec fn peer_of(modem: ModemMatch, m: pdu::Message, number: Seq<char>) -> Seq<char> {
    state::national(
        match m.from {
            Some(a) => pdu::address_part(a),
            None => number,
        },
        text::opt_text(modem.country_code),
        modem.national_prefix@,
    )
}

/// What identifies a notification: its transaction, or its message.
pub open spec fn identity_of(m: pdu::Message) -> Option<Seq<char>> {
    match m.transaction_id {
        Some(t) => Some(t),
        None => m.message_id,
    }
}

/// The record of a notification.
pub open spec fn is_record(
    r: NewMessage,
    modem: ModemMatch,
    m: pdu::Message,
    number: Seq<char>,
    body: Seq<u8>,
) -> bool {
    &&& r.kind@ == "mms"@
    &&& r.direction == Direction::Incoming
    &&& r.peer@ == peer_of(modem, m, number)
    &&& r.own_number.is_none()
    &&& text::opt_text(r.subject) == m.subject
    &&& r.text.is_none()
    &&& match (r.timestamp, m.date) {
        (Some(t), Some(d)) => is_iso_of(t@, (d as i64) as int),
        (None, None) => true,
        _ => false,
    }
    &&& r.status@ == "notified"@
    &&& text::opt_text(r.external_id) == identity_of(m)
    &&& r.raw.is_some() && r.raw.unwrap()@ == body
}

/// Handle a binary SMS that looks like a WAP push: the notification, and the record to store of it.
pub fn handle_push(cfg: &Config, sms: &SmsInfo) -> (r: Result<
    Option<(MmsMessage, NewMessage)>,
    PushFailure,
>)
    requires
        wsp::decodable(sms.data@.len()),
    ensures
        match (r, notification_in(sms.data@)) {
            (Ok(Some((m, rec))), Ok(Some((n, body)))) => m@ == n && is_record(
                rec,
                cfg.modem,
                n,
                sms.number@,
                body,
            ),
            (Ok(None), Ok(None)) => true,
            (Err(e), Err(f)) => e == f,
            _ => false,
        },
{
    let push = match super::parse_wap_push(sms.data.as_slice()) {
        Ok(p) => p,
        Err(e) => {
            return Err(PushFailure::Push(e));
        },
    };
    if !super::is_mms_push(&push) {
        return Ok(None);
    }
    proof {
        super::lemma_push_body(sms.data@);
    }
    let m = match pdu::decode(push.body.as_slice()) {
        Ok(m) => m,
        Err(_) => {
            return Err(PushFailure::Pdu);
        },
    };
    let sender = match m.sender() {
        Some(s) => s,
        None => text::owned(sms.number.as_str()),
    };
    let peer = state::local_number(cfg, sender.as_str());
    let external_id = match &m.transaction_id {
        Some(t) => Some(text::owned(t.as_str())),
        None => text::copy_option(&m.message_id),
    };
    let record = NewMessage {
        kind: "mms",
        direction: Direction::Incoming,
        peer,
        own_number: None,
        subject: text::copy_option(&m.subject),
        text: None,
        timestamp: match m.date {
            Some(d) => Some(unix_to_iso(d)),
            None => None,
        },
        status: text::owned("notified"),
        external_id,
        raw: Some(push.body),
    };
    Ok(Some((m, record)))
}

/// What became of storing a notification.
#[derive(Debug, Clone, Copy, PartialEq, Eq, Structural)]
pub enum Stored {
    New,
    /// A copy was stored before; whether its body was never fetched.
    Known(db::Again),
}

/// What to do with a notification once it is stored.
#[derive(Debug)]
pub enum PushPlan {
    /// It is a duplicate.
    Ignore,
    /// MMS is disabled: note that on the record.
    Disabled,
    /// The body stays on the MMSC until it is asked for: tell it so, with this PDU at this URL, where
    /// both are known.
    Defer(Option<(String, Vec<u8>)>),
    Retrieve,
}

/// The M-NotifyResp.ind that answers a notification, and where it goes; none where the notification
/// has no transaction or no MMSC is configured.
///
/// Silence makes the carrier re-notify on a timer and then expire the message; telling it what
/// happened stops both. The status is 0x80 for expired, 0x81 retrieved, 0x82 rejected, 0x83 deferred
/// and 0x84 unrecognised.
pub fn notify_resp(cfg: &Mms, notification: &MmsMessage, status: u8) -> (r: Option<
    (String, Vec<u8>),
>)
    ensures
        match (r, notification@.transaction_id, cfg.mmsc) {
            (Some((url, bytes)), Some(tid), Some(mmsc)) => url@ == mmsc@ && bytes@
                == pdu::notify_resp_bytes(tid, status, false),
            (Some(_), _, _) => false,
            (None, Some(_), Some(_)) => false,
            (None, _, _) => true,
        },
{
    match (&notification.transaction_id, &cfg.mmsc) {
        (Some(tid), Some(mmsc)) => Some(
            (
                text::owned(mmsc.as_str()),
                pdu::encode_notify_resp_ind(tid.as_str(), status, false),
            ),
        ),
        _ => None,
    }
}

/// What to do with a notification once it is stored.
pub fn plan_push(cfg: &Mms, notification: &MmsMessage, stored: Stored) -> (r: PushPlan)
    ensures
        match r {
            PushPlan::Ignore => stored == Stored::Known(db::Again::Ignore),
            PushPlan::Disabled => stored != Stored::Known(db::Again::Ignore) && !cfg.enabled,
            PushPlan::Defer(reply) => stored != Stored::Known(db::Again::Ignore) && cfg.enabled
                && !cfg.auto_retrieve && match (reply, notification@.transaction_id, cfg.mmsc) {
                (Some((url, bytes)), Some(tid), Some(mmsc)) => url@ == mmsc@ && bytes@
                    == pdu::notify_resp_bytes(tid, 0x83, false),
                (Some(_), _, _) => false,
                (None, Some(_), Some(_)) => false,
                (None, _, _) => true,
            },
            PushPlan::Retrieve => stored != Stored::Known(db::Again::Ignore) && cfg.enabled
                && cfg.auto_retrieve,
        },
{
    if stored == Stored::Known(db::Again::Ignore) {
        PushPlan::Ignore
    } else if !cfg.enabled {
        PushPlan::Disabled
    } else if !cfg.auto_retrieve {
        PushPlan::Defer(notify_resp(cfg, notification, 0x83))
    } else {
        PushPlan::Retrieve
    }
}

// ------------------------------------------------------------------ retrieval

/// Why a message body was not retrieved.
#[derive(Debug, PartialEq, Eq)]
pub enum RetrieveError {
    Disabled,
    NoStoredNotification,
    NoLocation,
    TooLarge { size: u64 },
    Http { status: u16 },
    Undecodable,
    /// What came is no message: its type, what it called itself, and its length.
    NoContent { message_type: u8, content_type: Option<String>, length: usize },
    Refused { code: u8, text: Option<String> },
}

/// Where to fetch the body of a notification from.
pub fn retrieval_url(cfg: &Mms, notification: &MmsMessage) -> (r: Result<String, RetrieveError>)
    ensures
        match r {
            Ok(u) => notification@.content_location == Some(u@) && match notification@.message_size {
                Some(n) => n <= cfg.max_size,
                None => true,
            },
            Err(RetrieveError::NoLocation) => notification@.content_location.is_none(),
            Err(RetrieveError::TooLarge { size }) => notification@.content_location.is_some()
                && notification@.message_size == Some(size as nat) && size > cfg.max_size,
            Err(_) => false,
        },
{
    let url = match &notification.content_location {
        Some(u) => text::owned(u.as_str()),
        None => {
            return Err(RetrieveError::NoLocation);
        },
    };
    if let Some(size) = notification.message_size {
        if size > cfg.max_size as u64 {
            return Err(RetrieveError::TooLarge { size });
        }
    }
    Ok(url)
}

/// The status of a retrieval that succeeded, and of a submission that was accepted.
pub const STATUS_OK: u8 = 0x80;

/// A reply that carries a message. Not every MMSC labels its reply, so the absence of the header
/// alone is not fatal - but a captive portal or error page decodes to no parts at all, and that is
/// what has to be caught.
pub open spec fn carries_message(m: pdu::Message) -> bool {
    m.message_type == msg_type::RETRIEVE_CONF || m.parts.len() > 0
}

/// The refusal that a message states.
pub open spec fn refusal_in(m: pdu::Message) -> Option<u8> {
    match m.retrieve_status {
        Some(s) => if s != STATUS_OK {
            Some(s)
        } else {
            None
        },
        None => None,
    }
}

/// The message in a reply of the MMSC.
///
/// A 200 with an error page or an unsupported-content status decodes into an empty message. Storing
/// that as "received" and then acknowledging it makes the MMSC drop the real message for good, so
/// both are checked before anything is written.
pub fn retrieve(resp: &HttpResponse) -> (r: Result<MmsMessage, RetrieveError>)
    requires
        wsp::decodable(resp.body@.len()),
    ensures
        match r {
            Ok(m) => resp.status == 200 && pdu::message_of(resp@.body) == Some(m@)
                && carries_message(m@) && refusal_in(m@).is_none(),
            Err(RetrieveError::Http { status }) => status == resp.status && status != 200,
            Err(RetrieveError::Undecodable) => resp.status == 200 && pdu::message_of(
                resp@.body,
            ).is_none(),
            Err(RetrieveError::NoContent { message_type, content_type, length }) => {
                &&& resp.status == 200
                &&& pdu::message_of(resp@.body) matches Some(m) && !carries_message(m)
                    && message_type == m.message_type
                &&& text::opt_text(content_type) == crate::http_head::field_value(
                    resp@.headers,
                    "content-type"@,
                )
                &&& length == resp@.body.len()
            },
            Err(RetrieveError::Refused { code, text: t }) => resp.status == 200 && (
            pdu::message_of(resp@.body) matches Some(m) && carries_message(m) && refusal_in(m)
                == Some(code) && text::opt_text(t) == m.response_text),
            Err(_) => false,
        },
{
    if resp.status != 200 {
        return Err(RetrieveError::Http { status: resp.status });
    }
    let m = match pdu::decode(resp.body.as_slice()) {
        Ok(m) => m,
        Err(_) => {
            return Err(RetrieveError::Undecodable);
        },
    };
    if m.message_type != msg_type::RETRIEVE_CONF && m.parts.len() == 0 {
        return Err(
            RetrieveError::NoContent {
                message_type: m.message_type,
                content_type: match resp.content_type() {
                    Some(t) => Some(text::owned(t)),
                    None => None,
                },
                length: resp.body.len(),
            },
        );
    }
    assert(m@.parts.len() == m.parts@.len());
    if let Some(s) = m.retrieve_status {
        if s != STATUS_OK {
            return Err(
                RetrieveError::Refused { code: s, text: text::copy_option(&m.response_text) },
            );
        }
    }
    Ok(m)
}

/// The M-Acknowledge.ind for a message that was stored, and where it goes; none where no transaction
/// or no MMSC is known.
pub fn acknowledgement(cfg: &Mms, notification: &MmsMessage, message: &MmsMessage) -> (r: Option<
    (String, Vec<u8>),
>)
    ensures
        ({
            let tid = match message@.transaction_id {
                Some(t) => Some(t),
                None => notification@.transaction_id,
            };
            match (r, tid, cfg.mmsc) {
                (Some((url, bytes)), Some(t), Some(mmsc)) => url@ == mmsc@ && bytes@
                    == pdu::acknowledge_bytes(t, false),
                (Some(_), _, _) => false,
                (None, Some(_), Some(_)) => false,
                (None, _, _) => true,
            }
        }),
{
    let tid = match &message.transaction_id {
        Some(t) => Some(t.as_str()),
        None => match &notification.transaction_id {
            Some(t) => Some(t.as_str()),
            None => None,
        },
    };
    match (tid, &cfg.mmsc) {
        (Some(t), Some(mmsc)) => Some(
            (text::owned(mmsc.as_str()), pdu::encode_acknowledge_ind(t, false)),
        ),
        _ => None,
    }
}

/// The places of the parts that are stored: all but the presentation.
pub open spec fn stored_places(parts: Seq<pdu::Part>) -> Seq<int>
    decreases parts.len(),
{
    if parts.len() == 0 {
        seq![]
    } else if pdu::is_smil_type(parts.last().content_type) {
        stored_places(parts.drop_last())
    } else {
        stored_places(parts.drop_last()).push(parts.len() - 1)
    }
}

/// The places of the parts that are stored. Those of a retrieved message are numbered from one in
/// this order; those of a sent one by their place.
pub fn parts_to_store(parts: &Vec<MmsPart>) -> (r: Vec<usize>)
    ensures
        r@.len() == stored_places(pdu::part_views(parts@)).len(),
        forall|i: int|
            0 <= i < r@.len() ==> #[trigger] r@[i] == stored_places(pdu::part_views(parts@))[i]
                && r@[i] < parts@.len(),
{
    let ghost all = pdu::part_views(parts@);
    let mut out: Vec<usize> = Vec::new();
    let mut i: usize = 0;
    while i < parts.len()
        invariant
            i <= parts@.len(),
            all == pdu::part_views(parts@),
            out@.len() == stored_places(all.take(i as int)).len(),
            forall|k: int|
                0 <= k < out@.len() ==> #[trigger] out@[k] == stored_places(all.take(i as int))[k]
                    && out@[k] < i,
        decreases parts@.len() - i,
    {
        assert(all.take(i + 1).drop_last() =~= all.take(i as int));
        assert(all.take(i + 1).last() == parts@[i as int]@);
        let c = text::chars_of(parts[i].content_type.as_str());
        if !text::contains_text(c.as_slice(), "smil") {
            out.push(i);
        }
        i += 1;
    }
    assert(all.take(i as int) =~= all);
    out
}

// ------------------------------------------------------------------ submission

/// The value of a base64 symbol.
pub open spec fn symbol(b: u8) -> Option<nat> {
    if 0x41 <= b <= 0x5a {
        Some((b - 0x41) as nat)
    } else if 0x61 <= b <= 0x7a {
        Some((b - 0x61 + 26) as nat)
    } else if 0x30 <= b <= 0x39 {
        Some((b - 0x30 + 52) as nat)
    } else if b == 0x2b {
        Some(62)
    } else if b == 0x2f {
        Some(63)
    } else {
        None
    }
}

/// The bytes of the last four symbols, the end of which may be padding. The digits that padding
/// leaves over must be zero.
pub open spec fn last_quad(s: Seq<u8>) -> Option<Seq<u8>> {
    match (symbol(s[0]), symbol(s[1]), symbol(s[2]), symbol(s[3])) {
        (Some(a), Some(b), Some(c), Some(d)) => Some(
            seq![(a * 4 + b / 16) as u8, (b % 16 * 16 + c / 4) as u8, (c % 4 * 64 + d) as u8],
        ),
        (Some(a), Some(b), Some(c), None) => if s[3] == 0x3d && c % 4 == 0 {
            Some(seq![(a * 4 + b / 16) as u8, (b % 16 * 16 + c / 4) as u8])
        } else {
            None
        },
        (Some(a), Some(b), None, None) => if s[2] == 0x3d && s[3] == 0x3d && b % 16 == 0 {
            Some(seq![(a * 4 + b / 16) as u8])
        } else {
            None
        },
        _ => None,
    }
}

/// The bytes of base64 text: four symbols to three bytes, padded at the end.
pub open spec fn base64_bytes(s: Seq<u8>) -> Option<Seq<u8>>
    decreases s.len(),
{
    if s.len() == 0 {
        Some(seq![])
    } else if s.len() < 4 {
        None
    } else if s.len() == 4 {
        last_quad(s)
    } else {
        match (last_quad(s.take(4)), base64_bytes(s.skip(4))) {
            (Some(a), Some(b)) => if a.len() == 3 {
                Some(a + b)
            } else {
                None
            },
            _ => None,
        }
    }
}

/// `base64`'s `STANDARD.decode`: the bytes of text in the standard alphabet with its padding, or none
/// where it is not such text.
#[verifier::external_body]
fn decode_base64(t: &str) -> (r: Option<Vec<u8>>)
    ensures
        match r {
            Some(b) => base64_bytes(encode_utf8(t@)) == Some(b@),
            None => base64_bytes(encode_utf8(t@)).is_none(),
        },
{
    base64::Engine::decode(&base64::engine::general_purpose::STANDARD, t).ok()
}

/// Where the data of an attachment comes from.
#[derive(Debug)]
pub enum Load {
    Bytes(Vec<u8>),
    /// It is read from this file.
    File(String),
    BadBase64,
    /// It needs either `data_base64` or `path`.
    Missing,
}

pub fn load_attachment(att: &SendAttachment) -> (r: Load)
    ensures
        match att.data_base64 {
            Some(t) => match (r, base64_bytes(encode_utf8(text::trim(t@)))) {
                (Load::Bytes(b), Some(bytes)) => b@ == bytes,
                (Load::BadBase64, None) => true,
                _ => false,
            },
            None => match (r, att.path) {
                (Load::File(f), Some(p)) => f@ == p@,
                (Load::Missing, None) => true,
                _ => false,
            },
        },
{
    if let Some(t) = &att.data_base64 {
        let c = text::chars_of(t.as_str());
        let trimmed = text::string_of(text::trimmed(c.as_slice()));
        return match decode_base64(trimmed.as_str()) {
            Some(b) => Load::Bytes(b),
            None => Load::BadBase64,
        };
    }
    match &att.path {
        Some(p) => Load::File(text::owned(p.as_str())),
        None => Load::Missing,
    }
}

/// Why an MMS is not submitted.
#[derive(Debug, PartialEq, Eq)]
pub enum SendError {
    Disabled,
    NoMmsc,
    NoRecipient,
    NoContent,
    TooLarge { total: usize },
    Rejected { reason: String },
    Http { status: u16 },
}

/// Where a request is submitted to.
pub fn check_request(cfg: &Mms, req: &SendRequest) -> (r: Result<String, SendError>)
    ensures
        match r {
            Ok(u) => cfg.enabled && cfg.mmsc.is_some() && u@ == cfg.mmsc.unwrap()@ && req.to@.len()
                > 0,
            Err(SendError::Disabled) => !cfg.enabled,
            Err(SendError::NoMmsc) => cfg.enabled && cfg.mmsc.is_none(),
            Err(SendError::NoRecipient) => cfg.enabled && cfg.mmsc.is_some() && req.to@.len() == 0,
            Err(_) => false,
        },
{
    if !cfg.enabled {
        return Err(SendError::Disabled);
    }
    let mmsc = match &cfg.mmsc {
        Some(m) => text::owned(m.as_str()),
        None => {
            return Err(SendError::NoMmsc);
        },
    };
    if req.to.len() == 0 {
        return Err(SendError::NoRecipient);
    }
    Ok(mmsc)
}

/// The part of a text.
pub open spec fn text_part(t: Seq<char>) -> pdu::Part {
    pdu::Part {
        content_id: Some("text0"@),
        params: seq![("name"@, "text0.txt"@)],
        ..pdu::plain_part("text/plain"@, encode_utf8(t))
    }
}

/// The part of an attachment.
pub open spec fn attached_part(att: SendAttachment, i: nat, data: Seq<u8>) -> pdu::Part {
    pdu::Part {
        content_id: Some("part"@ + text::dec(i)),
        params: match att.name {
            Some(n) => seq![("name"@, n@)],
            None => seq![],
        },
        ..pdu::plain_part(att.content_type@, data)
    }
}

/// The parts of the first attachments.
pub open spec fn attached_parts(
    atts: Seq<SendAttachment>,
    data: Seq<Vec<u8>>,
    n: nat,
) -> Seq<pdu::Part>
    decreases n,
{
    if n == 0 {
        seq![]
    } else {
        attached_parts(atts, data, (n - 1) as nat).push(
            attached_part(atts[n - 1], (n - 1) as nat, data[n - 1]@),
        )
    }
}

/// The content of a message: the text, unless it is empty, then the attachments.
pub open spec fn content_parts(req: SendRequest, data: Seq<Vec<u8>>) -> Seq<pdu::Part> {
    let first = match req.text {
        Some(t) => if t@.len() > 0 {
            seq![text_part(t@)]
        } else {
            seq![]
        },
        None => seq![],
    };
    first + attached_parts(req.attachments@, data, req.attachments@.len())
}

/// The presentation of several parts.
pub open spec fn smil_part(content: Seq<pdu::Part>) -> pdu::Part {
    pdu::Part {
        content_id: Some("smil"@),
        params: seq![("name"@, "presentation.smil"@)],
        ..pdu::plain_part("application/smil"@, encode_utf8(pdu::smil_text(content)))
    }
}

/// The parts of a message: the presentation first, where there are several.
pub open spec fn message_parts(req: SendRequest, data: Seq<Vec<u8>>) -> Seq<pdu::Part> {
    let content = content_parts(req, data);
    if content.len() > 1 {
        seq![smil_part(content)] + content
    } else {
        content
    }
}

pub open spec fn total_size(parts: Seq<pdu::Part>) -> nat
    decreases parts.len(),
{
    if parts.len() == 0 {
        0
    } else {
        total_size(parts.drop_last()) + parts.last().data.len()
    }
}

fn named(name: &str) -> (r: Vec<(String, String)>)
    ensures
        text::pairs(r@) == seq![("name"@, name@)],
{
    let mut v: Vec<(String, String)> = Vec::new();
    v.push((text::owned("name"), text::owned(name)));
    assert(text::pairs(v@) =~= seq![("name"@, name@)]);
    v
}

fn utf8_bytes(s: &str) -> (r: Vec<u8>)
    ensures
        r@ == encode_utf8(s@),
{
    vstd::slice::slice_to_vec(s.as_bytes())
}

fn content_of(req: &SendRequest, data: Vec<Vec<u8>>) -> (r: Vec<MmsPart>)
    requires
        data@.len() == req.attachments@.len(),
    ensures
        pdu::part_views(r@) == content_parts(*req, data@),
{
    let ghost all = data@;
    let mut out: Vec<MmsPart> = Vec::new();
    if let Some(t) = &req.text {
        if text::chars_of(t.as_str()).len() > 0 {
            let mut p = MmsPart::new("text/plain", utf8_bytes(t.as_str()));
            p.content_id = Some(text::owned("text0"));
            p.params = named("text0.txt");
            assert(p@ =~= text_part(t@));
            out.push(p);
        }
    }
    let ghost first = pdu::part_views(out@);
    assert(first =~= match req.text {
        Some(t) => if t@.len() > 0 {
            seq![text_part(t@)]
        } else {
            seq![]
        },
        None => seq![],
    });
    let mut i: usize = 0;
    assert(first + attached_parts(req.attachments@, all, 0) =~= first);
    while i < req.attachments.len()
        invariant
            i <= req.attachments@.len(),
            all == data@,
            all.len() == req.attachments@.len(),
            pdu::part_views(out@) == first + attached_parts(req.attachments@, all, i as nat),
        decreases req.attachments@.len() - i,
    {
        let att = &req.attachments[i];
        let bytes = vstd::slice::slice_to_vec(data[i].as_slice());
        let mut p = MmsPart::new(att.content_type.as_str(), bytes);
        let mut id = text::owned("part");
        text::push_dec(&mut id, i as u64);
        p.content_id = Some(id);
        if let Some(n) = &att.name {
            p.params = named(n.as_str());
        }
        assert(p@ =~= attached_part(*att, i as nat, all[i as int]@));
        let ghost so_far = pdu::part_views(out@);
        let ghost v = p@;
        out.push(p);
        assert(pdu::part_views(out@) =~= so_far.push(v));
        assert(pdu::part_views(out@) =~= first + attached_parts(
            req.attachments@,
            all,
            (i + 1) as nat,
        ));
        i += 1;
    }
    out
}

fn size_within(parts: &Vec<MmsPart>, limit: usize) -> (r: Result<(), usize>)
    ensures
        match r {
            Ok(_) => total_size(pdu::part_views(parts@)) <= limit,
            Err(n) => total_size(pdu::part_views(parts@)) > limit && n == (if total_size(
                pdu::part_views(parts@),
            ) > usize::MAX {
                usize::MAX as nat
            } else {
                total_size(pdu::part_views(parts@))
            }),
        },
{
    let ghost all = pdu::part_views(parts@);
    let mut total: u128 = 0;
    let mut i: usize = 0;
    while i < parts.len()
        invariant
            i <= parts@.len(),
            all == pdu::part_views(parts@),
            total == total_size(all.take(i as int)),
            total <= i * 0xffff_ffff_ffff_ffff,
        decreases parts@.len() - i,
    {
        assert(all.take(i + 1).drop_last() =~= all.take(i as int));
        assert(all.take(i + 1).last() == parts@[i as int]@);
        assert(i * 0xffff_ffff_ffff_ffff + 0xffff_ffff_ffff_ffff
            <= 0xffff_ffff_ffff_ffff_ffff_ffff_ffff_ffff) by (nonlinear_arith)
            requires
                i <= 0xffff_ffff_ffff_fffe,
        ;
        let n = parts[i].data.len();
        total = total + n as u128;
        i += 1;
    }
    assert(all.take(i as int) =~= all);
    if total > limit as u128 {
        Err(
            if total > usize::MAX as u128 {
                usize::MAX
            } else {
                total as usize
            },
        )
    } else {
        Ok(())
    }
}

/// The parts of a message, given the data of its attachments.
pub fn build_parts(cfg: &Mms, req: &SendRequest, data: Vec<Vec<u8>>) -> (r: Result<
    Vec<MmsPart>,
    SendError,
>)
    requires
        data@.len() == req.attachments@.len(),
    ensures
        match r {
            Ok(p) => pdu::part_views(p@) == message_parts(*req, data@) && content_parts(
                *req,
                data@,
            ).len() > 0 && total_size(message_parts(*req, data@)) <= cfg.max_size,
            Err(SendError::NoContent) => content_parts(*req, data@).len() == 0,
            Err(SendError::TooLarge { total }) => content_parts(*req, data@).len() > 0 && total_size(
                message_parts(*req, data@),
            ) > cfg.max_size && total == (if total_size(message_parts(*req, data@)) > usize::MAX {
                usize::MAX as nat
            } else {
                total_size(message_parts(*req, data@))
            }),
            Err(_) => false,
        },
{
    let ghost bytes = data@;
    let content = content_of(req, data);
    assert(pdu::part_views(content@).len() == content@.len());
    if content.len() == 0 {
        return Err(SendError::NoContent);
    }
    let ghost c = pdu::part_views(content@);
    let mut parts: Vec<MmsPart> = content;
    if parts.len() > 1 {
        let smil = pdu::build_smil(parts.as_slice());
        let mut p = MmsPart::new("application/smil", utf8_bytes(smil.as_str()));
        p.content_id = Some(text::owned("smil"));
        p.params = named("presentation.smil");
        assert(p@ =~= smil_part(c));
        let ghost v = p@;
        parts.insert(0, p);
        assert(pdu::part_views(parts@) =~= seq![v] + c);
    }
    match size_within(&parts, cfg.max_size) {
        Ok(_) => Ok(parts),
        Err(total) => Err(SendError::TooLarge { total }),
    }
}

/// The M-Send.req of a message, and the record to store of it, under a transaction. The sender is
/// left to the MMSC, which fills in our number.
pub fn submit_with(req: &SendRequest, parts: &Vec<MmsPart>, tid: &str) -> (r: (Vec<u8>, NewMessage))
    ensures
        r.0@ == pdu::send_header_bytes(
            tid@,
            None,
            text::texts(req.to@),
            text::opt_text(req.subject),
            false,
            false,
        ) + pdu::send_body_bytes(pdu::part_views(parts@)),
        r.1.kind@ == "mms"@,
        r.1.direction == Direction::Outgoing,
        r.1.peer@ == text::join(text::texts(req.to@), ","@),
        r.1.own_number.is_none() && r.1.timestamp.is_none() && r.1.raw.is_none(),
        text::opt_text(r.1.subject) == text::opt_text(req.subject),
        text::opt_text(r.1.text) == text::opt_text(req.text),
        r.1.status@ == "sending"@,
        text::opt_text(r.1.external_id) == Some(tid@),
{
    let subject = match &req.subject {
        Some(s) => Some(s.as_str()),
        None => None,
    };
    let payload = pdu::encode_send_req(
        &SendReq {
            transaction_id: tid,
            from: None,
            to: req.to.as_slice(),
            subject,
            parts: parts.as_slice(),
            delivery_report: false,
            read_report: false,
        },
    );
    let record = NewMessage {
        kind: "mms",
        direction: Direction::Outgoing,
        peer: text::joined(req.to.as_slice(), ","),
        own_number: None,
        subject: text::copy_option(&req.subject),
        text: text::copy_option(&req.text),
        timestamp: None,
        status: text::owned("sending"),
        external_id: Some(text::owned(tid)),
        raw: None,
    };
    (payload, record)
}

pub open spec fn transaction_text(digits: Seq<char>) -> Seq<char> {
    "T"@ + digits
}

/// A transaction of our own: a `T` and random digits.
pub fn new_transaction() -> (r: String)
    ensures
        exists|h: Seq<char>| auth::is_hex_text(h, 6) && r@ == #[trigger] transaction_text(h),
{
    let h = auth::random_hex(6);
    let mut out = text::owned("T");
    out.append(h.as_str());
    assert(out@ == transaction_text(h@));
    out
}

/// The status that an M-Send.conf states. No status at all means the MMSC told us nothing beyond the
/// 200, so the submission is taken at face value; an explicit other status is a refusal.
pub open spec fn response_in(body: Seq<u8>) -> u8 {
    match pdu::message_of(body) {
        Some(m) => match m.response_status {
            Some(s) => s,
            None => STATUS_OK,
        },
        None => STATUS_OK,
    }
}

/// Why the MMSC refused, in its own words if it has any.
pub open spec fn rejection_text(body: Seq<u8>) -> Seq<char> {
    match pdu::message_of(body) {
        Some(m) => match m.response_text {
            Some(t) => t,
            None => "response status 0x"@ + text::hex_fixed(response_in(body) as nat, 2),
        },
        None => "response status 0x"@ + text::hex_fixed(response_in(body) as nat, 2),
    }
}

/// Whether the MMSC accepted a message.
pub fn confirm(resp: &HttpResponse) -> (r: Result<(), SendError>)
    requires
        wsp::decodable(resp.body@.len()),
    ensures
        match r {
            Ok(_) => resp.status == 200 && response_in(resp@.body) == STATUS_OK,
            Err(SendError::Http { status }) => status == resp.status && status != 200,
            Err(SendError::Rejected { reason }) => resp.status == 200 && response_in(resp@.body)
                != STATUS_OK && reason@ == rejection_text(resp@.body),
            Err(_) => false,
        },
{
    if resp.status != 200 {
        return Err(SendError::Http { status: resp.status });
    }
    match pdu::decode(resp.body.as_slice()) {
        Ok(m) => {
            let status = match m.response_status {
                Some(s) => s,
                None => STATUS_OK,
            };
            if status == STATUS_OK {
                return Ok(());
            }
            let reason = match m.response_text {
                Some(t) => t,
                None => {
                    let mut out = text::owned("response status 0x");
                    auth::push_hex_fixed(&mut out, status as u32, 2);
                    out
                },
            };
            Err(SendError::Rejected { reason })
        },
        Err(_) => Ok(()),
    }
}

} // verus!
